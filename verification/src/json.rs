//! JSON values as the library holds them, and their parser.
use crate::hash;
use crate::text;
use vstd::prelude::*;

verus! {

/// A JSON value. A number is kept as its text. The keys of an object that
/// was parsed stand in increasing order.
#[derive(Debug)]
pub enum Json {
    Null,
    Bool(bool),
    Num(String),
    Str(String),
    Arr(Vec<Json>),
    Obj(Vec<Member>),
}

/// One entry of an object.
#[derive(Debug)]
pub struct Member {
    pub key: String,
    pub value: Json,
}

/// The mathematical value of a [`Json`].
pub enum JsonView {
    Null,
    Bool(bool),
    Num(Seq<char>),
    Str(Seq<char>),
    Arr(Seq<JsonView>),
    Obj(Seq<MemberView>),
}

pub struct MemberView {
    pub key: Seq<char>,
    pub value: JsonView,
}

impl View for Json {
    type V = JsonView;

    open spec fn view(&self) -> JsonView
        decreases self,
    {
        match *self {
            Json::Null => JsonView::Null,
            Json::Bool(b) => JsonView::Bool(b),
            Json::Num(s) => JsonView::Num(s@),
            Json::Str(s) => JsonView::Str(s@),
            Json::Arr(v) => JsonView::Arr(
                Seq::new(
                    v@.len(),
                    |i: int|
                        if 0 <= i < v@.len() {
                            v@[i].view()
                        } else {
                            JsonView::Null
                        },
                ),
            ),
            Json::Obj(v) => JsonView::Obj(
                Seq::new(
                    v@.len(),
                    |i: int|
                        if 0 <= i < v@.len() {
                            MemberView { key: v@[i].key@, value: v@[i].value.view() }
                        } else {
                            MemberView { key: seq![], value: JsonView::Null }
                        },
                ),
            ),
        }
    }
}


/// The value under the first key `k` of an entry list.
pub open spec fn entry(m: Seq<MemberView>, k: Seq<char>) -> Option<JsonView>
    decreases m.len(),
{
    if m.len() == 0 {
        None
    } else if m[0].key == k {
        Some(m[0].value)
    } else {
        entry(m.drop_first(), k)
    }
}

/// The value under a key of an object; any other value has no keys.
pub open spec fn field(j: JsonView, k: Seq<char>) -> Option<JsonView> {
    match j {
        JsonView::Obj(m) => entry(m, k),
        _ => None,
    }
}

/// The text of a string value.
pub open spec fn string(j: Option<JsonView>) -> Option<Seq<char>> {
    match j {
        Some(JsonView::Str(s)) => Some(s),
        _ => None,
    }
}

/// The string under a key of an object.
pub open spec fn field_str(j: JsonView, k: Seq<char>) -> Option<Seq<char>> {
    string(field(j, k))
}

/// The value of a number written without sign, fraction or exponent.
pub open spec fn whole(j: JsonView) -> Option<nat> {
    match j {
        JsonView::Num(s) => if s.len() > 0 && s[0] != '+' {
            text::unsigned_upto(s, 10, u64::MAX as nat)
        } else {
            None
        },
        _ => None,
    }
}

pub open spec fn member(m: Member) -> MemberView {
    MemberView { key: m.key@, value: m.value@ }
}

proof fn obj_view(j: Json, m: Vec<Member>)
    requires
        j == Json::Obj(m),
    ensures
        j@ == JsonView::Obj(Seq::new(m@.len(), |i: int| member(m@[i]))),
{
    let d = j@->Obj_0;
    assert(d.len() == m@.len());
    assert forall|i: int| 0 <= i < m@.len() implies #[trigger] d[i] == member(m@[i]) by {
        assert(d[i].key == m@[i].key@);
        assert(d[i].value == m@[i].value@);
    }
    assert(d =~= Seq::new(m@.len(), |i: int| member(m@[i])));
}

/// The value of a number written without fraction or exponent, where an
/// `i64` holds it.
pub open spec fn integer(j: JsonView) -> Option<int> {
    match j {
        JsonView::Num(s) => if s.len() == 0 || s[0] == '+' {
            None
        } else if s[0] == '-' {
            if s.len() == 1 || s[1] == '+' {
                None
            } else {
                match text::unsigned_upto(s.drop_first(), 10, 0x8000000000000000) {
                    Some(n) => Some(-(n as int)),
                    None => None,
                }
            }
        } else {
            match text::unsigned_upto(s, 10, i64::MAX as nat) {
                Some(n) => Some(n as int),
                None => None,
            }
        },
        _ => None,
    }
}

/// An array's value is its items' values.
pub proof fn items_view(j: Json, v: Vec<Json>)
    requires
        j == Json::Arr(v),
    ensures
        j@ == JsonView::Arr(v@.map_values(|x: Json| x@)),
{
    let d = j@->Arr_0;
    assert(d.len() == v@.len());
    assert forall|i: int| 0 <= i < v@.len() implies #[trigger] d[i] == v@[i]@ by {}
    assert(d =~= v@.map_values(|x: Json| x@));
}

impl Json {
    /// The value under a key of an object.
    pub fn get(&self, k: &str) -> (r: Option<&Json>)
        ensures
            match r {
                Some(v) => field(self@, k@) == Some(v@),
                None => field(self@, k@) is None,
            },
    {
        match self {
            Json::Obj(m) => {
                let ghost d = Seq::new(m@.len(), |i: int| member(m@[i]));
                proof {
                    obj_view(*self, *m);
                }
                let mut i: usize = 0;
                assert(d.skip(0) =~= d);
                while i < m.len()
                    invariant
                        self@ == JsonView::Obj(d),
                        d == Seq::new(m@.len(), |i: int| member(m@[i])),
                        i <= m@.len(),
                        entry(d, k@) == entry(d.skip(i as int), k@),
                    decreases m.len() - i,
                {
                    assert(d.skip(i as int).drop_first() =~= d.skip(i + 1));
                    assert(d.skip(i as int)[0] == member(m@[i as int]));
                    if text::eq(m[i].key.as_str(), k) {
                        return Some(&m[i].value);
                    }
                    i = i + 1;
                }
                None
            },
            _ => None,
        }
    }

    /// The text of a string value.
    pub fn as_str(&self) -> (r: Option<&str>)
        ensures
            r.deep_view() == string(Some(self@)),
    {
        match self {
            Json::Str(s) => Some(s.as_str()),
            _ => None,
        }
    }

    /// The string under a key of an object.
    pub fn get_str(&self, k: &str) -> (r: Option<&str>)
        ensures
            r.deep_view() == field_str(self@, k@),
    {
        match self.get(k) {
            Some(v) => v.as_str(),
            None => None,
        }
    }

    /// The items of an array.
    pub fn as_arr(&self) -> (r: Option<&Vec<Json>>)
        ensures
            match r {
                Some(v) => self@ is Arr && self@->Arr_0.len() == v@.len() && forall|i: int|
                    0 <= i < v@.len() ==> #[trigger] self@->Arr_0[i] == v@[i]@,
                None => !(self@ is Arr),
            },
    {
        match self {
            Json::Arr(v) => Some(v),
            _ => None,
        }
    }

    /// The value of a number without sign, fraction or exponent.
    pub fn as_u64(&self) -> (r: Option<u64>)
        ensures
            match r {
                Some(n) => whole(self@) == Some(n as nat),
                None => whole(self@) is None,
            },
    {
        match self {
            Json::Num(s) => {
                if s.as_str().unicode_len() > 0 && s.as_str().get_char(0) != '+' {
                    text::parse_unsigned(s.as_str(), 10, u64::MAX)
                } else {
                    None
                }
            },
            _ => None,
        }
    }

    /// The value of a number without fraction or exponent, where it fits.
    pub fn as_i64(&self) -> (r: Option<i64>)
        ensures
            match r {
                Some(n) => integer(self@) == Some(n as int),
                None => integer(self@) is None,
            },
    {
        let s = match self {
            Json::Num(s) => s.as_str(),
            _ => {
                return None;
            },
        };
        if s.unicode_len() == 0 || s.get_char(0) == '+' {
            return None;
        }
        if s.get_char(0) == '-' {
            if s.unicode_len() == 1 || s.get_char(1) == '+' {
                return None;
            }
            let t = text::tail(s, 1);
            assert(t@ =~= s@.drop_first());
            match text::parse_unsigned(t.as_str(), 10, 0x8000000000000000) {
                Some(n) => if n == 0x8000000000000000 {
                    Some(i64::MIN)
                } else {
                    Some(-(n as i64))
                },
                None => None,
            }
        } else {
            match text::parse_unsigned(s, 10, i64::MAX as u64) {
                Some(n) => Some(n as i64),
                None => None,
            }
        }
    }

    /// The value of a boolean.
    pub fn as_bool(&self) -> (r: Option<bool>)
        ensures
            r == match self@ {
                JsonView::Bool(b) => Some(b),
                _ => None,
            },
    {
        match self {
            Json::Bool(b) => Some(*b),
            _ => None,
        }
    }

    pub fn is_str(&self) -> (r: bool)
        ensures
            r == (self@ is Str),
    {
        matches!(self, Json::Str(_))
    }

    pub fn is_num(&self) -> (r: bool)
        ensures
            r == (self@ is Num),
    {
        matches!(self, Json::Num(_))
    }

    pub fn is_obj(&self) -> (r: bool)
        ensures
            r == (self@ is Obj),
    {
        matches!(self, Json::Obj(_))
    }

    pub fn is_null(&self) -> (r: bool)
        ensures
            r == (self@ is Null),
    {
        matches!(self, Json::Null)
    }
}

// ---------- the parser ----------

/// A value of `serde_json`, carried from the parser to [`value_of`].
#[verifier::external_type_specification]
#[verifier::external_body]
pub struct ExValue(serde_json::Value);

/// How deep arrays and objects may nest in a text that is parsed.
pub const DEPTH_LIMIT: u8 = 127;

/// What a `serde_json` value holds.
pub uninterp spec fn contents(v: serde_json::Value) -> JsonView;

/// The JSON value that a text writes, as `serde_json::from_str` reads it,
/// or the words of its error.
pub uninterp spec fn parsed(text: Seq<char>) -> Result<JsonView, Seq<char>>;

/// A value that comes back from its text: its numbers are decimal, without
/// a sign, and fit 64 bits, an object's keys increase, and it nests no
/// deeper than `depth`.
pub open spec fn plain(j: JsonView, depth: nat) -> bool
    decreases j,
{
    match j {
        JsonView::Null => true,
        JsonView::Bool(_) => true,
        JsonView::Num(s) => exists|n: nat| n <= u64::MAX && s == #[trigger] text::dec(n),
        JsonView::Str(_) => true,
        JsonView::Arr(v) => depth > 0 && forall|i: int|
            0 <= i < v.len() ==> plain(#[trigger] v[i], (depth - 1) as nat),
        JsonView::Obj(m) => {
            &&& depth > 0
            &&& forall|i: int, k: int|
                0 <= i < k < m.len() ==> text::lt((#[trigger] m[i]).key, (#[trigger] m[k]).key)
            &&& forall|i: int|
                0 <= i < m.len() ==> plain((#[trigger] m[i]).value, (depth - 1) as nat)
        },
    }
}

/// Parses a text with `serde_json::from_str` into a `serde_json::Value`,
/// or gives its error's words. The compact text of a plain value that
/// nests no deeper than the parser's limit gives back that value.
#[verifier::external_body]
fn from_str(text: &str) -> (r: Result<serde_json::Value, String>)
    ensures
        match r {
            Ok(v) => parsed(text@) == Ok::<JsonView, Seq<char>>(contents(v)),
            Err(e) => parsed(text@) == Err::<JsonView, Seq<char>>(e@),
        },
        forall|j: JsonView|
            text@ == #[trigger] printed(j) && plain(j, DEPTH_LIMIT as nat) ==> r is Ok && contents(
                r->Ok_0,
            ) == j,
{
    serde_json::from_str(text).map_err(|e| e.to_string())
}

/// The same value in the library's own type: `serde_json::Value` variant
/// for variant, a number as the text it prints as.
#[verifier::external_body]
fn value_of(v: serde_json::Value) -> (r: Json)
    ensures
        r@ == contents(v),
{
    match v {
        serde_json::Value::Null => Json::Null,
        serde_json::Value::Bool(b) => Json::Bool(b),
        serde_json::Value::Number(n) => Json::Num(n.to_string()),
        serde_json::Value::String(s) => Json::Str(s),
        serde_json::Value::Array(a) => Json::Arr(a.into_iter().map(value_of).collect()),
        serde_json::Value::Object(m) => Json::Obj(
            m.into_iter().map(|(key, x)| Member { key, value: value_of(x) }).collect(),
        ),
    }
}

/// The JSON value that a text writes. The text that [`print`] gives for a
/// plain value reads back as that value.
pub fn parse(text: &str) -> (r: Result<Json, String>)
    ensures
        match r {
            Ok(j) => parsed(text@) == Ok::<JsonView, Seq<char>>(j@),
            Err(e) => parsed(text@) == Err::<JsonView, Seq<char>>(e@),
        },
        forall|j: JsonView|
            text@ == #[trigger] printed(j) && plain(j, DEPTH_LIMIT as nat) ==> r is Ok && r->Ok_0@
                == j,
{
    match from_str(text) {
        Ok(v) => Ok(value_of(v)),
        Err(e) => Err(e),
    }
}

/// A character inside a JSON literal: the quote, the backslash and the
/// control characters below the space are escaped, the last in two
/// characters where JSON has a short form for them and in lowercase hex
/// where it has none.
pub open spec fn escaped(c: char) -> Seq<char> {
    if c == '"' || c == '\\' {
        seq!['\\', c]
    } else if c == '\u{8}' {
        seq!['\\', 'b']
    } else if c == '\t' {
        seq!['\\', 't']
    } else if c == '\n' {
        seq!['\\', 'n']
    } else if c == '\u{c}' {
        seq!['\\', 'f']
    } else if c == '\r' {
        seq!['\\', 'r']
    } else if ' ' > c {
        let n = c as int;
        seq!['\\', 'u', '0', '0'].push(hash::hex_digit(n / 16)).push(hash::hex_digit(n % 16))
    } else {
        seq![c]
    }
}

pub open spec fn escapes(s: Seq<char>) -> Seq<char>
    decreases s.len(),
{
    if s.len() == 0 {
        seq![]
    } else {
        escapes(s.drop_last()) + escaped(s.last())
    }
}

/// A string as a JSON literal, in quotes and escaped.
#[verifier::opaque]
pub open spec fn quoted(s: Seq<char>) -> Seq<char> {
    seq!['"'] + escapes(s) + seq!['"']
}

/// Prints a string as a JSON literal (`serde_json::Value::to_string` of a
/// string value): in quotes, each character escaped as [`escaped`] says.
#[verifier::external_body]
pub(crate) fn quote(s: &str) -> (r: String)
    ensures
        r@ == quoted(s@),
{
    serde_json::Value::from(s).to_string()
}


// ---------- changing an object ----------

/// The entries without the key `k`.
pub open spec fn without(m: Seq<MemberView>, k: Seq<char>) -> Seq<MemberView>
    decreases m.len(),
{
    if m.len() == 0 {
        m
    } else if m.last().key == k {
        without(m.drop_last(), k)
    } else {
        without(m.drop_last(), k).push(m.last())
    }
}

pub open spec fn members(m: Seq<Member>) -> Seq<MemberView> {
    m.map_values(|x: Member| member(x))
}

/// An object's value is its entries' values.
pub proof fn members_view(j: Json, m: Vec<Member>)
    requires
        j == Json::Obj(m),
    ensures
        j@ == JsonView::Obj(members(m@)),
{
    obj_view(j, m);
    assert(members(m@) =~= Seq::new(m@.len(), |i: int| member(m@[i])));
}

/// The position of a new key among sorted ones: behind every smaller one.
pub open spec fn place(m: Seq<MemberView>, k: Seq<char>) -> int
    decreases m.len(),
{
    if m.len() == 0 || text::lt(m.last().key, k) {
        m.len() as int
    } else {
        place(m.drop_last(), k)
    }
}

/// The entries with `k` set to `v`, at its place in the order.
pub open spec fn with(m: Seq<MemberView>, k: Seq<char>, v: JsonView) -> Seq<MemberView> {
    let rest = without(m, k);
    rest.insert(place(rest, k), MemberView { key: k, value: v })
}

proof fn place_bound(m: Seq<MemberView>, k: Seq<char>)
    ensures
        0 <= place(m, k) <= m.len(),
    decreases m.len(),
{
    if m.len() > 0 && !text::lt(m.last().key, k) {
        place_bound(m.drop_last(), k);
    }
}

/// Drops a key from an entry list.
pub fn remove_key(m: Vec<Member>, k: &str) -> (r: Vec<Member>)
    ensures
        members(r@) == without(members(m@), k@),
{
    let mut rest = m;
    let mut out: Vec<Member> = Vec::new();
    let ghost all = members(m@);
    // taken from the back, and turned round at the end
    let mut i: usize = rest.len();
    assert(all.take(i as int) =~= all);
    assert(members(out@).reverse() =~= Seq::empty());
    assert(without(all, k@) + Seq::<MemberView>::empty() =~= without(all, k@));
    while i > 0
        invariant
            i == rest@.len(),
            i <= all.len(),
            members(rest@) == all.take(i as int),
            without(all, k@) == without(all.take(i as int), k@) + members(out@).reverse(),
        decreases i,
    {
        i = i - 1;
        let ghost before = members(out@);
        let ghost cut = all.take(i + 1);
        assert(cut.drop_last() =~= all.take(i as int));
        assert(cut.last() == member(rest@.last()));
        let x = rest.pop();
        assert(members(rest@) =~= all.take(i as int));
        if let Some(x) = x {
            if !text::eq(x.key.as_str(), k) {
                let ghost y = member(x);
                out.push(x);
                assert(members(out@) =~= before.push(y));
                assert(before.push(y).reverse() =~= seq![y] + before.reverse());
                assert(without(cut, k@) + before.reverse() =~= without(all.take(i as int), k@)
                    + members(out@).reverse());
            }
        }
    }
    assert(all.take(0) =~= Seq::empty());
    assert(members(out@).reverse() =~= without(all, k@));
    let mut r: Vec<Member> = Vec::new();
    let ghost back = members(out@);
    let mut n: usize = out.len();
    while n > 0
        invariant
            n == out@.len(),
            n <= back.len(),
            members(out@) == back.take(n as int),
            members(r@) == back.reverse().take(back.len() - n),
        decreases n,
    {
        n = n - 1;
        let ghost before = members(r@);
        let ghost y = member(out@.last());
        assert(members(out@)[n as int] == y);
        assert(back.take(n + 1)[n as int] == back[n as int]);
        let x = out.pop();
        assert(members(out@) =~= back.take(n as int));
        if let Some(x) = x {
            r.push(x);
            assert(members(r@) =~= before.push(y));
        }
        assert(y == back[n as int]);
        assert(back.reverse().take(back.len() - n) =~= before.push(y));
    }
    assert(back.reverse().take(back.len() as int) =~= back.reverse());
    r
}

/// Sets a key of an entry list.
pub fn set_key(m: Vec<Member>, k: &str, v: Json) -> (r: Vec<Member>)
    ensures
        members(r@) == with(members(m@), k@, v@),
{
    let mut rest = remove_key(m, k);
    let ghost d = members(rest@);
    let mut i: usize = rest.len();
    assert(d.take(d.len() as int) =~= d);
    while i > 0 && !text::less(rest[i - 1].key.as_str(), k)
        invariant
            d == members(rest@),
            i <= rest@.len(),
            place(d, k@) == place(d.take(i as int), k@),
        decreases i,
    {
        assert(d.take(i as int).drop_last() =~= d.take(i - 1));
        i = i - 1;
    }
    assert(place(d, k@) == i) by {
        if i > 0 {
            assert(d.take(i as int).last() == d[i - 1]);
        }
    }
    let ghost y = MemberView { key: k@, value: v@ };
    rest.insert(i, Member { key: k.to_owned(), value: v });
    assert(members(rest@) =~= d.insert(i as int, y));
    rest
}

/// What one more entry at the end changes.
pub proof fn entry_skip(m: Seq<MemberView>, k: Seq<char>, x: MemberView)
    ensures
        x.key != k ==> entry(m.push(x), k) == entry(m, k),
        x.key == k ==> entry(m.push(x), k) == (if entry(m, k) is Some {
            entry(m, k)
        } else {
            Some(x.value)
        }),
    decreases m.len(),
{
    if m.len() == 0 {
        assert(m.push(x)[0] == x);
        assert(m.push(x).drop_first() =~= seq![]);
    } else {
        assert(m.push(x).drop_first() =~= m.drop_first().push(x));
        assert(m.push(x)[0] == m[0]);
        entry_skip(m.drop_first(), k, x);
    }
}

/// Dropping a key drops it, and no other.
pub proof fn without_entry(m: Seq<MemberView>, k: Seq<char>, j: Seq<char>)
    ensures
        entry(without(m, k), j) == if j == k {
            None
        } else {
            entry(m, j)
        },
    decreases m.len(),
{
    if m.len() > 0 {
        without_entry(m.drop_last(), k, j);
        assert(m =~= m.drop_last().push(m.last()));
        entry_skip(m.drop_last(), j, m.last());
        if m.last().key != k {
            entry_skip(without(m.drop_last(), k), j, m.last());
        }
    }
}

proof fn entry_insert(m: Seq<MemberView>, i: int, x: MemberView, j: Seq<char>)
    requires
        0 <= i <= m.len(),
        entry(m, x.key) is None,
    ensures
        entry(m.insert(i, x), j) == if j == x.key {
            Some(x.value)
        } else {
            entry(m, j)
        },
    decreases m.len(),
{
    if i == 0 {
        assert(m.insert(0, x).drop_first() =~= m);
    } else {
        assert(m.insert(i, x).drop_first() =~= m.drop_first().insert(i - 1, x));
        assert(m.insert(i, x)[0] == m[0]);
        entry_insert(m.drop_first(), i - 1, x, j);
    }
}

/// Setting a key sets it, and no other.
pub proof fn with_entry(m: Seq<MemberView>, k: Seq<char>, v: JsonView, j: Seq<char>)
    ensures
        entry(with(m, k, v), j) == if j == k {
            Some(v)
        } else {
            entry(m, j)
        },
{
    let rest = without(m, k);
    place_bound(rest, k);
    without_entry(m, k, k);
    without_entry(m, k, j);
    entry_insert(rest, place(rest, k), MemberView { key: k, value: v }, j);
}


// ---------- copies ----------

/// A copy of a value.
pub fn copy(j: &Json) -> (r: Json)
    ensures
        r@ == j@,
    decreases *j,
{
    match j {
        Json::Null => Json::Null,
        Json::Bool(b) => Json::Bool(*b),
        Json::Num(s) => Json::Num(s.clone()),
        Json::Str(s) => Json::Str(s.clone()),
        Json::Arr(v) => {
            let mut out: Vec<Json> = Vec::new();
            let mut i: usize = 0;
            while i < v.len()
                invariant
                    *j == Json::Arr(*v),
                    i <= v@.len(),
                    out@.len() == i,
                    forall|k: int| 0 <= k < i ==> (#[trigger] out@[k])@ == v@[k]@,
                decreases v.len() - i,
            {
                proof {
                    assert(decreases_to!(*j => j->Arr_0));
                    assert(decreases_to!(*v => v@));
                    assert(decreases_to!(v@ => v@[i as int]));
                }
                let x = copy(&v[i]);
                out.push(x);
                i = i + 1;
            }
            let r = Json::Arr(out);
            proof {
                items_view(*j, *v);
                items_view(r, out);
                assert(out@.map_values(|x: Json| x@) =~= v@.map_values(|x: Json| x@));
            }
            r
        },
        Json::Obj(m) => {
            let mut out: Vec<Member> = Vec::new();
            let mut i: usize = 0;
            while i < m.len()
                invariant
                    *j == Json::Obj(*m),
                    i <= m@.len(),
                    out@.len() == i,
                    forall|k: int| 0 <= k < i ==> member(#[trigger] out@[k]) == member(m@[k]),
                decreases m.len() - i,
            {
                proof {
                    assert(decreases_to!(*j => j->Obj_0));
                    assert(decreases_to!(*m => m@));
                    assert(decreases_to!(m@ => m@[i as int]));
                    assert(decreases_to!(m@[i as int] => m@[i as int].value));
                }
                let x = copy(&m[i].value);
                out.push(Member { key: m[i].key.clone(), value: x });
                i = i + 1;
            }
            let r = Json::Obj(out);
            proof {
                members_view(*j, *m);
                members_view(r, out);
                assert(members(out@) =~= members(m@));
            }
            r
        },
    }
}

// ---------- printing ----------

/// A value as compact JSON text, an object's entries in their order.
pub open spec fn printed(j: JsonView) -> Seq<char>
    decreases j,
{
    match j {
        JsonView::Null => "null"@,
        JsonView::Bool(b) => if b {
            "true"@
        } else {
            "false"@
        },
        JsonView::Num(s) => s,
        JsonView::Str(s) => quoted(s),
        JsonView::Arr(v) => "["@ + text::join(printed_items(v), ","@) + "]"@,
        JsonView::Obj(m) => "{"@ + text::join(printed_members(m), ","@) + "}"@,
    }
}

pub open spec fn printed_items(v: Seq<JsonView>) -> Seq<Seq<char>>
    decreases v,
{
    if v.len() == 0 {
        seq![]
    } else {
        printed_items(v.subrange(0, v.len() - 1)).push(printed(v[v.len() - 1]))
    }
}

pub open spec fn printed_members(m: Seq<MemberView>) -> Seq<Seq<char>>
    decreases m,
{
    if m.len() == 0 {
        seq![]
    } else {
        printed_members(m.subrange(0, m.len() - 1)).push(
            quoted(m[m.len() - 1].key) + ":"@ + printed(m[m.len() - 1].value),
        )
    }
}

/// Prints a value as compact JSON text.
pub fn print(j: &Json) -> (r: String)
    ensures
        r@ == printed(j@),
    decreases *j,
{
    match j {
        Json::Null => "null".to_owned(),
        Json::Bool(b) => if *b {
            "true".to_owned()
        } else {
            "false".to_owned()
        },
        Json::Num(s) => s.clone(),
        Json::Str(s) => quote(s.as_str()),
        Json::Arr(v) => {
            let ghost d = v@.map_values(|x: Json| x@);
            let mut out: Vec<String> = Vec::new();
            let mut i: usize = 0;
            assert(out.deep_view() =~= printed_items(d.subrange(0, 0)));
            while i < v.len()
                invariant
                    *j == Json::Arr(*v),
                    i <= v@.len(),
                    d == v@.map_values(|x: Json| x@),
                    out.deep_view() == printed_items(d.subrange(0, i as int)),
                decreases v.len() - i,
            {
                let ghost before = out.deep_view();
                proof {
                    assert(decreases_to!(*j => j->Arr_0));
                    assert(decreases_to!(*v => v@));
                    assert(decreases_to!(v@ => v@[i as int]));
                }
                let x = print(&v[i]);
                let ghost xv = x@;
                out.push(x);
                assert(out.deep_view() =~= before.push(xv));
                assert(d.subrange(0, i + 1).subrange(0, i as int) =~= d.subrange(0, i as int));
                i = i + 1;
            }
            proof {
                items_view(*j, *v);
                assert(d.subrange(0, i as int) =~= d);
            }
            "[".to_owned().concat(text::join_of(&out, ",").as_str()).concat("]")
        },
        Json::Obj(m) => {
            let ghost d = members(m@);
            let mut out: Vec<String> = Vec::new();
            let mut i: usize = 0;
            assert(out.deep_view() =~= printed_members(d.subrange(0, 0)));
            while i < m.len()
                invariant
                    *j == Json::Obj(*m),
                    i <= m@.len(),
                    d == members(m@),
                    out.deep_view() == printed_members(d.subrange(0, i as int)),
                decreases m.len() - i,
            {
                let ghost before = out.deep_view();
                proof {
                    assert(decreases_to!(*j => j->Obj_0));
                    assert(decreases_to!(*m => m@));
                    assert(decreases_to!(m@ => m@[i as int]));
                    assert(decreases_to!(m@[i as int] => m@[i as int].value));
                }
                let x = print(&m[i].value);
                let y = quote(m[i].key.as_str()).concat(":").concat(x.as_str());
                let ghost yv = y@;
                out.push(y);
                assert(out.deep_view() =~= before.push(yv));
                assert(d.subrange(0, i + 1).subrange(0, i as int) =~= d.subrange(0, i as int));
                i = i + 1;
            }
            proof {
                members_view(*j, *m);
                assert(d.subrange(0, i as int) =~= d);
            }
            "{".to_owned().concat(text::join_of(&out, ",").as_str()).concat("}")
        },
    }
}

// ---------- equality ----------

/// Two values are the same.
pub fn same(a: &Json, b: &Json) -> (r: bool)
    ensures
        r == (a@ == b@),
    decreases *a,
{
    match (a, b) {
        (Json::Null, Json::Null) => true,
        (Json::Bool(x), Json::Bool(y)) => *x == *y,
        (Json::Num(x), Json::Num(y)) => text::eq(x.as_str(), y.as_str()),
        (Json::Str(x), Json::Str(y)) => text::eq(x.as_str(), y.as_str()),
        (Json::Arr(x), Json::Arr(y)) => {
            proof {
                items_view(*a, *x);
                items_view(*b, *y);
            }
            let ghost dx = x@.map_values(|v: Json| v@);
            let ghost dy = y@.map_values(|v: Json| v@);
            if x.len() != y.len() {
                assert(dx.len() != dy.len());
                return false;
            }
            let mut i: usize = 0;
            while i < x.len()
                invariant
                    *a == Json::Arr(*x),
                    x@.len() == y@.len(),
                    a@ == JsonView::Arr(dx),
                    b@ == JsonView::Arr(dy),
                    dx == x@.map_values(|v: Json| v@),
                    dy == y@.map_values(|v: Json| v@),
                    i <= x@.len(),
                    forall|k: int| 0 <= k < i ==> #[trigger] dx[k] == dy[k],
                decreases x.len() - i,
            {
                proof {
                    assert(decreases_to!(*a => a->Arr_0));
                    assert(decreases_to!(*x => x@));
                    assert(decreases_to!(x@ => x@[i as int]));
                }
                if !same(&x[i], &y[i]) {
                    assert(dx[i as int] != dy[i as int]);
                    return false;
                }
                assert(dx[i as int] == dy[i as int]);
                i = i + 1;
            }
            assert(dx =~= dy);
            true
        },
        (Json::Obj(x), Json::Obj(y)) => {
            proof {
                members_view(*a, *x);
                members_view(*b, *y);
            }
            let ghost dx = members(x@);
            let ghost dy = members(y@);
            if x.len() != y.len() {
                assert(dx.len() != dy.len());
                return false;
            }
            let mut i: usize = 0;
            while i < x.len()
                invariant
                    *a == Json::Obj(*x),
                    x@.len() == y@.len(),
                    a@ == JsonView::Obj(dx),
                    b@ == JsonView::Obj(dy),
                    dx == members(x@),
                    dy == members(y@),
                    i <= x@.len(),
                    forall|k: int| 0 <= k < i ==> #[trigger] dx[k] == dy[k],
                decreases x.len() - i,
            {
                proof {
                    assert(decreases_to!(*a => a->Obj_0));
                    assert(decreases_to!(*x => x@));
                    assert(decreases_to!(x@ => x@[i as int]));
                    assert(decreases_to!(x@[i as int] => x@[i as int].value));
                }
                if !text::eq(x[i].key.as_str(), y[i].key.as_str()) || !same(
                    &x[i].value,
                    &y[i].value,
                ) {
                    assert(dx[i as int] != dy[i as int]);
                    return false;
                }
                assert(dx[i as int] == dy[i as int]);
                i = i + 1;
            }
            assert(dx =~= dy);
            true
        },
        _ => false,
    }
}

// ---------- building ----------

/// Strings as an array.
pub open spec fn strings(v: Seq<Seq<char>>) -> JsonView {
    JsonView::Arr(v.map_values(|s: Seq<char>| JsonView::Str(s)))
}

/// A string, or null.
pub open spec fn opt_string(s: Option<Seq<char>>) -> JsonView {
    match s {
        Some(x) => JsonView::Str(x),
        None => JsonView::Null,
    }
}

/// An object of entries.
pub fn object_of(m: Vec<Member>) -> (r: Json)
    ensures
        r@ == JsonView::Obj(members(m@)),
{
    let ghost mv = m;
    let r = Json::Obj(m);
    proof {
        members_view(r, mv);
    }
    r
}

/// Puts an entry behind the others.
pub fn put_member(m: &mut Vec<Member>, key: &str, value: Json)
    ensures
        members(final(m)@) == members(old(m)@).push(MemberView { key: key@, value: value@ }),
{
    let ghost o = members(m@);
    let ghost v = value@;
    m.push(Member { key: key.to_owned(), value });
    assert(members(m@) =~= o.push(MemberView { key: key@, value: v }));
}

/// An array of items.
pub fn array_of(v: Vec<Json>) -> (r: Json)
    ensures
        r@ == JsonView::Arr(v@.map_values(|x: Json| x@)),
{
    let ghost mv = v;
    let r = Json::Arr(v);
    proof {
        items_view(r, mv);
    }
    r
}

/// Strings as an array.
pub fn show_strings(v: &Vec<String>) -> (r: Json)
    ensures
        r@ == strings(v.deep_view()),
{
    let mut out: Vec<Json> = Vec::new();
    let mut i: usize = 0;
    while i < v.len()
        invariant
            i <= v@.len(),
            out@.len() == i,
            forall|k: int| 0 <= k < i ==> (#[trigger] out@[k])@ == JsonView::Str(v@[k]@),
        decreases v.len() - i,
    {
        out.push(Json::Str(v[i].clone()));
        i = i + 1;
    }
    let r = array_of(out);
    assert(r@->Arr_0 =~= strings(v.deep_view())->Arr_0);
    r
}

/// A string, or null.
pub fn show_opt(s: &Option<String>) -> (r: Json)
    ensures
        r@ == opt_string(s.deep_view()),
{
    match s {
        Some(x) => Json::Str(x.clone()),
        None => Json::Null,
    }
}

} // verus!
