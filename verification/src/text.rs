//! Strings as sequences of characters: comparison, search, trimming,
//! splitting, joining, and the decimal form of a number.
use vstd::prelude::*;
use vstd::string::StringSliceAdditionalSpecFns;

verus! {

/// Appends one character to the end of a string (`String::push`).
pub assume_specification[ String::push ](s: &mut String, c: char)
    ensures
        final(s)@ == old(s)@.push(c),
;

/// Whether two strings hold the same characters.
pub fn eq(a: &str, b: &str) -> (r: bool)
    ensures
        r == (a@ == b@),
{
    let x = a.as_bytes();
    let y = b.as_bytes();
    proof {
        vstd::utf8::encode_utf8_decode_utf8(a@);
        vstd::utf8::encode_utf8_decode_utf8(b@);
    }
    if x.len() != y.len() {
        return false;
    }
    let mut i: usize = 0;
    while i < x.len()
        invariant
            x@ == a.spec_bytes(),
            y@ == b.spec_bytes(),
            x@.len() == y@.len(),
            i <= x@.len(),
            x@.subrange(0, i as int) == y@.subrange(0, i as int),
        decreases x.len() - i,
    {
        if x[i] != y[i] {
            assert(x@[i as int] != y@[i as int]);
            return false;
        }
        assert(x@.subrange(0, i + 1) == x@.subrange(0, i as int).push(x@[i as int]));
        assert(y@.subrange(0, i + 1) == y@.subrange(0, i as int).push(y@[i as int]));
        i = i + 1;
    }
    assert(x@.subrange(0, i as int) == x@);
    assert(y@.subrange(0, i as int) == y@);
    true
}

/// Whether an optional string is present and equal to `b`.
pub fn opt_is(a: &Option<String>, b: &str) -> (r: bool)
    ensures
        r == (a.deep_view() == Some(b@)),
{
    match a {
        Some(s) => eq(s.as_str(), b),
        None => false,
    }
}

/// The characters of a string.
pub fn chars_of(s: &str) -> (v: Vec<char>)
    ensures
        v@ == s@,
{
    let mut v: Vec<char> = Vec::new();
    for c in it: s.chars()
        invariant
            v@ == it.seq().take(it.index()),
            it.seq() == s@,
    {
        v.push(c);
        assert(it.seq().take(it.index() + 1) == it.seq().take(it.index()).push(c));
    }
    assert(s@.take(s@.len() as int) == s@);
    v
}

/// The string of a run of characters.
pub fn string_of(v: &[char], from: usize, to: usize) -> (r: String)
    requires
        from <= to <= v@.len(),
    ensures
        r@ == v@.subrange(from as int, to as int),
{
    let mut r = String::new();
    let mut i: usize = from;
    while i < to
        invariant
            from <= i <= to <= v@.len(),
            r@ == v@.subrange(from as int, i as int),
        decreases to - i,
    {
        r.push(v[i]);
        i = i + 1;
        assert(v@.subrange(from as int, i as int) == v@.subrange(from as int, i - 1).push(v@[i - 1]));
    }
    r
}

/// The decimal digits of a number, without leading zeros.
pub open spec fn dec(n: nat) -> Seq<char>
    decreases n,
{
    if n < 10 {
        seq![digit(n as int)]
    } else {
        dec(n / 10).push(digit((n % 10) as int))
    }
}

/// The character of a decimal digit.
pub open spec fn digit(d: int) -> char {
    (('0' as int) + d) as char
}

/// The decimal form of a number.
pub fn dec_of(n: u64) -> (r: String)
    ensures
        r@ == dec(n as nat),
    decreases n,
{
    if n < 10 {
        let mut s = String::new();
        s.push(digit_of(n));
        assert(s@ == seq![digit(n as int)]);
        s
    } else {
        let mut s = dec_of(n / 10);
        s.push(digit_of(n % 10));
        s
    }
}

/// The decimal form of a wider number.
pub fn dec_wide_of(n: u128) -> (r: String)
    ensures
        r@ == dec(n as nat),
    decreases n,
{
    if n < 10 {
        let mut s = String::new();
        s.push(digit_of(n as u64));
        assert(s@ == seq![digit(n as int)]);
        s
    } else {
        let mut s = dec_wide_of(n / 10);
        s.push(digit_of((n % 10) as u64));
        s
    }
}

/// The decimal form of a number with its sign.
pub open spec fn dec_int(n: int) -> Seq<char> {
    if n < 0 {
        "-"@ + dec((-n) as nat)
    } else {
        dec(n as nat)
    }
}

/// The decimal form of a number with its sign.
pub fn dec_int_of(n: i64) -> (r: String)
    ensures
        r@ == dec_int(n as int),
{
    if n < 0 {
        let m: u64 = (-(n as i128)) as u64;
        "-".to_owned().concat(dec_of(m).as_str())
    } else {
        dec_of(n as u64)
    }
}

fn digit_of(d: u64) -> (c: char)
    requires
        d < 10,
    ensures
        c == digit(d as int),
{
    (48u8 + d as u8) as char
}


// ---------- characters ----------

/// The characters with the Unicode property White_Space.
pub open spec fn white(c: char) -> bool {
    ||| '\u{9}' <= c <= '\u{d}'
    ||| c == ' '
    ||| c == '\u{85}'
    ||| c == '\u{a0}'
    ||| c == '\u{1680}'
    ||| '\u{2000}' <= c <= '\u{200a}'
    ||| c == '\u{2028}'
    ||| c == '\u{2029}'
    ||| c == '\u{202f}'
    ||| c == '\u{205f}'
    ||| c == '\u{3000}'
}

pub fn is_white(c: char) -> (r: bool)
    ensures
        r == white(c),
{
    ('\u{9}' <= c && c <= '\u{d}') || c == ' ' || c == '\u{85}' || c == '\u{a0}' || c == '\u{1680}'
        || ('\u{2000}' <= c && c <= '\u{200a}') || c == '\u{2028}' || c == '\u{2029}'
        || c == '\u{202f}' || c == '\u{205f}' || c == '\u{3000}'
}

/// The control characters (the Unicode category Cc).
pub open spec fn control(c: char) -> bool {
    c <= '\u{1f}' || '\u{7f}' <= c <= '\u{9f}'
}

pub fn is_control(c: char) -> (r: bool)
    ensures
        r == control(c),
{
    c <= '\u{1f}' || ('\u{7f}' <= c && c <= '\u{9f}')
}

/// An ASCII letter or decimal digit.
pub open spec fn ascii_alnum(c: char) -> bool {
    'a' <= c <= 'z' || 'A' <= c <= 'Z' || '0' <= c <= '9'
}

pub fn is_ascii_alnum(c: char) -> (r: bool)
    ensures
        r == ascii_alnum(c),
{
    ('a' <= c && c <= 'z') || ('A' <= c && c <= 'Z') || ('0' <= c && c <= '9')
}

// ---------- search ----------

/// `p` stands in `s` at position `i`.
pub open spec fn at(s: Seq<char>, p: Seq<char>, i: int) -> bool {
    0 <= i && i + p.len() <= s.len() && s.subrange(i, i + p.len()) == p
}

pub open spec fn begins(s: Seq<char>, p: Seq<char>) -> bool {
    at(s, p, 0)
}

pub open spec fn ends(s: Seq<char>, p: Seq<char>) -> bool {
    at(s, p, s.len() - p.len())
}

pub open spec fn holds(s: Seq<char>, p: Seq<char>) -> bool {
    exists|i: int| at(s, p, i)
}

/// Whether `p` stands in `v` at position `i`.
pub fn stands_at(v: &[char], p: &[char], i: usize) -> (r: bool)
    ensures
        r == at(v@, p@, i as int),
{
    if p.len() > v.len() || i > v.len() - p.len() {
        return false;
    }
    let mut k: usize = 0;
    while k < p.len()
        invariant
            i + p@.len() <= v.len(),
            k <= p@.len(),
            forall|j: int| 0 <= j < k ==> v@[i + j] == p@[j],
        decreases p.len() - k,
    {
        if v[i + k] != p[k] {
            assert(v@.subrange(i as int, i + p@.len())[k as int] != p@[k as int]);
            return false;
        }
        k = k + 1;
    }
    assert(v@.subrange(i as int, i + p@.len()) =~= p@);
    true
}

/// Whether `s` begins with `p`.
pub fn starts_with(s: &str, p: &str) -> (r: bool)
    ensures
        r == begins(s@, p@),
{
    let v = chars_of(s);
    let q = chars_of(p);
    stands_at(v.as_slice(), q.as_slice(), 0)
}

/// Whether `s` ends with `p`.
pub fn ends_with(s: &str, p: &str) -> (r: bool)
    ensures
        r == ends(s@, p@),
{
    let v = chars_of(s);
    let q = chars_of(p);
    if q.len() > v.len() {
        return false;
    }
    stands_at(v.as_slice(), q.as_slice(), v.len() - q.len())
}

/// The first position at or after `from` where `p` stands in `v`.
pub fn find_from(v: &[char], p: &[char], from: usize) -> (r: Option<usize>)
    ensures
        match r {
            Some(i) => from <= i && at(v@, p@, i as int) && forall|j: int|
                from <= j < i ==> !at(v@, p@, j),
            None => forall|j: int| from <= j ==> !at(v@, p@, j),
        },
{
    let mut i: usize = from;
    while i <= v.len()
        invariant
            from <= i,
            forall|j: int| from <= j < i ==> !at(v@, p@, j),
        decreases v.len() + 1 - i,
    {
        if stands_at(v, p, i) {
            return Some(i);
        }
        if i == v.len() {
            return None;
        }
        i = i + 1;
    }
    None
}

/// Whether `p` stands anywhere in `s`.
pub fn contains(s: &str, p: &str) -> (r: bool)
    ensures
        r == holds(s@, p@),
{
    let v = chars_of(s);
    let q = chars_of(p);
    match find_from(v.as_slice(), q.as_slice(), 0) {
        Some(i) => true,
        None => false,
    }
}

/// Whether `c` occurs in `s`.
pub fn contains_char(s: &str, c: char) -> (r: bool)
    ensures
        r == s@.contains(c),
{
    let v = chars_of(s);
    let mut i: usize = 0;
    while i < v.len()
        invariant
            v@ == s@,
            i <= v@.len(),
            forall|j: int| 0 <= j < i ==> v@[j] != c,
        decreases v.len() - i,
    {
        if v[i] == c {
            assert(s@[i as int] == c);
            return true;
        }
        i = i + 1;
    }
    false
}

/// The part of `s` from character `from` on.
pub fn tail(s: &str, from: usize) -> (r: String)
    requires
        from <= s@.len(),
    ensures
        r@ == s@.skip(from as int),
{
    let v = chars_of(s);
    let r = string_of(v.as_slice(), from, v.len());
    assert(v@.subrange(from as int, v@.len() as int) =~= s@.skip(from as int));
    r
}

/// What follows the prefix `p` of `s`, when it has it.
pub fn strip_prefix(s: &str, p: &str) -> (r: Option<String>)
    ensures
        match r {
            Some(t) => begins(s@, p@) && t@ == s@.skip(p@.len() as int),
            None => !begins(s@, p@),
        },
{
    if starts_with(s, p) {
        Some(tail(s, p.unicode_len()))
    } else {
        None
    }
}

// ---------- pieces ----------

/// The pieces of `s` between the separators `c`: one more than there
/// are separators.
pub open spec fn split<T>(s: Seq<T>, c: T) -> Seq<Seq<T>>
    decreases s.len(),
{
    if s.len() == 0 {
        seq![seq![]]
    } else {
        let before = split(s.drop_last(), c);
        if s.last() == c {
            before.push(seq![])
        } else {
            before.drop_last().push(before.last().push(s.last()))
        }
    }
}

pub proof fn split_nonempty<T>(s: Seq<T>, c: T)
    ensures
        split(s, c).len() >= 1,
    decreases s.len(),
{
    if s.len() > 0 {
        split_nonempty(s.drop_last(), c);
    }
}

/// The strings between the separators `c`.
pub fn split_of(s: &str, c: char) -> (r: Vec<String>)
    ensures
        r.deep_view() == split(s@, c),
{
    let v = chars_of(s);
    let mut r: Vec<String> = Vec::new();
    let mut cur = String::new();
    let mut i: usize = 0;
    assert(v@.take(0) =~= Seq::<char>::empty());
    assert(r.deep_view().push(cur@) =~= seq![Seq::<char>::empty()]);
    while i < v.len()
        invariant
            i <= v@.len(),
            r.deep_view().push(cur@) == split(v@.take(i as int), c),
        decreases v.len() - i,
    {
        let ghost r0 = r.deep_view();
        let ghost cur0 = cur@;
        assert(v@.take(i + 1).drop_last() =~= v@.take(i as int));
        assert(v@.take(i + 1).last() == v@[i as int]);
        assert(r0.push(cur0).drop_last() =~= r0);
        if v[i] == c {
            r.push(cur);
            cur = String::new();
            assert(r.deep_view() =~= r0.push(cur0));
        } else {
            cur.push(v[i]);
        }
        i = i + 1;
    }
    assert(v@.take(i as int) =~= v@);
    r.push(cur);
    assert(r.deep_view() =~= split(v@, c));
    r
}

/// The byte strings between the separators `c`.
pub fn split_bytes(s: &[u8], c: u8) -> (r: Vec<Vec<u8>>)
    ensures
        r.deep_view() == split(s@, c),
{
    let mut r: Vec<Vec<u8>> = Vec::new();
    let mut cur: Vec<u8> = Vec::new();
    let mut i: usize = 0;
    assert(s@.take(0) =~= Seq::<u8>::empty());
    assert(cur.deep_view() =~= Seq::<u8>::empty());
    assert(r.deep_view().push(cur.deep_view()) =~= seq![Seq::<u8>::empty()]);
    while i < s.len()
        invariant
            i <= s@.len(),
            r.deep_view().push(cur.deep_view()) == split(s@.take(i as int), c),
        decreases s.len() - i,
    {
        let ghost r0 = r.deep_view();
        let ghost cur0 = cur.deep_view();
        assert(s@.take(i + 1).drop_last() =~= s@.take(i as int));
        assert(s@.take(i + 1).last() == s@[i as int]);
        assert(r0.push(cur0).drop_last() =~= r0);
        if s[i] == c {
            r.push(cur);
            cur = Vec::new();
            assert(r.deep_view() =~= r0.push(cur0));
            assert(cur.deep_view() =~= Seq::<u8>::empty());
        } else {
            cur.push(s[i]);
            assert(cur.deep_view() =~= cur0.push(s@[i as int]));
        }
        i = i + 1;
    }
    assert(s@.take(i as int) =~= s@);
    r.push(cur);
    assert(r.deep_view() =~= split(s@, c));
    r
}


/// The lines of `s`: a line ends at a line feed, which may follow a
/// carriage return. What follows the last line feed is a line as it is,
/// unless it is empty.
pub open spec fn lines(s: Seq<char>) -> Seq<Seq<char>> {
    let pieces = split(s, '\n');
    let ended = pieces.drop_last().map_values(|l: Seq<char>| strip_cr(l));
    if pieces.last().len() == 0 {
        ended
    } else {
        ended.push(pieces.last())
    }
}

pub open spec fn strip_cr(l: Seq<char>) -> Seq<char> {
    if l.len() > 0 && l.last() == '\r' {
        l.drop_last()
    } else {
        l
    }
}

fn strip_cr_of(l: &str) -> (r: String)
    ensures
        r@ == strip_cr(l@),
{
    let v = chars_of(l);
    let n = if v.len() > 0 && v[v.len() - 1] == '\r' {
        v.len() - 1
    } else {
        v.len()
    };
    let r = string_of(v.as_slice(), 0, n);
    assert(r@ =~= strip_cr(l@));
    r
}

/// The lines of a text.
pub fn lines_of(s: &str) -> (r: Vec<String>)
    ensures
        r.deep_view() == lines(s@),
{
    let pieces = split_of(s, '\n');
    proof {
        split_nonempty(s@, '\n');
    }
    let ghost all = pieces.deep_view();
    assert(all.last() == pieces@.last()@);
    let n = pieces.len() - 1;
    let mut r: Vec<String> = Vec::new();
    let mut i: usize = 0;
    while i < n
        invariant
            i <= n,
            n + 1 == pieces@.len(),
            all == pieces.deep_view(),
            r.len() == i,
            forall|j: int| 0 <= j < i ==> r@[j]@ == strip_cr(all[j]),
        decreases n - i,
    {
        r.push(strip_cr_of(pieces[i].as_str()));
        i = i + 1;
    }
    let ghost ended = all.drop_last().map_values(|l: Seq<char>| strip_cr(l));
    assert(r.deep_view() =~= ended);
    if !pieces[n].as_str().is_empty() {
        r.push(pieces[n].clone());
        assert(r.deep_view() =~= ended.push(all.last()));
    }
    r
}

/// The maximal runs of characters that are not white space.
pub open spec fn words(s: Seq<char>) -> Seq<Seq<char>>
    decreases s.len(),
{
    if s.len() == 0 {
        seq![]
    } else {
        let before = words(s.drop_last());
        if white(s.last()) {
            before
        } else if s.len() > 1 && !white(s[s.len() - 2]) {
            before.drop_last().push(before.last().push(s.last()))
        } else {
            before.push(seq![s.last()])
        }
    }
}

/// The words of a text (`str::split_whitespace`).
pub fn words_of(s: &str) -> (r: Vec<String>)
    ensures
        r.deep_view() == words(s@),
{
    let v = chars_of(s);
    let mut r: Vec<String> = Vec::new();
    let mut cur = String::new();
    let mut open = false;
    let mut i: usize = 0;
    assert(v@.take(0) =~= Seq::<char>::empty());
    assert(r.deep_view() =~= words(v@.take(0)));
    while i < v.len()
        invariant
            i <= v@.len(),
            open <==> i > 0 && !white(v@[i - 1]),
            open ==> r.deep_view().push(cur@) == words(v@.take(i as int)),
            !open ==> r.deep_view() == words(v@.take(i as int)) && cur@.len() == 0,
        decreases v.len() - i,
    {
        let ghost r0 = r.deep_view();
        let ghost cur0 = cur@;
        let ghost next = v@.take(i + 1);
        assert(next.drop_last() =~= v@.take(i as int));
        assert(next.last() == v@[i as int]);
        assert(i > 0 ==> next[next.len() - 2] == v@[i - 1]);
        if is_white(v[i]) {
            if open {
                r.push(cur);
                cur = String::new();
                assert(r.deep_view() =~= r0.push(cur0));
            }
            open = false;
            assert(words(next) == words(v@.take(i as int)));
        } else {
            cur.push(v[i]);
            if open {
                assert(r0.push(cur0).drop_last() =~= r0);
                assert(words(next) == words(v@.take(i as int)).drop_last().push(cur0.push(v@[i as int])));
            } else {
                assert(cur@ =~= seq![v@[i as int]]);
                assert(words(next) == r0.push(seq![v@[i as int]]));
            }
            open = true;
        }
        i = i + 1;
    }
    assert(v@.take(i as int) =~= v@);
    if open {
        let ghost r0 = r.deep_view();
        let ghost cur0 = cur@;
        r.push(cur);
        assert(r.deep_view() =~= r0.push(cur0));
    }
    r
}

/// The two parts of `s` around the first `c`.
pub fn split_once(s: &str, c: char) -> (r: Option<(String, String)>)
    ensures
        match r {
            Some((a, b)) => s@ == a@ + seq![c] + b@ && !a@.contains(c),
            None => !s@.contains(c),
        },
{
    let v = chars_of(s);
    let mut i: usize = 0;
    while i < v.len()
        invariant
            v@ == s@,
            i <= v@.len(),
            forall|j: int| 0 <= j < i ==> v@[j] != c,
        decreases v.len() - i,
    {
        if v[i] == c {
            let a = string_of(v.as_slice(), 0, i);
            let b = string_of(v.as_slice(), i + 1, v.len());
            assert(s@ =~= a@ + seq![c] + b@);
            return Some((a, b));
        }
        i = i + 1;
    }
    None
}

/// The two parts of `s` around the last `c`.
pub fn rsplit_once(s: &str, c: char) -> (r: Option<(String, String)>)
    ensures
        match r {
            Some((a, b)) => s@ == a@ + seq![c] + b@ && !b@.contains(c),
            None => !s@.contains(c),
        },
{
    let v = chars_of(s);
    let mut i: usize = v.len();
    while i > 0
        invariant
            v@ == s@,
            i <= v@.len(),
            forall|j: int| i <= j < v@.len() ==> v@[j] != c,
        decreases i,
    {
        i = i - 1;
        if v[i] == c {
            let a = string_of(v.as_slice(), 0, i);
            let b = string_of(v.as_slice(), i + 1, v.len());
            assert(s@ =~= a@ + seq![c] + b@);
            return Some((a, b));
        }
    }
    None
}

/// What follows the last `c` of `s`.
pub open spec fn after_last(s: Seq<char>, c: char) -> Option<Seq<char>>
    decreases s.len(),
{
    if s.len() == 0 {
        None
    } else if s.last() == c {
        Some(seq![])
    } else {
        match after_last(s.drop_last(), c) {
            Some(t) => Some(t.push(s.last())),
            None => None,
        }
    }
}

/// What [`rsplit_once`] finds is what follows the last separator.
pub proof fn after_last_found(s: Seq<char>, a: Seq<char>, b: Seq<char>, c: char)
    requires
        s == a + seq![c] + b,
        !b.contains(c),
    ensures
        after_last(s, c) == Some(b),
    decreases b.len(),
{
    if b.len() == 0 {
        assert(s.last() == c);
        assert(b =~= seq![]);
    } else {
        assert(b.contains(b.last()));
        assert(s.last() == b.last());
        assert(s.drop_last() =~= a + seq![c] + b.drop_last());
        assert forall|i: int| 0 <= i < b.drop_last().len() implies b.drop_last()[i] != c by {
            assert(b.contains(b[i]));
        }
        after_last_found(s.drop_last(), a, b.drop_last(), c);
        assert(b =~= b.drop_last().push(b.last()));
    }
}

pub proof fn after_last_missing(s: Seq<char>, c: char)
    requires
        !s.contains(c),
    ensures
        after_last(s, c) is None,
    decreases s.len(),
{
    if s.len() > 0 {
        assert(s.contains(s.last()));
        assert forall|i: int| 0 <= i < s.drop_last().len() implies s.drop_last()[i] != c by {
            assert(s.contains(s[i]));
        }
        after_last_missing(s.drop_last(), c);
    }
}

/// What follows the last `c` of a text.
pub fn after_last_of(s: &str, c: char) -> (r: Option<String>)
    ensures
        r.deep_view() == after_last(s@, c),
{
    match rsplit_once(s, c) {
        Some((a, b)) => {
            proof {
                after_last_found(s@, a@, b@, c);
            }
            Some(b)
        },
        None => {
            proof {
                after_last_missing(s@, c);
            }
            None
        },
    }
}

/// What stands before the first `c` of `s`, or all of it.
pub open spec fn before_first(s: Seq<char>, c: char) -> Seq<char>
    decreases s.len(),
{
    if s.len() == 0 || s[0] == c {
        seq![]
    } else {
        seq![s[0]] + before_first(s.drop_first(), c)
    }
}

/// What follows the first `c` of `s`.
pub open spec fn after_first(s: Seq<char>, c: char) -> Option<Seq<char>>
    decreases s.len(),
{
    if s.len() == 0 {
        None
    } else if s[0] == c {
        Some(s.drop_first())
    } else {
        after_first(s.drop_first(), c)
    }
}

/// What [`split_once`] finds is what stands around the first separator.
pub proof fn first_found(s: Seq<char>, a: Seq<char>, b: Seq<char>, c: char)
    requires
        s == a + seq![c] + b,
        !a.contains(c),
    ensures
        before_first(s, c) == a,
        after_first(s, c) == Some(b),
    decreases a.len(),
{
    if a.len() == 0 {
        assert(s[0] == c);
        assert(s.drop_first() =~= b);
        assert(a =~= seq![]);
    } else {
        assert(a.contains(a[0]));
        assert(s.drop_first() =~= a.drop_first() + seq![c] + b);
        assert forall|i: int| 0 <= i < a.drop_first().len() implies a.drop_first()[i] != c by {
            assert(a.contains(a[i + 1]));
        }
        first_found(s.drop_first(), a.drop_first(), b, c);
        assert(a =~= seq![a[0]] + a.drop_first());
    }
}

pub proof fn first_missing(s: Seq<char>, c: char)
    requires
        !s.contains(c),
    ensures
        before_first(s, c) == s,
        after_first(s, c) is None,
    decreases s.len(),
{
    if s.len() > 0 {
        assert(s.contains(s[0]));
        assert forall|i: int| 0 <= i < s.drop_first().len() implies s.drop_first()[i] != c by {
            assert(s.contains(s[i + 1]));
        }
        first_missing(s.drop_first(), c);
        assert(s =~= seq![s[0]] + s.drop_first());
    } else {
        assert(s =~= seq![]);
    }
}

/// `s` without the white space at its start.
pub open spec fn trim_start(s: Seq<char>) -> Seq<char>
    decreases s.len(),
{
    if s.len() > 0 && white(s[0]) {
        trim_start(s.drop_first())
    } else {
        s
    }
}

/// `s` without the white space at its end.
pub open spec fn trim_end(s: Seq<char>) -> Seq<char>
    decreases s.len(),
{
    if s.len() > 0 && white(s.last()) {
        trim_end(s.drop_last())
    } else {
        s
    }
}

/// `s` without the white space at either end.
pub open spec fn trim(s: Seq<char>) -> Seq<char> {
    trim_end(trim_start(s))
}

/// A text without the white space at either end (`str::trim`).
pub fn trim_of(s: &str) -> (r: String)
    ensures
        r@ == trim(s@),
{
    let v = chars_of(s);
    let mut a: usize = 0;
    assert(s@.skip(0) =~= s@);
    while a < v.len() && is_white(v[a])
        invariant
            v@ == s@,
            a <= v@.len(),
            trim_start(s@) == trim_start(s@.skip(a as int)),
        decreases v.len() - a,
    {
        assert(s@.skip(a as int).drop_first() =~= s@.skip(a + 1));
        a = a + 1;
    }
    let mut b: usize = v.len();
    assert(s@.subrange(a as int, b as int) =~= s@.skip(a as int));
    while b > a && is_white(v[b - 1])
        invariant
            v@ == s@,
            a <= b <= v@.len(),
            trim(s@) == trim_end(s@.subrange(a as int, b as int)),
        decreases b,
    {
        assert(s@.subrange(a as int, b as int).drop_last() =~= s@.subrange(a as int, b - 1));
        b = b - 1;
    }
    string_of(v.as_slice(), a, b)
}

/// A text without the white space at its end (`str::trim_end`).
pub fn trim_end_of(s: &str) -> (r: String)
    ensures
        r@ == trim_end(s@),
{
    let v = chars_of(s);
    let mut b: usize = v.len();
    assert(s@.take(b as int) =~= s@);
    while b > 0 && is_white(v[b - 1])
        invariant
            v@ == s@,
            b <= v@.len(),
            trim_end(s@) == trim_end(s@.take(b as int)),
        decreases b,
    {
        assert(s@.take(b as int).drop_last() =~= s@.take(b - 1));
        b = b - 1;
    }
    let r = string_of(v.as_slice(), 0, b);
    assert(r@ =~= s@.take(b as int));
    r
}

/// The parts `v` with `sep` between each two of them.
pub open spec fn join(v: Seq<Seq<char>>, sep: Seq<char>) -> Seq<char>
    decreases v.len(),
{
    if v.len() == 0 {
        seq![]
    } else if v.len() == 1 {
        v[0]
    } else {
        join(v.drop_last(), sep) + sep + v.last()
    }
}

/// The parts `v` with `sep` between each two of them.
pub fn join_of(v: &Vec<String>, sep: &str) -> (r: String)
    ensures
        r@ == join(v.deep_view(), sep@),
{
    if v.len() == 0 {
        return String::new();
    }
    let ghost d = v.deep_view();
    let mut r = v[0].clone();
    let mut i: usize = 1;
    assert(d.take(1).len() == 1);
    while i < v.len()
        invariant
            d == v.deep_view(),
            1 <= i <= v.len(),
            r@ == join(d.take(i as int), sep@),
        decreases v.len() - i,
    {
        r.append(sep);
        r.append(v[i].as_str());
        assert(d.take(i + 1).drop_last() =~= d.take(i as int));
        i = i + 1;
    }
    assert(d.take(i as int) =~= d);
    r
}

// ---------- numbers ----------

/// The value of a digit in a radix of at most 16.
pub open spec fn digit_value(c: char, radix: nat) -> Option<nat> {
    let d = if '0' <= c <= '9' {
        (c as int - '0' as int) as nat
    } else if 'a' <= c <= 'f' {
        (c as int - 'a' as int + 10) as nat
    } else if 'A' <= c <= 'F' {
        (c as int - 'A' as int + 10) as nat
    } else {
        16
    };
    if d < radix && d < 16 {
        Some(d)
    } else {
        None
    }
}

/// The value of a run of digits.
pub open spec fn digits_value(s: Seq<char>, radix: nat) -> Option<nat>
    decreases s.len(),
{
    if s.len() == 0 {
        Some(0)
    } else {
        match (digits_value(s.drop_last(), radix), digit_value(s.last(), radix)) {
            (Some(v), Some(d)) => Some(v * radix + d),
            _ => None,
        }
    }
}

/// The digits of `s`, which may follow one `+`.
pub open spec fn unsigned_digits(s: Seq<char>) -> Seq<char> {
    if s.len() > 0 && s[0] == '+' {
        s.drop_first()
    } else {
        s
    }
}

/// The unsigned number that `s` writes in a radix.
pub open spec fn unsigned(s: Seq<char>, radix: nat) -> Option<nat> {
    if unsigned_digits(s).len() == 0 {
        None
    } else {
        digits_value(unsigned_digits(s), radix)
    }
}

/// [`unsigned`], where it is at most `max`.
pub open spec fn unsigned_upto(s: Seq<char>, radix: nat, max: nat) -> Option<nat> {
    match unsigned(s, radix) {
        Some(n) if n <= max => Some(n),
        _ => None,
    }
}

/// The decimal form of a number reads back as the number.
pub proof fn dec_reads_back(n: nat)
    ensures
        digits_value(dec(n), 10) == Some(n),
        unsigned(dec(n), 10) == Some(n),
        dec(n).len() > 0,
        '0' <= dec(n)[0] <= '9',
    decreases n,
{
    if n < 10 {
        let s = seq![digit(n as int)];
        assert(s.drop_last() =~= seq![]);
        assert(digits_value(s.drop_last(), 10) == Some(0nat));
        assert(digit_value(s.last(), 10) == Some(n));
    } else {
        dec_reads_back(n / 10);
        let s = dec(n);
        assert(s.drop_last() =~= dec(n / 10));
        assert(digit_value(s.last(), 10) == Some(n % 10));
        assert(s[0] == dec(n / 10)[0]);
        assert(n / 10 * 10 + n % 10 == n);
    }
}

proof fn digits_grow(s: Seq<char>, radix: nat, i: int)
    requires
        radix >= 1,
        0 <= i <= s.len(),
    ensures
        digits_value(s.take(i), radix) is None ==> digits_value(s, radix) is None,
        digits_value(s.take(i), radix) is Some && digits_value(s, radix) is Some
            ==> digits_value(s.take(i), radix)->0 <= digits_value(s, radix)->0,
    decreases s.len() - i,
{
    if i < s.len() {
        digits_grow(s, radix, i + 1);
        assert(s.take(i + 1).drop_last() =~= s.take(i));
        let a = digits_value(s.take(i), radix);
        if a is Some {
            assert(a->0 <= a->0 * radix) by (nonlinear_arith)
                requires
                    radix >= 1,
                    a->0 >= 0,
            ;
        }
    } else {
        assert(s.take(i) =~= s);
    }
}

fn digit_value_of(c: char, radix: u64) -> (r: Option<u64>)
    requires
        radix <= 16,
    ensures
        match r {
            Some(d) => digit_value(c, radix as nat) == Some(d as nat),
            None => digit_value(c, radix as nat) is None,
        },
{
    let n: u64 = c as u64;
    let d: u64 = if '0' <= c && c <= '9' {
        n - 48
    } else if 'a' <= c && c <= 'f' {
        n - 97 + 10
    } else if 'A' <= c && c <= 'F' {
        n - 65 + 10
    } else {
        16
    };
    if d < radix {
        Some(d)
    } else {
        None
    }
}

/// Parses an unsigned number as the integer types do: an optional `+`,
/// at least one digit, and a value of at most `max`.
pub fn parse_unsigned(s: &str, radix: u64, max: u64) -> (r: Option<u64>)
    requires
        2 <= radix <= 16,
    ensures
        match r {
            Some(n) => unsigned_upto(s@, radix as nat, max as nat) == Some(n as nat),
            None => unsigned_upto(s@, radix as nat, max as nat) is None,
        },
{
    let v = chars_of(s);
    let from: usize = if v.len() > 0 && v[0] == '+' {
        1
    } else {
        0
    };
    let ghost d = unsigned_digits(s@);
    assert(d =~= v@.skip(from as int));
    if from == v.len() {
        return None;
    }
    let mut n: u64 = 0;
    let mut i: usize = from;
    assert(d.take(0) =~= Seq::<char>::empty());
    while i < v.len()
        invariant
            2 <= radix <= 16,
            v@ == s@,
            from <= i <= v@.len(),
            d == v@.skip(from as int),
            d == unsigned_digits(s@),
            d.len() > 0,
            n <= max,
            digits_value(d.take(i - from), radix as nat) == Some(n as nat),
        decreases v.len() - i,
    {
        let ghost next = d.take(i + 1 - from);
        assert(next.drop_last() =~= d.take(i - from));
        assert(next.last() == v@[i as int]);
        proof {
            digits_grow(d, radix as nat, i + 1 - from);
        }
        let x: u128 = match digit_value_of(v[i], radix) {
            None => {
                return None;
            },
            Some(x) => x as u128,
        };
        assert(n * radix <= u64::MAX * 16) by (nonlinear_arith)
            requires
                n <= u64::MAX,
                radix <= 16,
        ;
        let m: u128 = n as u128 * radix as u128 + x;
        assert(digits_value(next, radix as nat) == Some(m as nat));
        if m > max as u128 {
            return None;
        }
        n = m as u64;
        i = i + 1;
    }
    assert(d.take(i - from) =~= d);
    Some(n)
}


// ---------- order ----------

/// The order of strings: by the first character in which they differ,
/// a proper prefix before what it begins.
pub open spec fn lt(a: Seq<char>, b: Seq<char>) -> bool
    decreases a.len(),
{
    if b.len() == 0 {
        false
    } else if a.len() == 0 {
        true
    } else if a[0] == b[0] {
        lt(a.drop_first(), b.drop_first())
    } else {
        a[0] < b[0]
    }
}

pub open spec fn le(a: Seq<char>, b: Seq<char>) -> bool {
    a == b || lt(a, b)
}

pub proof fn lt_total(a: Seq<char>, b: Seq<char>)
    ensures
        lt(a, b) || lt(b, a) || a == b,
        !(lt(a, b) && lt(b, a)),
        a == b ==> !lt(a, b),
    decreases a.len(),
{
    if a.len() > 0 && b.len() > 0 && a[0] == b[0] {
        lt_total(a.drop_first(), b.drop_first());
        if a.drop_first() == b.drop_first() {
            assert(a =~= seq![a[0]] + a.drop_first());
            assert(b =~= seq![b[0]] + b.drop_first());
        }
    } else if a.len() == 0 && b.len() == 0 {
        assert(a =~= b);
    }
}

pub proof fn lt_transitive(a: Seq<char>, b: Seq<char>, c: Seq<char>)
    requires
        lt(a, b),
        lt(b, c),
    ensures
        lt(a, c),
    decreases a.len(),
{
    if a.len() > 0 && b.len() > 0 && c.len() > 0 && a[0] == b[0] && b[0] == c[0] {
        lt_transitive(a.drop_first(), b.drop_first(), c.drop_first());
    }
}

fn lt_from(a: &[char], b: &[char], i: usize) -> (r: bool)
    requires
        i <= a@.len(),
        i <= b@.len(),
    ensures
        r == lt(a@.skip(i as int), b@.skip(i as int)),
    decreases a@.len() - i,
{
    let mut k: usize = i;
    while k < a.len() && k < b.len() && a[k] == b[k]
        invariant
            i <= k <= a@.len(),
            k <= b@.len(),
            lt(a@.skip(i as int), b@.skip(i as int)) == lt(a@.skip(k as int), b@.skip(k as int)),
        decreases a.len() - k,
    {
        assert(a@.skip(k as int).drop_first() =~= a@.skip(k + 1));
        assert(b@.skip(k as int).drop_first() =~= b@.skip(k + 1));
        k = k + 1;
    }
    if k == b.len() {
        false
    } else if k == a.len() {
        true
    } else {
        a[k] < b[k]
    }
}

/// Whether `a` comes before `b`.
pub fn less(a: &str, b: &str) -> (r: bool)
    ensures
        r == lt(a@, b@),
{
    let x = chars_of(a);
    let y = chars_of(b);
    let r = lt_from(x.as_slice(), y.as_slice(), 0);
    assert(a@.skip(0) =~= a@);
    assert(b@.skip(0) =~= b@);
    r
}

/// Strictly increasing: sorted, and nothing twice.
pub open spec fn increasing(v: Seq<Seq<char>>) -> bool {
    forall|i: int, j: int| 0 <= i < j < v.len() ==> lt(#[trigger] v[i], #[trigger] v[j])
}

/// Two increasing sequences with the same members are the same.
pub proof fn increasing_unique(a: Seq<Seq<char>>, b: Seq<Seq<char>>)
    requires
        increasing(a),
        increasing(b),
        forall|x: Seq<char>| a.contains(x) <==> b.contains(x),
    ensures
        a == b,
    decreases a.len(),
{
    if a.len() == 0 {
        if b.len() > 0 {
            assert(b.contains(b[0]));
        }
        assert(a =~= b);
    } else {
        assert(a.contains(a[0]));
        let k = choose|k: int| 0 <= k < b.len() && b[k] == a[0];
        assert(b.contains(b[0]));
        let m = choose|m: int| 0 <= m < a.len() && a[m] == b[0];
        if k > 0 {
            assert(lt(b[0], b[k]));
            if m > 0 {
                assert(lt(a[0], a[m]));
                lt_total(a[0], a[m]);
            } else {
                lt_total(a[0], b[0]);
            }
            assert(false);
        }
        let a1 = a.drop_first();
        let b1 = b.drop_first();
        assert forall|i: int, j: int| 0 <= i < j < a1.len() implies lt(#[trigger] a1[i], #[trigger] a1[j]) by {
            assert(lt(a[i + 1], a[j + 1]));
        }
        assert forall|i: int, j: int| 0 <= i < j < b1.len() implies lt(#[trigger] b1[i], #[trigger] b1[j]) by {
            assert(lt(b[i + 1], b[j + 1]));
        }
        assert forall|x: Seq<char>| a1.contains(x) <==> b1.contains(x) by {
            if a1.contains(x) {
                let i = choose|i: int| 0 <= i < a1.len() && a1[i] == x;
                assert(a[i + 1] == x);
                assert(a.contains(x));
                let j = choose|j: int| 0 <= j < b.len() && b[j] == x;
                assert(lt(a[0], a[i + 1]));
                lt_total(a[0], x);
                assert(j != 0);
                assert(b1[j - 1] == x);
            }
            if b1.contains(x) {
                let i = choose|i: int| 0 <= i < b1.len() && b1[i] == x;
                assert(b[i + 1] == x);
                assert(b.contains(x));
                let j = choose|j: int| 0 <= j < a.len() && a[j] == x;
                assert(lt(b[0], b[i + 1]));
                lt_total(b[0], x);
                assert(j != 0);
                assert(a1[j - 1] == x);
            }
        }
        increasing_unique(a1, b1);
        assert(a =~= seq![a[0]] + a1);
        assert(b =~= seq![b[0]] + b1);
    }
}

/// `s` put into an increasing list, unless it is there.
pub open spec fn put(v: Seq<Seq<char>>, s: Seq<char>) -> Seq<Seq<char>>
    decreases v.len(),
{
    if v.len() == 0 || lt(v.last(), s) {
        v.push(s)
    } else if v.last() == s {
        v
    } else {
        put(v.drop_last(), s).push(v.last())
    }
}

/// The members of `v`, sorted, each once.
pub open spec fn name_set(v: Seq<Seq<char>>) -> Seq<Seq<char>>
    decreases v.len(),
{
    if v.len() == 0 {
        v
    } else {
        put(name_set(v.drop_last()), v.last())
    }
}

/// [`put`] keeps an increasing list increasing and adds one member.
pub proof fn put_keeps(v: Seq<Seq<char>>, s: Seq<char>)
    requires
        increasing(v),
    ensures
        increasing(put(v, s)),
        forall|x: Seq<char>| #[trigger] put(v, s).contains(x) <==> (x == s || v.contains(x)),
    decreases v.len(),
{
    let r = put(v, s);
    if v.len() == 0 || lt(v.last(), s) {
        assert forall|i: int, j: int| 0 <= i < j < r.len() implies lt(#[trigger] r[i], #[trigger] r[j]) by {
            if j == v.len() && i < v.len() - 1 {
                assert(lt(v[i], v[v.len() - 1]));
                lt_transitive(v[i], v[v.len() - 1], s);
            }
        }
        assert forall|x: Seq<char>| #[trigger] r.contains(x) <==> (x == s || v.contains(x)) by {
            if r.contains(x) {
                let k = choose|k: int| 0 <= k < r.len() && r[k] == x;
                if k < v.len() {
                    assert(v[k] == x);
                }
            }
            if x == s {
                assert(r[v.len() as int] == x);
            }
            if v.contains(x) {
                let k = choose|k: int| 0 <= k < v.len() && v[k] == x;
                assert(r[k] == x);
            }
        }
    } else if v.last() == s {
        assert(v.contains(s));
    } else {
        let t = v.drop_last();
        assert forall|i: int, j: int| 0 <= i < j < t.len() implies lt(#[trigger] t[i], #[trigger] t[j]) by {
            assert(lt(v[i], v[j]));
        }
        put_keeps(t, s);
        lt_total(v.last(), s);
        let a = put(t, s);
        assert forall|i: int, j: int| 0 <= i < j < r.len() implies lt(#[trigger] r[i], #[trigger] r[j]) by {
            if j < a.len() {
                assert(lt(a[i], a[j]));
            } else {
                assert(a.contains(a[i]));
                if a[i] != s {
                    let k = choose|k: int| 0 <= k < t.len() && t[k] == a[i];
                    assert(lt(v[k], v[v.len() - 1]));
                }
            }
        }
        assert forall|x: Seq<char>| #[trigger] r.contains(x) <==> (x == s || v.contains(x)) by {
            if r.contains(x) {
                let k = choose|k: int| 0 <= k < r.len() && r[k] == x;
                if k < a.len() {
                    assert(a[k] == x);
                    assert(a.contains(x));
                    if x != s {
                        let m = choose|m: int| 0 <= m < t.len() && t[m] == x;
                        assert(v[m] == x);
                    }
                } else {
                    assert(v[v.len() - 1] == x);
                }
            }
            if x == s || t.contains(x) {
                assert(a.contains(x));
                let m = choose|m: int| 0 <= m < a.len() && a[m] == x;
                assert(r[m] == x);
            }
            if v.contains(x) {
                let k = choose|k: int| 0 <= k < v.len() && v[k] == x;
                if k < t.len() {
                    assert(t[k] == x);
                    assert(t.contains(x));
                } else {
                    assert(r[a.len() as int] == x);
                }
            }
        }
    }
}

/// A name set is increasing and has exactly the members it is made of.
pub proof fn name_set_members(v: Seq<Seq<char>>)
    ensures
        increasing(name_set(v)),
        forall|x: Seq<char>| #[trigger] name_set(v).contains(x) <==> v.contains(x),
    decreases v.len(),
{
    if v.len() > 0 {
        let t = v.drop_last();
        name_set_members(t);
        put_keeps(name_set(t), v.last());
        assert forall|x: Seq<char>| #[trigger] name_set(v).contains(x) <==> v.contains(x) by {
            if v.contains(x) {
                let k = choose|k: int| 0 <= k < v.len() && v[k] == x;
                if k < t.len() {
                    assert(t[k] == x);
                    assert(t.contains(x));
                }
            }
            if t.contains(x) {
                let k = choose|k: int| 0 <= k < t.len() && t[k] == x;
                assert(v[k] == x);
            }
            if x == v.last() {
                assert(v[v.len() - 1] == x);
            }
        }
    }
}

proof fn put_at(v: Seq<Seq<char>>, s: Seq<char>, i: int)
    requires
        0 <= i <= v.len(),
        i > 0 ==> lt(v[i - 1], s),
        forall|j: int| i <= j < v.len() ==> lt(s, #[trigger] v[j]),
    ensures
        put(v, s) == v.insert(i, s),
    decreases v.len(),
{
    if v.len() == 0 || lt(v.last(), s) {
        if i < v.len() {
            assert(lt(s, v[v.len() - 1]));
            lt_total(s, v.last());
        }
        assert(v.push(s) =~= v.insert(i, s));
    } else {
        assert(i < v.len());
        assert(lt(s, v[v.len() - 1]));
        lt_total(s, v.last());
        let t = v.drop_last();
        assert forall|j: int| i <= j < t.len() implies lt(s, #[trigger] t[j]) by {
            assert(lt(s, v[j]));
        }
        put_at(t, s, i);
        assert(t.insert(i, s).push(v.last()) =~= v.insert(i, s));
    }
}

proof fn put_there(v: Seq<Seq<char>>, s: Seq<char>, i: int)
    requires
        increasing(v),
        0 <= i < v.len(),
        v[i] == s,
    ensures
        put(v, s) == v,
    decreases v.len(),
{
    if i < v.len() - 1 {
        assert(lt(v[i], v[v.len() - 1]));
        lt_total(v[i], v.last());
        let t = v.drop_last();
        assert forall|a: int, b: int| 0 <= a < b < t.len() implies lt(#[trigger] t[a], #[trigger] t[b]) by {
            assert(lt(v[a], v[b]));
        }
        put_there(t, s, i);
        assert(t.push(v.last()) =~= v);
    } else {
        lt_total(v.last(), s);
    }
}

/// Puts a string into an increasing list, unless it is there.
pub fn insert_name(v: &mut Vec<String>, s: &str)
    requires
        increasing(old(v).deep_view()),
    ensures
        final(v).deep_view() == put(old(v).deep_view(), s@),
        increasing(final(v).deep_view()),
        forall|x: Seq<char>| #[trigger]
            final(v).deep_view().contains(x) <==> (x == s@ || old(v).deep_view().contains(x)),
{
    let ghost d = v.deep_view();
    proof {
        put_keeps(d, s@);
    }
    let mut i: usize = 0;
    while i < v.len() && less(v[i].as_str(), s)
        invariant
            d == v.deep_view(),
            i <= v.len(),
            forall|j: int| 0 <= j < i ==> lt(#[trigger] d[j], s@),
        decreases v.len() - i,
    {
        assert(d[i as int] == v@[i as int]@);
        i = i + 1;
    }
    if i < v.len() {
        assert(d[i as int] == v@[i as int]@);
        if eq(v[i].as_str(), s) {
            proof {
                put_there(d, s@, i as int);
            }
            return;
        }
        proof {
            lt_total(d[i as int], s@);
            assert forall|j: int| i <= j < d.len() implies lt(s@, #[trigger] d[j]) by {
                if j > i {
                    assert(lt(d[i as int], d[j]));
                    lt_transitive(s@, d[i as int], d[j]);
                }
            }
        }
    }
    proof {
        put_at(d, s@, i as int);
    }
    let t = s.to_owned();
    v.insert(i, t);
    assert(v.deep_view() =~= d.insert(i as int, s@));
}

// ---------- bytes ----------

/// The text of a byte string, where it is UTF-8 (`String::from_utf8`):
/// the string whose encoding these bytes are.
#[verifier::external_body]
pub(crate) fn from_utf8(b: Vec<u8>) -> (r: Option<String>)
    ensures
        match r {
            Some(s) => vstd::utf8::valid_utf8(b@) && s@ == vstd::utf8::decode_utf8(b@),
            None => !vstd::utf8::valid_utf8(b@),
        },
{
    String::from_utf8(b).ok()
}

/// The bytes of two texts in a row are those of the first and then those
/// of the second.
pub proof fn bytes_add(a: Seq<char>, b: Seq<char>)
    ensures
        vstd::utf8::encode_utf8(a + b) == vstd::utf8::encode_utf8(a) + vstd::utf8::encode_utf8(b),
    decreases a.len(),
{
    if a.len() == 0 {
        assert(a + b =~= b);
        assert(vstd::utf8::encode_utf8(a) =~= Seq::empty());
        assert(Seq::<u8>::empty() + vstd::utf8::encode_utf8(b) =~= vstd::utf8::encode_utf8(b));
    } else {
        bytes_add(a.drop_first(), b);
        assert((a + b).drop_first() =~= a.drop_first() + b);
        let c = vstd::utf8::encode_scalar(a[0] as u32);
        assert(c + (vstd::utf8::encode_utf8(a.drop_first()) + vstd::utf8::encode_utf8(b)) =~= c
            + vstd::utf8::encode_utf8(a.drop_first()) + vstd::utf8::encode_utf8(b));
    }
}

/// The length of a text in bytes.
pub fn byte_len(s: &str) -> (r: usize)
    ensures
        r == vstd::utf8::encode_utf8(s@).len(),
{
    s.as_bytes().len()
}

/// Copies a list of strings.
pub fn copy_names(v: &Vec<String>) -> (r: Vec<String>)
    ensures
        r@ == v@,
        r.deep_view() == v.deep_view(),
{
    let mut r: Vec<String> = Vec::new();
    let mut i: usize = 0;
    while i < v.len()
        invariant
            i <= v@.len(),
            r@ == v@.take(i as int),
        decreases v.len() - i,
    {
        r.push(v[i].clone());
        assert(v@.take(i + 1) =~= v@.take(i as int).push(v@[i as int]));
        i = i + 1;
    }
    assert(v@.take(i as int) =~= v@);
    assert(r.deep_view() =~= v.deep_view());
    r
}

/// Whether a list holds a string.
pub fn has_name(v: &Vec<String>, s: &str) -> (r: bool)
    ensures
        r == v.deep_view().contains(s@),
{
    let mut i: usize = 0;
    while i < v.len()
        invariant
            i <= v@.len(),
            forall|j: int| 0 <= j < i ==> v.deep_view()[j] != s@,
        decreases v.len() - i,
    {
        if eq(v[i].as_str(), s) {
            assert(v.deep_view()[i as int] == s@);
            return true;
        }
        i = i + 1;
    }
    false
}

/// The text that `String::from_utf8_lossy` reads from a byte string: the
/// bytes decoded, with U+FFFD for what is not UTF-8.
pub uninterp spec fn lossy(b: Seq<u8>) -> Seq<char>;

/// Decodes a byte string with `String::from_utf8_lossy`. Where the bytes
/// are UTF-8 the text is the one they encode.
#[verifier::external_body]
pub(crate) fn from_utf8_lossy(b: &[u8]) -> (r: String)
    ensures
        r@ == lossy(b@),
        vstd::utf8::valid_utf8(b@) ==> r@ == vstd::utf8::decode_utf8(b@),
{
    String::from_utf8_lossy(b).into_owned()
}

/// The UTF-8 bytes of a text.
pub fn bytes_of(s: &str) -> (r: Vec<u8>)
    ensures
        r@ == vstd::utf8::encode_utf8(s@),
{
    s.as_bytes_vec()
}


// ---------- letter case ----------

/// An ASCII capital letter made small; any other character as it is.
pub open spec fn small(c: char) -> char {
    if 'A' <= c <= 'Z' {
        (c as int + 32) as char
    } else {
        c
    }
}

pub open spec fn smalls(s: Seq<char>) -> Seq<char> {
    s.map_values(|c: char| small(c))
}

fn small_of(c: char) -> (r: char)
    ensures
        r == small(c),
{
    if 'A' <= c && c <= 'Z' {
        ((c as u8) + 32) as char
    } else {
        c
    }
}

/// A text with its ASCII letters in lower case.
pub fn to_small(s: &str) -> (r: String)
    ensures
        r@ == smalls(s@),
{
    let v = chars_of(s);
    let mut out: Vec<char> = Vec::new();
    let mut i: usize = 0;
    while i < v.len()
        invariant
            v@ == s@,
            i <= v@.len(),
            out@.len() == i,
            forall|k: int| 0 <= k < i ==> #[trigger] out@[k] == small(s@[k]),
        decreases v.len() - i,
    {
        out.push(small_of(v[i]));
        i = i + 1;
    }
    let r = string_of(out.as_slice(), 0, out.len());
    assert(r@ =~= smalls(s@));
    r
}

/// Whether two texts are equal but for the case of ASCII letters.
pub fn eq_ascii_case(a: &str, b: &str) -> (r: bool)
    ensures
        r == (smalls(a@) == smalls(b@)),
{
    let x = chars_of(a);
    let y = chars_of(b);
    if x.len() != y.len() {
        assert(smalls(a@).len() != smalls(b@).len());
        return false;
    }
    let mut i: usize = 0;
    while i < x.len()
        invariant
            x@ == a@,
            y@ == b@,
            x@.len() == y@.len(),
            i <= x@.len(),
            forall|j: int| 0 <= j < i ==> small(x@[j]) == small(y@[j]),
        decreases x.len() - i,
    {
        if small_of(x[i]) != small_of(y[i]) {
            assert(smalls(a@)[i as int] != smalls(b@)[i as int]);
            return false;
        }
        i = i + 1;
    }
    assert(smalls(a@) =~= smalls(b@));
    true
}

/// The lower case of a text, as Unicode defines it.
pub uninterp spec fn lowercase(s: Seq<char>) -> Seq<char>;

/// The lower case of a text (`str::to_lowercase`): a function of the text
/// alone.
#[verifier::external_body]
pub(crate) fn to_lowercase(s: &str) -> (r: String)
    ensures
        r@ == lowercase(s@),
{
    s.to_lowercase()
}

/// Whether two lists hold the same strings in the same order.
pub fn same_list(a: &Vec<String>, b: &Vec<String>) -> (r: bool)
    ensures
        r == (a.deep_view() == b.deep_view()),
{
    let ghost x = a.deep_view();
    let ghost y = b.deep_view();
    if a.len() != b.len() {
        assert(x.len() != y.len());
        return false;
    }
    let mut i: usize = 0;
    while i < a.len()
        invariant
            x == a.deep_view(),
            y == b.deep_view(),
            a@.len() == b@.len(),
            i <= a@.len(),
            forall|j: int| 0 <= j < i ==> x[j] == y[j],
        decreases a.len() - i,
    {
        if !eq(a[i].as_str(), b[i].as_str()) {
            assert(x[i as int] != y[i as int]);
            return false;
        }
        i = i + 1;
    }
    assert(x =~= y);
    true
}

/// A copy of an optional string.
pub fn opt_copy(s: &Option<String>) -> (r: Option<String>)
    ensures
        r == *s,
        r.deep_view() == s.deep_view(),
{
    match s {
        Some(x) => Some(x.clone()),
        None => None,
    }
}

/// An optional string, borrowed.
pub fn opt_str(s: &Option<String>) -> (r: Option<&str>)
    ensures
        r.deep_view() == s.deep_view(),
{
    match s {
        Some(x) => Some(x.as_str()),
        None => None,
    }
}

/// An optional string slice as a string of its own.
pub fn opt_own(s: Option<&str>) -> (r: Option<String>)
    ensures
        r.deep_view() == s.deep_view(),
{
    match s {
        Some(x) => Some(x.to_owned()),
        None => None,
    }
}

/// One ASCII character is one byte.
pub proof fn ascii_is_one_byte(c: char)
    requires
        c as u32 <= 0x7f,
    ensures
        vstd::utf8::encode_utf8(seq![c]).len() == 1,
{
    assert(seq![c].drop_first() =~= Seq::empty());
    assert(vstd::utf8::encode_utf8(seq![c].drop_first()) =~= Seq::<u8>::empty());
}

/// A larger number is written in at least as many bytes.
pub proof fn dec_grows(a: nat, b: nat)
    requires
        a <= b,
    ensures
        vstd::utf8::encode_utf8(dec(a)).len() <= vstd::utf8::encode_utf8(dec(b)).len(),
    decreases b,
{
    ascii_is_one_byte(digit((a % 10) as int));
    ascii_is_one_byte(digit((b % 10) as int));
    if b >= 10 {
        assert(dec(b) =~= dec(b / 10) + seq![digit((b % 10) as int)]);
        bytes_add(dec(b / 10), seq![digit((b % 10) as int)]);
        if a >= 10 {
            assert(dec(a) =~= dec(a / 10) + seq![digit((a % 10) as int)]);
            bytes_add(dec(a / 10), seq![digit((a % 10) as int)]);
            dec_grows(a / 10, b / 10);
        }
    }
}

} // verus!
