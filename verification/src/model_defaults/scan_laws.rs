//! How a settings body is read, told by its characters.
use crate::json;
use crate::json::{JsonView, MemberView};
use crate::model_defaults::document;
use crate::model_defaults::scan;
use crate::model_defaults::scan::Fault;
use crate::model_defaults::SelectorView;
use crate::text;
use vstd::prelude::*;

verus! {

// ---------- strings ----------

/// A character that stands for itself in a string.
pub open spec fn itself(c: char) -> bool {
    ' ' <= c && c != '"' && c != '\\'
}

/// Such characters between quotes are the string they spell.
pub proof fn a_plain_string_is_read(b: Seq<char>, i: int, s: Seq<char>)
    requires
        0 <= i,
        i + s.len() + 2 <= b.len(),
        b[i] == '"',
        b[i + 1 + s.len()] == '"',
        forall|k: int| 0 <= k < s.len() ==> itself(#[trigger] s[k]) && b[i + 1 + k] == s[k],
    ensures
        scan::string(b, i) == Ok::<(Seq<char>, nat), Fault>((s, s.len() + 2)),
{
    plain_rest(b, i + 1, s, 0, seq![]);
    assert(Seq::<char>::empty() + s =~= s);
    assert(s.skip(0) =~= s);
}

proof fn plain_rest(b: Seq<char>, from: int, s: Seq<char>, k: int, out: Seq<char>)
    requires
        0 <= from,
        0 <= k <= s.len(),
        from + s.len() < b.len(),
        b[from + s.len()] == '"',
        forall|j: int| 0 <= j < s.len() ==> itself(#[trigger] s[j]) && b[from + j] == s[j],
    ensures
        scan::string_rest(b, from + k, out) == Ok::<(Seq<char>, nat), Fault>(
            (out + s.skip(k), (s.len() - k + 1) as nat),
        ),
    decreases s.len() - k,
{
    if k == s.len() {
        assert(out + s.skip(k) =~= out);
    } else {
        assert(itself(s[k]) && b[from + k] == s[k]);
        plain_rest(b, from, s, k + 1, out.push(s[k]));
        assert(out.push(s[k]) + s.skip(k + 1) =~= out + s.skip(k));
    }
}

/// A character that must be escaped is refused where it is not.
pub proof fn a_bare_control_character_is_refused(b: Seq<char>, i: int, out: Seq<char>)
    requires
        0 <= i < b.len(),
        b[i] < ' ',
    ensures
        scan::string_rest(b, i, out) is Err,
{
}

/// What each escape spells.
pub proof fn what_an_escape_spells(b: Seq<char>, i: int)
    requires
        0 <= i < b.len(),
    ensures
        ({
            let e = scan::escape(b, i);
            &&& b[i] == '"' || b[i] == '\\' || b[i] == '/' ==> e == Ok::<(char, nat), Fault>(
                (b[i], 1),
            )
            &&& b[i] == 'n' ==> e == Ok::<(char, nat), Fault>(('\n', 1))
            &&& b[i] == 'r' ==> e == Ok::<(char, nat), Fault>(('\r', 1))
            &&& b[i] == 't' ==> e == Ok::<(char, nat), Fault>(('\t', 1))
            &&& b[i] == 'b' ==> e == Ok::<(char, nat), Fault>(('\u{8}', 1))
            &&& b[i] == 'f' ==> e == Ok::<(char, nat), Fault>(('\u{c}', 1))
            &&& b[i] != '"' && b[i] != '\\' && b[i] != '/' && b[i] != 'n' && b[i] != 'r' && b[i]
                != 't' && b[i] != 'b' && b[i] != 'f' && b[i] != 'u' ==> e is Err
        }),
{
}

/// A digit in hex.
pub open spec fn hex(c: char, d: int) -> bool {
    ('0' <= c <= '9' && d == c as int - 48) || ('a' <= c <= 'f' && d == c as int - 87) || ('A' <= c
        <= 'F' && d == c as int - 55)
}

proof fn four_hex(b: Seq<char>, i: int, w: int, x: int, y: int, z: int)
    requires
        0 <= i,
        i + 4 <= b.len(),
        hex(b[i], w),
        hex(b[i + 1], x),
        hex(b[i + 2], y),
        hex(b[i + 3], z),
    ensures
        scan::hex_run(b, i, 4, 0) == Ok::<int, Fault>(((w * 16 + x) * 16 + y) * 16 + z),
{
    reveal_with_fuel(scan::hex_run, 5);
}

/// A character by its number: four digits in hex where it is no surrogate,
/// and two of them, high and low, where it takes two.
pub proof fn a_numbered_character_is_read(
    b: Seq<char>,
    i: int,
    w: int,
    x: int,
    y: int,
    z: int,
    p: int,
    q: int,
    r: int,
    s: int,
)
    requires
        0 <= i,
        i + 4 <= b.len(),
        hex(b[i], w),
        hex(b[i + 1], x),
        hex(b[i + 2], y),
        hex(b[i + 3], z),
    ensures
        ({
            let n = ((w * 16 + x) * 16 + y) * 16 + z;
            let m = ((p * 16 + q) * 16 + r) * 16 + s;
            let two = i + 10 <= b.len() && b[i + 4] == '\\' && b[i + 5] == 'u' && hex(b[i + 6], p)
                && hex(b[i + 7], q) && hex(b[i + 8], r) && hex(b[i + 9], s);
            &&& n < 0xD800 || n > 0xDFFF ==> scan::unicode(b, i) == Ok::<(char, nat), Fault>(
                (n as char, 4),
            )
            &&& 0xDC00 <= n <= 0xDFFF ==> scan::unicode(b, i) is Err
            &&& 0xD800 <= n <= 0xDBFF && two && 0xDC00 <= m <= 0xDFFF ==> scan::unicode(b, i)
                == Ok::<(char, nat), Fault>(
                ((0x10000 + (n - 0xD800) * 1024 + (m - 0xDC00)) as char, 10),
            )
            &&& 0xD800 <= n <= 0xDBFF && two && !(0xDC00 <= m <= 0xDFFF) ==> scan::unicode(b, i)
                is Err
        }),
{
    four_hex(b, i, w, x, y, z);
    if i + 10 <= b.len() && hex(b[i + 6], p) && hex(b[i + 7], q) && hex(b[i + 8], r) && hex(
        b[i + 9],
        s,
    ) {
        four_hex(b, i + 6, p, q, r, s);
    }
}

// ---------- numbers ----------

proof fn run_is(b: Seq<char>, i: int, n: int)
    requires
        0 <= i,
        0 <= n,
        i + n <= b.len(),
        forall|k: int| i <= k < i + n ==> scan::decimal(#[trigger] b[k]),
        i + n < b.len() ==> !scan::decimal(b[i + n]),
    ensures
        scan::run(b, i) == n,
    decreases n,
{
    if n > 0 {
        assert(scan::decimal(b[i]));
        run_is(b, i + 1, n - 1);
    }
}

/// A whole number ends where its digits do; one that begins with zero ends
/// there.
pub proof fn a_whole_number_is_read(b: Seq<char>, i: int, n: int)
    requires
        0 <= i,
        n >= 1,
        i + n <= b.len(),
        forall|k: int| i <= k < i + n ==> '0' <= #[trigger] b[k] <= '9',
        b[i] != '0' || n == 1,
        i + n < b.len() ==> !('0' <= b[i + n] <= '9') && b[i + n] != '.' && b[i + n] != 'e' && b[i
            + n] != 'E',
    ensures
        scan::number(b, i) == Ok::<nat, Fault>(n as nat),
{
    assert forall|k: int| i <= k < i + n implies scan::decimal(#[trigger] b[k]) by {}
    assert(scan::decimal(b[i]));
    run_is(b, i, n);
}

/// A revision is a number without sign or leading zero that fits.
pub proof fn what_is_a_revision(n: nat)
    ensures
        n <= i64::MAX ==> document::revision(text::dec(n)) == Ok::<i64, Fault>(n as i64),
        n > i64::MAX ==> document::revision(text::dec(n)) is Err,
{
    text::dec_reads_back(n);
    dec_is_digits(n);
}

proof fn dec_is_digits(n: nat)
    ensures
        document::all_digits(text::dec(n)),
        n > 0 ==> text::dec(n)[0] != '0',
        n < 10 ==> text::dec(n).len() == 1,
    decreases n,
{
    let d = text::dec(n);
    let last = text::digit((n % 10) as int);
    assert('0' <= last <= '9');
    if n >= 10 {
        dec_is_digits(n / 10);
        let w = text::dec(n / 10);
        text::dec_reads_back(n / 10);
        assert(d[0] == w[0]);
        assert forall|k: int| 0 <= k < d.len() implies scan::decimal(#[trigger] d[k]) by {
            if k < w.len() {
                assert(d[k] == w[k]);
            }
        }
    } else {
        assert(n % 10 == n);
        assert(d =~= seq![last]);
    }
}

/// Nothing else is one.
pub proof fn what_is_no_revision(s: Seq<char>)
    requires
        s.len() == 0 || (exists|i: int|
            0 <= i < s.len() && !('0' <= #[trigger] s[i] <= '9')) || (s.len() > 1 && s[0] == '0'),
    ensures
        document::revision(s) is Err,
{
    if exists|i: int| 0 <= i < s.len() && !('0' <= #[trigger] s[i] <= '9') {
        let i = choose|i: int| 0 <= i < s.len() && !('0' <= #[trigger] s[i] <= '9');
        assert(!scan::decimal(s[i]));
    }
}

// ---------- white space and words ----------

/// White space in front of a value is passed over.
pub proof fn white_space_is_passed_over(b: Seq<char>, i: int, n: int)
    requires
        0 <= i,
        0 <= n,
        i + n <= b.len(),
        forall|k: int|
            i <= k < i + n ==> #[trigger] b[k] == ' ' || b[k] == '\n' || b[k] == '\r' || b[k]
                == '\t',
        i + n < b.len() ==> b[i + n] != ' ' && b[i + n] != '\n' && b[i + n] != '\r' && b[i + n]
            != '\t',
    ensures
        scan::blanks(b, i) == n,
    decreases n,
{
    if n > 0 {
        assert(scan::blank(b[i]));
        white_space_is_passed_over(b, i + 1, n - 1);
    }
}

/// A body is refused where it is over 20480 bytes, or where its config is over
/// 16384, or where one of its two fields is missing.
pub proof fn what_body_is_too_large(raw: Seq<char>, rev: Seq<char>, n: nat)
    ensures
        vstd::utf8::encode_utf8(raw).len() > 20480 ==> document::scanned(raw) is Err,
        n > 16384 ==> document::fields(
            Some(scan::CaptureView { revision: Some(rev), config_len: Some(n) }),
        ) is Err,
        n <= 16384 ==> document::fields(
            Some(scan::CaptureView { revision: Some(rev), config_len: Some(n) }),
        ) == document::revision(rev),
        document::fields(Some(scan::CaptureView { revision: None, config_len: Some(n) })) is Err,
        document::fields(Some(scan::CaptureView { revision: Some(rev), config_len: None })) is Err,
{
}

/// A body holds its two fields, each once, and no other.
pub proof fn what_a_body_may_hold(b: Seq<char>, i: int, keys: Seq<Seq<char>>, key: Seq<char>, n: nat)
    requires
        0 <= i < b.len(),
        scan::blanks(b, i) == 0,
        scan::string(b, i) == Ok::<(Seq<char>, nat), Fault>((key, n)),
    ensures
        keys.contains(key) ==> scan::key_at(b, i, keys, true) is Err && scan::key_at(
            b,
            i,
            keys,
            false,
        ) is Err,
        key != "expected_revision"@ && key != "config"@ ==> scan::key_at(b, i, keys, true) is Err,
{
}

// ---------- selectors ----------

/// A selector names a model, or leaves it to the provider, and holds nothing
/// else beside a model.
pub proof fn what_a_selector_says(m: Seq<char>, extra: MemberView)
    requires
        extra.key != "mode"@,
        extra.key != "model"@,
    ensures
        ({
            let mode = |s: Seq<char>| MemberView { key: "mode"@, value: JsonView::Str(s) };
            let model = MemberView { key: "model"@, value: JsonView::Str(m) };
            &&& document::read_selector(JsonView::Obj(seq![mode("model"@), model])) == Some(
                SelectorView::Model(m),
            )
            &&& document::read_selector(JsonView::Obj(seq![mode("provider_default"@)])) == Some(
                SelectorView::ProviderDefault,
            )
            &&& document::read_selector(JsonView::Obj(seq![mode("model"@)])) is None
            &&& document::read_selector(JsonView::Obj(seq![mode("model"@), model, extra])) is None
            &&& document::read_selector(JsonView::Obj(seq![model])) is None
        }),
{
    reveal_strlit("mode");
    reveal_strlit("model");
    reveal_strlit("provider_default");
    assert("mode"@.len() == 4 && "model"@.len() == 5 && "provider_default"@.len() == 16);
    reveal_with_fuel(json::entry, 4);
    let mode = MemberView { key: "mode"@, value: JsonView::Str("model"@) };
    let model = MemberView { key: "model"@, value: JsonView::Str(m) };
    let a = seq![mode, model];
    assert(a.drop_first()[0] == model);
    assert(document::only(a, "mode"@, "model"@));
    let c = seq![mode];
    assert(c.drop_first() =~= Seq::empty());
    let d = seq![mode, model, extra];
    assert(d[2].key == extra.key);
    assert(!document::only(d, "mode"@, "model"@));
    let e = seq![model];
    assert(e.drop_first() =~= Seq::empty());
}

} // verus!
