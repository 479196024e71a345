//! A walk over a JSON text that refuses what a parser would hide: an
//! object that repeats a key, and nesting too deep to walk. It also cuts
//! the two fields out of a settings body.
use crate::error::Error;
use crate::text;
use vstd::prelude::*;

verus! {

/// A value nested this deep is refused.
pub const MAX_JSON_DEPTH: usize = 128;

/// Why a text is refused.
pub struct Fault {
    pub code: Seq<char>,
    pub message: Seq<char>,
}

pub open spec fn fail(message: Seq<char>) -> Fault {
    Fault { code: "invalid_config"@, message }
}

pub open spec fn cut_short() -> Fault {
    fail("unexpected end of JSON"@)
}

pub open spec fn too_deep() -> Fault {
    fail("JSON nesting exceeds 128"@)
}

pub open spec fn blank(c: char) -> bool {
    c == ' ' || c == '\n' || c == '\r' || c == '\t'
}

/// How many blanks stand at a position.
pub open spec fn blanks(b: Seq<char>, i: int) -> nat
    decreases b.len() - i,
{
    if 0 <= i < b.len() && blank(b[i]) {
        1 + blanks(b, i + 1)
    } else {
        0
    }
}

/// The first byte of a character's UTF-8 form, as a character.
pub open spec fn lead(c: char) -> char {
    let n = c as int;
    if n < 0x80 {
        c
    } else if n < 0x800 {
        (0xC0 + n / 64) as char
    } else if n < 0x10000 {
        (0xE0 + n / 4096) as char
    } else {
        (0xF0 + n / 262144) as char
    }
}

/// A wanted character stands at a position, or why not.
pub open spec fn wanted(b: Seq<char>, i: int, want: char) -> Option<Fault> {
    if i >= b.len() {
        Some(cut_short())
    } else if b[i] == want {
        None
    } else {
        Some(
            fail(
                "expected '"@ + seq![want] + "', found '"@ + seq![lead(b[i])] + "'"@,
            ),
        )
    }
}

// ---------- strings ----------

pub open spec fn hex_value(c: char) -> Option<int> {
    if '0' <= c <= '9' {
        Some(c as int - '0' as int)
    } else if 'a' <= c <= 'f' {
        Some(c as int - 'a' as int + 10)
    } else if 'A' <= c <= 'F' {
        Some(c as int - 'A' as int + 10)
    } else {
        None
    }
}

/// The value of `n` hexadecimal digits at a position, behind those that
/// make up `value`.
pub open spec fn hex_run(b: Seq<char>, i: int, n: nat, value: int) -> Result<int, Fault>
    decreases n,
{
    if n == 0 {
        Ok(value)
    } else if i >= b.len() {
        Err(cut_short())
    } else {
        match hex_value(b[i]) {
            Some(d) => hex_run(b, i + 1, (n - 1) as nat, value * 16 + d),
            None => Err(fail("invalid unicode escape"@)),
        }
    }
}

/// The character of a `\u` escape whose digits stand at a position, and
/// how many characters it takes from there.
pub open spec fn unicode(b: Seq<char>, i: int) -> Result<(char, nat), Fault> {
    match hex_run(b, i, 4, 0) {
        Err(f) => Err(f),
        Ok(unit) => if 0xD800 <= unit <= 0xDBFF {
            if i + 4 >= b.len() {
                Err(cut_short())
            } else if b[i + 4] != '\\' {
                Err(fail("lone unicode surrogate"@))
            } else if i + 5 >= b.len() {
                Err(cut_short())
            } else if b[i + 5] != 'u' {
                Err(fail("lone unicode surrogate"@))
            } else {
                match hex_run(b, i + 6, 4, 0) {
                    Err(f) => Err(f),
                    Ok(low) => if 0xDC00 <= low <= 0xDFFF {
                        Ok(
                            (
                                (0x10000 + (unit - 0xD800) * 1024 + (low - 0xDC00)) as char,
                                10,
                            ),
                        )
                    } else {
                        Err(fail("invalid unicode surrogate pair"@))
                    },
                }
            }
        } else if 0xDC00 <= unit <= 0xDFFF {
            Err(fail("lone unicode surrogate"@))
        } else {
            Ok((unit as char, 4))
        },
    }
}

/// The character that an escape writes, from behind its backslash, and
/// how many characters it takes.
pub open spec fn escape(b: Seq<char>, i: int) -> Result<(char, nat), Fault> {
    if i >= b.len() {
        Err(cut_short())
    } else {
        match b[i] {
            '"' => Ok(('"', 1)),
            '\\' => Ok(('\\', 1)),
            '/' => Ok(('/', 1)),
            'b' => Ok(('\u{8}', 1)),
            'f' => Ok(('\u{c}', 1)),
            'n' => Ok(('\n', 1)),
            'r' => Ok(('\r', 1)),
            't' => Ok(('\t', 1)),
            'u' => match unicode(b, i + 1) {
                Err(f) => Err(f),
                Ok((c, n)) => Ok((c, n + 1)),
            },
            _ => Err(fail("invalid string escape"@)),
        }
    }
}

/// The rest of a string, behind `out`, and how many characters it takes
/// with its closing quote.
pub open spec fn string_rest(b: Seq<char>, i: int, out: Seq<char>) -> Result<
    (Seq<char>, nat),
    Fault,
>
    decreases
            (if i < b.len() {
                b.len() - i
            } else {
                0
            }),
{
    if i >= b.len() {
        Err(cut_short())
    } else if b[i] == '"' {
        Ok((out, 1))
    } else if b[i] == '\\' {
        match escape(b, i + 1) {
            Err(f) => Err(f),
            Ok((c, n)) => match string_rest(b, i + 1 + n, out.push(c)) {
                Err(f) => Err(f),
                Ok((s, m)) => Ok((s, 1 + n + m)),
            },
        }
    } else if !(' ' <= b[i]) {
        Err(fail("unescaped control character in string"@))
    } else {
        match string_rest(b, i + 1, out.push(b[i])) {
            Err(f) => Err(f),
            Ok((s, m)) => Ok((s, 1 + m)),
        }
    }
}

/// The string that stands at a position, and how many characters it takes.
pub open spec fn string(b: Seq<char>, i: int) -> Result<(Seq<char>, nat), Fault> {
    match wanted(b, i, '"') {
        Some(f) => Err(f),
        None => match string_rest(b, i + 1, seq![]) {
            Err(f) => Err(f),
            Ok((s, n)) => Ok((s, n + 1)),
        },
    }
}

// ---------- numbers and words ----------

pub open spec fn decimal(c: char) -> bool {
    '0' <= c <= '9'
}

/// How many digits stand at a position.
pub open spec fn run(b: Seq<char>, i: int) -> nat
    decreases b.len() - i,
{
    if 0 <= i < b.len() && decimal(b[i]) {
        1 + run(b, i + 1)
    } else {
        0
    }
}

pub open spec fn is_at(b: Seq<char>, i: int, c: char) -> bool {
    0 <= i < b.len() && b[i] == c
}

/// The end of the exponent of a number, if one stands at a position.
pub open spec fn exponent(b: Seq<char>, i: int) -> Result<int, Fault> {
    if is_at(b, i, 'e') || is_at(b, i, 'E') {
        let k = if is_at(b, i + 1, '+') || is_at(b, i + 1, '-') {
            i + 2
        } else {
            i + 1
        };
        if run(b, k) == 0 {
            Err(fail("invalid number"@))
        } else {
            Ok(k + run(b, k))
        }
    } else {
        Ok(i)
    }
}

/// The end of the fraction of a number, if one stands at a position.
pub open spec fn fraction(b: Seq<char>, i: int) -> Result<int, Fault> {
    if is_at(b, i, '.') {
        if run(b, i + 1) == 0 {
            Err(fail("invalid number"@))
        } else {
            Ok(i + 1 + run(b, i + 1))
        }
    } else {
        Ok(i)
    }
}

/// The end of the integer part of a number.
pub open spec fn integer_part(b: Seq<char>, i: int) -> Result<int, Fault> {
    let k = if is_at(b, i, '-') {
        i + 1
    } else {
        i
    };
    if k >= b.len() {
        Err(cut_short())
    } else if b[k] == '0' {
        Ok(k + 1)
    } else if decimal(b[k]) {
        Ok(k + run(b, k))
    } else {
        Err(fail("invalid number"@))
    }
}

/// How many characters the number at a position takes.
pub open spec fn number(b: Seq<char>, i: int) -> Result<nat, Fault> {
    match integer_part(b, i) {
        Err(f) => Err(f),
        Ok(k) => match fraction(b, k) {
            Err(f) => Err(f),
            Ok(m) => match exponent(b, m) {
                Err(f) => Err(f),
                Ok(e) => Ok((e - i) as nat),
            },
        },
    }
}

pub open spec fn literal(b: Seq<char>, i: int, word: Seq<char>) -> Result<nat, Fault> {
    if text::at(b, word, i) {
        Ok(word.len())
    } else {
        Err(fail("invalid literal"@))
    }
}

// ---------- values ----------

/// What was cut out of a settings body: the text of the revision, and the
/// bytes that the config takes.
pub struct CaptureView {
    pub revision: Option<Seq<char>>,
    pub config_len: Option<nat>,
}

pub open spec fn captured(cap: Option<CaptureView>, key: Seq<char>, lexeme: Seq<char>) -> Option<
    CaptureView,
> {
    match cap {
        Some(c) => if key == "expected_revision"@ {
            Some(CaptureView { revision: Some(lexeme), ..c })
        } else if key == "config"@ {
            Some(CaptureView { config_len: Some(vstd::utf8::encode_utf8(lexeme).len()), ..c })
        } else {
            Some(c)
        },
        None => None,
    }
}

/// How many characters the value at a position takes, with the blanks
/// before it.
pub open spec fn value(b: Seq<char>, i: int, depth: nat) -> Result<nat, Fault>
    decreases MAX_JSON_DEPTH - depth, b.len() - i, 3nat,
{
    let k = i + blanks(b, i);
    if depth >= MAX_JSON_DEPTH {
        Err(too_deep())
    } else if k >= b.len() {
        Err(cut_short())
    } else {
        let rest = match b[k] {
            '{' => match object(b, k, depth, None) {
                Err(f) => Err(f),
                Ok((n, c)) => Ok(n),
            },
            '[' => array(b, k, depth),
            '"' => match string(b, k) {
                Err(f) => Err(f),
                Ok((s, n)) => Ok(n),
            },
            't' => literal(b, k, "true"@),
            'f' => literal(b, k, "false"@),
            'n' => literal(b, k, "null"@),
            _ => if b[k] == '-' || decimal(b[k]) {
                number(b, k)
            } else {
                Err(fail("invalid JSON value"@))
            },
        };
        match rest {
            Err(f) => Err(f),
            Ok(n) => Ok((k - i + n) as nat),
        }
    }
}

pub open spec fn array(b: Seq<char>, i: int, depth: nat) -> Result<nat, Fault>
    decreases MAX_JSON_DEPTH - depth, b.len() - i, 2nat,
{
    let k = i + 1 + blanks(b, i + 1);
    if k >= b.len() {
        Err(cut_short())
    } else if b[k] == ']' {
        Ok((k + 1 - i) as nat)
    } else {
        match items(b, k, depth) {
            Err(f) => Err(f),
            Ok(n) => Ok((k - i + n) as nat),
        }
    }
}

/// How many characters the items of an array take, with the bracket that
/// closes it.
pub open spec fn items(b: Seq<char>, i: int, depth: nat) -> Result<nat, Fault>
    decreases MAX_JSON_DEPTH - depth, b.len() - i, 1nat,
{
    if depth >= MAX_JSON_DEPTH {
        Err(too_deep())
    } else {
        match value(b, i, depth + 1) {
            Err(f) => Err(f),
            Ok(n) => {
                let k = i + n + blanks(b, i + n);
                if k >= b.len() {
                    Err(cut_short())
                } else if b[k] == ',' {
                    match items(b, k + 1, depth) {
                        Err(f) => Err(f),
                        Ok(m) => Ok((k + 1 - i + m) as nat),
                    }
                } else if b[k] == ']' {
                    Ok((k + 1 - i) as nat)
                } else {
                    Err(fail("expected ',' or ']'"@))
                }
            },
        }
    }
}

pub open spec fn object(b: Seq<char>, i: int, depth: nat, cap: Option<CaptureView>) -> Result<
    (nat, Option<CaptureView>),
    Fault,
>
    decreases MAX_JSON_DEPTH - depth, b.len() - i, 2nat,
{
    let k = i + 1 + blanks(b, i + 1);
    if depth >= MAX_JSON_DEPTH {
        Err(too_deep())
    } else {
        match wanted(b, i, '{') {
            Some(f) => Err(f),
            None => if k >= b.len() {
                Err(cut_short())
            } else if b[k] == '}' {
                Ok(((k + 1 - i) as nat, cap))
            } else {
                match members(b, k, seq![], depth, cap) {
                    Err(f) => Err(f),
                    Ok((n, c)) => Ok(((k - i + n) as nat, c)),
                }
            },
        }
    }
}

/// The key of the member at a position, and where the text of its value
/// starts; refused where the key is among `keys`, or where the object is a
/// settings body and has no such field.
pub open spec fn key_at(
    b: Seq<char>,
    i: int,
    keys: Seq<Seq<char>>,
    body: bool,
) -> Result<(Seq<char>, nat), Fault> {
    let k = i + blanks(b, i);
    match string(b, k) {
        Err(f) => Err(f),
        Ok((key, n)) => {
            let c = k + n + blanks(b, k + n);
            if keys.contains(key) {
                Err(fail("duplicate key '"@ + key + "'"@))
            } else {
                match wanted(b, c, ':') {
                    Some(f) => Err(f),
                    None => if body && key != "expected_revision"@ && key != "config"@ {
                        Err(
                            Fault {
                                code: "invalid_request"@,
                                message: "unknown settings field '"@ + key + "'"@,
                            },
                        )
                    } else {
                        Ok((key, (c + 1 + blanks(b, c + 1) - i) as nat))
                    },
                }
            }
        },
    }
}

/// How many characters the members of an object take, with the brace that
/// closes it, and what was cut out of them.
pub open spec fn members(
    b: Seq<char>,
    i: int,
    keys: Seq<Seq<char>>,
    depth: nat,
    cap: Option<CaptureView>,
) -> Result<(nat, Option<CaptureView>), Fault>
    decreases MAX_JSON_DEPTH - depth, b.len() - i, 1nat,
{
    if depth >= MAX_JSON_DEPTH {
        Err(too_deep())
    } else {
        match key_at(b, i, keys, cap is Some) {
            Err(f) => Err(f),
            Ok((key, w)) => match value(b, i + w, depth + 1) {
                Err(f) => Err(f),
                Ok(n) => {
                    let s = i + w;
                    let now = captured(cap, key, b.subrange(s, s + n));
                    let k = s + n + blanks(b, s + n);
                    if k >= b.len() {
                        Err(cut_short())
                    } else if b[k] == ',' {
                        match members(b, k + 1, keys.push(key), depth, now) {
                            Err(f) => Err(f),
                            Ok((m, c)) => Ok(((k + 1 - i + m) as nat, c)),
                        }
                    } else if b[k] == '}' {
                        Ok(((k + 1 - i) as nat, now))
                    } else {
                        Err(fail("expected ',' or '}'"@))
                    }
                },
            },
        }
    }
}

// ---------- the walk ----------

/// A step ended where a scan says, or with its fault.
pub open spec fn ends(r: Result<usize, Error>, b: Seq<char>, i: int, s: Result<nat, Fault>) -> bool {
    match (r, s) {
        (Ok(k), Ok(n)) => k == i + n && i < k <= b.len(),
        (Err(e), Err(f)) => e.says(f.code, f.message),
        _ => false,
    }
}

fn fault(message: String) -> (e: Error)
    ensures
        e.says("invalid_config"@, message@),
{
    Error::Invalid { code: "invalid_config", message }
}

pub(crate) fn fault_cut_short() -> (e: Error)
    ensures
        e.says(cut_short().code, cut_short().message),
{
    fault("unexpected end of JSON".to_owned())
}

pub(crate) fn skip_blanks(b: &Vec<char>, i: usize) -> (k: usize)
    requires
        i <= b@.len(),
    ensures
        k == i + blanks(b@, i as int),
        k <= b@.len(),
{
    let mut k: usize = i;
    while k < b.len() && (b[k] == ' ' || b[k] == '\n' || b[k] == '\r' || b[k] == '\t')
        invariant
            i <= k <= b@.len(),
            blanks(b@, i as int) == k - i + blanks(b@, k as int),
        decreases b.len() - k,
    {
        k = k + 1;
    }
    k
}

/// The first byte of a character's UTF-8 form, as a character.
fn lead_of(c: char) -> (r: char)
    ensures
        r == lead(c),
{
    let n: u32 = c as u32;
    if n < 0x80 {
        c
    } else if n < 0x800 {
        (0xC0 + n / 64) as u8 as char
    } else if n < 0x10000 {
        (0xE0 + n / 4096) as u8 as char
    } else {
        (0xF0 + n / 262144) as u8 as char
    }
}

fn one(c: char) -> (r: String)
    ensures
        r@ == seq![c],
{
    let v = vec![c];
    let r = text::string_of(v.as_slice(), 0, 1);
    assert(r@ =~= seq![c]);
    r
}

fn want(b: &Vec<char>, i: usize, c: char) -> (r: Option<Error>)
    requires
        i <= b@.len(),
    ensures
        match (r, wanted(b@, i as int, c)) {
            (Some(e), Some(f)) => e.says(f.code, f.message),
            (None, None) => true,
            _ => false,
        },
{
    if i >= b.len() {
        Some(fault_cut_short())
    } else if b[i] == c {
        None
    } else {
        Some(
            fault(
                "expected '".to_owned().concat(one(c).as_str()).concat("', found '").concat(
                    one(lead_of(b[i])).as_str(),
                ).concat("'"),
            ),
        )
    }
}

fn hex_value_of(c: char) -> (r: Option<u32>)
    ensures
        match r {
            Some(d) => hex_value(c) == Some(d as int) && d < 16,
            None => hex_value(c) is None,
        },
{
    if '0' <= c && c <= '9' {
        Some(c as u32 - '0' as u32)
    } else if 'a' <= c && c <= 'f' {
        Some(c as u32 - 'a' as u32 + 10)
    } else if 'A' <= c && c <= 'F' {
        Some(c as u32 - 'A' as u32 + 10)
    } else {
        None
    }
}

fn hex4(b: &Vec<char>, i: usize) -> (r: Result<u32, Error>)
    requires
        i <= b@.len(),
    ensures
        match (r, hex_run(b@, i as int, 4, 0)) {
            (Ok(v), Ok(n)) => v == n && v < 0x10000 && i + 4 <= b@.len(),
            (Err(e), Err(f)) => e.says(f.code, f.message),
            _ => false,
        },
{
    let mut v: u32 = 0;
    let mut n: usize = 0;
    let end: usize = b.len();
    while n < 4
        invariant
            end == b@.len(),
            n <= 4,
            i + n <= b@.len(),
            n == 0 ==> v == 0,
            n == 1 ==> v < 0x10,
            n == 2 ==> v < 0x100,
            n == 3 ==> v < 0x1000,
            n == 4 ==> v < 0x10000,
            hex_run(b@, i as int, 4, 0) == hex_run(b@, i + n, (4 - n) as nat, v as int),
        decreases 4 - n,
    {
        if n >= end - i {
            return Err(fault_cut_short());
        }
        match hex_value_of(b[i + n]) {
            Some(d) => {
                v = v * 16 + d;
                n = n + 1;
            },
            None => {
                return Err(fault("invalid unicode escape".to_owned()));
            },
        }
    }
    Ok(v)
}

/// The character of a code point (`char::from_u32`): there is one where
/// the number is at most 0x10FFFF and no surrogate.
#[verifier::external_body]
fn char_of(n: u32) -> (r: Option<char>)
    ensures
        match r {
            Some(c) => n <= 0x10FFFF && !(0xD800 <= n <= 0xDFFF) && c == n as char,
            None => n > 0x10FFFF || 0xD800 <= n <= 0xDFFF,
        },
{
    char::from_u32(n)
}

fn read_unicode(b: &Vec<char>, i: usize) -> (r: Result<(char, usize), Error>)
    requires
        i <= b@.len(),
    ensures
        match (r, unicode(b@, i as int)) {
            (Ok((c, k)), Ok((d, n))) => c == d && k == i + n && k <= b@.len(),
            (Err(e), Err(f)) => e.says(f.code, f.message),
            _ => false,
        },
{
    let unit = match hex4(b, i) {
        Ok(v) => v,
        Err(e) => {
            return Err(e);
        },
    };
    let end: usize = b.len();
    if 0xD800 <= unit && unit <= 0xDBFF {
        if end - i <= 4 {
            return Err(fault_cut_short());
        }
        if b[i + 4] != '\\' {
            return Err(fault("lone unicode surrogate".to_owned()));
        }
        if end - i <= 5 {
            return Err(fault_cut_short());
        }
        if b[i + 5] != 'u' {
            return Err(fault("lone unicode surrogate".to_owned()));
        }
        let low = match hex4(b, i + 6) {
            Ok(v) => v,
            Err(e) => {
                return Err(e);
            },
        };
        if low < 0xDC00 || 0xDFFF < low {
            return Err(fault("invalid unicode surrogate pair".to_owned()));
        }
        let point: u32 = 0x10000 + (unit - 0xD800) * 1024 + (low - 0xDC00);
        match char_of(point) {
            Some(c) => Ok((c, i + 10)),
            None => Err(fault("invalid unicode scalar".to_owned())),
        }
    } else if 0xDC00 <= unit && unit <= 0xDFFF {
        Err(fault("lone unicode surrogate".to_owned()))
    } else {
        match char_of(unit) {
            Some(c) => Ok((c, i + 4)),
            None => Err(fault("invalid unicode scalar".to_owned())),
        }
    }
}

fn read_escape(b: &Vec<char>, i: usize) -> (r: Result<(char, usize), Error>)
    requires
        i <= b@.len(),
    ensures
        match (r, escape(b@, i as int)) {
            (Ok((c, k)), Ok((d, n))) => c == d && k == i + n && i < k <= b@.len(),
            (Err(e), Err(f)) => e.says(f.code, f.message),
            _ => false,
        },
{
    if i >= b.len() {
        return Err(fault_cut_short());
    }
    match b[i] {
        '"' => Ok(('"', i + 1)),
        '\\' => Ok(('\\', i + 1)),
        '/' => Ok(('/', i + 1)),
        'b' => Ok(('\u{8}', i + 1)),
        'f' => Ok(('\u{c}', i + 1)),
        'n' => Ok(('\n', i + 1)),
        'r' => Ok(('\r', i + 1)),
        't' => Ok(('\t', i + 1)),
        'u' => read_unicode(b, i + 1),
        _ => Err(fault("invalid string escape".to_owned())),
    }
}

/// Reads the string at a position, and where it ends.
fn read_string(b: &Vec<char>, i: usize) -> (r: Result<(String, usize), Error>)
    requires
        i <= b@.len(),
    ensures
        match (r, string(b@, i as int)) {
            (Ok((s, k)), Ok((t, n))) => s@ == t && k == i + n && i < k <= b@.len(),
            (Err(e), Err(f)) => e.says(f.code, f.message),
            _ => false,
        },
{
    if let Some(e) = want(b, i, '"') {
        return Err(e);
    }
    let mut out: Vec<char> = Vec::new();
    let end: usize = b.len();
    let mut k: usize = i + 1;
    while k < end
        invariant
            end == b@.len(),
            i < k <= b@.len(),
            wanted(b@, i as int, '"') is None,
            out@.len() < k,
            match string_rest(b@, k as int, out@) {
                Err(f) => string(b@, i as int) == Err::<(Seq<char>, nat), Fault>(f),
                Ok((s, n)) => string(b@, i as int) == Ok::<(Seq<char>, nat), Fault>(
                    (s, (k - i + n) as nat),
                ),
            },
        decreases end - k,
    {
        let c = b[k];
        if c == '"' {
            let s = text::string_of(out.as_slice(), 0, out.len());
            assert(s@ =~= out@);
            return Ok((s, k + 1));
        }
        if c == '\\' {
            match read_escape(b, k + 1) {
                Ok((x, m)) => {
                    out.push(x);
                    k = m;
                },
                Err(e) => {
                    return Err(e);
                },
            }
        } else if !(' ' <= c) {
            return Err(fault("unescaped control character in string".to_owned()));
        } else {
            out.push(c);
            k = k + 1;
        }
    }
    Err(fault_cut_short())
}

fn skip_digits(b: &Vec<char>, i: usize) -> (k: usize)
    requires
        i <= b@.len(),
    ensures
        k == i + run(b@, i as int),
        k <= b@.len(),
{
    let mut k: usize = i;
    while k < b.len() && '0' <= b[k] && b[k] <= '9'
        invariant
            i <= k <= b@.len(),
            run(b@, i as int) == k - i + run(b@, k as int),
        decreases b.len() - k,
    {
        k = k + 1;
    }
    k
}

fn stands(b: &Vec<char>, i: usize, c: char) -> (r: bool)
    ensures
        r == is_at(b@, i as int, c),
{
    i < b.len() && b[i] == c
}

/// Walks over the number at a position.
fn read_number(b: &Vec<char>, i: usize) -> (r: Result<usize, Error>)
    requires
        i < b@.len(),
    ensures
        ends(r, b@, i as int, number(b@, i as int)),
{
    let end: usize = b.len();
    let k: usize = if b[i] == '-' {
        i + 1
    } else {
        i
    };
    if k >= end {
        return Err(fault_cut_short());
    }
    let mut e: usize = if b[k] == '0' {
        k + 1
    } else if '1' <= b[k] && b[k] <= '9' {
        skip_digits(b, k)
    } else {
        return Err(fault("invalid number".to_owned()));
    };
    assert(integer_part(b@, i as int) == Ok::<int, Fault>(e as int));
    if stands(b, e, '.') {
        let f = skip_digits(b, e + 1);
        if f == e + 1 {
            return Err(fault("invalid number".to_owned()));
        }
        e = f;
    }
    if stands(b, e, 'e') || stands(b, e, 'E') {
        let mut d: usize = e + 1;
        if stands(b, d, '+') || stands(b, d, '-') {
            d = d + 1;
        }
        let f = skip_digits(b, d);
        if f == d {
            return Err(fault("invalid number".to_owned()));
        }
        e = f;
    }
    Ok(e)
}

fn read_literal(b: &Vec<char>, i: usize, word: &str) -> (r: Result<usize, Error>)
    requires
        i < b@.len(),
        word@.len() > 0,
    ensures
        ends(r, b@, i as int, literal(b@, i as int, word@)),
{
    let w = text::chars_of(word);
    let end: usize = b.len();
    if text::stands_at(b.as_slice(), w.as_slice(), i) {
        Ok(i + w.len())
    } else {
        Err(fault("invalid literal".to_owned()))
    }
}

/// What was cut out of a settings body.
pub struct Capture {
    pub revision: Option<String>,
    pub config_len: Option<usize>,
}

pub open spec fn cut(c: Option<Capture>) -> Option<CaptureView> {
    match c {
        Some(c) => Some(
            CaptureView {
                revision: c.revision.deep_view(),
                config_len: match c.config_len {
                    Some(n) => Some(n as nat),
                    None => None,
                },
            },
        ),
        None => None,
    }
}

/// Walks over the value at a position, with the blanks before it.
fn read_value(b: &Vec<char>, i: usize, depth: usize) -> (r: Result<usize, Error>)
    requires
        i <= b@.len(),
        depth <= MAX_JSON_DEPTH,
    ensures
        ends(r, b@, i as int, value(b@, i as int, depth as nat)),
    decreases MAX_JSON_DEPTH - depth, 2nat,
{
    if depth >= MAX_JSON_DEPTH {
        return Err(fault("JSON nesting exceeds 128".to_owned()));
    }
    let k = skip_blanks(b, i);
    if k >= b.len() {
        return Err(fault_cut_short());
    }
    proof {
        reveal_strlit("true");
        reveal_strlit("false");
        reveal_strlit("null");
    }
    match b[k] {
        '{' => match read_object(b, k, depth, None) {
            Ok((e, _c)) => Ok(e),
            Err(e) => Err(e),
        },
        '[' => read_array(b, k, depth),
        '"' => match read_string(b, k) {
            Ok((_s, e)) => Ok(e),
            Err(e) => Err(e),
        },
        't' => read_literal(b, k, "true"),
        'f' => read_literal(b, k, "false"),
        'n' => read_literal(b, k, "null"),
        c => if c == '-' || ('0' <= c && c <= '9') {
            read_number(b, k)
        } else {
            Err(fault("invalid JSON value".to_owned()))
        },
    }
}

fn read_array(b: &Vec<char>, i: usize, depth: usize) -> (r: Result<usize, Error>)
    requires
        i < b@.len(),
        depth < MAX_JSON_DEPTH,
    ensures
        ends(r, b@, i as int, array(b@, i as int, depth as nat)),
    decreases MAX_JSON_DEPTH - depth, 1nat,
{
    let end: usize = b.len();
    let first = skip_blanks(b, i + 1);
    if first >= end {
        return Err(fault_cut_short());
    }
    if b[first] == ']' {
        return Ok(first + 1);
    }
    let mut k: usize = first;
    let ghost all = items(b@, first as int, depth as nat);
    loop
        invariant
            i < first <= k <= b@.len(),
            depth < MAX_JSON_DEPTH,
            all == items(b@, first as int, depth as nat),
            array(b@, i as int, depth as nat) == (match all {
                Err(f) => Err::<nat, Fault>(f),
                Ok(n) => Ok((first - i + n) as nat),
            }),
            match items(b@, k as int, depth as nat) {
                Err(f) => all == Err::<nat, Fault>(f),
                Ok(n) => all == Ok::<nat, Fault>((k - first + n) as nat),
            },
        decreases b.len() - k,
    {
        let e = match read_value(b, k, depth + 1) {
            Ok(e) => e,
            Err(e) => {
                return Err(e);
            },
        };
        let e = skip_blanks(b, e);
        if e >= b.len() {
            return Err(fault_cut_short());
        }
        if b[e] == ',' {
            k = e + 1;
        } else if b[e] == ']' {
            return Ok(e + 1);
        } else {
            return Err(fault("expected ',' or ']'".to_owned()));
        }
    }
}

/// Reads the key of the member at a position, and where its value starts.
fn read_key(b: &Vec<char>, i: usize, keys: &Vec<String>, body: bool) -> (r: Result<
    (String, usize),
    Error,
>)
    requires
        i <= b@.len(),
    ensures
        match (r, key_at(b@, i as int, keys.deep_view(), body)) {
            (Ok((s, k)), Ok((t, n))) => s@ == t && k == i + n && i < k <= b@.len(),
            (Err(e), Err(f)) => e.says(f.code, f.message),
            _ => false,
        },
{
    let k = skip_blanks(b, i);
    let (key, e) = match read_string(b, k) {
        Ok(p) => p,
        Err(e) => {
            return Err(e);
        },
    };
    if text::has_name(keys, key.as_str()) {
        return Err(fault("duplicate key '".to_owned().concat(key.as_str()).concat("'")));
    }
    let c = skip_blanks(b, e);
    if let Some(e) = want(b, c, ':') {
        return Err(e);
    }
    if body && !text::eq(key.as_str(), "expected_revision") && !text::eq(key.as_str(), "config") {
        return Err(
            Error::Invalid {
                code: "invalid_request",
                message: "unknown settings field '".to_owned().concat(key.as_str()).concat("'"),
            },
        );
    }
    let end: usize = b.len();
    assert(c < end);
    Ok((key, skip_blanks(b, c + 1)))
}

fn keep(cap: Option<Capture>, key: &str, lexeme: String) -> (r: Option<Capture>)
    ensures
        cut(r) == captured(cut(cap), key@, lexeme@),
{
    match cap {
        Some(c) => if text::eq(key, "expected_revision") {
            Some(Capture { revision: Some(lexeme), config_len: c.config_len })
        } else if text::eq(key, "config") {
            Some(
                Capture {
                    revision: c.revision,
                    config_len: Some(text::byte_len(lexeme.as_str())),
                },
            )
        } else {
            Some(c)
        },
        None => None,
    }
}

/// Reads the member at a position: its key, where the character behind it
/// stands, and what was cut out.
fn read_member(b: &Vec<char>, i: usize, keys: &Vec<String>, depth: usize, cap: Option<Capture>) -> (r:
    Result<(String, usize, Option<Capture>), Error>)
    requires
        i <= b@.len(),
        depth < MAX_JSON_DEPTH,
    ensures
        match key_at(b@, i as int, keys.deep_view(), cap is Some) {
            Err(f) => r is Err && r->Err_0.says(f.code, f.message),
            Ok((key, w)) => match value(b@, i + w, depth as nat + 1) {
                Err(f) => r is Err && r->Err_0.says(f.code, f.message),
                Ok(n) => {
                    let s = i + w;
                    let k = s + n + blanks(b@, s + n);
                    if k >= b@.len() {
                        r is Err && r->Err_0.says(cut_short().code, cut_short().message)
                    } else {
                        &&& r is Ok
                        &&& (r->Ok_0).0@ == key
                        &&& (r->Ok_0).1 == k
                        &&& i < k
                        &&& cut((r->Ok_0).2) == captured(cut(cap), key, b@.subrange(s, s + n))
                    }
                },
            },
        },
    decreases MAX_JSON_DEPTH - depth, 0nat,
{
    let (key, s) = match read_key(b, i, keys, cap.is_some()) {
        Ok(p) => p,
        Err(e) => {
            return Err(e);
        },
    };
    let e = match read_value(b, s, depth + 1) {
        Ok(e) => e,
        Err(e) => {
            return Err(e);
        },
    };
    let lexeme = text::string_of(b.as_slice(), s, e);
    assert(lexeme@ =~= b@.subrange(s as int, e as int));
    let now = keep(cap, key.as_str(), lexeme);
    let e = skip_blanks(b, e);
    if e >= b.len() {
        return Err(fault_cut_short());
    }
    Ok((key, e, now))
}

/// Walks over the object at a position. With a capture, the object is a
/// settings body, and its two fields are cut out.
pub fn read_object(b: &Vec<char>, i: usize, depth: usize, cap: Option<Capture>) -> (r: Result<
    (usize, Option<Capture>),
    Error,
>)
    requires
        i <= b@.len(),
        depth <= MAX_JSON_DEPTH,
    ensures
        match (r, object(b@, i as int, depth as nat, cut(cap))) {
            (Ok((k, c)), Ok((n, d))) => k == i + n && i < k <= b@.len() && cut(c) == d,
            (Err(e), Err(f)) => e.says(f.code, f.message),
            _ => false,
        },
    decreases MAX_JSON_DEPTH - depth, 1nat,
{
    if depth >= MAX_JSON_DEPTH {
        return Err(fault("JSON nesting exceeds 128".to_owned()));
    }
    if let Some(e) = want(b, i, '{') {
        return Err(e);
    }
    let end: usize = b.len();
    let first = skip_blanks(b, i + 1);
    if first >= end {
        return Err(fault_cut_short());
    }
    if b[first] == '}' {
        return Ok((first + 1, cap));
    }
    let mut k: usize = first;
    let mut keys: Vec<String> = Vec::new();
    let ghost cap0 = cut(cap);
    let mut got = cap;
    let ghost all = members(b@, first as int, seq![], depth as nat, cap0);
    assert(keys.deep_view() =~= seq![]);
    loop
        invariant
            i < first <= k <= b@.len(),
            depth < MAX_JSON_DEPTH,
            cap0 == cut(cap),
            object(b@, i as int, depth as nat, cap0) == (match all {
                Err(f) => Err::<(nat, Option<CaptureView>), Fault>(f),
                Ok((n, c)) => Ok(((first - i + n) as nat, c)),
            }),
            match members(b@, k as int, keys.deep_view(), depth as nat, cut(got)) {
                Err(f) => all == Err::<(nat, Option<CaptureView>), Fault>(f),
                Ok((n, c)) => all == Ok::<(nat, Option<CaptureView>), Fault>(
                    ((k - first + n) as nat, c),
                ),
            },
        decreases b.len() - k,
    {
        let ghost before = keys.deep_view();
        let (key, e, now) = match read_member(b, k, &keys, depth, got) {
            Ok(p) => p,
            Err(e) => {
                return Err(e);
            },
        };
        got = now;
        if b[e] == ',' {
            let ghost kv = key@;
            keys.push(key);
            assert(keys.deep_view() =~= before.push(kv));
            k = e + 1;
        } else if b[e] == '}' {
            return Ok((e + 1, got));
        } else {
            return Err(fault("expected ',' or '}'".to_owned()));
        }
    }
}

// ---------- laws ----------

/// The keys of the members from a position on.
pub open spec fn keys_from(b: Seq<char>, i: int, depth: nat) -> Seq<Seq<char>>
    decreases b.len() - i,
{
    match key_at(b, i, seq![], false) {
        Err(f) => seq![],
        Ok((key, w)) => match value(b, i + w, depth + 1) {
            Err(f) => seq![key],
            Ok(n) => {
                let k = i + w + n + blanks(b, i + w + n);
                if k < b.len() && b[k] == ',' {
                    seq![key] + keys_from(b, k + 1, depth)
                } else {
                    seq![key]
                }
            },
        },
    }
}

proof fn members_distinct(
    b: Seq<char>,
    i: int,
    keys: Seq<Seq<char>>,
    depth: nat,
    cap: Option<CaptureView>,
)
    requires
        keys.no_duplicates(),
        members(b, i, keys, depth, cap) is Ok,
    ensures
        (keys + keys_from(b, i, depth)).no_duplicates(),
    decreases b.len() - i,
{
    let (key, w) = key_at(b, i, keys, cap is Some)->Ok_0;
    assert(key_at(b, i, seq![], false) == Ok::<(Seq<char>, nat), Fault>((key, w)));
    let n = value(b, i + w, depth + 1)->Ok_0;
    let k = i + w + n + blanks(b, i + w + n);
    let more = keys.push(key);
    assert(more.no_duplicates());
    if b[k] == ',' {
        let now = captured(cap, key, b.subrange(i + w, i + w + n));
        members_distinct(b, k + 1, more, depth, now);
        assert(more + keys_from(b, k + 1, depth) =~= keys + (seq![key] + keys_from(
            b,
            k + 1,
            depth,
        )));
    } else {
        assert(keys + seq![key] =~= more);
    }
}

/// An object that the walk accepts names each of its keys once: no key is
/// hidden by a later one.
pub proof fn no_key_is_repeated(b: Seq<char>, i: int, depth: nat, cap: Option<CaptureView>)
    requires
        0 <= i,
        object(b, i, depth, cap) is Ok,
        !is_at(b, i + 1 + blanks(b, i + 1), '}'),
    ensures
        keys_from(b, i + 1 + blanks(b, i + 1), depth).no_duplicates(),
{
    let k = i + 1 + blanks(b, i + 1);
    let none: Seq<Seq<char>> = seq![];
    assert(is_at(b, k, b[k]));
    members_distinct(b, k, none, depth, cap);
    assert(none + keys_from(b, k, depth) =~= keys_from(b, k, depth));
}

/// Brackets nested to the limit are refused as such, whatever they hold.
pub proof fn deep_nesting_is_refused(b: Seq<char>, i: int, depth: nat)
    requires
        0 <= i,
        depth <= MAX_JSON_DEPTH,
        i + (MAX_JSON_DEPTH - depth) < b.len(),
        forall|j: int| i <= j <= i + (MAX_JSON_DEPTH - depth) ==> #[trigger] b[j] == '[',
    ensures
        value(b, i, depth) == Err::<nat, Fault>(too_deep()),
    decreases MAX_JSON_DEPTH - depth,
{
    if depth < MAX_JSON_DEPTH {
        assert(b[i] == '[');
        assert(b[i + 1] == '[');
        assert(blanks(b, i) == 0);
        assert(blanks(b, i + 1) == 0);
        deep_nesting_is_refused(b, i + 1, depth + 1);
    }
}

} // verus!
