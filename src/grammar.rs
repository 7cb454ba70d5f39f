//! The JSON grammar as spec functions: what a text parses to, or where and why it fails.
use crate::value::{lit_false, lit_null, lit_true, JsonValue};
use vstd::prelude::*;

verus! {

/// How many containers may enclose one another.
pub const MAX_DEPTH: usize = 128;

/// Why a text is not JSON.
#[derive(Clone, Copy, Debug, PartialEq, Eq, Structural)]
pub enum ErrorCode {
    EofWhileParsingValue,
    EofWhileParsingList,
    EofWhileParsingObject,
    EofWhileParsingString,
    ExpectedValue,
    ExpectedIdent,
    ExpectedColon,
    ExpectedListCommaOrEnd,
    ExpectedObjectCommaOrEnd,
    KeyMustBeAString,
    ExpectedString,
    InvalidEscape,
    InvalidUnicodeEscape,
    LoneSurrogate,
    ControlCharacter,
    InvalidNumber,
    TrailingComma,
    TrailingCharacters,
    RecursionLimitExceeded,
}

/// A failure: the index of the offending character (the length at the end of input) and why.
pub type Failure = (int, ErrorCode);

/// A success: what was read, and how many characters it took.
pub type Step<T> = Result<(T, nat), Failure>;

pub open spec fn is_ws(c: char) -> bool {
    c == ' ' || c == '\t' || c == '\n' || c == '\r'
}

pub open spec fn is_digit(c: char) -> bool {
    '0' <= c && c <= '9'
}

/// The number of whitespace characters from `i` on.
pub open spec fn ws_len(s: Seq<char>, i: int) -> nat
    decreases s.len() - i,
{
    if 0 <= i < s.len() && is_ws(s[i]) {
        1 + ws_len(s, i + 1)
    } else {
        0
    }
}

/// The number of decimal digits from `i` on.
pub open spec fn digits_len(s: Seq<char>, i: int) -> nat
    decreases s.len() - i,
{
    if 0 <= i < s.len() && is_digit(s[i]) {
        1 + digits_len(s, i + 1)
    } else {
        0
    }
}

/// The value of a hexadecimal digit, or -1.
pub open spec fn hex_value(c: char) -> int {
    if '0' <= c && c <= '9' {
        c as int - '0' as int
    } else if 'a' <= c && c <= 'f' {
        c as int - 'a' as int + 10
    } else if 'A' <= c && c <= 'F' {
        c as int - 'A' as int + 10
    } else {
        -1
    }
}

/// The four hexadecimal digits at `k` as a number, or -1 if one is not a digit.
pub open spec fn hex4(s: Seq<char>, k: int) -> int {
    let a = hex_value(s[k]);
    let b = hex_value(s[k + 1]);
    let c = hex_value(s[k + 2]);
    let d = hex_value(s[k + 3]);
    if a < 0 || b < 0 || c < 0 || d < 0 {
        -1
    } else {
        ((a * 16 + b) * 16 + c) * 16 + d
    }
}

pub open spec fn scalar_char(code: int) -> char {
    (code as u32) as char
}

/// The escape that starts at `i` (a backslash): the character it stands for and its length.
#[verifier::opaque]
pub open spec fn escape_at(s: Seq<char>, i: int) -> Step<char> {
    if i + 1 >= s.len() {
        Err((s.len() as int, ErrorCode::EofWhileParsingString))
    } else {
        let e = s[i + 1];
        if e == '"' {
            Ok(('"', 2))
        } else if e == '\\' {
            Ok(('\\', 2))
        } else if e == '/' {
            Ok(('/', 2))
        } else if e == 'b' {
            Ok(('\x08', 2))
        } else if e == 'f' {
            Ok(('\x0c', 2))
        } else if e == 'n' {
            Ok(('\n', 2))
        } else if e == 'r' {
            Ok(('\r', 2))
        } else if e == 't' {
            Ok(('\t', 2))
        } else if e != 'u' {
            Err((i, ErrorCode::InvalidEscape))
        } else if i + 6 > s.len() {
            Err((s.len() as int, ErrorCode::EofWhileParsingString))
        } else {
            let code = hex4(s, i + 2);
            if code < 0 {
                Err((i, ErrorCode::InvalidUnicodeEscape))
            } else if code < 0xD800 || code >= 0xE000 {
                Ok((scalar_char(code), 6))
            } else if code >= 0xDC00 {
                Err((i, ErrorCode::LoneSurrogate))
            } else if i + 12 <= s.len() && s[i + 6] == '\\' && s[i + 7] == 'u' && 0xDC00 <= hex4(
                s,
                i + 8,
            ) < 0xE000 {
                Ok((scalar_char(0x10000 + (code - 0xD800) * 0x400 + (hex4(s, i + 8) - 0xDC00)), 12))
            } else {
                Err((i, ErrorCode::LoneSurrogate))
            }
        }
    }
}

/// The rest of a string literal from `i`, just after its opening quote, through
/// its closing quote: the characters it stands for.
pub open spec fn string_at(s: Seq<char>, i: int) -> Step<Seq<char>>
    decreases s.len() - i,
{
    if i < 0 || i >= s.len() {
        Err((s.len() as int, ErrorCode::EofWhileParsingString))
    } else if s[i] == '"' {
        Ok((Seq::empty(), 1))
    } else if s[i] == '\\' {
        match escape_at(s, i) {
            Err(f) => Err(f),
            // Every escape that reads is 2 to 12 characters long and ends within
            // the text; the test states it where the recursion needs it.
            Ok((c, n)) => if n >= 1 && i + n <= s.len() {
                match string_at(s, i + n) {
                    Err(f) => Err(f),
                    Ok((t, m)) => Ok((seq![c] + t, n + m)),
                }
            } else {
                Err((i, ErrorCode::InvalidEscape))
            },
        }
    } else if (s[i] as u32) < 0x20 {
        Err((i, ErrorCode::ControlCharacter))
    } else {
        match string_at(s, i + 1) {
            Err(f) => Err(f),
            Ok((t, m)) => Ok((seq![s[i]] + t, 1 + m)),
        }
    }
}

/// The end of the fraction that may start at `b`.
pub open spec fn fraction_end(s: Seq<char>, b: int) -> Result<int, Failure> {
    if b < s.len() && s[b] == '.' {
        let n = digits_len(s, b + 1);
        if n == 0 {
            Err((b + 1, ErrorCode::InvalidNumber))
        } else {
            Ok(b + 1 + n)
        }
    } else {
        Ok(b)
    }
}

/// The end of the exponent that may start at `c`.
pub open spec fn exponent_end(s: Seq<char>, c: int) -> Result<int, Failure> {
    if c < s.len() && (s[c] == 'e' || s[c] == 'E') {
        let e = if c + 1 < s.len() && (s[c + 1] == '+' || s[c + 1] == '-') {
            c + 2
        } else {
            c + 1
        };
        let n = digits_len(s, e);
        if n == 0 {
            Err((e, ErrorCode::InvalidNumber))
        } else {
            Ok(e + n)
        }
    } else {
        Ok(c)
    }
}

/// The end of the number that starts at `p`.
pub open spec fn number_end(s: Seq<char>, p: int) -> Result<int, Failure> {
    let a = if s[p] == '-' {
        p + 1
    } else {
        p
    };
    if a >= s.len() {
        Err((a, ErrorCode::EofWhileParsingValue))
    } else if !is_digit(s[a]) {
        Err((a, ErrorCode::InvalidNumber))
    } else if s[a] == '0' && a + 1 < s.len() && is_digit(s[a + 1]) {
        Err((a + 1, ErrorCode::InvalidNumber))
    } else {
        let b = if s[a] == '0' {
            a + 1
        } else {
            a + digits_len(s, a)
        };
        match fraction_end(s, b) {
            Err(f) => Err(f),
            Ok(c) => exponent_end(s, c),
        }
    }
}

/// Whether the word `w` stands at `p`.
pub open spec fn word_at(s: Seq<char>, p: int, w: Seq<char>) -> bool {
    p + w.len() <= s.len() && s.subrange(p, p + w.len()) == w
}

pub open spec fn literal_at(s: Seq<char>, i: int, p: int, w: Seq<char>, v: JsonValue) -> Step<
    JsonValue,
> {
    if word_at(s, p, w) {
        Ok((v, (p + w.len() - i) as nat))
    } else {
        Err((p, ErrorCode::ExpectedIdent))
    }
}

/// The value that starts after the whitespace at `i`, inside `d` containers.
pub open spec fn value_at(s: Seq<char>, i: int, d: nat) -> Step<JsonValue>
    decreases s.len() - i, 0int,
{
    let p = i + ws_len(s, i);
    if p >= s.len() {
        Err((p, ErrorCode::EofWhileParsingValue))
    } else {
        let c = s[p];
        if c == 'n' {
            literal_at(s, i, p, lit_null(), JsonValue::Null)
        } else if c == 't' {
            literal_at(s, i, p, lit_true(), JsonValue::Bool(true))
        } else if c == 'f' {
            literal_at(s, i, p, lit_false(), JsonValue::Bool(false))
        } else if c == '"' {
            match string_at(s, p + 1) {
                Err(f) => Err(f),
                Ok((t, n)) => Ok((JsonValue::Str(t), (p + 1 + n - i) as nat)),
            }
        } else if c == '-' || is_digit(c) {
            match number_end(s, p) {
                Err(f) => Err(f),
                Ok(e) => Ok((JsonValue::Number(s.subrange(p, e)), (e - i) as nat)),
            }
        } else if c == '[' {
            if d >= MAX_DEPTH {
                Err((p, ErrorCode::RecursionLimitExceeded))
            } else {
                match array_at(s, p + 1, d) {
                    Err(f) => Err(f),
                    Ok((v, n)) => Ok((v, (p + 1 + n - i) as nat)),
                }
            }
        } else if c == '{' {
            if d >= MAX_DEPTH {
                Err((p, ErrorCode::RecursionLimitExceeded))
            } else {
                match object_at(s, p + 1, d) {
                    Err(f) => Err(f),
                    Ok((v, n)) => Ok((v, (p + 1 + n - i) as nat)),
                }
            }
        } else {
            Err((p, ErrorCode::ExpectedValue))
        }
    }
}

/// An array from just after its `[`, through its `]`.
pub open spec fn array_at(s: Seq<char>, i: int, d: nat) -> Step<JsonValue>
    decreases s.len() - i, 2int,
{
    let p = i + ws_len(s, i);
    if p >= s.len() {
        Err((p, ErrorCode::EofWhileParsingList))
    } else if s[p] == ']' {
        Ok((JsonValue::Array(Seq::empty()), (p + 1 - i) as nat))
    } else {
        match elements_at(s, i, d) {
            Err(f) => Err(f),
            Ok((items, n)) => Ok((JsonValue::Array(items), n)),
        }
    }
}

/// The elements of an array from `i`, through its `]`.
pub open spec fn elements_at(s: Seq<char>, i: int, d: nat) -> Step<Seq<JsonValue>>
    decreases s.len() - i, 1int,
{
    match value_at(s, i, d + 1) {
        Err(f) => Err(f),
        Ok((v, n)) => {
            let q = i + n + ws_len(s, i + n);
            if q >= s.len() {
                Err((q, ErrorCode::EofWhileParsingList))
            } else if s[q] == ']' {
                Ok((seq![v], (q + 1 - i) as nat))
            } else if s[q] != ',' {
                Err((q, ErrorCode::ExpectedListCommaOrEnd))
            } else {
                let r = q + 1 + ws_len(s, q + 1);
                if r < s.len() && s[r] == ']' {
                    Err((r, ErrorCode::TrailingComma))
                } else {
                    match elements_at(s, q + 1, d) {
                        Err(f) => Err(f),
                        Ok((rest, m)) => Ok((seq![v] + rest, (q + 1 + m - i) as nat)),
                    }
                }
            }
        },
    }
}

/// An object from just after its `{`, through its `}`.
pub open spec fn object_at(s: Seq<char>, i: int, d: nat) -> Step<JsonValue>
    decreases s.len() - i, 3int,
{
    let p = i + ws_len(s, i);
    if p >= s.len() {
        Err((p, ErrorCode::EofWhileParsingObject))
    } else if s[p] == '}' {
        Ok((JsonValue::Object(Seq::empty()), (p + 1 - i) as nat))
    } else {
        match members_at(s, i, d) {
            Err(f) => Err(f),
            Ok((entries, n)) => Ok((JsonValue::Object(entries), n)),
        }
    }
}

/// One entry of an object, `"key": value`, after the whitespace at `i`.
pub open spec fn member_at(s: Seq<char>, i: int, d: nat) -> Step<(Seq<char>, JsonValue)>
    decreases s.len() - i, 1int,
{
    let p = i + ws_len(s, i);
    if p >= s.len() {
        Err((p, ErrorCode::EofWhileParsingObject))
    } else if s[p] != '"' {
        Err((p, ErrorCode::KeyMustBeAString))
    } else {
        match string_at(s, p + 1) {
            Err(f) => Err(f),
            Ok((key, kn)) => {
                let c = p + 1 + kn + ws_len(s, p + 1 + kn);
                if c >= s.len() {
                    Err((c, ErrorCode::EofWhileParsingObject))
                } else if s[c] != ':' {
                    Err((c, ErrorCode::ExpectedColon))
                } else {
                    match value_at(s, c + 1, d + 1) {
                        Err(f) => Err(f),
                        Ok((v, n)) => Ok(((key, v), (c + 1 + n - i) as nat)),
                    }
                }
            },
        }
    }
}

/// The entries of an object from `i`, through its `}`.
pub open spec fn members_at(s: Seq<char>, i: int, d: nat) -> Step<Seq<(Seq<char>, JsonValue)>>
    decreases s.len() - i, 2int,
{
    match member_at(s, i, d) {
        Err(f) => Err(f),
        Ok((e, n)) => {
            let q = i + n + ws_len(s, i + n);
            if q >= s.len() {
                Err((q, ErrorCode::EofWhileParsingObject))
            } else if s[q] == '}' {
                Ok((seq![e], (q + 1 - i) as nat))
            } else if s[q] != ',' {
                Err((q, ErrorCode::ExpectedObjectCommaOrEnd))
            } else {
                let r = q + 1 + ws_len(s, q + 1);
                if r < s.len() && s[r] == '}' {
                    Err((r, ErrorCode::TrailingComma))
                } else {
                    match members_at(s, q + 1, d) {
                        Err(f) => Err(f),
                        Ok((rest, m)) => Ok((seq![e] + rest, (q + 1 + m - i) as nat)),
                    }
                }
            }
        },
    }
}

/// A whole document: one value, with nothing but whitespace after it.
pub open spec fn document(s: Seq<char>) -> Result<JsonValue, Failure> {
    match value_at(s, 0, 0) {
        Err(f) => Err(f),
        Ok((v, n)) => {
            let e = n + ws_len(s, n as int);
            if e < s.len() {
                Err((e as int, ErrorCode::TrailingCharacters))
            } else {
                Ok(v)
            }
        },
    }
}

/// A text that is exactly one string literal, with whitespace around it allowed.
pub open spec fn string_document(s: Seq<char>) -> Result<Seq<char>, Failure> {
    let p = ws_len(s, 0) as int;
    if p >= s.len() {
        Err((p, ErrorCode::EofWhileParsingValue))
    } else if s[p] != '"' {
        Err((p, ErrorCode::ExpectedString))
    } else {
        match string_at(s, p + 1) {
            Err(f) => Err(f),
            Ok((t, n)) => {
                let e = p + 1 + n + ws_len(s, p + 1 + n);
                if e < s.len() {
                    Err((e, ErrorCode::TrailingCharacters))
                } else {
                    Ok(t)
                }
            },
        }
    }
}

/// The 1-based line and column of index `p`: a line break moves to column 1 of the next line.
pub open spec fn line_col(s: Seq<char>, p: int) -> (nat, nat)
    decreases p,
{
    if p <= 0 {
        (1, 1)
    } else {
        let lc = line_col(s, p - 1);
        if s[p - 1] == '\n' {
            (lc.0 + 1, 1)
        } else {
            (lc.0, lc.1 + 1)
        }
    }
}

} // verus!
