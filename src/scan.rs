//! Executable scanning of the lexical parts: whitespace, numbers, escapes and string literals.
use crate::grammar::{
    digits_len, escape_at, exponent_end, fraction_end, hex4, hex_value, is_digit, is_ws,
    number_end, scalar_char, string_at, string_document, word_at, ws_len, ErrorCode, Failure, Step,
};
use crate::text::char_of_scalar;
use vstd::prelude::*;

verus! {

/// A failure at an executable index that stands for the spec failure `f`.
pub open spec fn same_failure(r: (usize, ErrorCode), f: Failure) -> bool {
    r.0 as int == f.0 && r.1 == f.1
}

/// The outcome from an earlier index: `acc` read before, `off` characters before.
pub open spec fn prepend<T>(acc: Seq<T>, off: int, r: Step<Seq<T>>) -> Step<Seq<T>> {
    match r {
        Ok((t, n)) => Ok((acc + t, (off + n) as nat)),
        Err(f) => Err(f),
    }
}

pub proof fn lemma_prepend_empty<T>(r: Step<Seq<T>>)
    ensures
        prepend(Seq::<T>::empty(), 0, r) == r,
{
    match r {
        Ok((t, n)) => {
            assert(Seq::<T>::empty() + t =~= t);
        },
        Err(_) => {},
    }
}

pub proof fn lemma_prepend_push<T>(acc: Seq<T>, x: T, off: int, k: int, r: Step<Seq<T>>)
    requires
        k >= 0,
    ensures
        prepend(acc, off, match r {
            Ok((t, m)) => Ok((seq![x] + t, (k + m) as nat)),
            Err(f) => Err(f),
        }) == prepend(acc.push(x), off + k, r),
{
    match r {
        Ok((t, m)) => {
            assert(acc + (seq![x] + t) =~= acc.push(x) + t);
        },
        Err(_) => {},
    }
}

pub fn is_ws_char(c: char) -> (r: bool)
    ensures
        r == is_ws(c),
{
    c == ' ' || c == '\t' || c == '\n' || c == '\r'
}

pub fn is_digit_char(c: char) -> (r: bool)
    ensures
        r == is_digit(c),
{
    '0' <= c && c <= '9'
}

/// The first index from `i` on that is not whitespace.
pub fn skip_ws(s: &Vec<char>, i: usize) -> (r: usize)
    requires
        i <= s.len(),
    ensures
        r == i + ws_len(s@, i as int),
        r <= s.len(),
{
    let mut k = i;
    while k < s.len() && is_ws_char(s[k])
        invariant
            i <= k <= s.len(),
            i + ws_len(s@, i as int) == k + ws_len(s@, k as int),
        decreases s.len() - k,
    {
        k = k + 1;
    }
    k
}

/// The first index from `i` on that is not a decimal digit.
fn skip_digits(s: &Vec<char>, i: usize) -> (r: usize)
    requires
        i <= s.len(),
    ensures
        r == i + digits_len(s@, i as int),
        r <= s.len(),
{
    let mut k = i;
    while k < s.len() && is_digit_char(s[k])
        invariant
            i <= k <= s.len(),
            i + digits_len(s@, i as int) == k + digits_len(s@, k as int),
        decreases s.len() - k,
    {
        k = k + 1;
    }
    k
}

/// Whether the characters of `w` stand at `p`.
pub fn scan_word(s: &Vec<char>, p: usize, w: &Vec<char>) -> (r: bool)
    requires
        p <= s.len(),
    ensures
        r == word_at(s@, p as int, w@),
{
    if w.len() > s.len() - p {
        return false;
    }
    let mut j: usize = 0;
    while j < w.len()
        invariant
            j <= w.len(),
            p + w.len() <= s.len(),
            forall|k: int| 0 <= k < j ==> s@[p + k] == w@[k],
        decreases w.len() - j,
    {
        if s[p + j] != w[j] {
            assert(s@.subrange(p as int, p + w.len())[j as int] != w@[j as int]);
            return false;
        }
        j = j + 1;
    }
    assert(s@.subrange(p as int, p + w.len()) =~= w@);
    true
}

/// The end of the number that starts at `p`.
pub fn scan_number(s: &Vec<char>, p: usize) -> (r: Result<usize, (usize, ErrorCode)>)
    requires
        p < s.len(),
    ensures
        match number_end(s@, p as int) {
            Ok(e) => r == Ok::<usize, (usize, ErrorCode)>(e as usize) && p < e <= s.len(),
            Err(f) => r is Err && same_failure(r->Err_0, f) && r->Err_0.0 <= s.len(),
        },
{
    let a = if s[p] == '-' {
        p + 1
    } else {
        p
    };
    if a >= s.len() {
        return Err((a, ErrorCode::EofWhileParsingValue));
    }
    if !is_digit_char(s[a]) {
        return Err((a, ErrorCode::InvalidNumber));
    }
    if s[a] == '0' && a + 1 < s.len() && is_digit_char(s[a + 1]) {
        return Err((a + 1, ErrorCode::InvalidNumber));
    }
    let b = if s[a] == '0' {
        a + 1
    } else {
        skip_digits(s, a)
    };
    proof {
        if s@[a as int] != '0' {
            assert(digits_len(s@, a as int) >= 1);
        }
    }
    let c = if b < s.len() && s[b] == '.' {
        let f = skip_digits(s, b + 1);
        if f == b + 1 {
            return Err((b + 1, ErrorCode::InvalidNumber));
        }
        f
    } else {
        b
    };
    if c < s.len() && (s[c] == 'e' || s[c] == 'E') {
        let e = if c + 1 < s.len() && (s[c + 1] == '+' || s[c + 1] == '-') {
            c + 2
        } else {
            c + 1
        };
        let f = skip_digits(s, e);
        if f == e {
            return Err((e, ErrorCode::InvalidNumber));
        }
        Ok(f)
    } else {
        Ok(c)
    }
}

fn hex_val(c: char) -> (r: i32)
    ensures
        r as int == hex_value(c),
{
    if '0' <= c && c <= '9' {
        (c as u32 - '0' as u32) as i32
    } else if 'a' <= c && c <= 'f' {
        (c as u32 - 'a' as u32 + 10) as i32
    } else if 'A' <= c && c <= 'F' {
        (c as u32 - 'A' as u32 + 10) as i32
    } else {
        -1
    }
}

fn scan_hex4(s: &Vec<char>, k: usize) -> (r: i32)
    requires
        k + 4 <= s.len(),
    ensures
        r as int == hex4(s@, k as int),
        -1 <= r < 0x10000,
{
    let a = hex_val(s[k]);
    let b = hex_val(s[k + 1]);
    let c = hex_val(s[k + 2]);
    let d = hex_val(s[k + 3]);
    if a < 0 || b < 0 || c < 0 || d < 0 {
        -1
    } else {
        ((a * 16 + b) * 16 + c) * 16 + d
    }
}

/// The escape that starts at `i`: the character it stands for and its length.
fn scan_escape(s: &Vec<char>, i: usize) -> (r: Result<(char, usize), (usize, ErrorCode)>)
    requires
        i < s.len(),
    ensures
        match escape_at(s@, i as int) {
            Ok((c, n)) => r == Ok::<(char, usize), (usize, ErrorCode)>((c, n as usize)) && 2 <= n
                && i + n <= s.len(),
            Err(f) => r is Err && same_failure(r->Err_0, f) && r->Err_0.0 <= s.len(),
        },
{
    reveal(escape_at);
    if i + 1 >= s.len() {
        return Err((s.len(), ErrorCode::EofWhileParsingString));
    }
    let e = s[i + 1];
    if e == '"' {
        Ok(('"', 2))
    } else if e == '\\' {
        Ok(('\\', 2))
    } else if e == '/' {
        Ok(('/', 2))
    } else if e == 'b' {
        Ok(('\x08', 2))
    } else if e == 'f' {
        Ok(('\x0c', 2))
    } else if e == 'n' {
        Ok(('\n', 2))
    } else if e == 'r' {
        Ok(('\r', 2))
    } else if e == 't' {
        Ok(('\t', 2))
    } else if e != 'u' {
        Err((i, ErrorCode::InvalidEscape))
    } else if s.len() - i < 6 {
        Err((s.len(), ErrorCode::EofWhileParsingString))
    } else {
        let code = scan_hex4(s, i + 2);
        if code < 0 {
            Err((i, ErrorCode::InvalidUnicodeEscape))
        } else if code < 0xD800 || code >= 0xE000 {
            let c = char_of_scalar(code as u32);
            proof {
                vstd::utf8::char_u32_cast(c, code as u32);
            }
            Ok((c, 6))
        } else if code >= 0xDC00 {
            Err((i, ErrorCode::LoneSurrogate))
        } else if s.len() - i >= 12 && s[i + 6] == '\\' && s[i + 7] == 'u' {
            let low = scan_hex4(s, i + 8);
            if 0xDC00 <= low && low < 0xE000 {
                let v = (0x10000 + (code - 0xD800) * 0x400 + (low - 0xDC00)) as u32;
                let c = char_of_scalar(v);
                proof {
                    vstd::utf8::char_u32_cast(c, v);
                }
                Ok((c, 12))
            } else {
                Err((i, ErrorCode::LoneSurrogate))
            }
        } else {
            Err((i, ErrorCode::LoneSurrogate))
        }
    }
}

/// Reads a string literal from `i`, just after its opening quote, through its
/// closing quote; appends the characters it stands for to `buf` and returns the
/// index after the closing quote.
pub fn scan_string(s: &Vec<char>, i: usize, buf: &mut Vec<char>) -> (r: Result<
    usize,
    (usize, ErrorCode),
>)
    requires
        i <= s.len(),
    ensures
        match string_at(s@, i as int) {
            Ok((t, n)) => r == Ok::<usize, (usize, ErrorCode)>((i + n) as usize) && final(buf)@
                == old(buf)@ + t && i + n <= s.len(),
            Err(f) => r is Err && same_failure(r->Err_0, f) && r->Err_0.0 <= s.len(),
        },
{
    let ghost b0 = buf@;
    let ghost mut acc: Seq<char> = Seq::empty();
    let mut k = i;
    proof {
        lemma_prepend_empty(string_at(s@, i as int));
    }
    loop
        invariant
            i <= k <= s.len(),
            b0 == old(buf)@,
            buf@ == b0 + acc,
            string_at(s@, i as int) == prepend(acc, k - i, string_at(s@, k as int)),
        decreases s.len() - k,
    {
        if k >= s.len() {
            return Err((s.len(), ErrorCode::EofWhileParsingString));
        }
        let c = s[k];
        if c == '"' {
            assert(string_at(s@, k as int) == Ok::<(Seq<char>, nat), Failure>((Seq::empty(), 1nat)));
            assert(acc + Seq::<char>::empty() =~= acc);
            return Ok(k + 1);
        } else if c == '\\' {
            match scan_escape(s, k) {
                Err(f) => {
                    return Err(f);
                },
                Ok((ch, n)) => {
                    proof {
                        lemma_prepend_push(acc, ch, k - i, n as int, string_at(s@, k + n));
                        acc = acc.push(ch);
                    }
                    buf.push(ch);
                    k = k + n;
                },
            }
        } else if (c as u32) < 0x20 {
            return Err((k, ErrorCode::ControlCharacter));
        } else {
            proof {
                lemma_prepend_push(acc, c, k - i, 1, string_at(s@, k + 1));
                acc = acc.push(c);
            }
            buf.push(c);
            k = k + 1;
        }
    }
}

/// Reads a text that is exactly one string literal, with whitespace around it
/// allowed; appends the characters it stands for to `buf`.
pub fn scan_string_document(s: &Vec<char>, buf: &mut Vec<char>) -> (r: Result<
    (),
    (usize, ErrorCode),
>)
    ensures
        match string_document(s@) {
            Ok(t) => r is Ok && final(buf)@ == old(buf)@ + t,
            Err(f) => r is Err && same_failure(r->Err_0, f) && r->Err_0.0 <= s.len(),
        },
{
    let p = skip_ws(s, 0);
    if p >= s.len() {
        return Err((p, ErrorCode::EofWhileParsingValue));
    }
    if s[p] != '"' {
        return Err((p, ErrorCode::ExpectedString));
    }
    let e = match scan_string(s, p + 1, buf) {
        Err(f) => {
            return Err(f);
        },
        Ok(e) => e,
    };
    let q = skip_ws(s, e);
    if q < s.len() {
        return Err((q, ErrorCode::TrailingCharacters));
    }
    Ok(())
}

} // verus!
