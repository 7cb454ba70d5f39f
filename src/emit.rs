//! Appending printed text to an output buffer.
use crate::value::{
    close_sep, colon_sep, escape_char, escaped, hex_digits, item_sep, lit_false, lit_null,
    lit_true, spaces,
};
use crate::grammar::MAX_DEPTH;
use vstd::prelude::*;

verus! {

pub fn word_null() -> (r: Vec<char>)
    ensures
        r@ == lit_null(),
{
    let mut v = Vec::new();
    v.push('n');
    v.push('u');
    v.push('l');
    v.push('l');
    assert(v@ =~= lit_null());
    v
}

pub fn word_true() -> (r: Vec<char>)
    ensures
        r@ == lit_true(),
{
    let mut v = Vec::new();
    v.push('t');
    v.push('r');
    v.push('u');
    v.push('e');
    assert(v@ =~= lit_true());
    v
}

pub fn word_false() -> (r: Vec<char>)
    ensures
        r@ == lit_false(),
{
    let mut v = Vec::new();
    v.push('f');
    v.push('a');
    v.push('l');
    v.push('s');
    v.push('e');
    assert(v@ =~= lit_false());
    v
}

/// Appends the characters of `s` from `a` up to `b`.
pub fn push_range(out: &mut Vec<char>, s: &Vec<char>, a: usize, b: usize)
    requires
        a <= b <= s.len(),
    ensures
        final(out)@ == old(out)@ + s@.subrange(a as int, b as int),
{
    let mut k = a;
    while k < b
        invariant
            a <= k <= b <= s.len(),
            out@ == old(out)@ + s@.subrange(a as int, k as int),
        decreases b - k,
    {
        out.push(s[k]);
        assert(s@.subrange(a as int, k + 1) =~= s@.subrange(a as int, k as int).push(s@[k as int]));
        k = k + 1;
    }
}

pub fn push_all(out: &mut Vec<char>, w: &Vec<char>)
    ensures
        final(out)@ == old(out)@ + w@,
{
    push_range(out, w, 0, w.len());
    assert(w@.subrange(0, w@.len() as int) =~= w@);
}

/// Appends `n` spaces, `count` times.
pub fn push_spaces(out: &mut Vec<char>, n: usize, count: usize)
    ensures
        final(out)@ == old(out)@ + spaces(n as nat * count as nat),
{
    let mut j: usize = 0;
    let ghost mut done: nat = 0;
    while j < count
        invariant
            j <= count,
            done == n as nat * j as nat,
            out@ == old(out)@ + spaces(done),
        decreases count - j,
    {
        let mut k: usize = 0;
        while k < n
            invariant
                k <= n,
                j < count,
                done == n as nat * j as nat,
                out@ == old(out)@ + spaces((done + k) as nat),
            decreases n - k,
        {
            out.push(' ');
            assert(spaces((done + k + 1) as nat) =~= spaces((done + k) as nat).push(' '));
            k = k + 1;
        }
        proof {
            assert(n as nat * (j + 1) as nat == n as nat * j as nat + n as nat) by (nonlinear_arith);
            done = (done + n) as nat;
        }
        j = j + 1;
    }
}

pub fn hex_digit(n: u32) -> (r: char)
    requires
        n < 16,
    ensures
        r == hex_digits()[n as int],
{
    match n {
        0 => '0',
        1 => '1',
        2 => '2',
        3 => '3',
        4 => '4',
        5 => '5',
        6 => '6',
        7 => '7',
        8 => '8',
        9 => '9',
        10 => 'a',
        11 => 'b',
        12 => 'c',
        13 => 'd',
        14 => 'e',
        _ => 'f',
    }
}

/// Appends `c` as it is written inside a string literal.
pub fn push_escape_char(out: &mut Vec<char>, c: char)
    ensures
        final(out)@ == old(out)@ + escape_char(c),
{
    let ghost o = out@;
    if c == '"' {
        out.push('\\');
        out.push('"');
    } else if c == '\\' {
        out.push('\\');
        out.push('\\');
    } else if c == '\n' {
        out.push('\\');
        out.push('n');
    } else if c == '\r' {
        out.push('\\');
        out.push('r');
    } else if c == '\t' {
        out.push('\\');
        out.push('t');
    } else if c == '\x08' {
        out.push('\\');
        out.push('b');
    } else if c == '\x0c' {
        out.push('\\');
        out.push('f');
    } else if (c as u32) < 0x20 {
        let code = c as u32;
        out.push('\\');
        out.push('u');
        out.push('0');
        out.push('0');
        out.push(hex_digit(code / 16));
        out.push(hex_digit(code % 16));
    } else {
        out.push(c);
    }
    assert(out@ =~= o + escape_char(c));
}

/// Appends the characters of `t`, each escaped.
pub fn push_escaped(out: &mut Vec<char>, t: &Vec<char>)
    ensures
        final(out)@ == old(out)@ + escaped(t@),
{
    let mut k: usize = 0;
    while k < t.len()
        invariant
            k <= t.len(),
            out@ == old(out)@ + escaped(t@.subrange(0, k as int)),
        decreases t.len() - k,
    {
        let ghost before = out@;
        push_escape_char(out, t[k]);
        proof {
            let u = t@.subrange(0, k + 1);
            assert(u.subrange(0, u.len() - 1) =~= t@.subrange(0, k as int));
            assert(out@ =~= old(out)@ + escaped(u));
        }
        k = k + 1;
    }
    assert(t@.subrange(0, t@.len() as int) =~= t@);
}

/// Appends what precedes the item at index `k` of a container at `level`.
pub fn push_item_sep(out: &mut Vec<char>, k: usize, indent: usize, level: usize)
    requires
        level < MAX_DEPTH,
    ensures
        final(out)@ == old(out)@ + item_sep(k as int, indent as nat, level as nat),
{
    let ghost o = out@;
    if k > 0 {
        out.push(',');
    }
    if indent > 0 {
        out.push('\n');
        push_spaces(out, indent, level + 1);
    }
    assert(out@ =~= o + item_sep(k as int, indent as nat, level as nat));
}

/// Appends what precedes the closing bracket of a non-empty container at `level`.
pub fn push_close_sep(out: &mut Vec<char>, indent: usize, level: usize)
    ensures
        final(out)@ == old(out)@ + close_sep(indent as nat, level as nat),
{
    let ghost o = out@;
    if indent > 0 {
        out.push('\n');
        push_spaces(out, indent, level);
    }
    assert(out@ =~= o + close_sep(indent as nat, level as nat));
}

pub fn push_colon(out: &mut Vec<char>, indent: usize)
    ensures
        final(out)@ == old(out)@ + colon_sep(indent as nat),
{
    let ghost o = out@;
    out.push(':');
    if indent > 0 {
        out.push(' ');
    }
    assert(out@ =~= o + colon_sep(indent as nat));
}

} // verus!
