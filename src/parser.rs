//! The recursive-descent parser: it reads one value and, as it goes, writes the
//! value's printed form and counts its keys and depth.
use crate::emit::{
    push_all, push_close_sep, push_colon, push_escaped, push_item_sep, push_range, word_false,
    word_null, word_true,
};
use crate::grammar::{
    array_at, document, elements_at, member_at, members_at, object_at, value_at, ws_len, ErrorCode,
    Failure, Step, MAX_DEPTH,
};
use crate::scan::{
    is_digit_char, lemma_prepend_empty, prepend, same_failure, scan_number, scan_string,
    scan_word, skip_ws,
};
use crate::value::{
    depth, depth_entries, depth_items, key_count, key_count_entries, key_count_items, quoted,
    render, render_entries, render_items, JsonValue,
};
use vstd::prelude::*;

verus! {

/// Where a value ended, and its key count and depth.
pub struct Scan {
    pub end: usize,
    pub keys: usize,
    pub depth: usize,
}

/// What a scan from `i` promises when the grammar gives `spec`: the same end,
/// the value's statistics, and the value printed at `level` appended to the output.
pub open spec fn scan_post(
    s: Seq<char>,
    i: int,
    indent: nat,
    level: nat,
    o0: Seq<char>,
    o1: Seq<char>,
    r: Result<Scan, (usize, ErrorCode)>,
    spec: Step<JsonValue>,
) -> bool {
    match spec {
        Ok((v, n)) => {
            &&& r is Ok
            &&& r->Ok_0.end == i + n
            &&& r->Ok_0.keys == key_count(v)
            &&& r->Ok_0.depth == depth(v)
            &&& i + n <= s.len()
            &&& key_count(v) <= n
            &&& depth(v) <= n
            &&& o1 == o0 + render(v, indent, level)
        },
        Err(f) => r is Err && same_failure(r->Err_0, f) && r->Err_0.0 <= s.len(),
    }
}

pub proof fn lemma_items_push(items: Seq<JsonValue>, v: JsonValue, indent: nat, level: nat)
    ensures
        render_items(items.push(v), indent, level) == render_items(items, indent, level)
            + crate::value::item_sep(items.len() as int, indent, level) + render(
            v,
            indent,
            level + 1,
        ),
        key_count_items(items.push(v)) == key_count_items(items) + key_count(v),
        depth_items(items.push(v)) == crate::value::max_nat(depth_items(items), depth(v)),
{
    let u = items.push(v);
    assert(u.subrange(0, u.len() - 1) =~= items);
}

pub proof fn lemma_entries_push(
    entries: Seq<(Seq<char>, JsonValue)>,
    key: Seq<char>,
    v: JsonValue,
    indent: nat,
    level: nat,
)
    ensures
        render_entries(entries.push((key, v)), indent, level) == render_entries(
            entries,
            indent,
            level,
        ) + crate::value::item_sep(entries.len() as int, indent, level) + quoted(key)
            + crate::value::colon_sep(indent) + render(v, indent, level + 1),
        key_count_entries(entries.push((key, v))) == key_count_entries(entries) + key_count(v),
        depth_entries(entries.push((key, v))) == crate::value::max_nat(
            depth_entries(entries),
            depth(v),
        ),
{
    let u = entries.push((key, v));
    assert(u.subrange(0, u.len() - 1) =~= entries);
}

fn max_usize(a: usize, b: usize) -> (r: usize)
    ensures
        r == crate::value::max_nat(a as nat, b as nat),
{
    if a >= b {
        a
    } else {
        b
    }
}

/// Reads the value that starts after the whitespace at `i`, inside `d` containers.
pub fn parse_value(s: &Vec<char>, i: usize, d: usize, indent: usize, out: &mut Vec<char>) -> (r:
    Result<Scan, (usize, ErrorCode)>)
    requires
        i <= s.len(),
        d <= MAX_DEPTH,
    ensures
        scan_post(
            s@,
            i as int,
            indent as nat,
            d as nat,
            old(out)@,
            final(out)@,
            r,
            value_at(s@, i as int, d as nat),
        ),
    decreases s.len() - i, 0usize,
{
    let p = skip_ws(s, i);
    if p >= s.len() {
        return Err((p, ErrorCode::EofWhileParsingValue));
    }
    let c = s[p];
    if c == 'n' || c == 't' || c == 'f' {
        let w = if c == 'n' {
            word_null()
        } else if c == 't' {
            word_true()
        } else {
            word_false()
        };
        if scan_word(s, p, &w) {
            push_all(out, &w);
            Ok(Scan { end: p + w.len(), keys: 0, depth: 0 })
        } else {
            Err((p, ErrorCode::ExpectedIdent))
        }
    } else if c == '"' {
        let mut t: Vec<char> = Vec::new();
        match scan_string(s, p + 1, &mut t) {
            Err(f) => Err(f),
            Ok(e) => {
                let ghost o = out@;
                out.push('"');
                push_escaped(out, &t);
                out.push('"');
                assert(out@ =~= o + quoted(t@));
                Ok(Scan { end: e, keys: 0, depth: 0 })
            },
        }
    } else if c == '-' || is_digit_char(c) {
        match scan_number(s, p) {
            Err(f) => Err(f),
            Ok(e) => {
                push_range(out, s, p, e);
                Ok(Scan { end: e, keys: 0, depth: 0 })
            },
        }
    } else if c == '[' || c == '{' {
        if d >= MAX_DEPTH {
            return Err((p, ErrorCode::RecursionLimitExceeded));
        }
        let r = if c == '[' {
            parse_array(s, p + 1, d, indent, out)
        } else {
            parse_object(s, p + 1, d, indent, out)
        };
        r
    } else {
        Err((p, ErrorCode::ExpectedValue))
    }
}

/// Reads an array from just after its `[`, through its `]`.
#[verifier::spinoff_prover]
#[verifier::rlimit(60)]
fn parse_array(s: &Vec<char>, i: usize, d: usize, indent: usize, out: &mut Vec<char>) -> (r:
    Result<Scan, (usize, ErrorCode)>)
    requires
        1 <= i <= s.len(),
        d < MAX_DEPTH,
    ensures
        scan_post(
            s@,
            i as int,
            indent as nat,
            d as nat,
            old(out)@,
            final(out)@,
            r,
            array_at(s@, i as int, d as nat),
        ),
    decreases s.len() - i, 2usize,
{
    let ghost o0 = out@;
    let p = skip_ws(s, i);
    if p >= s.len() {
        return Err((p, ErrorCode::EofWhileParsingList));
    }
    if s[p] == ']' {
        out.push('[');
        out.push(']');
        assert(out@ =~= o0 + seq!['[', ']']);
        return Ok(Scan { end: p + 1, keys: 0, depth: 1 });
    }
    out.push('[');
    let ghost mut acc: Seq<JsonValue> = Seq::empty();
    let mut k = i;
    let mut keys: usize = 0;
    let mut dep: usize = 0;
    proof {
        lemma_prepend_empty(elements_at(s@, i as int, d as nat));
    }
    loop
        invariant
            i <= k <= s.len(),
            d < MAX_DEPTH,
            o0 == old(out)@,
            p == i + ws_len(s@, i as int),
            p < s.len(),
            s@[p as int] != ']',
            elements_at(s@, i as int, d as nat) == prepend(
                acc,
                k - i,
                elements_at(s@, k as int, d as nat),
            ),
            out@ == o0 + seq!['['] + render_items(acc, indent as nat, d as nat),
            keys == key_count_items(acc),
            dep == depth_items(acc),
            keys <= k - i,
            dep <= k - i,
            (acc.len() == 0) == (k == i),
        decreases s.len() - k,
    {
        push_item_sep(out, if k == i { 0 } else { 1 }, indent, d);
        let sc = match parse_value(s, k, d + 1, indent, out) {
            Err(f) => {
                return Err(f);
            },
            Ok(sc) => sc,
        };
        let ghost v = value_at(s@, k as int, (d + 1) as nat)->Ok_0.0;
        proof {
            lemma_items_push(acc, v, indent as nat, d as nat);
        }
        let q = skip_ws(s, sc.end);
        if q >= s.len() {
            return Err((q, ErrorCode::EofWhileParsingList));
        }
        if s[q] == ']' {
            push_close_sep(out, indent, d);
            out.push(']');
            let ghost items = acc.push(v);
            assert(elements_at(s@, k as int, d as nat) == Ok::<(Seq<JsonValue>, nat), Failure>(
                (seq![v], (q + 1 - k) as nat),
            ));
            assert(acc + seq![v] =~= items);
            assert(elements_at(s@, i as int, d as nat) == Ok::<(Seq<JsonValue>, nat), Failure>(
                (items, (q + 1 - i) as nat),
            ));
            assert(out@ =~= o0 + render(JsonValue::Array(items), indent as nat, d as nat));
            return Ok(Scan { end: q + 1, keys: keys + sc.keys, depth: 1 + max_usize(dep, sc.depth) });
        }
        if s[q] != ',' {
            return Err((q, ErrorCode::ExpectedListCommaOrEnd));
        }
        let r = skip_ws(s, q + 1);
        if r < s.len() && s[r] == ']' {
            return Err((r, ErrorCode::TrailingComma));
        }
        proof {
            crate::scan::lemma_prepend_push(acc, v, k - i, q + 1 - k, elements_at(s@, q + 1, d as nat));
            acc = acc.push(v);
        }
        keys = keys + sc.keys;
        dep = max_usize(dep, sc.depth);
        k = q + 1;
    }
}

/// Reads one entry of an object inside `d` containers, `"key": value`, after the
/// whitespace at `i`; writes it and returns its statistics and its key.
fn parse_member(s: &Vec<char>, i: usize, d: usize, indent: usize, out: &mut Vec<char>) -> (r:
    Result<(Scan, Vec<char>), (usize, ErrorCode)>)
    requires
        i <= s.len(),
        d < MAX_DEPTH,
    ensures
        match member_at(s@, i as int, d as nat) {
            Ok((e, n)) => {
                &&& r is Ok
                &&& r->Ok_0.0.end == i + n
                &&& r->Ok_0.0.keys == key_count(e.1)
                &&& r->Ok_0.0.depth == depth(e.1)
                &&& r->Ok_0.1@ == e.0
                &&& i + n <= s.len()
                &&& key_count(e.1) + 1 <= n
                &&& depth(e.1) <= n
                &&& final(out)@ == old(out)@ + quoted(e.0) + crate::value::colon_sep(indent as nat)
                    + render(e.1, indent as nat, (d + 1) as nat)
            },
            Err(f) => r is Err && same_failure(r->Err_0, f) && r->Err_0.0 <= s.len(),
        },
    decreases s.len() - i, 1usize,
{
    let b = skip_ws(s, i);
    if b >= s.len() {
        return Err((b, ErrorCode::EofWhileParsingObject));
    }
    if s[b] != '"' {
        return Err((b, ErrorCode::KeyMustBeAString));
    }
    let mut key: Vec<char> = Vec::new();
    let ke = match scan_string(s, b + 1, &mut key) {
        Err(f) => {
            return Err(f);
        },
        Ok(e) => e,
    };
    assert(key@ =~= Seq::<char>::empty() + key@);
    let c = skip_ws(s, ke);
    if c >= s.len() {
        return Err((c, ErrorCode::EofWhileParsingObject));
    }
    if s[c] != ':' {
        return Err((c, ErrorCode::ExpectedColon));
    }
    let ghost before = out@;
    out.push('"');
    push_escaped(out, &key);
    out.push('"');
    push_colon(out, indent);
    assert(out@ =~= before + quoted(key@) + crate::value::colon_sep(indent as nat));
    match parse_value(s, c + 1, d + 1, indent, out) {
        Err(f) => Err(f),
        Ok(sc) => Ok((sc, key)),
    }
}

/// Reads an object from just after its `{`, through its `}`.
#[verifier::spinoff_prover]
#[verifier::rlimit(60)]
fn parse_object(s: &Vec<char>, i: usize, d: usize, indent: usize, out: &mut Vec<char>) -> (r:
    Result<Scan, (usize, ErrorCode)>)
    requires
        1 <= i <= s.len(),
        d < MAX_DEPTH,
    ensures
        scan_post(
            s@,
            i as int,
            indent as nat,
            d as nat,
            old(out)@,
            final(out)@,
            r,
            object_at(s@, i as int, d as nat),
        ),
    decreases s.len() - i, 3usize,
{
    let ghost o0 = out@;
    let p = skip_ws(s, i);
    if p >= s.len() {
        return Err((p, ErrorCode::EofWhileParsingObject));
    }
    if s[p] == '}' {
        out.push('{');
        out.push('}');
        assert(out@ =~= o0 + seq!['{', '}']);
        return Ok(Scan { end: p + 1, keys: 0, depth: 1 });
    }
    out.push('{');
    let ghost mut acc: Seq<(Seq<char>, JsonValue)> = Seq::empty();
    let mut k = i;
    let mut keys: usize = 0;
    let mut dep: usize = 0;
    proof {
        lemma_prepend_empty(members_at(s@, i as int, d as nat));
    }
    loop
        invariant
            i <= k <= s.len(),
            d < MAX_DEPTH,
            o0 == old(out)@,
            p == i + ws_len(s@, i as int),
            p < s.len(),
            s@[p as int] != '}',
            members_at(s@, i as int, d as nat) == prepend(
                acc,
                k - i,
                members_at(s@, k as int, d as nat),
            ),
            out@ == o0 + seq!['{'] + render_entries(acc, indent as nat, d as nat),
            keys == acc.len() + key_count_entries(acc),
            dep == depth_entries(acc),
            keys <= k - i,
            dep <= k - i,
            (acc.len() == 0) == (k == i),
        decreases s.len() - k,
    {
        push_item_sep(out, if k == i { 0 } else { 1 }, indent, d);
        let (sc, key) = match parse_member(s, k, d, indent, out) {
            Err(f) => {
                return Err(f);
            },
            Ok(m) => m,
        };
        let ghost v = member_at(s@, k as int, d as nat)->Ok_0.0.1;
        proof {
            lemma_entries_push(acc, key@, v, indent as nat, d as nat);
        }
        let q = skip_ws(s, sc.end);
        if q >= s.len() {
            return Err((q, ErrorCode::EofWhileParsingObject));
        }
        if s[q] == '}' {
            push_close_sep(out, indent, d);
            out.push('}');
            let ghost entries = acc.push((key@, v));
            assert(members_at(s@, k as int, d as nat) == Ok::<
                (Seq<(Seq<char>, JsonValue)>, nat),
                Failure,
            >((seq![(key@, v)], (q + 1 - k) as nat)));
            assert(acc + seq![(key@, v)] =~= entries);
            assert(members_at(s@, i as int, d as nat) == Ok::<
                (Seq<(Seq<char>, JsonValue)>, nat),
                Failure,
            >((entries, (q + 1 - i) as nat)));
            assert(out@ =~= o0 + render(JsonValue::Object(entries), indent as nat, d as nat));
            return Ok(
                Scan { end: q + 1, keys: keys + 1 + sc.keys, depth: 1 + max_usize(dep, sc.depth) },
            );
        }
        if s[q] != ',' {
            return Err((q, ErrorCode::ExpectedObjectCommaOrEnd));
        }
        let r = skip_ws(s, q + 1);
        if r < s.len() && s[r] == '}' {
            return Err((r, ErrorCode::TrailingComma));
        }
        proof {
            crate::scan::lemma_prepend_push(
                acc,
                (key@, v),
                k - i,
                q + 1 - k,
                members_at(s@, q + 1, d as nat),
            );
            acc = acc.push((key@, v));
        }
        keys = keys + 1 + sc.keys;
        dep = max_usize(dep, sc.depth);
        k = q + 1;
    }
}

/// Reads a whole document: one value, then nothing but whitespace. The value is
/// written at level 0.
pub fn parse_document(s: &Vec<char>, indent: usize, out: &mut Vec<char>) -> (r: Result<
    Scan,
    (usize, ErrorCode),
>)
    ensures
        match document(s@) {
            Ok(v) => {
                &&& r is Ok
                &&& r->Ok_0.keys == key_count(v)
                &&& r->Ok_0.depth == depth(v)
                &&& final(out)@ == old(out)@ + render(v, indent as nat, 0)
            },
            Err(f) => r is Err && same_failure(r->Err_0, f) && r->Err_0.0 <= s.len(),
        },
{
    let sc = match parse_value(s, 0, 0, indent, out) {
        Err(f) => {
            return Err(f);
        },
        Ok(sc) => sc,
    };
    let e = skip_ws(s, sc.end);
    if e < s.len() {
        return Err((e, ErrorCode::TrailingCharacters));
    }
    Ok(sc)
}

} // verus!
