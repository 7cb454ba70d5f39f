//! The value model, and what printing and the statistics mean on it.
use vstd::prelude::*;

verus! {

/// A JSON document as a tree. Numbers keep the text they were written with,
/// so an integer stays an integer and a fraction keeps its digits.
pub enum JsonValue {
    Null,
    Bool(bool),
    Number(Seq<char>),
    Str(Seq<char>),
    Array(Seq<JsonValue>),
    Object(Seq<(Seq<char>, JsonValue)>),
}

pub open spec fn lit_null() -> Seq<char> {
    seq!['n', 'u', 'l', 'l']
}

pub open spec fn lit_true() -> Seq<char> {
    seq!['t', 'r', 'u', 'e']
}

pub open spec fn lit_false() -> Seq<char> {
    seq!['f', 'a', 'l', 's', 'e']
}

pub open spec fn hex_digits() -> Seq<char> {
    seq!['0', '1', '2', '3', '4', '5', '6', '7', '8', '9', 'a', 'b', 'c', 'd', 'e', 'f']
}

/// How one character is written inside a string literal.
pub open spec fn escape_char(c: char) -> Seq<char> {
    if c == '"' {
        seq!['\\', '"']
    } else if c == '\\' {
        seq!['\\', '\\']
    } else if c == '\n' {
        seq!['\\', 'n']
    } else if c == '\r' {
        seq!['\\', 'r']
    } else if c == '\t' {
        seq!['\\', 't']
    } else if c == '\x08' {
        seq!['\\', 'b']
    } else if c == '\x0c' {
        seq!['\\', 'f']
    } else if (c as u32) < 0x20 {
        seq!['\\', 'u', '0', '0', hex_digits()[(c as u32) as int / 16], hex_digits()[(c as u32) as int % 16]]
    } else {
        seq![c]
    }
}

/// The body of a string literal: each character escaped in turn.
pub open spec fn escaped(t: Seq<char>) -> Seq<char>
    decreases t.len(),
{
    if t.len() == 0 {
        Seq::empty()
    } else {
        escaped(t.subrange(0, t.len() - 1)) + escape_char(t[t.len() - 1])
    }
}

pub open spec fn quoted(t: Seq<char>) -> Seq<char> {
    seq!['"'] + escaped(t) + seq!['"']
}

pub open spec fn spaces(n: nat) -> Seq<char> {
    Seq::new(n, |_i: int| ' ')
}

/// What stands before the item at index `k` of a container at `level`: a comma
/// after the first item and, when indenting, a line break and the item's indentation.
pub open spec fn item_sep(k: int, indent: nat, level: nat) -> Seq<char> {
    (if k > 0 {
        seq![',']
    } else {
        Seq::empty()
    }) + (if indent > 0 {
        seq!['\n'] + spaces(indent * (level + 1))
    } else {
        Seq::empty()
    })
}

/// What stands before the closing bracket of a non-empty container at `level`.
pub open spec fn close_sep(indent: nat, level: nat) -> Seq<char> {
    if indent > 0 {
        seq!['\n'] + spaces(indent * level)
    } else {
        Seq::empty()
    }
}

/// Between a key and its value: a colon, and a space when indenting.
pub open spec fn colon_sep(indent: nat) -> Seq<char> {
    if indent > 0 {
        seq![':', ' ']
    } else {
        seq![':']
    }
}

/// The text of `v` at nesting `level`; an `indent` of 0 gives the compact form.
pub open spec fn render(v: JsonValue, indent: nat, level: nat) -> Seq<char>
    decreases v,
{
    match v {
        JsonValue::Null => lit_null(),
        JsonValue::Bool(b) => if b {
            lit_true()
        } else {
            lit_false()
        },
        JsonValue::Number(t) => t,
        JsonValue::Str(t) => quoted(t),
        JsonValue::Array(items) => if items.len() == 0 {
            seq!['[', ']']
        } else {
            seq!['['] + render_items(items, indent, level) + close_sep(indent, level) + seq![']']
        },
        JsonValue::Object(entries) => if entries.len() == 0 {
            seq!['{', '}']
        } else {
            seq!['{'] + render_entries(entries, indent, level) + close_sep(indent, level) + seq![
                '}',
            ]
        },
    }
}

/// The items of an array at `level`, each with the text that precedes it.
pub open spec fn render_items(items: Seq<JsonValue>, indent: nat, level: nat) -> Seq<char>
    decreases items,
{
    if items.len() == 0 {
        Seq::empty()
    } else {
        render_items(items.subrange(0, items.len() - 1), indent, level) + item_sep(
            items.len() - 1,
            indent,
            level,
        ) + render(items[items.len() - 1], indent, level + 1)
    }
}

/// The entries of an object at `level`, each with the text that precedes it.
pub open spec fn render_entries(entries: Seq<(Seq<char>, JsonValue)>, indent: nat, level: nat) -> Seq<
    char,
>
    decreases entries,
{
    if entries.len() == 0 {
        Seq::empty()
    } else {
        let e = entries[entries.len() - 1];
        render_entries(entries.subrange(0, entries.len() - 1), indent, level) + item_sep(
            entries.len() - 1,
            indent,
            level,
        ) + quoted(e.0) + colon_sep(indent) + render(e.1, indent, level + 1)
    }
}

/// Every key occurrence in the tree, duplicates included.
pub open spec fn key_count(v: JsonValue) -> nat
    decreases v,
{
    match v {
        JsonValue::Array(items) => key_count_items(items),
        JsonValue::Object(entries) => entries.len() + key_count_entries(entries),
        _ => 0,
    }
}

pub open spec fn key_count_items(items: Seq<JsonValue>) -> nat
    decreases items,
{
    if items.len() == 0 {
        0
    } else {
        key_count_items(items.subrange(0, items.len() - 1)) + key_count(items[items.len() - 1])
    }
}

pub open spec fn key_count_entries(entries: Seq<(Seq<char>, JsonValue)>) -> nat
    decreases entries,
{
    if entries.len() == 0 {
        0
    } else {
        key_count_entries(entries.subrange(0, entries.len() - 1)) + key_count(
            entries[entries.len() - 1].1,
        )
    }
}

pub open spec fn max_nat(a: nat, b: nat) -> nat {
    if a >= b {
        a
    } else {
        b
    }
}

/// Levels of nested containers: 0 for a scalar, one more than the deepest child for a container.
pub open spec fn depth(v: JsonValue) -> nat
    decreases v,
{
    match v {
        JsonValue::Array(items) => 1 + depth_items(items),
        JsonValue::Object(entries) => 1 + depth_entries(entries),
        _ => 0,
    }
}

pub open spec fn depth_items(items: Seq<JsonValue>) -> nat
    decreases items,
{
    if items.len() == 0 {
        0
    } else {
        max_nat(depth_items(items.subrange(0, items.len() - 1)), depth(items[items.len() - 1]))
    }
}

pub open spec fn depth_entries(entries: Seq<(Seq<char>, JsonValue)>) -> nat
    decreases entries,
{
    if entries.len() == 0 {
        0
    } else {
        max_nat(
            depth_entries(entries.subrange(0, entries.len() - 1)),
            depth(entries[entries.len() - 1].1),
        )
    }
}

} // verus!
