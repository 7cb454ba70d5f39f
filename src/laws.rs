//! Laws that relate the engine's operations to one another.
use crate::grammar::{
    digits_len, escape_at, exponent_end, fraction_end, hex4, hex_value, is_digit, is_ws,
    member_at, members_at, elements_at, array_at, object_at, value_at, document,     number_end, string_at, string_document, word_at, ws_len, Failure,
};
use crate::value::{
    close_sep, colon_sep, escape_char, escaped, hex_digits, item_sep, lit_false, lit_null,
    lit_true, quoted, render, render_entries, render_items, spaces, JsonValue,
};
use vstd::prelude::*;

verus! {

proof fn lemma_hex_digit_value(n: int)
    requires
        0 <= n < 16,
    ensures
        hex_value(hex_digits()[n]) == n,
{
}

proof fn lemma_escaped_first(c: char, t: Seq<char>)
    ensures
        escaped(seq![c] + t) == escape_char(c) + escaped(t),
    decreases t.len(),
{
    let u = seq![c] + t;
    if t.len() == 0 {
        assert(u.subrange(0, u.len() - 1) =~= Seq::<char>::empty());
        assert(escaped(Seq::<char>::empty()) =~= Seq::<char>::empty());
        assert(t =~= Seq::<char>::empty());
        assert(escape_char(c) + escaped(t) =~= escape_char(c));
        assert(escaped(u) =~= escape_char(c));
    } else {
        let t0 = t.subrange(0, t.len() - 1);
        lemma_escaped_first(c, t0);
        assert(u.subrange(0, u.len() - 1) =~= seq![c] + t0);
        assert(u[u.len() - 1] == t[t.len() - 1]);
        assert(escaped(u) =~= escape_char(c) + escaped(t));
    }
}

/// A string literal body written by the printer, followed by a quote, reads back as the same characters.
#[verifier::spinoff_prover]
#[verifier::rlimit(50)]
proof fn lemma_string_at_escaped(s: Seq<char>, i: int, t: Seq<char>)
    requires
        0 <= i,
        i + escaped(t).len() + 1 <= s.len(),
        s.subrange(i, i + escaped(t).len() + 1) == escaped(t) + seq!['"'],
    ensures
        string_at(s, i) == Ok::<(Seq<char>, nat), Failure>((t, escaped(t).len() + 1)),
    decreases t.len(),
{
    reveal(escape_at);
    let k = escaped(t).len() as int;
    assert(s.subrange(i, i + k + 1)[0] == s[i]);
    if t.len() == 0 {
        assert(escaped(t) =~= Seq::<char>::empty());
        assert(s[i] == '"');
        assert(t =~= Seq::<char>::empty());
    } else {
        let c = t[0];
        let rest = t.subrange(1, t.len() as int);
        assert(t =~= seq![c] + rest);
        lemma_escaped_first(c, rest);
        let e = escape_char(c);
        let m = e.len() as int;
        assert(escaped(t) == e + escaped(rest));
        assert forall|j: int| 0 <= j < m implies s[i + j] == e[j] by {
            assert(s.subrange(i, i + k + 1)[j] == s[i + j]);
            assert((e + escaped(rest) + seq!['"'])[j] == e[j]);
        }
        assert(s.subrange(i + m, i + m + escaped(rest).len() + 1) =~= escaped(rest) + seq!['"'])
            by {
            assert forall|j: int| 0 <= j < escaped(rest).len() + 1 implies s.subrange(
                i + m,
                i + m + escaped(rest).len() + 1,
            )[j] == (escaped(rest) + seq!['"'])[j] by {
                assert(s.subrange(i, i + k + 1)[m + j] == s[i + m + j]);
                assert((e + escaped(rest) + seq!['"'])[m + j] == (escaped(rest) + seq!['"'])[j]);
            }
        }
        lemma_string_at_escaped(s, i + m, rest);
        if (c as u32) < 0x20 && c != '\n' && c != '\r' && c != '\t' && c != '\x08' && c
            != '\x0c' {
            let code = (c as u32) as int;
            lemma_hex_digit_value(code / 16);
            lemma_hex_digit_value(code % 16);
            lemma_hex_digit_value(0);
            assert(hex4(s, i + 2) == code);
            vstd::utf8::char_u32_cast(c, c as u32);
            assert(escape_at(s, i) == Ok::<(char, nat), Failure>((c, 6)));
        }
        assert(seq![c] + rest == t);
    }
}

/// Escaping any text and then unescaping the result gives the text back.
pub proof fn law_unescape_escape(t: Seq<char>)
    ensures
        string_document(quoted(t)) == Ok::<Seq<char>, Failure>(t),
{
    let s = quoted(t);
    let k = escaped(t).len() as int;
    assert(s.subrange(1, k + 2) =~= escaped(t) + seq!['"']);
    lemma_string_at_escaped(s, 1, t);
    assert(ws_len(s, 0) == 0);
    assert(ws_len(s, k + 2) == 0);
}

/// A character that cannot continue a number.
pub open spec fn ends_number(s: Seq<char>, k: int) -> bool {
    k == s.len() || !(is_digit(s[k]) || s[k] == '.' || s[k] == 'e' || s[k] == 'E')
}

/// `s2` from `b` holds the `len` characters that `s` holds from `a`.
pub open spec fn agree(s: Seq<char>, a: int, s2: Seq<char>, b: int, len: int) -> bool {
    &&& 0 <= a
    &&& 0 <= b
    &&& a + len <= s.len()
    &&& b + len <= s2.len()
    &&& forall|k: int| 0 <= k < len ==> #[trigger] s2[b + k] == s[a + k]
}

pub open spec fn all_ws(w: Seq<char>) -> bool {
    forall|k: int| 0 <= k < w.len() ==> is_ws(#[trigger] w[k])
}

/// Whitespace `w` at `j`, followed by a character that is not whitespace, is skipped whole.
proof fn lemma_ws_block(s: Seq<char>, j: int, w: Seq<char>)
    requires
        0 <= j,
        j + w.len() < s.len(),
        s.subrange(j, j + w.len()) == w,
        all_ws(w),
        !is_ws(s[j + w.len()]),
    ensures
        ws_len(s, j) == w.len(),
    decreases w.len(),
{
    if w.len() > 0 {
        assert(s.subrange(j, j + w.len())[0] == s[j]);
        assert(is_ws(w[0]));
        let w2 = w.subrange(1, w.len() as int);
        assert(s.subrange(j + 1, j + 1 + w2.len()) =~= w2) by {
            assert forall|k: int| 0 <= k < w2.len() implies s.subrange(j + 1, j + 1 + w2.len())[k]
                == w2[k] by {
                assert(s.subrange(j, j + w.len())[k + 1] == s[j + 1 + k]);
            }
        }
        assert(all_ws(w2)) by {
            assert forall|k: int| 0 <= k < w2.len() implies is_ws(#[trigger] w2[k]) by {
                assert(w2[k] == w[k + 1]);
            }
        }
        lemma_ws_block(s, j + 1, w2);
    }
}

proof fn lemma_digits_local(s: Seq<char>, a: int, s2: Seq<char>, b: int, len: int)
    requires
        agree(s, a, s2, b, len),
        digits_len(s, a) <= len,
        digits_len(s, a) == len ==> (b + len == s2.len() || !is_digit(s2[b + len])),
    ensures
        digits_len(s2, b) == digits_len(s, a),
    decreases len,
{
    if len > 0 {
        assert(s2[b + 0] == s[a + 0]);
        if digits_len(s, a) > 0 {
            assert(agree(s, a + 1, s2, b + 1, len - 1)) by {
                assert forall|k: int| 0 <= k < len - 1 implies #[trigger] s2[b + 1 + k] == s[a + 1
                    + k] by {
                    assert(s2[b + (k + 1)] == s[a + (k + 1)]);
                }
            }
            lemma_digits_local(s, a + 1, s2, b + 1, len - 1);
        }
    }
}

/// A number keeps its meaning where the character after it cannot continue it.
proof fn lemma_number_local(s: Seq<char>, p: int, s2: Seq<char>, j: int)
    requires
        0 <= p < s.len(),
        number_end(s, p) is Ok,
        agree(s, p, s2, j, number_end(s, p)->Ok_0 - p),
        ends_number(s2, j + number_end(s, p)->Ok_0 - p),
    ensures
        number_end(s2, j) == Ok::<int, Failure>(j + number_end(s, p)->Ok_0 - p),
{
    let e = number_end(s, p)->Ok_0;
    let len = e - p;
    let a = if s[p] == '-' {
        p + 1
    } else {
        p
    };
    let a2 = j + (a - p);
    assert(s2[j + 0] == s[p + 0]);
    let b = if s[a] == '0' {
        a + 1
    } else {
        a + digits_len(s, a)
    };
    let c = fraction_end(s, b)->Ok_0;
    assert(p < a + 1 <= b <= c <= e);
    assert(s2[j + (a - p)] == s[p + (a - p)]);
    if s[a] == '0' {
        if a + 1 < e {
            assert(s2[j + (a + 1 - p)] == s[p + (a + 1 - p)]);
        }
    } else {
        assert(agree(s, a, s2, a2, e - a)) by {
            assert forall|k: int| 0 <= k < e - a implies #[trigger] s2[a2 + k] == s[a + k] by {
                assert(s2[j + (a - p + k)] == s[p + (a - p + k)]);
            }
        }
        if digits_len(s, a) < e - a {
            assert(s2[j + (a + digits_len(s, a) - p)] == s[p + (a + digits_len(s, a) - p)]);
        }
        lemma_digits_local(s, a, s2, a2, e - a);
    }
    let b2 = j + (b - p);
    if b < e {
        assert(s2[j + (b - p)] == s[p + (b - p)]);
    }
    if b < e && s[b] == '.' {
        assert(agree(s, b + 1, s2, b2 + 1, e - b - 1)) by {
            assert forall|k: int| 0 <= k < e - b - 1 implies #[trigger] s2[b2 + 1 + k] == s[b + 1
                + k] by {
                assert(s2[j + (b + 1 - p + k)] == s[p + (b + 1 - p + k)]);
            }
        }
        if digits_len(s, b + 1) < e - b - 1 {
            assert(s2[j + (b + 1 + digits_len(s, b + 1) - p)] == s[p + (b + 1 + digits_len(
                s,
                b + 1,
            ) - p)]);
        }
        lemma_digits_local(s, b + 1, s2, b2 + 1, e - b - 1);
    }
    assert(fraction_end(s2, b2) == Ok::<int, Failure>(j + (c - p)));
    let c2 = j + (c - p);
    if c < e {
        assert(s2[j + (c - p)] == s[p + (c - p)]);
        if c + 1 < e {
            assert(s2[j + (c + 1 - p)] == s[p + (c + 1 - p)]);
        }
        let x = if c + 1 < s.len() && (s[c + 1] == '+' || s[c + 1] == '-') {
            c + 2
        } else {
            c + 1
        };
        let x2 = j + (x - p);
        assert(x2 == if c2 + 1 < s2.len() && (s2[c2 + 1] == '+' || s2[c2 + 1] == '-') {
            c2 + 2
        } else {
            c2 + 1
        });
        assert(agree(s, x, s2, x2, e - x)) by {
            assert forall|k: int| 0 <= k < e - x implies #[trigger] s2[x2 + k] == s[x + k] by {
                assert(s2[j + (x - p + k)] == s[p + (x - p + k)]);
            }
        }
        if digits_len(s, x) < e - x {
            assert(s2[j + (x + digits_len(s, x) - p)] == s[p + (x + digits_len(s, x) - p)]);
        }
        lemma_digits_local(s, x, s2, x2, e - x);
    }
}

/// The whitespace the printer puts before each item of a container at `level`.
pub open spec fn item_ws(indent: nat, level: nat) -> Seq<char> {
    if indent > 0 {
        seq!['\n'] + spaces(indent * (level + 1))
    } else {
        Seq::empty()
    }
}

/// The printed items of an array from the first on, through the closing bracket.
pub open spec fn tail_items(items: Seq<JsonValue>, indent: nat, level: nat) -> Seq<char>
    decreases items.len(),
{
    if items.len() <= 1 {
        item_ws(indent, level) + render(items[0], indent, level + 1) + close_sep(indent, level)
            + seq![']']
    } else {
        item_ws(indent, level) + render(items[0], indent, level + 1) + seq![','] + tail_items(
            items.subrange(1, items.len() as int),
            indent,
            level,
        )
    }
}

pub open spec fn entry_text(e: (Seq<char>, JsonValue), indent: nat, level: nat) -> Seq<char> {
    item_ws(indent, level) + quoted(e.0) + colon_sep(indent) + render(e.1, indent, level + 1)
}

/// The printed entries of an object from the first on, through the closing brace.
pub open spec fn tail_entries(entries: Seq<(Seq<char>, JsonValue)>, indent: nat, level: nat) -> Seq<
    char,
>
    decreases entries.len(),
{
    if entries.len() <= 1 {
        entry_text(entries[0], indent, level) + close_sep(indent, level) + seq!['}']
    } else {
        entry_text(entries[0], indent, level) + seq![','] + tail_entries(
            entries.subrange(1, entries.len() as int),
            indent,
            level,
        )
    }
}

proof fn lemma_split(s: Seq<char>, j: int, a: Seq<char>, b: Seq<char>)
    requires
        0 <= j,
        j + a.len() + b.len() <= s.len(),
        s.subrange(j, j + a.len() + b.len()) == a + b,
    ensures
        s.subrange(j, j + a.len()) == a,
        s.subrange(j + a.len(), j + a.len() + b.len()) == b,
{
    assert forall|k: int| 0 <= k < a.len() implies s.subrange(j, j + a.len())[k] == a[k] by {
        assert(s.subrange(j, j + a.len() + b.len())[k] == (a + b)[k]);
    }
    assert forall|k: int| 0 <= k < b.len() implies s.subrange(
        j + a.len(),
        j + a.len() + b.len(),
    )[k] == b[k] by {
        assert(s.subrange(j, j + a.len() + b.len())[a.len() + k] == (a + b)[a.len() + k]);
        assert(s.subrange(j, j + a.len() + b.len())[a.len() + k] == s[j + a.len() + k]);
        assert(s.subrange(j + a.len(), j + a.len() + b.len())[k] == s[j + a.len() + k]);
    }
    assert(s.subrange(j, j + a.len()) =~= a);
    assert(s.subrange(j + a.len(), j + a.len() + b.len()) =~= b);
}

proof fn lemma_ws_seps(indent: nat, level: nat)
    ensures
        all_ws(item_ws(indent, level)),
        all_ws(close_sep(indent, level)),
        all_ws(colon_sep(indent).subrange(1, colon_sep(indent).len() as int)),
        colon_sep(indent)[0] == ':',
        colon_sep(indent) == seq![':'] + colon_sep(indent).subrange(1, colon_sep(indent).len() as int),
        item_sep(0, indent, level) == item_ws(indent, level),
        item_sep(1, indent, level) == seq![','] + item_ws(indent, level),
        close_sep(indent, level).len() == 0 || close_sep(indent, level)[0] == '\n',
{
    let w = item_ws(indent, level);
    assert forall|k: int| 0 <= k < w.len() implies is_ws(#[trigger] w[k]) by {
        if indent > 0 && k > 0 {
            assert(w[k] == spaces(indent * (level + 1))[k - 1]);
        }
    }
    let c = close_sep(indent, level);
    assert forall|k: int| 0 <= k < c.len() implies is_ws(#[trigger] c[k]) by {
        if indent > 0 && k > 0 {
            assert(c[k] == spaces(indent * level)[k - 1]);
        }
    }
    assert(Seq::<char>::empty() + w =~= w);
    assert(colon_sep(indent) =~= seq![':'] + colon_sep(indent).subrange(1, colon_sep(indent).len() as int));
}

proof fn lemma_digits_bound(s: Seq<char>, a: int)
    requires
        0 <= a,
    ensures
        digits_len(s, a) == 0 || a + digits_len(s, a) <= s.len(),
    decreases s.len() - a,
{
    if 0 <= a < s.len() && is_digit(s[a]) {
        lemma_digits_bound(s, a + 1);
    }
}

/// A number ends after its first character and within the text.
proof fn lemma_number_bounds(s: Seq<char>, p: int)
    requires
        0 <= p < s.len(),
        number_end(s, p) is Ok,
    ensures
        p < number_end(s, p)->Ok_0 <= s.len(),
{
    let a = if s[p] == '-' {
        p + 1
    } else {
        p
    };
    lemma_digits_bound(s, a);
    if s[a] != '0' {
        assert(digits_len(s, a) >= 1);
    }
    let b = if s[a] == '0' {
        a + 1
    } else {
        a + digits_len(s, a)
    };
    lemma_digits_bound(s, b + 1);
    let c = fraction_end(s, b)->Ok_0;
    lemma_digits_bound(s, c + 1);
    lemma_digits_bound(s, c + 2);
}

/// The printed text of a value starts with the character its parse started with,
/// which is neither whitespace nor a closing bracket nor a comma.
proof fn lemma_value_first(s: Seq<char>, i: int, d: nat, indent: nat, level: nat)
    requires
        0 <= i,
        value_at(s, i, d) is Ok,
    ensures
        render(value_at(s, i, d)->Ok_0.0, indent, level).len() > 0,
        !is_ws(render(value_at(s, i, d)->Ok_0.0, indent, level)[0]),
        render(value_at(s, i, d)->Ok_0.0, indent, level)[0] != ']',
        render(value_at(s, i, d)->Ok_0.0, indent, level)[0] != '}',
        render(value_at(s, i, d)->Ok_0.0, indent, level)[0] != ',',
{
    let p = i + ws_len(s, i);
    let v = value_at(s, i, d)->Ok_0.0;
    let r = render(v, indent, level);
    let c = s[p];
    if c == 'n' || c == 't' || c == 'f' {
        assert(lit_null()[0] == 'n' && lit_true()[0] == 't' && lit_false()[0] == 'f');
    } else if c == '"' {
        assert(r[0] == '"');
    } else if c == '-' || is_digit(c) {
        let e = number_end(s, p)->Ok_0;
        lemma_number_bounds(s, p);
        assert(r[0] == s.subrange(p, e)[0]);
    } else {
        match v {
            JsonValue::Array(items) => {
                if items.len() > 0 {
                    assert(r[0] == '[');
                } else {
                    assert(r[0] == '[');
                }
            },
            JsonValue::Object(entries) => {
                if entries.len() > 0 {
                    assert(r[0] == '{');
                } else {
                    assert(r[0] == '{');
                }
            },
            _ => {},
        }
    }
}

proof fn lemma_items_bridge(items: Seq<JsonValue>, indent: nat, level: nat, m: int)
    requires
        1 <= m <= items.len(),
    ensures
        render_items(items.subrange(0, m), indent, level) + (if m == items.len() {
            close_sep(indent, level) + seq![']']
        } else {
            seq![','] + tail_items(items.subrange(m, items.len() as int), indent, level)
        }) == tail_items(items, indent, level),
    decreases m,
{
    lemma_ws_seps(indent, level);
    let n = items.len() as int;
    let u = items.subrange(0, m);
    assert(u.subrange(0, m - 1) =~= items.subrange(0, m - 1));
    if m == 1 {
        assert(items.subrange(0, 0) =~= Seq::<JsonValue>::empty());
        if n > 1 {
            assert(items.subrange(1, n) =~= items.subrange(m, n));
        }
        assert(render_items(Seq::<JsonValue>::empty(), indent, level) =~= Seq::<char>::empty());
        assert(Seq::<char>::empty() + item_ws(indent, level) =~= item_ws(indent, level));
    } else {
        lemma_items_bridge(items, indent, level, m - 1);
        let t = items.subrange(m - 1, n);
        assert(t[0] == items[m - 1]);
        if m < n {
            assert(t.subrange(1, t.len() as int) =~= items.subrange(m, n));
        }
    }
    if m == n {
        assert(items.subrange(0, n) =~= items);
    }
    assert(render_items(u, indent, level) + (if m == items.len() {
        close_sep(indent, level) + seq![']']
    } else {
        seq![','] + tail_items(items.subrange(m, items.len() as int), indent, level)
    }) =~= tail_items(items, indent, level));
}

#[verifier::spinoff_prover]
#[verifier::rlimit(100)]
proof fn lemma_entries_bridge(
    entries: Seq<(Seq<char>, JsonValue)>,
    indent: nat,
    level: nat,
    m: int,
)
    requires
        1 <= m <= entries.len(),
    ensures
        render_entries(entries.subrange(0, m), indent, level) + (if m == entries.len() {
            close_sep(indent, level) + seq!['}']
        } else {
            seq![','] + tail_entries(entries.subrange(m, entries.len() as int), indent, level)
        }) == tail_entries(entries, indent, level),
    decreases m,
{
    lemma_ws_seps(indent, level);
    let n = entries.len() as int;
    let u = entries.subrange(0, m);
    assert(u.subrange(0, m - 1) =~= entries.subrange(0, m - 1));
    assert(u[m - 1] == entries[m - 1]);
    let sep: Seq<char> = if m - 1 > 0 {
        seq![',']
    } else {
        Seq::empty()
    };
    assert(item_sep(m - 1, indent, level) =~= sep + item_ws(indent, level));
    assert(render_entries(u, indent, level) =~= render_entries(
        entries.subrange(0, m - 1),
        indent,
        level,
    ) + sep + entry_text(entries[m - 1], indent, level));
    if m == 1 {
        assert(entries.subrange(0, 0) =~= Seq::<(Seq<char>, JsonValue)>::empty());
        if n > 1 {
            assert(entries.subrange(1, n) =~= entries.subrange(m, n));
        }
        assert(render_entries(Seq::<(Seq<char>, JsonValue)>::empty(), indent, level)
            =~= Seq::<char>::empty());
    } else {
        lemma_entries_bridge(entries, indent, level, m - 1);
        let t = entries.subrange(m - 1, n);
        assert(t[0] == entries[m - 1]);
        if m < n {
            assert(t.subrange(1, t.len() as int) =~= entries.subrange(m, n));
        }
    }
    if m == n {
        assert(entries.subrange(0, n) =~= entries);
    }
    assert(render_entries(u, indent, level) + (if m == entries.len() {
        close_sep(indent, level) + seq!['}']
    } else {
        seq![','] + tail_entries(entries.subrange(m, entries.len() as int), indent, level)
    }) =~= tail_entries(entries, indent, level));
}

/// A piece of a text that `s2` holds at `j` stands at the matching place of `s2`.
proof fn lemma_sub(s2: Seq<char>, j: int, x: Seq<char>, a: int, b: int)
    requires
        0 <= j,
        j + x.len() <= s2.len(),
        s2.subrange(j, j + x.len()) == x,
        0 <= a <= b <= x.len(),
    ensures
        s2.subrange(j + a, j + b) == x.subrange(a, b),
        a < x.len() ==> s2[j + a] == x[a],
{
    assert forall|k: int| 0 <= k < b - a implies s2.subrange(j + a, j + b)[k] == x.subrange(
        a,
        b,
    )[k] by {
        assert(s2.subrange(j, j + x.len())[a + k] == s2[j + a + k]);
    }
    assert(s2.subrange(j + a, j + b) =~= x.subrange(a, b));
    if a < x.len() {
        assert(s2.subrange(j, j + x.len())[a] == s2[j + a]);
    }
}

proof fn lemma_elements_nonempty(s: Seq<char>, i: int, d: nat)
    requires
        elements_at(s, i, d) is Ok,
    ensures
        elements_at(s, i, d)->Ok_0.0.len() >= 1,
        elements_at(s, i, d)->Ok_0.0[0] == value_at(s, i, d + 1)->Ok_0.0,
{
}

proof fn lemma_members_nonempty(s: Seq<char>, i: int, d: nat)
    requires
        members_at(s, i, d) is Ok,
    ensures
        members_at(s, i, d)->Ok_0.0.len() >= 1,
        members_at(s, i, d)->Ok_0.0[0] == member_at(s, i, d)->Ok_0.0,
{
}

pub open spec fn printed(s: Seq<char>, i: int, d: nat, indent: nat, level: nat) -> Seq<char> {
    render(value_at(s, i, d)->Ok_0.0, indent, level)
}

/// A parsed value, printed into another text after whitespace and before a
/// character that cannot continue a number, parses there to the same value.
#[verifier::spinoff_prover]
#[verifier::rlimit(100)]
proof fn lemma_value_rt(
    s: Seq<char>,
    i: int,
    d: nat,
    s2: Seq<char>,
    j: int,
    w: Seq<char>,
    indent: nat,
    level: nat,
)
    requires
        0 <= i <= s.len(),
        value_at(s, i, d) is Ok,
        all_ws(w),
        0 <= j,
        j + w.len() + printed(s, i, d, indent, level).len() <= s2.len(),
        s2.subrange(j, j + w.len() + printed(s, i, d, indent, level).len()) == w + printed(
            s,
            i,
            d,
            indent,
            level,
        ),
        ends_number(s2, j + w.len() + printed(s, i, d, indent, level).len()),
    ensures
        value_at(s2, j, d) == Ok::<(JsonValue, nat), Failure>(
            (value_at(s, i, d)->Ok_0.0, (w.len() + printed(s, i, d, indent, level).len()) as nat),
        ),
    decreases s.len() - i, 0int,
{
    let v = value_at(s, i, d)->Ok_0.0;
    let r = render(v, indent, level);
    let x = w + r;
    let p = i + ws_len(s, i);
    let c = s[p];
    lemma_value_first(s, i, d, indent, level);
    let p2 = j + w.len();
    lemma_sub(s2, j, x, 0, w.len() as int);
    lemma_sub(s2, j, x, w.len() as int, x.len() as int);
    assert(x.subrange(0, w.len() as int) =~= w);
    assert(x.subrange(w.len() as int, x.len() as int) =~= r);
    assert(s2[p2] == r[0]);
    lemma_ws_block(s2, j, w);
    if c == 'n' || c == 't' || c == 'f' {
        assert(word_at(s2, p2, r));
    } else if c == '"' {
        let t = v->Str_0;
        assert(r =~= seq!['"'] + (escaped(t) + seq!['"']));
        lemma_sub(s2, p2, r, 1, r.len() as int);
        assert(r.subrange(1, r.len() as int) =~= escaped(t) + seq!['"']);
        lemma_string_at_escaped(s2, p2 + 1, t);
    } else if c == '-' || is_digit(c) {
        let e = number_end(s, p)->Ok_0;
        lemma_number_bounds(s, p);
        assert(agree(s, p, s2, p2, e - p)) by {
            assert forall|k: int| 0 <= k < e - p implies #[trigger] s2[p2 + k] == s[p + k] by {
                lemma_sub(s2, p2, r, k, k);
            }
        }
        lemma_number_local(s, p, s2, p2);
    } else if c == '[' {
        let i1 = p + 1;
        let q = i1 + ws_len(s, i1);
        if s[q] == ']' {
            assert(r =~= seq!['[', ']']);
            lemma_sub(s2, p2, r, 1, 2);
        } else {
            let items = elements_at(s, i1, d)->Ok_0.0;
            lemma_elements_nonempty(s, i1, d);
            lemma_items_bridge(items, indent, level, items.len() as int);
            assert(items.subrange(0, items.len() as int) =~= items);
            let t = tail_items(items, indent, level);
            assert(r =~= seq!['['] + t);
            lemma_sub(s2, p2, r, 1, r.len() as int);
            assert(r.subrange(1, r.len() as int) =~= t);
            lemma_elements_rt(s, i1, d, s2, p2 + 1, indent, level);
        }
    } else {
        let i1 = p + 1;
        let q = i1 + ws_len(s, i1);
        if s[q] == '}' {
            assert(r =~= seq!['{', '}']);
            lemma_sub(s2, p2, r, 1, 2);
        } else {
            let entries = members_at(s, i1, d)->Ok_0.0;
            lemma_members_nonempty(s, i1, d);
            lemma_entries_bridge(entries, indent, level, entries.len() as int);
            assert(entries.subrange(0, entries.len() as int) =~= entries);
            let t = tail_entries(entries, indent, level);
            assert(r =~= seq!['{'] + t);
            lemma_sub(s2, p2, r, 1, r.len() as int);
            assert(r.subrange(1, r.len() as int) =~= t);
            lemma_members_rt(s, i1, d, s2, p2 + 1, indent, level);
        }
    }
}

#[verifier::spinoff_prover]
#[verifier::rlimit(100)]
proof fn lemma_elements_rt(
    s: Seq<char>,
    i: int,
    d: nat,
    s2: Seq<char>,
    j: int,
    indent: nat,
    level: nat,
)
    requires
        0 <= i <= s.len(),
        elements_at(s, i, d) is Ok,
        0 <= j,
        j + tail_items(elements_at(s, i, d)->Ok_0.0, indent, level).len() <= s2.len(),
        s2.subrange(j, j + tail_items(elements_at(s, i, d)->Ok_0.0, indent, level).len())
            == tail_items(elements_at(s, i, d)->Ok_0.0, indent, level),
    ensures
        elements_at(s2, j, d) == Ok::<(Seq<JsonValue>, nat), Failure>(
            (
                elements_at(s, i, d)->Ok_0.0,
                tail_items(elements_at(s, i, d)->Ok_0.0, indent, level).len(),
            ),
        ),
        j + item_ws(indent, level).len() < s2.len(),
        ws_len(s2, j) == item_ws(indent, level).len(),
        s2[j + item_ws(indent, level).len()] != ']',
    decreases s.len() - i, 1int,
{
    let items = elements_at(s, i, d)->Ok_0.0;
    let t = tail_items(items, indent, level);
    let v = value_at(s, i, d + 1)->Ok_0.0;
    let n = value_at(s, i, d + 1)->Ok_0.1;
    let q = i + n + ws_len(s, i + n);
    let w = item_ws(indent, level);
    let rv = render(v, indent, level + 1);
    let cs = close_sep(indent, level);
    lemma_ws_seps(indent, level);
    lemma_value_first(s, i, d + 1, indent, level + 1);
    lemma_elements_nonempty(s, i, d);
    let k = j + w.len() + rv.len();
    let lw = w.len() as int;
    let lr = rv.len() as int;
    let lc = cs.len() as int;
    if s[q] == ']' {
        assert(items =~= seq![v]);
        assert(t =~= w + rv + cs + seq![']']);
        lemma_sub(s2, j, t, 0, lw + lr);
        assert(t.subrange(0, lw + lr) =~= w + rv);
        lemma_sub(s2, j, t, lw + lr, lw + lr + lc);
        assert(t.subrange(lw + lr, lw + lr + lc) =~= cs);
        lemma_sub(s2, j, t, lw + lr + lc, t.len() as int);
        lemma_sub(s2, j, t, lw + lr, t.len() as int);
        lemma_value_rt(s, i, d + 1, s2, j, w, indent, level + 1);
        lemma_ws_block(s2, k, cs);
    } else {
        let rest = elements_at(s, q + 1, d)->Ok_0.0;
        lemma_elements_nonempty(s, q + 1, d);
        assert(items =~= seq![v] + rest);
        assert(items.subrange(1, items.len() as int) =~= rest);
        let tr = tail_items(rest, indent, level);
        assert(t =~= w + rv + seq![','] + tr);
        lemma_sub(s2, j, t, 0, lw + lr);
        assert(t.subrange(0, lw + lr) =~= w + rv);
        lemma_sub(s2, j, t, lw + lr, t.len() as int);
        lemma_sub(s2, j, t, lw + lr + 1, t.len() as int);
        assert(t.subrange(lw + lr + 1, t.len() as int) =~= tr);
        lemma_value_rt(s, i, d + 1, s2, j, w, indent, level + 1);
        lemma_elements_rt(s, q + 1, d, s2, k + 1, indent, level);
    }
    lemma_sub(s2, j, w + rv, 0, w.len() as int);
    assert((w + rv).subrange(0, w.len() as int) =~= w);
    lemma_sub(s2, j, w + rv, w.len() as int, w.len() as int);
    lemma_ws_block(s2, j, w);
}

#[verifier::spinoff_prover]
#[verifier::rlimit(100)]
proof fn lemma_member_rt(
    s: Seq<char>,
    i: int,
    d: nat,
    s2: Seq<char>,
    j: int,
    indent: nat,
    level: nat,
)
    requires
        0 <= i <= s.len(),
        member_at(s, i, d) is Ok,
        0 <= j,
        j + entry_text(member_at(s, i, d)->Ok_0.0, indent, level).len() <= s2.len(),
        s2.subrange(j, j + entry_text(member_at(s, i, d)->Ok_0.0, indent, level).len())
            == entry_text(member_at(s, i, d)->Ok_0.0, indent, level),
        ends_number(s2, j + entry_text(member_at(s, i, d)->Ok_0.0, indent, level).len()),
    ensures
        member_at(s2, j, d) == Ok::<((Seq<char>, JsonValue), nat), Failure>(
            (
                member_at(s, i, d)->Ok_0.0,
                entry_text(member_at(s, i, d)->Ok_0.0, indent, level).len(),
            ),
        ),
        j + item_ws(indent, level).len() < s2.len(),
        ws_len(s2, j) == item_ws(indent, level).len(),
        s2[j + item_ws(indent, level).len()] == '"',
    decreases s.len() - i, 1int,
{
    let e = member_at(s, i, d)->Ok_0.0;
    let key = e.0;
    let v = e.1;
    let t = entry_text(e, indent, level);
    let p = i + ws_len(s, i);
    let kn = string_at(s, p + 1)->Ok_0.1;
    let c = p + 1 + kn + ws_len(s, p + 1 + kn);
    let w = item_ws(indent, level);
    let q = quoted(key);
    let cs = colon_sep(indent);
    let w1 = cs.subrange(1, cs.len() as int);
    let rv = render(v, indent, level + 1);
    lemma_ws_seps(indent, level);
    let a = w.len() as int;
    let b = a + q.len();
    assert(t =~= w + q + seq![':'] + (w1 + rv));
    assert(q =~= seq!['"'] + (escaped(key) + seq!['"']));
    lemma_sub(s2, j, t, 0, a);
    assert(t.subrange(0, a) =~= w);
    lemma_sub(s2, j, t, a, b);
    assert(t.subrange(a, b) =~= q);
    lemma_sub(s2, j, t, a + 1, b);
    assert(t.subrange(a + 1, b) =~= escaped(key) + seq!['"']);
    lemma_sub(s2, j, t, b, t.len() as int);
    lemma_sub(s2, j, t, b + 1, t.len() as int);
    assert(t.subrange(b + 1, t.len() as int) =~= w1 + rv);
    lemma_ws_block(s2, j, w);
    lemma_string_at_escaped(s2, j + a + 1, key);
    assert(value_at(s, c + 1, d + 1)->Ok_0.0 == v);
    lemma_value_rt(s, c + 1, d + 1, s2, j + b + 1, w1, indent, level + 1);
}

#[verifier::spinoff_prover]
#[verifier::rlimit(100)]
proof fn lemma_members_rt(
    s: Seq<char>,
    i: int,
    d: nat,
    s2: Seq<char>,
    j: int,
    indent: nat,
    level: nat,
)
    requires
        0 <= i <= s.len(),
        members_at(s, i, d) is Ok,
        0 <= j,
        j + tail_entries(members_at(s, i, d)->Ok_0.0, indent, level).len() <= s2.len(),
        s2.subrange(j, j + tail_entries(members_at(s, i, d)->Ok_0.0, indent, level).len())
            == tail_entries(members_at(s, i, d)->Ok_0.0, indent, level),
    ensures
        members_at(s2, j, d) == Ok::<(Seq<(Seq<char>, JsonValue)>, nat), Failure>(
            (
                members_at(s, i, d)->Ok_0.0,
                tail_entries(members_at(s, i, d)->Ok_0.0, indent, level).len(),
            ),
        ),
        j + item_ws(indent, level).len() < s2.len(),
        ws_len(s2, j) == item_ws(indent, level).len(),
        s2[j + item_ws(indent, level).len()] == '"',
    decreases s.len() - i, 2int,
{
    let entries = members_at(s, i, d)->Ok_0.0;
    let t = tail_entries(entries, indent, level);
    let e = member_at(s, i, d)->Ok_0.0;
    let n = member_at(s, i, d)->Ok_0.1;
    let q = i + n + ws_len(s, i + n);
    let et = entry_text(e, indent, level);
    let cs = close_sep(indent, level);
    lemma_ws_seps(indent, level);
    lemma_members_nonempty(s, i, d);
    let k = j + et.len();
    let le = et.len() as int;
    let lc = cs.len() as int;
    if s[q] == '}' {
        assert(entries =~= seq![e]);
        assert(t =~= et + cs + seq!['}']);
        lemma_sub(s2, j, t, 0, le);
        assert(t.subrange(0, le) =~= et);
        lemma_sub(s2, j, t, le, le + lc);
        assert(t.subrange(le, le + lc) =~= cs);
        lemma_sub(s2, j, t, le + lc, t.len() as int);
        lemma_sub(s2, j, t, le, t.len() as int);
        lemma_member_rt(s, i, d, s2, j, indent, level);
        lemma_ws_block(s2, k, cs);
    } else {
        let rest = members_at(s, q + 1, d)->Ok_0.0;
        lemma_members_nonempty(s, q + 1, d);
        assert(entries =~= seq![e] + rest);
        assert(entries.subrange(1, entries.len() as int) =~= rest);
        let tr = tail_entries(rest, indent, level);
        assert(t =~= et + seq![','] + tr);
        lemma_sub(s2, j, t, 0, le);
        assert(t.subrange(0, le) =~= et);
        lemma_sub(s2, j, t, le, t.len() as int);
        lemma_sub(s2, j, t, le + 1, t.len() as int);
        assert(t.subrange(le + 1, t.len() as int) =~= tr);
        lemma_member_rt(s, i, d, s2, j, indent, level);
        lemma_members_rt(s, q + 1, d, s2, k + 1, indent, level);
    }
}

/// Printing a parsed document, pretty with any indentation or compact, and
/// parsing the printed text gives back the same value tree.
pub proof fn law_round_trip(x: Seq<char>, indent: nat)
    requires
        document(x) is Ok,
    ensures
        document(render(document(x)->Ok_0, indent, 0)) == document(x),
{
    let v = document(x)->Ok_0;
    let s2 = render(v, indent, 0);
    assert(s2.subrange(0, s2.len() as int) =~= Seq::<char>::empty() + s2);
    lemma_value_rt(x, 0, 0, s2, 0, Seq::<char>::empty(), indent, 0);
    assert(ws_len(s2, s2.len() as int) == 0);
}

/// Minifying a minified document changes nothing.
pub proof fn law_minify_idempotent(x: Seq<char>)
    requires
        document(x) is Ok,
    ensures
        document(render(document(x)->Ok_0, 0, 0)) is Ok,
        render(document(render(document(x)->Ok_0, 0, 0))->Ok_0, 0, 0) == render(
            document(x)->Ok_0,
            0,
            0,
        ),
{
    law_round_trip(x, 0);
}

} // verus!
