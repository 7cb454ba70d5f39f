//! The engine's operations on text: format, minify, validate, statistics,
//! and string-literal escaping.
use crate::emit::push_escaped;
use crate::error::{description, located_message, ParseError};
use crate::grammar::{document, line_col, string_document, Failure};
use crate::parser::parse_document;
use crate::scan::scan_string_document;
use crate::text::{chars_of, decimal, string_of};
use crate::value::{depth, key_count, quoted, render};
use vstd::prelude::*;
use vstd::string::*;

verus! {

/// The outcome of a validation.
#[derive(Clone, Debug)]
pub struct ValidationResult {
    pub valid: bool,
    /// Why the text is not JSON, without its position.
    pub error_message: Option<String>,
    /// 1-based.
    pub error_line: Option<usize>,
    /// 1-based.
    pub error_column: Option<usize>,
}

/// Structural statistics of a text.
#[derive(Clone, Debug)]
pub struct JsonStats {
    pub valid: bool,
    pub key_count: usize,
    pub depth: usize,
    /// The size of the text in UTF-8 bytes, whether or not it is valid.
    pub byte_size: usize,
    pub error_info: Option<ValidationResult>,
}

/// Whether `e` reports failure `f` in text `s`.
pub open spec fn is_error_of(e: ParseError, s: Seq<char>, f: Failure) -> bool {
    &&& e.line == line_col(s, f.0).0
    &&& e.column == line_col(s, f.0).1
    &&& e.code == f.1
}

/// What a failed validation of `s` reports for failure `f`.
pub open spec fn reports_failure(r: ValidationResult, s: Seq<char>, f: Failure) -> bool {
    &&& !r.valid
    &&& r.error_message is Some
    &&& r.error_message->Some_0@ == description(f.1)
    &&& r.error_line == Some(line_col(s, f.0).0 as usize)
    &&& r.error_column == Some(line_col(s, f.0).1 as usize)
}

/// Parses `text` and prints it again: with `indent` spaces per level, or
/// compact when `indent` is 0. Object keys keep their order.
pub fn format(text: &str, indent: usize) -> (r: Result<String, ParseError>)
    ensures
        match document(text@) {
            Ok(v) => r is Ok && r->Ok_0@ == render(v, indent as nat, 0),
            Err(f) => r is Err && is_error_of(r->Err_0, text@, f),
        },
{
    let s = chars_of(text);
    let mut out: Vec<char> = Vec::new();
    match parse_document(&s, indent, &mut out) {
        Ok(_) => {
            assert(out@ =~= Seq::<char>::empty() + out@);
            Ok(string_of(&out))
        },
        Err(f) => Err(ParseError::at(&s, f)),
    }
}

/// Parses `text` and prints it in compact form: no whitespace outside strings.
pub fn minify(text: &str) -> (r: Result<String, ParseError>)
    ensures
        match document(text@) {
            Ok(v) => r is Ok && r->Ok_0@ == render(v, 0, 0),
            Err(f) => r is Err && is_error_of(r->Err_0, text@, f),
        },
{
    format(text, 0)
}

/// Formats `content` with `indent` spaces per level (2 when not given; 0 for
/// compact output). A failure is reported as `Line L, Column C: description`.
pub fn json_format(content: &str, indent: Option<usize>) -> (r: Result<String, String>)
    ensures
        match document(content@) {
            Ok(v) => r is Ok && r->Ok_0@ == render(
                v,
                match indent {
                    Some(n) => n as nat,
                    None => 2,
                },
                0,
            ),
            Err(f) => r is Err && r->Err_0@ == located_message(content@, f),
        },
{
    let width = match indent {
        Some(n) => n,
        None => 2,
    };
    match format(content, width) {
        Ok(t) => Ok(t),
        Err(e) => Err(e.message()),
    }
}

/// Minifies `content`. A failure is reported as `Line L, Column C: description`.
pub fn json_minify(content: &str) -> (r: Result<String, String>)
    ensures
        match document(content@) {
            Ok(v) => r is Ok && r->Ok_0@ == render(v, 0, 0),
            Err(f) => r is Err && r->Err_0@ == located_message(content@, f),
        },
{
    match minify(content) {
        Ok(t) => Ok(t),
        Err(e) => Err(e.message()),
    }
}

/// Whether `content` is one JSON document; if not, where it fails and why.
pub fn json_validate(content: &str) -> (r: ValidationResult)
    ensures
        match document(content@) {
            Ok(_) => r.valid && r.error_message is None && r.error_line is None
                && r.error_column is None,
            Err(f) => reports_failure(r, content@, f),
        },
{
    let s = chars_of(content);
    let mut out: Vec<char> = Vec::new();
    match parse_document(&s, 0, &mut out) {
        Ok(_) => ValidationResult {
            valid: true,
            error_message: None,
            error_line: None,
            error_column: None,
        },
        Err(f) => {
            let e = ParseError::at(&s, f);
            ValidationResult {
                valid: false,
                error_message: Some(e.description()),
                error_line: Some(e.line),
                error_column: Some(e.column),
            }
        },
    }
}

/// The key count, depth and byte size of `content`; when it is not JSON, the
/// byte size, zeros, and where it fails.
pub fn json_stats(content: &str) -> (r: JsonStats)
    ensures
        r.byte_size == content.len(),
        match document(content@) {
            Ok(v) => {
                &&& r.valid
                &&& r.key_count == key_count(v)
                &&& r.depth == depth(v)
                &&& r.error_info is None
            },
            Err(f) => {
                &&& !r.valid
                &&& r.key_count == 0
                &&& r.depth == 0
                &&& r.error_info is Some
                &&& reports_failure(r.error_info->Some_0, content@, f)
            },
        },
{
    let byte_size = content.len();
    let s = chars_of(content);
    let mut out: Vec<char> = Vec::new();
    match parse_document(&s, 0, &mut out) {
        Ok(sc) => JsonStats {
            valid: true,
            key_count: sc.keys,
            depth: sc.depth,
            byte_size,
            error_info: None,
        },
        Err(f) => {
            let e = ParseError::at(&s, f);
            JsonStats {
                valid: false,
                key_count: 0,
                depth: 0,
                byte_size,
                error_info: Some(
                    ValidationResult {
                        valid: false,
                        error_message: Some(e.description()),
                        error_line: Some(e.line),
                        error_column: Some(e.column),
                    },
                ),
            }
        },
    }
}

/// `content` as a JSON string literal: in quotes, with `"`, `\` and control
/// characters escaped.
pub fn json_escape(content: &str) -> (r: String)
    ensures
        r@ == quoted(content@),
{
    let t = chars_of(content);
    let mut out: Vec<char> = Vec::new();
    out.push('"');
    push_escaped(&mut out, &t);
    out.push('"');
    assert(out@ =~= quoted(t@));
    string_of(&out)
}

/// The characters that the single JSON string literal `content` stands for.
pub fn json_unescape(content: &str) -> (r: Result<String, String>)
    ensures
        match string_document(content@) {
            Ok(t) => r is Ok && r->Ok_0@ == t,
            Err(f) => r is Err && r->Err_0@ == "Unescape failed: "@ + description(f.1),
        },
{
    let s = chars_of(content);
    let mut buf: Vec<char> = Vec::new();
    match scan_string_document(&s, &mut buf) {
        Ok(()) => {
            assert(buf@ =~= Seq::<char>::empty() + buf@);
            Ok(string_of(&buf))
        },
        Err(f) => {
            let mut m = String::from_str("Unescape failed: ");
            let d = f.1.describe();
            m.append(d.as_str());
            Err(m)
        },
    }
}

/// What the clipboard shortcut shows for the clipboard's `text`: the text
/// pretty-printed with two spaces, or why it cannot be.
pub fn format_clipboard_text(text: &str) -> (r: Result<String, String>)
    ensures
        text@.len() == 0 ==> r is Err && r->Err_0@ == "Clipboard is empty"@,
        text@.len() > 0 ==> match document(text@) {
            Ok(v) => r is Ok && r->Ok_0@ == render(v, 2, 0),
            Err(f) => r is Err && r->Err_0@ == "Invalid JSON in clipboard: "@ + located_message(
                text@,
                f,
            ),
        },
{
    if text.is_empty() {
        return Err(String::from_str("Clipboard is empty"));
    }
    match format(text, 2) {
        Ok(t) => Ok(t),
        Err(e) => {
            let mut m = String::from_str("Invalid JSON in clipboard: ");
            let d = e.message();
            m.append(d.as_str());
            Err(m)
        },
    }
}

} // verus!
