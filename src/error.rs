//! Parse errors: where a text fails, and the words that say why.
use crate::grammar::{line_col, ErrorCode, Failure};
use crate::text::{decimal, decimal_text};
use vstd::prelude::*;
use vstd::string::*;

verus! {

/// The words for each reason a text is not JSON.
pub open spec fn description(c: ErrorCode) -> Seq<char> {
    match c {
        ErrorCode::EofWhileParsingValue => "EOF while parsing a value"@,
        ErrorCode::EofWhileParsingList => "EOF while parsing a list"@,
        ErrorCode::EofWhileParsingObject => "EOF while parsing an object"@,
        ErrorCode::EofWhileParsingString => "EOF while parsing a string"@,
        ErrorCode::ExpectedValue => "expected value"@,
        ErrorCode::ExpectedIdent => "expected ident"@,
        ErrorCode::ExpectedColon => "expected `:`"@,
        ErrorCode::ExpectedListCommaOrEnd => "expected `,` or `]`"@,
        ErrorCode::ExpectedObjectCommaOrEnd => "expected `,` or `}`"@,
        ErrorCode::KeyMustBeAString => "key must be a string"@,
        ErrorCode::ExpectedString => "expected a string"@,
        ErrorCode::InvalidEscape => "invalid escape"@,
        ErrorCode::InvalidUnicodeEscape => "invalid unicode code point"@,
        ErrorCode::LoneSurrogate => "lone leading surrogate in hex escape"@,
        ErrorCode::ControlCharacter => "control character (\\u0000-\\u001F) found while parsing a string"@,
        ErrorCode::InvalidNumber => "invalid number"@,
        ErrorCode::TrailingComma => "trailing comma"@,
        ErrorCode::TrailingCharacters => "trailing characters"@,
        ErrorCode::RecursionLimitExceeded => "recursion limit exceeded"@,
    }
}

/// A failure in text `s`, as it is shown: `Line L, Column C: description`.
pub open spec fn located_message(s: Seq<char>, f: Failure) -> Seq<char> {
    let lc = line_col(s, f.0);
    "Line "@ + decimal(lc.0) + ", Column "@ + decimal(lc.1) + ": "@ + description(f.1)
}

impl ErrorCode {
    pub fn describe(&self) -> (r: String)
        ensures
            r@ == description(*self),
    {
        match self {
            ErrorCode::EofWhileParsingValue => String::from_str("EOF while parsing a value"),
            ErrorCode::EofWhileParsingList => String::from_str("EOF while parsing a list"),
            ErrorCode::EofWhileParsingObject => String::from_str("EOF while parsing an object"),
            ErrorCode::EofWhileParsingString => String::from_str("EOF while parsing a string"),
            ErrorCode::ExpectedValue => String::from_str("expected value"),
            ErrorCode::ExpectedIdent => String::from_str("expected ident"),
            ErrorCode::ExpectedColon => String::from_str("expected `:`"),
            ErrorCode::ExpectedListCommaOrEnd => String::from_str("expected `,` or `]`"),
            ErrorCode::ExpectedObjectCommaOrEnd => String::from_str("expected `,` or `}`"),
            ErrorCode::KeyMustBeAString => String::from_str("key must be a string"),
            ErrorCode::ExpectedString => String::from_str("expected a string"),
            ErrorCode::InvalidEscape => String::from_str("invalid escape"),
            ErrorCode::InvalidUnicodeEscape => String::from_str("invalid unicode code point"),
            ErrorCode::LoneSurrogate => String::from_str("lone leading surrogate in hex escape"),
            ErrorCode::ControlCharacter => String::from_str(
                "control character (\\u0000-\\u001F) found while parsing a string",
            ),
            ErrorCode::InvalidNumber => String::from_str("invalid number"),
            ErrorCode::TrailingComma => String::from_str("trailing comma"),
            ErrorCode::TrailingCharacters => String::from_str("trailing characters"),
            ErrorCode::RecursionLimitExceeded => String::from_str("recursion limit exceeded"),
        }
    }
}

/// Where a text fails to parse (1-based line and column) and why.
#[derive(Clone, Copy, Debug, PartialEq, Eq, Structural)]
pub struct ParseError {
    pub line: usize,
    pub column: usize,
    pub code: ErrorCode,
}

/// The 1-based line and column of index `p` of `s`.
pub fn line_column(s: &Vec<char>, p: usize) -> (r: (usize, usize))
    requires
        p <= s.len(),
        s.len() < usize::MAX,
    ensures
        r.0 == line_col(s@, p as int).0,
        r.1 == line_col(s@, p as int).1,
{
    let mut line: usize = 1;
    let mut col: usize = 1;
    let mut k: usize = 0;
    while k < p
        invariant
            k <= p <= s.len() < usize::MAX,
            line == line_col(s@, k as int).0,
            col == line_col(s@, k as int).1,
            col >= 1,
            line >= 1,
            line + col <= k + 2,
        decreases p - k,
    {
        if s[k] == '\n' {
            line = line + 1;
            col = 1;
        } else {
            col = col + 1;
        }
        k = k + 1;
    }
    (line, col)
}

impl ParseError {
    /// The failure `f` found in `s`, with its line and column.
    pub fn at(s: &Vec<char>, f: (usize, ErrorCode)) -> (r: ParseError)
        requires
            f.0 <= s.len(),
            s.len() < usize::MAX,
        ensures
            r.line == line_col(s@, f.0 as int).0,
            r.column == line_col(s@, f.0 as int).1,
            r.code == f.1,
    {
        let (line, column) = line_column(s, f.0);
        ParseError { line, column, code: f.1 }
    }

    /// Why the text failed, without its position.
    pub fn description(&self) -> (r: String)
        ensures
            r@ == description(self.code),
    {
        self.code.describe()
    }

    /// `Line L, Column C: description`.
    pub fn message(&self) -> (r: String)
        ensures
            r@ == "Line "@ + decimal(self.line as nat) + ", Column "@ + decimal(self.column as nat)
                + ": "@ + description(self.code),
    {
        let mut m = String::from_str("Line ");
        let l = decimal_text(self.line);
        m.append(l.as_str());
        m.append(", Column ");
        let c = decimal_text(self.column);
        m.append(c.as_str());
        m.append(": ");
        let d = self.code.describe();
        m.append(d.as_str());
        m
    }
}

} // verus!
