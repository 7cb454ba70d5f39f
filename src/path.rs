//! File-name checks for the texts the engine is given.
use crate::text::char_of_scalar;
use vstd::prelude::*;

verus! {

/// The extension of the last component of a path, as `std::path::Path` reads it.
pub uninterp spec fn extension_of(p: Seq<char>) -> Option<Seq<char>>;

/// The last component of a path, as `std::path::Path` reads it.
pub uninterp spec fn file_name_of(p: Seq<char>) -> Option<Seq<char>>;

/// Relies on `Path::extension`: the extension of the file name, if it has one.
/// A `&str` path is valid UTF-8, so its extension always converts back to a string.
#[verifier::external_body]
fn path_extension(path: &str) -> (r: Option<String>)
    ensures
        match r {
            Some(e) => extension_of(path@) == Some(e@),
            None => extension_of(path@) is None,
        },
{
    match std::path::Path::new(path).extension() {
        Some(e) => e.to_str().map(String::from),
        None => None,
    }
}

/// Relies on `Path::file_name`: the last component of the path, if it has one.
/// A `&str` path is valid UTF-8, so the name always converts back to a string.
#[verifier::external_body]
fn path_file_name(path: &str) -> (r: Option<String>)
    ensures
        match r {
            Some(n) => file_name_of(path@) == Some(n@),
            None => file_name_of(path@) is None,
        },
{
    match std::path::Path::new(path).file_name() {
        Some(n) => n.to_str().map(String::from),
        None => None,
    }
}

pub open spec fn ascii_lower(c: char) -> char {
    if 'A' <= c && c <= 'Z' {
        ((c as u32) + 32) as char
    } else {
        c
    }
}

/// Whether `e` is `json` in any mix of ASCII upper and lower case.
pub open spec fn is_json_extension(e: Seq<char>) -> bool {
    e.len() == 4 && ascii_lower(e[0]) == 'j' && ascii_lower(e[1]) == 's' && ascii_lower(e[2])
        == 'o' && ascii_lower(e[3]) == 'n'
}

fn to_ascii_lower(c: char) -> (r: char)
    ensures
        r == ascii_lower(c),
{
    if 'A' <= c && c <= 'Z' {
        let v = c as u32 + 32;
        let l = char_of_scalar(v);
        proof {
            vstd::utf8::char_u32_cast(l, v);
        }
        l
    } else {
        c
    }
}

/// Whether the path names a file with the extension `json`, in any case.
pub fn is_json_file(path: String) -> (r: bool)
    ensures
        r == match extension_of(path@) {
            Some(e) => is_json_extension(e),
            None => false,
        },
{
    match path_extension(path.as_str()) {
        None => false,
        Some(e) => {
            let v = crate::text::chars_of(e.as_str());
            v.len() == 4 && to_ascii_lower(v[0]) == 'j' && to_ascii_lower(v[1]) == 's'
                && to_ascii_lower(v[2]) == 'o' && to_ascii_lower(v[3]) == 'n'
        },
    }
}

/// The file name at the end of the path, if there is one.
pub fn get_file_name(path: String) -> (r: Option<String>)
    ensures
        match r {
            Some(n) => file_name_of(path@) == Some(n@),
            None => file_name_of(path@) is None,
        },
{
    path_file_name(path.as_str())
}

} // verus!
