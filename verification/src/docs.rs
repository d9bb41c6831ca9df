//! Recognizers for the documentation checker: code fragments that name a
//! source file or a function.

use vstd::prelude::*;

use crate::text::chars_to_string;
use crate::text::ends_with_chars;
use crate::text::seq_ends_with;
use crate::text::str_chars;
use crate::text::subvec;
use crate::text::trim_chars;
use crate::text::trim_spec;
use crate::validator::is_alnum;

verus! {

/// A character allowed in a source-file path.
pub open spec fn is_path_char(c: char) -> bool {
    is_alnum(c) || c == '_' || c == '.' || c == '/' || c == '-'
}

/// A code fragment naming a source file: non-empty, all path characters,
/// ending in the source suffix.
pub open spec fn parse_rs_file_spec(code: Seq<char>) -> Option<Seq<char>> {
    let t = trim_spec(code);
    if seq_ends_with(t, ".rs"@) && t.len() > 0 && (forall|i: int|
        0 <= i < t.len() ==> is_path_char(#[trigger] t[i])) {
        Some(t)
    } else {
        None
    }
}

/// Recognizes a code fragment that names a source file.
pub fn parse_rs_file(code: &str) -> (r: Option<String>)
    ensures
        match r {
            Option::Some(v) => parse_rs_file_spec(code@) == Option::Some(v@),
            Option::None => parse_rs_file_spec(code@) is None,
        },
{
    let cv = str_chars(code);
    let t = trim_chars(&cv);
    let suffix = str_chars(".rs");
    if !ends_with_chars(&t, &suffix) || t.len() == 0 {
        return None;
    }
    let mut i: usize = 0;
    while i < t.len()
        invariant
            i <= t@.len(),
            t@ == trim_spec(code@),
            seq_ends_with(t@, ".rs"@),
            t@.len() > 0,
            forall|k: int| 0 <= k < i ==> is_path_char(#[trigger] t@[k]),
        decreases t@.len() - i,
    {
        let c = t[i];
        if !(path_char(c)) {
            proof {
                assert(!is_path_char(t@[i as int]));
            }
            return None;
        }
        i += 1;
    }
    Some(chars_to_string(&t))
}

fn path_char(c: char) -> (r: bool)
    ensures
        r == is_path_char(c),
{
    ('0' <= c && c <= '9') || ('a' <= c && c <= 'z') || ('A' <= c && c <= 'Z') || c == '_'
        || c == '.' || c == '/' || c == '-'
}

/// A code fragment naming a function call: a non-empty identifier
/// followed by an opening parenthesis.
pub open spec fn parse_function_spec(code: Seq<char>) -> Option<Seq<char>> {
    let t = trim_spec(code);
    if t.len() > 0 && t.last() == '(' {
        let name = t.take(t.len() - 1);
        if name.len() > 0 && (forall|i: int|
            0 <= i < name.len() ==> is_alnum(#[trigger] name[i]) || name[i] == '_') {
            Some(name)
        } else {
            None
        }
    } else {
        None
    }
}

/// Recognizes a code fragment that names a function call.
pub fn parse_function(code: &str) -> (r: Option<String>)
    ensures
        match r {
            Option::Some(v) => parse_function_spec(code@) == Option::Some(v@),
            Option::None => parse_function_spec(code@) is None,
        },
{
    let cv = str_chars(code);
    let t = trim_chars(&cv);
    if t.len() == 0 || t[t.len() - 1] != '(' {
        return None;
    }
    let name = subvec(&t, 0, t.len() - 1);
    proof {
        assert(name@ =~= trim_spec(code@).take(trim_spec(code@).len() - 1));
    }
    if name.len() == 0 {
        return None;
    }
    let mut i: usize = 0;
    while i < name.len()
        invariant
            i <= name@.len(),
            trim_spec(code@).len() > 0,
            trim_spec(code@).last() == '(',
            name@ == trim_spec(code@).take(trim_spec(code@).len() - 1),
            name@.len() > 0,
            forall|k: int| 0 <= k < i ==> is_alnum(#[trigger] name@[k]) || name@[k] == '_',
        decreases name@.len() - i,
    {
        let c = name[i];
        if !(('0' <= c && c <= '9') || ('a' <= c && c <= 'z') || ('A' <= c && c <= 'Z') || c
            == '_') {
            proof {
                assert(!(is_alnum(name@[i as int]) || name@[i as int] == '_'));
            }
            return None;
        }
        i += 1;
    }
    Some(chars_to_string(&name))
}

} // verus!
