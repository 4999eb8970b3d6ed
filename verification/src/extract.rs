//! File paths as they are written in text.

use vstd::prelude::*;
use vstd::string::StrSliceExecFns;

use crate::path::{self, join, starts_with};
use crate::text::{self, read_digits};

verus! {

/// Where the last colon of a text is.
pub open spec fn last_colon(text: Seq<char>) -> Option<int>
    decreases text.len(),
{
    if text.len() == 0 {
        None
    } else if text.last() == ':' {
        Some(text.len() - 1)
    } else {
        last_colon(text.drop_last())
    }
}

/// The number behind the last colon of a text, with what stands before that colon.
pub open spec fn numbered(text: Seq<char>) -> Option<(Seq<char>, u32)> {
    match last_colon(text) {
        Some(colon) => match text::digits_value(text.skip(colon + 1)) {
            Some(number) => Some((text.take(colon), number)),
            None => None,
        },
        None => None,
    }
}

/// The path and the line of a `path[:line[:column]]` text.
pub open spec fn located(text: Seq<char>) -> (Seq<char>, Option<u32>) {
    match numbered(text) {
        Some((before, number)) => match numbered(before) {
            Some((path, line)) => (path, Some(line)),
            None => (before, Some(number)),
        },
        None => (text, None),
    }
}

/// Whether the last part of a path has an extension: a dot that neither starts nor ends it.
pub open spec fn has_extension(path: Seq<char>) -> bool {
    exists|dot: int| is_extension_dot(path, dot)
}

/// Whether an extension of the last part of a path starts at this dot.
pub open spec fn is_extension_dot(path: Seq<char>, dot: int) -> bool {
    &&& 0 < dot < path.len() - 1
    &&& path[dot] == '.'
    &&& path[dot - 1] != '/'
    &&& forall|i: int| dot < i < path.len() ==> #[trigger] path[i] != '/'
}

/// Whether a text looks like a path rather than a word: it has a slash, and starts at the root, at
/// a home directory or at the current one, or has an extension.
pub open spec fn is_path_shaped(path: Seq<char>) -> bool {
    &&& path.contains('/')
    &&& {
        ||| path[0] == '/'
        ||| path[0] == '~'
        ||| path.len() > 1 && path[0] == '.' && path[1] == '/'
        ||| has_extension(path)
    }
}

/// The path and the line that a text gives, if it looks like a path.
pub open spec fn token_in(text: Seq<char>) -> Option<(Seq<char>, Option<u32>)> {
    if is_path_shaped(located(text).0) {
        Some(located(text))
    } else {
        None
    }
}

fn find_last_colon(text: &str) -> (colon: Option<usize>)
    ensures
        match colon {
            Some(colon) => last_colon(text@) == Some(colon as int) && colon < text@.len(),
            None => last_colon(text@) is None,
        },
{
    let mut end: usize = text.unicode_len();
    assert(text@.take(end as int) =~= text@);
    while end > 0
        invariant
            end <= text@.len(),
            last_colon(text@) == last_colon(text@.take(end as int)),
        decreases end,
    {
        assert(text@.take(end as int).last() == text@[end - 1]);
        assert(text@.take(end as int).drop_last() =~= text@.take(end - 1));
        if text.get_char(end - 1) == ':' {
            return Some(end - 1);
        }
        end = end - 1;
    }
    None
}

fn split_number<'a>(text: &'a str) -> (split: Option<(&'a str, u32)>)
    ensures
        match split {
            Some((before, number)) => numbered(text@) == Some((before@, number)),
            None => numbered(text@) is None,
        },
{
    match find_last_colon(text) {
        Some(colon) => {
            let length: usize = text.unicode_len();
            assert(text@.subrange(colon + 1, length as int) =~= text@.skip(colon + 1));
            assert(text@.subrange(0, colon as int) =~= text@.take(colon as int));
            match read_digits(text.substring_char(colon + 1, length)) {
                Some(number) => Some((text.substring_char(0, colon), number)),
                None => None,
            }
        },
        None => None,
    }
}

fn contains_slash(text: &str) -> (answer: bool)
    ensures
        answer == text@.contains('/'),
{
    let length: usize = text.unicode_len();
    for i in 0..length
        invariant
            length == text@.len(),
            forall|j: int| 0 <= j < i ==> #[trigger] text@[j] != '/',
    {
        if text.get_char(i) == '/' {
            assert(text@[i as int] == '/');
            return true;
        }
    }
    false
}

fn extension_of(path: &str) -> (answer: bool)
    ensures
        answer == has_extension(path@),
{
    let length: usize = path.unicode_len();
    let mut i: usize = length;
    while i > 0
        invariant
            length == path@.len(),
            i <= length,
            forall|j: int| i <= j < length ==> #[trigger] path@[j] != '/',
            forall|dot: int| i <= dot ==> !(#[trigger] is_extension_dot(path@, dot)),
        decreases i,
    {
        i = i - 1;
        let c: char = path.get_char(i);
        if c == '/' {
            assert forall|dot: int| !(#[trigger] is_extension_dot(path@, dot)) by {
                if is_extension_dot(path@, dot) {
                    assert(dot < i);
                    assert(path@[i as int] == '/');
                }
            }
            return false;
        }
        if c == '.' && i > 0 && i < length - 1 && path.get_char(i - 1) != '/' {
            assert(is_extension_dot(path@, i as int));
            return true;
        }
    }
    assert forall|dot: int| !(#[trigger] is_extension_dot(path@, dot)) by {}
    false
}

fn path_shaped(path: &str) -> (answer: bool)
    ensures
        answer == is_path_shaped(path@),
{
    contains_slash(path) && (starts_with(path, '/') || starts_with(path, '~') || (
    path.unicode_len() > 1 && path.get_char(0) == '.' && path.get_char(1) == '/') || extension_of(
        path,
    ))
}

/// Take the path and the line out of a `path[:line[:column]]` text that looks like a path.
pub fn parse_token<'a>(token: &'a str) -> (parsed: Option<(&'a str, Option<u32>)>)
    ensures
        match parsed {
            Some((path, line)) => token_in(token@) == Some((path@, line)),
            None => token_in(token@) is None,
        },
{
    let (path, line): (&'a str, Option<u32>) = match split_number(token) {
        Some((before, number)) => match split_number(before) {
            Some((path, line)) => (path, Some(line)),
            None => (before, Some(number)),
        },
        None => (token, None),
    };
    if path_shaped(path) {
        Some((path, line))
    } else {
        None
    }
}

/// Where a written path leads, seen from a directory: a path from the root leads to itself, one
/// below `~` to the home directory where that is known, and any other to a place below the
/// directory.
pub open spec fn resolved(
    path: Seq<char>,
    cwd: Seq<char>,
    home: Option<Seq<char>>,
) -> Seq<char> {
    if path.len() > 0 && path[0] == '~' {
        match home {
            Some(home) => if path.len() == 1 {
                home
            } else if path[1] == '/' {
                path::joined(home, path.skip(2))
            } else {
                path
            },
            None => path,
        }
    } else {
        path::joined(cwd, path)
    }
}

/// Tell where a written path leads, seen from a directory.
pub fn resolve(path: &str, cwd: &str, home: &Option<String>) -> (place: String)
    ensures
        place@ == resolved(path@, cwd@, text::text_of(*home)),
{
    if !starts_with(path, '~') {
        return join(cwd, path);
    }
    match home {
        Some(home) => {
            let length: usize = path.unicode_len();
            if length == 1 {
                home.clone()
            } else if path.get_char(1) == '/' {
                assert(path@.subrange(2, length as int) =~= path@.skip(2));
                join(home, path.substring_char(2, length))
            } else {
                path.to_owned()
            }
        },
        None => path.to_owned(),
    }
}

/// A path from the root or below `~` leads to the same place from everywhere.
pub proof fn rooted_paths_ignore_the_directory(
    path: Seq<char>,
    cwd: Seq<char>,
    other: Seq<char>,
    home: Option<Seq<char>>,
)
    requires
        path.len() > 0,
        path[0] == '/' || path[0] == '~',
    ensures
        resolved(path, cwd, home) == resolved(path, other, home),
{
}

} // verus!
