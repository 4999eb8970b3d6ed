//! Paths as text, with `/` between their parts.

use vstd::prelude::*;
use vstd::string::StrSliceExecFns;

use crate::text::{self, concat, same};

verus! {

/// Whether a path starts at the root.
pub open spec fn is_rooted(path: Seq<char>) -> bool {
    path.len() > 0 && path[0] == '/'
}

/// `path` as seen from the directory `base`.
pub open spec fn joined(base: Seq<char>, path: Seq<char>) -> Seq<char> {
    if is_rooted(path) {
        path
    } else if base.len() == 0 || base.last() == '/' {
        base + path
    } else {
        base + seq!['/'] + path
    }
}

/// Whether a text starts with a character.
pub fn starts_with(text: &str, first: char) -> (answer: bool)
    ensures
        answer == (text@.len() > 0 && text@[0] == first),
{
    text.unicode_len() > 0 && text.get_char(0) == first
}

/// Give `path` as seen from the directory `base`.
pub fn join(base: &str, path: &str) -> (whole: String)
    ensures
        whole@ == joined(base@, path@),
{
    if starts_with(path, '/') {
        return path.to_owned();
    }
    let length: usize = base.unicode_len();
    if length == 0 || base.get_char(length - 1) == '/' {
        concat(base, path)
    } else {
        proof {
            reveal_strlit("/");
        }
        let whole: String = concat(&concat(base, "/"), path);
        assert(whole@ =~= base@ + seq!['/'] + path@);
        whole
    }
}

/// Where the first slash of a text is.
pub open spec fn first_slash(text: Seq<char>) -> Option<int>
    decreases text.len(),
{
    if text.len() == 0 {
        None
    } else if text[0] == '/' {
        Some(0)
    } else {
        match first_slash(text.drop_first()) {
            Some(slash) => Some(slash + 1),
            None => None,
        }
    }
}

/// Find the first slash of a text.
pub fn find_slash(text: &str) -> (slash: Option<usize>)
    ensures
        match slash {
            Some(slash) => first_slash(text@) == Some(slash as int) && slash < text@.len(),
            None => first_slash(text@) is None,
        },
{
    let length: usize = text.unicode_len();
    assert(text@.skip(0) =~= text@);
    for i in 0..length
        invariant
            length == text@.len(),
            first_slash(text@) == match first_slash(text@.skip(i as int)) {
                Some(slash) => Some(slash + i),
                None => None,
            },
    {
        assert(text@.skip(i as int)[0] == text@[i as int]);
        assert(text@.skip(i as int).drop_first() =~= text@.skip(i + 1));
        if text.get_char(i) == '/' {
            return Some(i);
        }
    }
    None
}

/// What stands between the slashes of a path.
pub open spec fn segments(path: Seq<char>) -> Seq<Seq<char>>
    decreases path.len(),
{
    match first_slash(path) {
        Some(slash) => if 0 <= slash < path.len() {
            seq![path.take(slash)] + segments(path.skip(slash + 1))
        } else {
            seq![path]
        },
        None => seq![path],
    }
}

/// Whether a segment leads somewhere: neither an empty one nor a `.` does.
pub open spec fn is_step(segment: Seq<char>) -> bool {
    segment.len() > 0 && segment != "."@
}

/// The steps of a path. A `.` counts only at the start of a path.
pub open spec fn steps(path: Seq<char>) -> Seq<Seq<char>> {
    let all = segments(path);
    let kept = all.filter(|segment: Seq<char>| is_step(segment));
    if all[0] == "."@ {
        seq![all[0]] + kept
    } else {
        kept
    }
}

/// The components of a path: the root where it starts there, and then its steps.
pub open spec fn components(path: Seq<char>) -> Seq<Seq<char>> {
    if is_rooted(path) {
        seq!["/"@] + steps(path)
    } else {
        steps(path)
    }
}

/// Whether a path is a directory or leads to something below it, component by component. Every path
/// is within a directory that has no component.
pub open spec fn is_within(path: Seq<char>, directory: Seq<char>) -> bool {
    components(directory).is_prefix_of(components(path))
}

fn split(path: &str) -> (list: Vec<String>)
    ensures
        text::texts(list@) == segments(path@),
    decreases path@.len(),
{
    let mut list: Vec<String> = Vec::new();
    match find_slash(path) {
        Some(slash) => {
            let length: usize = path.unicode_len();
            assert(path@.subrange(0, slash as int) =~= path@.take(slash as int));
            assert(path@.subrange(slash + 1, length as int) =~= path@.skip(slash + 1));
            list.push(path.substring_char(0, slash).to_owned());
            let mut rest: Vec<String> = split(path.substring_char(slash + 1, length));
            let ghost first = list@;
            let ghost others = rest@;
            list.append(&mut rest);
            assert(text::texts(list@) =~= text::texts(first) + text::texts(others));
            assert(text::texts(first) =~= seq![path@.take(slash as int)]);
        },
        None => {
            list.push(path.to_owned());
            assert(text::texts(list@) =~= seq![path@]);
        },
    }
    list
}

fn steps_of(path: &str) -> (list: Vec<String>)
    ensures
        text::texts(list@) == steps(path@),
{
    let ghost kept = |segment: Seq<char>| is_step(segment);
    let all: Vec<String> = split(path);
    let ghost parts = text::texts(all@);
    proof {
        lemma_some_segment(path@);
        assert(parts[0] == all@[0]@);
    }
    let mut list: Vec<String> = Vec::new();
    if same(all[0].as_str(), ".") {
        list.push(all[0].clone());
    }
    let ghost start = list@;
    assert(parts.take(0).filter(kept) =~= Seq::empty()) by {
        reveal(Seq::filter);
    }
    assert(text::texts(start) + parts.take(0).filter(kept) =~= text::texts(list@));
    for i in 0..all.len()
        invariant
            kept == (|segment: Seq<char>| is_step(segment)),
            parts == text::texts(all@),
            text::texts(list@) == text::texts(start) + parts.take(i as int).filter(kept),
    {
        let ghost before = list@;
        proof {
            reveal(Seq::filter);
            assert(parts.take(i + 1).drop_last() =~= parts.take(i as int));
            assert(parts.take(i + 1).last() == all@[i as int]@);
        }
        if all[i].as_str().unicode_len() > 0 && !same(all[i].as_str(), ".") {
            list.push(all[i].clone());
            assert(text::texts(list@) =~= text::texts(before).push(all@[i as int]@));
        }
        assert(text::texts(list@) =~= text::texts(start) + parts.take(i + 1).filter(kept));
    }
    assert(parts.take(parts.len() as int) =~= parts);
    assert(text::texts(start) =~= if parts[0] == "."@ {
        seq![parts[0]]
    } else {
        Seq::empty()
    });
    assert(text::texts(list@) =~= steps(path@));
    list
}

proof fn lemma_some_segment(path: Seq<char>)
    ensures
        segments(path).len() > 0,
{
}

fn components_of(path: &str) -> (list: Vec<String>)
    ensures
        text::texts(list@) == components(path@),
{
    let mut rest: Vec<String> = steps_of(path);
    if !starts_with(path, '/') {
        return rest;
    }
    let mut list: Vec<String> = Vec::new();
    list.push("/".to_owned());
    let ghost root = list@;
    let ghost others = rest@;
    list.append(&mut rest);
    assert(text::texts(list@) =~= text::texts(root) + text::texts(others));
    assert(text::texts(root) =~= seq!["/"@]);
    list
}

/// Tell whether a path is a directory or leads to something below it.
pub fn within(path: &str, directory: &str) -> (answer: bool)
    ensures
        answer == is_within(path@, directory@),
{
    let long: Vec<String> = components_of(path);
    let short: Vec<String> = components_of(directory);
    let ghost whole = text::texts(long@);
    let ghost start = text::texts(short@);
    if short.len() > long.len() {
        return false;
    }
    for i in 0..short.len()
        invariant
            whole == text::texts(long@),
            start == text::texts(short@),
            whole == components(path@),
            start == components(directory@),
            short@.len() <= long@.len(),
            forall|j: int| 0 <= j < i ==> #[trigger] start[j] == whole[j],
    {
        if !same(short[i].as_str(), long[i].as_str()) {
            assert(start[i as int] != whole[i as int]);
            assert(!start.is_prefix_of(whole)) by {
                if start.is_prefix_of(whole) {
                    assert(start[i as int] == whole.subrange(0, start.len() as int)[i as int]);
                }
            }
            return false;
        }
    }
    assert(start =~= whole.subrange(0, start.len() as int));
    true
}

} // verus!
