//! What holds of paths that are put together and compared.

use vstd::prelude::*;

use crate::path;
use crate::text;

verus! {

/// A path from the root stays itself, and any other is put behind the directory that it is seen
/// from, with exactly one slash between them where the directory does not end in one.
pub proof fn joined_paths_are_whole(base: Seq<char>, rest: Seq<char>)
    ensures
        path::joined(base, "/"@ + rest) == "/"@ + rest,
        rest.len() == 0 || rest[0] != '/' ==> {
            &&& base.len() > 0 && base.last() != '/' ==> path::joined(base, rest) == base + "/"@
                + rest
            &&& path::joined(base + "/"@, rest) == base + "/"@ + rest
            &&& path::joined(Seq::empty(), rest) == rest
        },
{
    reveal_strlit("/");
    assert("/"@ =~= seq!['/']);
    assert(("/"@ + rest)[0] == '/');
    assert((base + "/"@).last() == '/');
    assert(Seq::<char>::empty() + rest =~= rest);
}

proof fn lemma_first_slash(text: Seq<char>)
    ensures
        match path::first_slash(text) {
            Some(slash) => {
                &&& 0 <= slash < text.len()
                &&& text[slash] == '/'
                &&& forall|i: int| 0 <= i < slash ==> #[trigger] text[i] != '/'
            },
            None => forall|i: int| 0 <= i < text.len() ==> #[trigger] text[i] != '/',
        },
    decreases text.len(),
{
    if text.len() > 0 && text[0] != '/' {
        let rest = text.drop_first();
        lemma_first_slash(rest);
        match path::first_slash(rest) {
            Some(slash) => {
                assert(text[slash + 1] == rest[slash]);
                assert forall|i: int| 0 <= i < slash + 1 implies #[trigger] text[i] != '/' by {
                    if i > 0 {
                        assert(text[i] == rest[i - 1]);
                    }
                }
            },
            None => {
                assert forall|i: int| 0 <= i < text.len() implies #[trigger] text[i] != '/' by {
                    if i > 0 {
                        assert(text[i] == rest[i - 1]);
                    }
                }
            },
        }
    }
}

proof fn lemma_first_slash_is(text: Seq<char>, slash: int)
    requires
        0 <= slash < text.len(),
        text[slash] == '/',
        forall|i: int| 0 <= i < slash ==> #[trigger] text[i] != '/',
    ensures
        path::first_slash(text) == Some(slash),
{
    lemma_first_slash(text);
    if let Some(found) = path::first_slash(text) {
        if found < slash {
            assert(text[found] != '/');
        }
        if slash < found {
            assert(text[slash] != '/');
        }
    }
}

/// The segments of two paths with a slash between them are those of the one and then those of the
/// other, and a name without a slash is one segment.
pub proof fn slashes_part_segments(first: Seq<char>, second: Seq<char>)
    ensures
        path::segments(first + "/"@ + second) == path::segments(first) + path::segments(second),
        !first.contains('/') ==> path::segments(first) == seq![first],
    decreases first.len(),
{
    reveal_strlit("/");
    let whole = first + "/"@ + second;
    lemma_first_slash(first);
    match path::first_slash(first) {
        Some(slash) => {
            assert(whole[slash] == first[slash]);
            assert forall|i: int| 0 <= i < slash implies #[trigger] whole[i] != '/' by {
                assert(whole[i] == first[i]);
            }
            lemma_first_slash_is(whole, slash);
            let rest = first.skip(slash + 1);
            slashes_part_segments(rest, second);
            assert(whole.take(slash) =~= first.take(slash));
            assert(whole.skip(slash + 1) =~= rest + "/"@ + second);
            assert(path::segments(whole) =~= path::segments(first) + path::segments(second));
            assert(first.contains(first[slash]));
        },
        None => {
            let slash = first.len() as int;
            assert(whole[slash] == '/');
            assert forall|i: int| 0 <= i < slash implies #[trigger] whole[i] != '/' by {
                assert(whole[i] == first[i]);
            }
            lemma_first_slash_is(whole, slash);
            assert(whole.take(slash) =~= first);
            assert(whole.skip(slash + 1) =~= second);
        },
    }
}

proof fn lemma_filter_joined(first: Seq<Seq<char>>, second: Seq<Seq<char>>)
    ensures
        (first + second).filter(|segment: Seq<char>| path::is_step(segment)) == first.filter(
            |segment: Seq<char>| path::is_step(segment),
        ) + second.filter(|segment: Seq<char>| path::is_step(segment)),
    decreases second.len(),
{
    reveal(Seq::filter);
    let keep = |segment: Seq<char>| path::is_step(segment);
    if second.len() == 0 {
        assert(first + second =~= first);
        assert(first.filter(keep) + second.filter(keep) =~= first.filter(keep));
    } else {
        lemma_filter_joined(first, second.drop_last());
        assert((first + second).drop_last() =~= first + second.drop_last());
        assert((first + second).last() == second.last());
        assert((first + second).filter(keep) =~= first.filter(keep) + second.filter(keep));
    }
}

/// What lies below a directory has the components of the directory and then its own steps, and is
/// within the directory.
pub proof fn what_lies_below_is_within(directory: Seq<char>, rest: Seq<char>)
    requires
        directory.len() > 0,
    ensures
        path::components(directory + "/"@ + rest) == path::components(directory)
            + path::segments(rest).filter(|segment: Seq<char>| path::is_step(segment)),
        path::is_within(directory + "/"@ + rest, directory),
        path::is_within(directory, directory),
{
    reveal_strlit("/");
    let whole = directory + "/"@ + rest;
    slashes_part_segments(directory, rest);
    lemma_filter_joined(path::segments(directory), path::segments(rest));
    lemma_some_segment(directory);
    assert(path::segments(whole)[0] == path::segments(directory)[0]);
    assert(whole[0] == directory[0]);
    let steps = path::segments(rest).filter(|segment: Seq<char>| path::is_step(segment));
    assert(path::components(whole) =~= path::components(directory) + steps);
    assert(path::components(directory) =~= path::components(whole).subrange(
        0,
        path::components(directory).len() as int,
    ));
    assert(path::components(directory) =~= path::components(directory).subrange(
        0,
        path::components(directory).len() as int,
    ));
}

proof fn lemma_some_segment(whole: Seq<char>)
    ensures
        path::segments(whole).len() > 0,
{
}

/// A name is one component of what lies below a directory, unless it is empty or a single dot.
pub proof fn names_are_components(directory: Seq<char>, name: Seq<char>)
    requires
        directory.len() > 0,
        name.len() > 0,
        name != "."@,
        !name.contains('/'),
    ensures
        path::components(directory + "/"@ + name) == path::components(directory).push(name),
{
    what_lies_below_is_within(directory, name);
    slashes_part_segments(name, Seq::empty());
    reveal(Seq::filter);
    let keep = |segment: Seq<char>| path::is_step(segment);
    let one = seq![name];
    assert(one.drop_last() =~= Seq::empty());
    assert(one.filter(keep) =~= one) by {
        assert(one.drop_last().filter(keep) =~= Seq::empty());
    }
    assert(path::components(directory + "/"@ + name) =~= path::components(directory).push(name));
}

/// What lies beside a directory is not within it, also where its name starts with that of the
/// directory.
pub proof fn what_lies_beside_is_not_within(
    directory: Seq<char>,
    name: Seq<char>,
    other: Seq<char>,
    rest: Seq<char>,
)
    requires
        directory.len() > 0,
        name.len() > 0,
        name != "."@,
        !name.contains('/'),
        other.len() > 0,
        other != "."@,
        !other.contains('/'),
        name != other,
    ensures
        !path::is_within(directory + "/"@ + other, directory + "/"@ + name),
        !path::is_within(directory + "/"@ + other + "/"@ + rest, directory + "/"@ + name),
{
    names_are_components(directory, name);
    names_are_components(directory, other);
    let left = directory + "/"@ + other;
    what_lies_below_is_within(left, rest);
    let at = path::components(directory).len() as int;
    let short = path::components(directory + "/"@ + name);
    assert(short[at] == name);
    assert(path::components(left)[at] == other);
    let long = path::components(left + "/"@ + rest);
    assert(long[at] == other);
    if short.is_prefix_of(path::components(left)) {
        assert(path::components(left).subrange(0, short.len() as int)[at] == name);
    }
    if short.is_prefix_of(long) {
        assert(long.subrange(0, short.len() as int)[at] == name);
    }
}

/// A path that starts at the current directory by a dot is not taken for the one without that dot,
/// whereas a dot behind a slash, and a second slash, make no difference.
pub proof fn leading_dots_are_kept(name: Seq<char>)
    requires
        name.len() > 0,
        name != "."@,
        !name.contains('/'),
    ensures
        !path::is_within(name, "./"@ + name),
        !path::is_within("./"@ + name, name),
        path::components(name + "/./"@ + name) == path::components(name + "/"@ + name),
        path::components(name + "//"@ + name) == path::components(name + "/"@ + name),
        path::components("/"@ + name) != path::components(name),
{
    reveal_strlit(".");
    reveal_strlit("/");
    reveal_strlit("./");
    reveal_strlit("/./");
    reveal_strlit("//");
    let dotted = "./"@ + name;
    assert(dotted =~= "."@ + "/"@ + name);
    names_are_components("."@, name);
    slashes_part_segments("."@, Seq::empty());
    slashes_part_segments(name, Seq::empty());
    reveal(Seq::filter);
    let keep = |segment: Seq<char>| path::is_step(segment);
    let dot = seq!["."@];
    assert(dot.drop_last().filter(keep) =~= Seq::empty());
    assert(dot.filter(keep) =~= Seq::empty());
    assert(!("."@).contains('/'));
    assert(path::components("."@) =~= dot);
    let one = seq![name];
    assert(one.drop_last().filter(keep) =~= Seq::empty());
    assert(one.filter(keep) =~= one);
    assert(name.contains(name[0]));
    assert(path::components(name) =~= one);
    assert(path::components(dotted) =~= seq!["."@, name]);
    assert(path::components(dotted)[0] == "."@);
    if one.is_prefix_of(path::components(dotted)) {
        assert(path::components(dotted).subrange(0, 1)[0] == name);
    }
    assert(name + "/./"@ + name =~= name + "/"@ + dotted);
    what_lies_below_is_within(name, dotted);
    what_lies_below_is_within(name, name);
    slashes_part_segments("."@, name);
    lemma_filter_joined(dot, one);
    assert(path::segments(dotted) == dot + one);
    assert((dot + one).filter(keep) =~= one);
    let slashed = "/"@ + name;
    assert(name + "//"@ + name =~= name + "/"@ + slashed);
    what_lies_below_is_within(name, slashed);
    let empty = Seq::<char>::empty();
    assert(slashed =~= empty + "/"@ + name);
    slashes_part_segments(empty, name);
    let none = seq![empty];
    lemma_filter_joined(none, one);
    assert(none.drop_last().filter(keep) =~= Seq::empty());
    assert(none.filter(keep) =~= Seq::empty());
    assert(path::segments(slashed) == none + one);
    assert((none + one).filter(keep) =~= one);
    assert(path::components(slashed)[0] == "/"@);
    assert(name[0] != '/');
}

/// Whether a text is made of white space only.
pub open spec fn is_blank(text: Seq<char>) -> bool {
    forall|i: int| 0 <= i < text.len() ==> text::is_white_space(#[trigger] text[i])
}

proof fn lemma_trimmed_end(text: Seq<char>) -> (tail: Seq<char>)
    ensures
        text == text::trimmed_end(text, |c: char| text::is_white_space(c)) + tail,
        is_blank(tail),
        ({
            let kept = text::trimmed_end(text, |c: char| text::is_white_space(c));
            kept.len() > 0 ==> !text::is_white_space(kept.last())
        }),
    decreases text.len(),
{
    let white = |c: char| text::is_white_space(c);
    if text.len() > 0 && white(text.last()) {
        let tail = lemma_trimmed_end(text.drop_last());
        assert(text =~= text.drop_last().push(text.last()));
        assert(text =~= text::trimmed_end(text, white) + tail.push(text.last()));
        tail.push(text.last())
    } else {
        assert(text =~= text + Seq::<char>::empty());
        Seq::empty()
    }
}

proof fn lemma_trimmed_start(text: Seq<char>) -> (head: Seq<char>)
    ensures
        text == head + text::trimmed_start(text, |c: char| text::is_white_space(c)),
        is_blank(head),
        ({
            let kept = text::trimmed_start(text, |c: char| text::is_white_space(c));
            kept.len() > 0 ==> !text::is_white_space(kept[0])
        }),
    decreases text.len(),
{
    let white = |c: char| text::is_white_space(c);
    if text.len() > 0 && white(text[0]) {
        let head = lemma_trimmed_start(text.drop_first());
        assert(text =~= seq![text[0]] + text.drop_first());
        assert(text =~= (seq![text[0]] + head) + text::trimmed_start(text, white));
        seq![text[0]] + head
    } else {
        assert(text =~= Seq::<char>::empty() + text);
        Seq::empty()
    }
}

/// Trimming takes nothing but white space off a text, and leaves none at either end.
pub proof fn trimming_takes_white_space(text: Seq<char>) -> (ends: (Seq<char>, Seq<char>))
    ensures
        is_blank(ends.0),
        is_blank(ends.1),
        text == ends.0 + text::trimmed(text) + ends.1,
        text::trimmed(text).len() > 0 ==> {
            &&& !text::is_white_space(text::trimmed(text)[0])
            &&& !text::is_white_space(text::trimmed(text).last())
        },
{
    let white = |c: char| text::is_white_space(c);
    let head = lemma_trimmed_start(text);
    let middle = text::trimmed_start(text, white);
    let tail = lemma_trimmed_end(middle);
    let kept = text::trimmed(text);
    assert(kept == text::trimmed_end(middle, white));
    assert(text =~= head + kept + tail);
    if kept.len() > 0 {
        assert(kept[0] == middle[0]);
    }
    (head, tail)
}

} // verus!
