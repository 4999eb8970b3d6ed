//! What holds of texts and of lists of texts.

use vstd::prelude::*;

use crate::text;

verus! {

/// Joining two lists one after the other is joining each of them, with one separator between the
/// two. One text joined is that text, and none is nothing.
pub proof fn joining_puts_separators_between(
    first: Seq<Seq<char>>,
    second: Seq<Seq<char>>,
    separator: Seq<char>,
)
    ensures
        first.len() > 0 && second.len() > 0 ==> text::joined(first + second, separator)
            == text::joined(first, separator) + separator + text::joined(second, separator),
        first.len() == 1 ==> text::joined(first, separator) == first[0],
        first.len() == 0 ==> text::joined(first, separator).len() == 0,
    decreases second.len(),
{
    if first.len() > 0 && second.len() > 0 {
        let whole = first + second;
        let start = text::joined(first, separator);
        assert(whole.last() == second.last());
        assert(whole.drop_last() =~= first + second.drop_last());
        if second.len() == 1 {
            assert(whole.drop_last() =~= first);
        } else {
            joining_puts_separators_between(first, second.drop_last(), separator);
            assert(text::joined(whole, separator) =~= start + separator + text::joined(
                second,
                separator,
            ));
        }
    }
}

/// Dropping what occurs again keeps the order of what is left: what a list starts with, each text
/// once, is what the whole list, each text once, starts with.
pub proof fn first_occurrences_keep_their_order(list: Seq<Seq<char>>, count: int)
    requires
        0 <= count <= list.len(),
    ensures
        text::distinct(list.take(count)).is_prefix_of(text::distinct(list)),
        list.no_duplicates() ==> text::distinct(list) == list,
    decreases list.len() - count + list.len(),
{
    let start = text::distinct(list.take(count));
    if count == list.len() {
        assert(list.take(count) =~= list);
        assert(start =~= start.subrange(0, start.len() as int));
    } else {
        let shorter = list.drop_last();
        first_occurrences_keep_their_order(shorter, count);
        assert(shorter.take(count) =~= list.take(count));
        let before = text::distinct(shorter);
        let whole = text::distinct(list);
        assert(before =~= whole.subrange(0, before.len() as int));
        assert(start =~= whole.subrange(0, start.len() as int)) by {
            assert(start == before.subrange(0, start.len() as int));
        }
    }
    if list.no_duplicates() && list.len() > 0 {
        let shorter = list.drop_last();
        assert(shorter.no_duplicates()) by {
            assert forall|i: int, j: int|
                0 <= i < shorter.len() && 0 <= j < shorter.len() && i != j implies shorter[i]
                != shorter[j] by {
                assert(list[i] != list[j]);
            }
        }
        first_occurrences_keep_their_order(shorter, shorter.len() as int);
        if shorter.contains(list.last()) {
            let i = choose|i: int| 0 <= i < shorter.len() && shorter[i] == list.last();
            assert(list[i] != list[list.len() - 1]);
        }
        assert(text::distinct(list) =~= list);
    }
}

/// Taking a text out of a list keeps the order of what is left: it is done to two parts of a list
/// one by one, and a list without that text stays as it is.
pub proof fn taking_out_keeps_the_order(
    first: Seq<Seq<char>>,
    second: Seq<Seq<char>>,
    item: Seq<char>,
)
    ensures
        text::without(first + second, item) == text::without(first, item) + text::without(
            second,
            item,
        ),
        !first.contains(item) ==> text::without(first, item) == first,
    decreases first.len() + second.len(),
{
    reveal(Seq::filter);
    let keep = |text: Seq<char>| text != item;
    if second.len() == 0 {
        assert(first + second =~= first);
        assert(text::without(second, item) =~= Seq::empty());
        assert(text::without(first, item) + text::without(second, item) =~= text::without(
            first,
            item,
        ));
        if !first.contains(item) && first.len() > 0 {
            let shorter = first.drop_last();
            assert forall|i: int| 0 <= i < shorter.len() implies #[trigger] shorter[i] != item by {
                assert(first[i] == shorter[i]);
                assert(first.contains(first[i]));
            }
            taking_out_keeps_the_order(shorter, second, item);
            assert(first.last() == first[first.len() - 1]);
            assert(first.contains(first.last()));
            assert(text::without(first, item) =~= first);
        } else if first.len() == 0 {
            assert(text::without(first, item) =~= first);
        }
    } else {
        taking_out_keeps_the_order(first, second.drop_last(), item);
        assert((first + second).drop_last() =~= first + second.drop_last());
        assert((first + second).last() == second.last());
        assert(text::without(first + second, item) =~= text::without(first, item)
            + text::without(second, item));
    }
}

/// The numbers of the characters that are white space are those that Unicode gives that property:
/// twenty-five in all.
pub proof fn white_space_is_that_of_unicode(c: char)
    ensures
        text::is_white_space(c) <==> {
            let number = c as u32;
            ||| 9 <= number <= 13
            ||| number == 32 || number == 133 || number == 160 || number == 5760
            ||| 8192 <= number <= 8202
            ||| number == 8232 || number == 8233 || number == 8239 || number == 8287
            ||| number == 12288
        },
{
}

} // verus!
