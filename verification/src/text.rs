//! Small operations on text, stated over sequences of characters.

use vstd::prelude::*;
use vstd::string::{StrSliceExecFns, StringExecFns};

verus! {

/// The characters of each text of a list.
pub open spec fn texts(list: Seq<String>) -> Seq<Seq<char>> {
    list.map_values(|text: String| text@)
}

/// The characters of each text of a list of borrowed texts.
pub open spec fn slices(list: Seq<&str>) -> Seq<Seq<char>> {
    list.map_values(|text: &str| text@)
}

/// The characters of an optional text.
pub open spec fn text_of(text: Option<String>) -> Option<Seq<char>> {
    match text {
        Some(text) => Some(text@),
        None => None,
    }
}

/// The decimal digit of a number below ten.
pub open spec fn digit(value: nat) -> char {
    (48 + value) as char
}

/// A number in decimal, without leading zeros.
pub open spec fn decimal(value: nat) -> Seq<char>
    decreases value,
{
    if value < 10 {
        seq![digit(value)]
    } else {
        decimal(value / 10).push(digit(value % 10))
    }
}

/// A list of texts, one after the other, with `separator` between neighbours.
pub open spec fn joined(parts: Seq<Seq<char>>, separator: Seq<char>) -> Seq<char>
    decreases parts.len(),
{
    if parts.len() == 0 {
        Seq::empty()
    } else if parts.len() == 1 {
        parts[0]
    } else {
        joined(parts.drop_last(), separator) + separator + parts.last()
    }
}

/// The characters that Unicode counts as white space.
pub open spec fn is_white_space(c: char) -> bool {
    ||| '\u{9}' <= c <= '\u{d}'
    ||| c == ' '
    ||| c == '\u{85}'
    ||| c == '\u{a0}'
    ||| c == '\u{1680}'
    ||| '\u{2000}' <= c <= '\u{200a}'
    ||| c == '\u{2028}'
    ||| c == '\u{2029}'
    ||| c == '\u{202f}'
    ||| c == '\u{205f}'
    ||| c == '\u{3000}'
}

/// `text` without the characters of `cut` at its end.
pub open spec fn trimmed_end(text: Seq<char>, cut: spec_fn(char) -> bool) -> Seq<char>
    decreases text.len(),
{
    if text.len() > 0 && cut(text.last()) {
        trimmed_end(text.drop_last(), cut)
    } else {
        text
    }
}

/// `text` without the characters of `cut` at its start.
pub open spec fn trimmed_start(text: Seq<char>, cut: spec_fn(char) -> bool) -> Seq<char>
    decreases text.len(),
{
    if text.len() > 0 && cut(text[0]) {
        trimmed_start(text.drop_first(), cut)
    } else {
        text
    }
}

/// `text` without white space at either end.
pub open spec fn trimmed(text: Seq<char>) -> Seq<char> {
    trimmed_end(trimmed_start(text, |c: char| is_white_space(c)), |c: char| is_white_space(c))
}

pub open spec fn is_digit(c: char) -> bool {
    '0' <= c <= '9'
}

/// The number that a run of decimal digits writes.
pub open spec fn number(digits: Seq<char>) -> nat
    decreases digits.len(),
{
    if digits.len() == 0 {
        0
    } else {
        (number(digits.drop_last()) * 10 + (digits.last() as int - '0' as int)) as nat
    }
}

pub open spec fn all_digits(text: Seq<char>) -> bool {
    text.len() > 0 && forall|i: int| 0 <= i < text.len() ==> is_digit(#[trigger] text[i])
}

/// The 32-bit number that `text` writes in digits alone, if it is one.
pub open spec fn digits_value(text: Seq<char>) -> Option<u32> {
    if all_digits(text) && number(text) <= u32::MAX {
        Some(number(text) as u32)
    } else {
        None
    }
}

/// Whether two texts hold the same characters.
pub fn same(left: &str, right: &str) -> (equal: bool)
    ensures
        equal == (left@ == right@),
{
    left.to_owned() == right.to_owned()
}

/// One text after another.
pub fn concat(left: &str, right: &str) -> (whole: String)
    ensures
        whole@ == left@ + right@,
{
    left.to_owned().concat(right)
}

/// An owned copy of each text.
pub fn args(values: &[&str]) -> (list: Vec<String>)
    ensures
        texts(list@) == slices(values@),
{
    let mut list: Vec<String> = Vec::new();
    for i in 0..values.len()
        invariant
            list@.len() == i,
            forall|j: int| 0 <= j < i ==> #[trigger] list@[j]@ == values@[j]@,
    {
        list.push(values[i].to_owned());
    }
    assert(texts(list@) =~= slices(values@));
    list
}

/// A copy of a list of texts.
pub fn copied(list: &Vec<String>) -> (copy: Vec<String>)
    ensures
        copy@ == list@,
{
    let mut copy: Vec<String> = Vec::new();
    for i in 0..list.len()
        invariant
            copy@ == list@.take(i as int),
    {
        copy.push(list[i].clone());
        assert(list@.take(i + 1) =~= list@.take(i as int).push(list@[i as int]));
    }
    assert(list@.take(list@.len() as int) =~= list@);
    copy
}

/// Whether `item` is one of the texts of `list`.
pub fn contains(list: &Vec<String>, item: &str) -> (found: bool)
    ensures
        found == texts(list@).contains(item@),
{
    for i in 0..list.len()
        invariant
            forall|j: int| 0 <= j < i ==> #[trigger] list@[j]@ != item@,
    {
        if same(list[i].as_str(), item) {
            assert(texts(list@)[i as int] == item@);
            return true;
        }
    }
    assert(!texts(list@).contains(item@)) by {
        if texts(list@).contains(item@) {
            let j = choose|j: int| 0 <= j < texts(list@).len() && texts(list@)[j] == item@;
            assert(list@[j]@ == item@);
        }
    }
    false
}

/// The list that is left when every text equal to `item` is taken out.
pub open spec fn without(list: Seq<Seq<char>>, item: Seq<char>) -> Seq<Seq<char>> {
    list.filter(|text: Seq<char>| text != item)
}

/// Exactly the texts equal to `item` are taken out.
pub proof fn lemma_without_contains(list: Seq<Seq<char>>, item: Seq<char>, text: Seq<char>)
    ensures
        without(list, item).contains(text) == (list.contains(text) && text != item),
    decreases list.len(),
{
    let keep = |text: Seq<char>| text != item;
    reveal(Seq::filter);
    if list.len() > 0 {
        let rest = list.drop_last();
        let last = list.last();
        lemma_without_contains(rest, item, text);
        assert(list =~= rest.push(last));
        assert(list.contains(text) == (rest.contains(text) || last == text)) by {
            if list.contains(text) && last != text {
                let i = choose|i: int| 0 <= i < list.len() && list[i] == text;
                assert(rest[i] == text);
            }
            if rest.contains(text) {
                let i = choose|i: int| 0 <= i < rest.len() && rest[i] == text;
                assert(list[i] == text);
            }
            assert(list[list.len() - 1] == last);
        }
        if keep(last) {
            let kept = without(rest, item);
            assert(without(list, item) =~= kept.push(last));
            assert(kept.push(last)[kept.len() as int] == last);
            if kept.contains(text) {
                let i = choose|i: int| 0 <= i < kept.len() && kept[i] == text;
                assert(kept.push(last)[i] == text);
            }
            if kept.push(last).contains(text) && last != text {
                let i = choose|i: int| 0 <= i < kept.push(last).len() && kept.push(last)[i] == text;
                assert(kept[i] == text);
            }
        }
    }
}

/// Take every text equal to `item` out of `list`.
pub fn drop_item(list: &Vec<String>, item: &str) -> (left: Vec<String>)
    ensures
        texts(left@) == without(texts(list@), item@),
{
    let ghost keep = |text: Seq<char>| text != item@;
    let mut left: Vec<String> = Vec::new();
    assert(texts(list@).take(0).filter(keep) =~= Seq::empty()) by {
        reveal(Seq::filter);
    }
    assert(texts(left@) =~= Seq::empty());
    for i in 0..list.len()
        invariant
            keep == (|text: Seq<char>| text != item@),
            texts(left@) == texts(list@).take(i as int).filter(keep),
    {
        let ghost before = left@;
        proof {
            reveal(Seq::filter);
            assert(texts(list@).take(i + 1).drop_last() =~= texts(list@).take(i as int));
            assert(texts(list@).take(i + 1).last() == list@[i as int]@);
        }
        if !same(list[i].as_str(), item) {
            left.push(list[i].clone());
            assert(texts(left@) =~= texts(before).push(list@[i as int]@));
        }
    }
    assert(texts(list@).take(list@.len() as int) =~= texts(list@));
    left
}

/// The texts of a list, each once, in the order in which they first occur.
pub open spec fn distinct(list: Seq<Seq<char>>) -> Seq<Seq<char>>
    decreases list.len(),
{
    if list.len() == 0 {
        Seq::empty()
    } else {
        let before = distinct(list.drop_last());
        if before.contains(list.last()) {
            before
        } else {
            before.push(list.last())
        }
    }
}

/// Nothing is lost and nothing occurs twice.
pub proof fn lemma_distinct(list: Seq<Seq<char>>)
    ensures
        distinct(list).no_duplicates(),
        forall|text: Seq<char>| #[trigger] distinct(list).contains(text) == list.contains(text),
    decreases list.len(),
{
    if list.len() > 0 {
        let shorter = list.drop_last();
        let last = list.last();
        let before = distinct(shorter);
        lemma_distinct(shorter);
        assert forall|text: Seq<char>| #[trigger] distinct(list).contains(text) == list.contains(
            text,
        ) by {
            assert(before.contains(text) == shorter.contains(text));
            if shorter.contains(text) {
                let i = choose|i: int| 0 <= i < shorter.len() && shorter[i] == text;
                assert(list[i] == text);
            }
            assert(list[list.len() - 1] == last);
            if list.contains(text) && text != last {
                let i = choose|i: int| 0 <= i < list.len() && list[i] == text;
                assert(shorter[i] == text);
            }
            let pushed = before.push(last);
            assert(pushed[before.len() as int] == last);
            if before.contains(text) {
                let i = choose|i: int| 0 <= i < before.len() && before[i] == text;
                assert(pushed[i] == text);
            }
            if pushed.contains(text) && text != last {
                let i = choose|i: int| 0 <= i < pushed.len() && pushed[i] == text;
                assert(before[i] == text);
            }
        }
    }
}

/// Leave out every text that stands further up already.
pub fn dedup(list: Vec<String>) -> (kept: Vec<String>)
    ensures
        texts(kept@) == distinct(texts(list@)),
{
    let mut kept: Vec<String> = Vec::new();
    assert(texts(kept@) =~= distinct(texts(list@).take(0)));
    for i in 0..list.len()
        invariant
            texts(kept@) == distinct(texts(list@).take(i as int)),
    {
        let ghost before = kept@;
        proof {
            assert(texts(list@).take(i + 1).drop_last() =~= texts(list@).take(i as int));
            assert(texts(list@).take(i + 1).last() == list@[i as int]@);
        }
        if !contains(&kept, list[i].as_str()) {
            kept.push(list[i].clone());
            assert(texts(kept@) =~= texts(before).push(list@[i as int]@));
        }
    }
    assert(texts(list@).take(list@.len() as int) =~= texts(list@));
    kept
}

fn digit_text(value: u128) -> (text: &'static str)
    requires
        value < 10,
    ensures
        text@ == seq![digit(value as nat)],
{
    proof {
        reveal_strlit("0");
        reveal_strlit("1");
        reveal_strlit("2");
        reveal_strlit("3");
        reveal_strlit("4");
        reveal_strlit("5");
        reveal_strlit("6");
        reveal_strlit("7");
        reveal_strlit("8");
        reveal_strlit("9");
    }
    match value {
        0 => "0",
        1 => "1",
        2 => "2",
        3 => "3",
        4 => "4",
        5 => "5",
        6 => "6",
        7 => "7",
        8 => "8",
        _ => "9",
    }
}

/// Write a number in decimal.
pub fn decimal_text(value: u128) -> (text: String)
    ensures
        text@ == decimal(value as nat),
    decreases value,
{
    if value < 10 {
        digit_text(value).to_owned()
    } else {
        let head: String = decimal_text(value / 10);
        let text: String = head.concat(digit_text(value % 10));
        assert(text@ =~= decimal((value / 10) as nat).push(digit((value % 10) as nat)));
        text
    }
}

/// Join the texts of a list with `separator` between neighbours.
pub fn join(parts: &Vec<String>, separator: &str) -> (whole: String)
    ensures
        whole@ == joined(texts(parts@), separator@),
{
    let mut whole: String = String::new();
    for i in 0..parts.len()
        invariant
            whole@ == joined(texts(parts@).take(i as int), separator@),
    {
        proof {
            assert(texts(parts@).take(i + 1).drop_last() =~= texts(parts@).take(i as int));
            assert(texts(parts@).take(i + 1).last() == parts@[i as int]@);
        }
        if i > 0 {
            whole.append(separator);
        }
        whole.append(parts[i].as_str());
        assert(i == 0 ==> whole@ =~= parts@[0]@);
    }
    assert(texts(parts@).take(parts@.len() as int) =~= texts(parts@));
    whole
}

fn white_space(c: char) -> (answer: bool)
    ensures
        answer == is_white_space(c),
{
    ('\u{9}' <= c && c <= '\u{d}') || c == ' ' || c == '\u{85}' || c == '\u{a0}' || c == '\u{1680}'
        || ('\u{2000}' <= c && c <= '\u{200a}') || c == '\u{2028}' || c == '\u{2029}'
        || c == '\u{202f}' || c == '\u{205f}' || c == '\u{3000}'
}

/// Cut white space off both ends of a text.
pub fn trim(text: &str) -> (cut: String)
    ensures
        cut@ == trimmed(text@),
{
    let ghost white = |c: char| is_white_space(c);
    let length: usize = text.unicode_len();
    let mut start: usize = 0;
    assert(text@.skip(0) =~= text@);
    while start < length && white_space(text.get_char(start))
        invariant
            white == (|c: char| is_white_space(c)),
            length == text@.len(),
            start <= length,
            trimmed_start(text@, white) == trimmed_start(text@.skip(start as int), white),
        decreases length - start,
    {
        proof {
            assert(text@.skip(start as int).drop_first() =~= text@.skip(start + 1));
        }
        start = start + 1;
    }
    let ghost tail = text@.skip(start as int);
    assert(trimmed_start(text@, white) == tail);
    let mut end: usize = length;
    assert(tail.take(length - start) =~= tail);
    while end > start && white_space(text.get_char(end - 1))
        invariant
            white == (|c: char| is_white_space(c)),
            length == text@.len(),
            start <= end <= length,
            tail == text@.skip(start as int),
            trimmed_end(tail, white) == trimmed_end(tail.take(end - start), white),
        decreases end,
    {
        proof {
            assert(tail.take(end - start).drop_last() =~= tail.take(end - start - 1));
        }
        end = end - 1;
    }
    assert(text@.subrange(start as int, end as int) =~= tail.take(end - start));
    text.substring_char(start, end).to_owned()
}

/// Read a run of decimal digits as a 32-bit number.
pub fn read_digits(text: &str) -> (value: Option<u32>)
    ensures
        value == digits_value(text@),
{
    let length: usize = text.unicode_len();
    if length == 0 {
        return None;
    }
    let mut total: u64 = 0;
    let mut i: usize = 0;
    while i < length
        invariant
            length == text@.len(),
            i <= length,
            total <= u32::MAX,
            total == number(text@.take(i as int)),
            forall|j: int| 0 <= j < i ==> is_digit(#[trigger] text@[j]),
        decreases length - i,
    {
        let c: char = text.get_char(i);
        if !('0' <= c && c <= '9') {
            assert(!is_digit(text@[i as int]));
            return None;
        }
        proof {
            assert(text@.take(i + 1).drop_last() =~= text@.take(i as int));
        }
        total = total * 10 + (c as u64 - '0' as u64);
        assert(total == number(text@.take(i + 1)));
        if total > u32::MAX as u64 {
            proof {
                lemma_number_grows(text@, i + 1);
                assert(number(text@) > u32::MAX || !all_digits(text@));
            }
            return None;
        }
        i = i + 1;
    }
    assert(text@.take(length as int) =~= text@);
    Some(total as u32)
}

/// More digits never make a number smaller.
proof fn lemma_number_grows(text: Seq<char>, start: int)
    requires
        0 <= start <= text.len(),
    ensures
        all_digits(text) ==> number(text.take(start)) <= number(text),
    decreases text.len() - start,
{
    if start == text.len() {
        assert(text.take(start) =~= text);
    } else if all_digits(text) {
        lemma_number_grows(text, start + 1);
        assert(text.take(start + 1).drop_last() =~= text.take(start));
        assert(is_digit(text[start]));
    }
}

} // verus!
