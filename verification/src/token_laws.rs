//! What is read out of a text that names a path, a line and a column.

use vstd::prelude::*;

use crate::extract;
use crate::openlink;
use crate::text;

verus! {

/// A number in decimal is made of digits alone, writes that number, and starts with a zero only
/// where it is zero.
pub proof fn decimals_are_read_back(value: nat)
    ensures
        text::all_digits(text::decimal(value)),
        text::number(text::decimal(value)) == value,
        value > 0 ==> text::decimal(value)[0] != '0',
        value < 10 ==> text::decimal(value).len() == 1,
    decreases value,
{
    let digits = text::decimal(value);
    if value < 10 {
        assert(digits.drop_last() =~= Seq::empty());
        assert(text::number(Seq::empty()) == 0);
        assert(digits.last() as int == 48 + value);
    } else {
        let head = text::decimal(value / 10);
        decimals_are_read_back(value / 10);
        assert(digits.drop_last() =~= head);
        assert(digits.last() as int == 48 + value % 10);
        assert forall|i: int| 0 <= i < digits.len() implies text::is_digit(
            #[trigger] digits[i],
        ) by {
            if i < head.len() {
                assert(digits[i] == head[i]);
            }
        }
        assert(digits[0] == head[0]);
    }
}

/// A 32-bit number in decimal is read back as that number.
pub proof fn small_decimals_are_read_back(value: u32)
    ensures
        text::digits_value(text::decimal(value as nat)) == Some(value),
{
    decimals_are_read_back(value as nat);
}

/// Whether a text ends in a colon and a number that is small enough for a line.
pub open spec fn ends_in_line(text: Seq<char>) -> bool {
    exists|colon: int|
        0 <= colon < text.len() && #[trigger] text[colon] == ':' && is_line(text.skip(colon + 1))
}

/// Whether a text is a run of digits that writes a number within 32 bits.
pub open spec fn is_line(digits: Seq<char>) -> bool {
    text::all_digits(digits) && text::number(digits) <= u32::MAX
}

proof fn lemma_last_colon(text: Seq<char>)
    ensures
        match extract::last_colon(text) {
            Some(colon) => {
                &&& 0 <= colon < text.len()
                &&& text[colon] == ':'
                &&& forall|i: int| colon < i < text.len() ==> #[trigger] text[i] != ':'
            },
            None => !text.contains(':'),
        },
    decreases text.len(),
{
    if text.len() > 0 && text.last() != ':' {
        let start = text.drop_last();
        lemma_last_colon(start);
        match extract::last_colon(start) {
            Some(colon) => {
                assert(text[colon] == start[colon]);
                assert forall|i: int| colon < i < text.len() implies #[trigger] text[i] != ':' by {
                    if i < start.len() {
                        assert(text[i] == start[i]);
                    }
                }
            },
            None => {
                if text.contains(':') {
                    let i = choose|i: int| 0 <= i < text.len() && text[i] == ':';
                    assert(start[i] == ':');
                }
            },
        }
    }
}

/// The number behind the last colon is what stands there, and what is before it is kept.
proof fn lemma_numbered_behind(start: Seq<char>, digits: Seq<char>)
    requires
        is_line(digits),
    ensures
        extract::numbered(start + seq![':'] + digits) == Some(
            (start, text::number(digits) as u32),
        ),
{
    let whole = start + seq![':'] + digits;
    let place = start.len() as int;
    lemma_last_colon(whole);
    assert(whole[place] == ':');
    assert forall|i: int| place < i < whole.len() implies #[trigger] whole[i] != ':' by {
        assert(whole[i] == digits[i - place - 1]);
        assert(text::is_digit(digits[i - place - 1]));
    }
    assert(whole.contains(':'));
    assert(extract::last_colon(whole) == Some(place)) by {
        let colon = extract::last_colon(whole)->0;
        assert(colon >= place);
    }
    assert(whole.skip(place + 1) =~= digits);
    assert(whole.take(place) =~= start);
}

proof fn lemma_not_numbered(text: Seq<char>)
    requires
        !ends_in_line(text),
    ensures
        extract::numbered(text) is None,
{
    lemma_last_colon(text);
    if extract::numbered(text) is Some {
        let colon = extract::last_colon(text)->0;
        assert(text[colon] == ':');
        assert(is_line(text.skip(colon + 1)));
    }
}

/// A path with a line, or with a line and a column, is read as that path with that line, and the
/// column makes no difference. A path alone is read as that path, without a line. This holds for
/// digits of every kind, with zeros at their start too.
pub proof fn line_stands_behind_the_path(
    file: Seq<char>,
    line: Seq<char>,
    column: Seq<char>,
)
    requires
        extract::is_path_shaped(file),
        !ends_in_line(file),
        is_line(line),
        is_line(column),
    ensures
        extract::token_in(file) == Some((file, None::<u32>)),
        extract::token_in(file + seq![':'] + line) == Some(
            (file, Some(text::number(line) as u32)),
        ),
        extract::token_in(file + seq![':'] + line + seq![':'] + column) == Some(
            (file, Some(text::number(line) as u32)),
        ),
{
    lemma_not_numbered(file);
    lemma_numbered_behind(file, line);
    lemma_numbered_behind(file + seq![':'] + line, column);
}

/// The same for the numbers themselves: `path:line` and `path:line:column` are read as the path
/// with the line.
pub proof fn written_lines_are_read_back(file: Seq<char>, line: u32, column: u32)
    requires
        extract::is_path_shaped(file),
        !ends_in_line(file),
    ensures
        extract::token_in(file + ":"@ + text::decimal(line as nat)) == Some((file, Some(line))),
        extract::token_in(
            file + ":"@ + text::decimal(line as nat) + ":"@ + text::decimal(column as nat),
        ) == Some((file, Some(line))),
{
    reveal_strlit(":");
    assert(":"@ =~= seq![':']);
    decimals_are_read_back(line as nat);
    decimals_are_read_back(column as nat);
    line_stands_behind_the_path(file, text::decimal(line as nat), text::decimal(column as nat));
}

/// What is read out of a text is a start of it: the whole text where it has no line, and else what
/// stands before the colon of the line.
pub proof fn path_starts_the_text(token: Seq<char>)
    requires
        extract::token_in(token) is Some,
    ensures
        (extract::token_in(token)->0).0.is_prefix_of(token),
        (extract::token_in(token)->0).1 is None ==> (extract::token_in(token)->0).0 == token,
        (extract::token_in(token)->0).1 is Some ==> {
            &&& (extract::token_in(token)->0).0.len() < token.len()
            &&& token[(extract::token_in(token)->0).0.len() as int] == ':'
        },
{
    lemma_last_colon(token);
    if let Some((before, number)) = extract::numbered(token) {
        let colon = extract::last_colon(token)->0;
        lemma_last_colon(before);
        if extract::numbered(before) is Some {
            let inner = extract::last_colon(before)->0;
            assert(before.take(inner) =~= token.take(inner));
            assert(before[inner] == token[inner]);
            assert(token.take(inner) =~= token.subrange(0, inner));
        } else {
            assert(token.take(colon) =~= token.subrange(0, colon));
        }
    } else {
        assert(token =~= token.subrange(0, token.len() as int));
    }
}

/// Every text behind a slash, a tilde and a slash, or a dot and a slash, is taken for a path.
pub proof fn rooted_texts_are_paths(rest: Seq<char>)
    ensures
        extract::is_path_shaped("/"@ + rest),
        extract::is_path_shaped("~/"@ + rest),
        extract::is_path_shaped("./"@ + rest),
{
    reveal_strlit("/");
    reveal_strlit("~/");
    reveal_strlit("./");
    assert(("/"@ + rest)[0] == '/');
    assert(("~/"@ + rest)[1] == '/');
    assert(("./"@ + rest)[1] == '/');
}

/// Every file with an extension in some directory is taken for a path: a name, a dot and something
/// behind it, with no slash in any of them.
pub proof fn files_with_extension_are_paths(
    directory: Seq<char>,
    stem: Seq<char>,
    extension: Seq<char>,
)
    requires
        stem.len() > 0,
        extension.len() > 0,
        !stem.contains('/'),
        !extension.contains('/'),
    ensures
        extract::is_path_shaped(directory + "/"@ + stem + "."@ + extension),
{
    reveal_strlit("/");
    reveal_strlit(".");
    let file = directory + "/"@ + stem + "."@ + extension;
    let dot = directory.len() + 1int + stem.len();
    assert(file[directory.len() as int] == '/');
    assert(file[dot] == '.');
    assert(file[dot - 1] == stem[stem.len() - 1]);
    assert(stem.contains(stem[stem.len() - 1]));
    assert forall|i: int| dot < i < file.len() implies #[trigger] file[i] != '/' by {
        assert(file[i] == extension[i - dot - 1]);
        assert(extension.contains(extension[i - dot - 1]));
    }
    assert(extract::is_extension_dot(file, dot));
}

/// A text without a slash is never taken for a path, and neither is one whose last part has no
/// extension, unless it starts at the root, at a home directory or at the current one: a name
/// without a dot, and one whose only dot starts it, have none.
pub proof fn words_are_no_paths(directory: Seq<char>, name: Seq<char>)
    requires
        !name.contains('/'),
        forall|i: int| 0 < i < name.len() - 1 ==> #[trigger] name[i] != '.',
        directory.len() > 0,
        directory[0] != '/',
        directory[0] != '~',
        directory[0] != '.' || directory.len() > 1 && directory[1] != '/',
    ensures
        !extract::is_path_shaped(name),
        !extract::is_path_shaped(directory + "/"@ + name),
{
    reveal_strlit("/");
    let whole = directory + "/"@ + name;
    let slash = directory.len() as int;
    assert forall|dot: int| !#[trigger] extract::is_extension_dot(whole, dot) by {
        if extract::is_extension_dot(whole, dot) {
            assert(whole[slash] == '/');
            assert(dot > slash);
            if dot == slash + 1 {
                assert(whole[dot - 1] == '/');
            } else {
                assert(whole[dot] == name[dot - slash - 1]);
            }
        }
    }
    assert(whole[0] == directory[0]);
    if directory.len() > 1 {
        assert(whole[1] == directory[1]);
    }
}

proof fn lemma_digits_stay(start: Seq<char>, digits: Seq<char>)
    requires
        text::all_digits(digits),
    ensures
        openlink::unpunctuated(start + digits) == start + digits,
{
    let whole = start + digits;
    assert(whole.last() == digits[digits.len() - 1]);
    assert(text::is_digit(digits[digits.len() - 1]));
}

/// A click on `path:line` or `path:line:column` points at the path and the line, where the path is
/// no address of a file.
pub proof fn clicked_lines_are_read_back(file: Seq<char>, line: u32, column: u32)
    requires
        extract::is_path_shaped(file),
        !ends_in_line(file),
        !"file://"@.is_prefix_of(file + ":"@ + text::decimal(line as nat)),
        !"file://"@.is_prefix_of(
            file + ":"@ + text::decimal(line as nat) + ":"@ + text::decimal(column as nat),
        ),
    ensures
        openlink::clicked_target(file + ":"@ + text::decimal(line as nat)) == Some(
            (file, Some(line)),
        ),
        openlink::clicked_target(
            file + ":"@ + text::decimal(line as nat) + ":"@ + text::decimal(column as nat),
        ) == Some((file, Some(line))),
{
    written_lines_are_read_back(file, line, column);
    decimals_are_read_back(line as nat);
    decimals_are_read_back(column as nat);
    lemma_digits_stay(file + ":"@, text::decimal(line as nat));
    lemma_digits_stay(
        file + ":"@ + text::decimal(line as nat) + ":"@,
        text::decimal(column as nat),
    );
}

proof fn lemma_zero_in_front(digits: Seq<char>)
    ensures
        text::number(seq!['0'] + digits) == text::number(digits),
    decreases digits.len(),
{
    let longer = seq!['0'] + digits;
    if digits.len() == 0 {
        assert(longer.drop_last() =~= Seq::empty());
        assert(longer.last() == '0');
        assert(text::number(Seq::empty()) == 0);
    } else {
        assert(longer.drop_last() =~= seq!['0'] + digits.drop_last());
        assert(longer.last() == digits.last());
        lemma_zero_in_front(digits.drop_last());
    }
}

/// A zero in front of a number changes nothing. A number that does not fit into 32 bits is none,
/// and neither is a text with anything but digits, or an empty one.
pub proof fn only_numbers_are_read(digits: Seq<char>, value: nat, i: int)
    ensures
        digits.len() > 0 ==> text::digits_value(seq!['0'] + digits) == text::digits_value(digits),
        value > 4_294_967_295 ==> text::digits_value(text::decimal(value)) is None,
        value <= 4_294_967_295 ==> text::digits_value(text::decimal(value)) == Some(value as u32),
        digits.len() == 0 ==> text::digits_value(digits) is None,
        0 <= i < digits.len() && !('0' <= digits[i] <= '9') ==> text::digits_value(digits) is None,
{
    lemma_zero_in_front(digits);
    decimals_are_read_back(value);
    let longer = seq!['0'] + digits;
    if digits.len() > 0 {
        if text::all_digits(digits) {
            assert forall|j: int| 0 <= j < longer.len() implies text::is_digit(
                #[trigger] longer[j],
            ) by {
                if j > 0 {
                    assert(longer[j] == digits[j - 1]);
                }
            }
        } else {
            let j = choose|j: int| 0 <= j < digits.len() && !text::is_digit(#[trigger] digits[j]);
            assert(longer[j + 1] == digits[j]);
        }
    }
    if 0 <= i < digits.len() && !('0' <= digits[i] <= '9') {
        assert(!text::is_digit(digits[i]));
    }
}

} // verus!
