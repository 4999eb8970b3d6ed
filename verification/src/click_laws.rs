//! Which file a click, or another program, has opened in the end.

use vstd::prelude::*;

use crate::bridge;
use crate::context::{CtxView, Environment};
use crate::extract;
use crate::failure::Failure;
use crate::log::{Answer, Call, Entry};
use crate::openlink;
use crate::showing_laws;
use crate::text;
use crate::token_laws;

verus! {

/// The byte that writes a hexadecimal digit, with a small letter or a capital one.
pub open spec fn hex_byte(value: int, capital: bool) -> u8 {
    if value < 10 {
        (48 + value) as u8
    } else if capital {
        (65 + value - 10) as u8
    } else {
        (97 + value - 10) as u8
    }
}

/// An escape stands for the byte that its two digits write, and each other byte for itself: one
/// that is no percent sign, and one that no two digits follow.
pub proof fn escapes_stand_for_bytes(byte: u8, capital: bool, rest: Seq<u8>)
    ensures
        openlink::unescaped(
            seq![37u8, hex_byte(byte as int / 16, capital), hex_byte(byte as int % 16, capital)]
                + rest,
        ) == seq![byte] + openlink::unescaped(rest),
        byte != 37 ==> openlink::unescaped(seq![byte] + rest) == seq![byte]
            + openlink::unescaped(rest),
        rest.len() < 2 ==> openlink::unescaped(seq![37u8] + rest) == seq![37u8]
            + openlink::unescaped(rest),
        rest.len() > 0 && !(48 <= rest[0] <= 57) && !(65 <= rest[0] <= 70) && !(97 <= rest[0]
            <= 102) ==> openlink::unescaped(seq![37u8] + rest) == seq![37u8]
            + openlink::unescaped(rest),
        rest.len() > 1 && !(48 <= rest[1] <= 57) && !(65 <= rest[1] <= 70) && !(97 <= rest[1]
            <= 102) ==> openlink::unescaped(seq![37u8] + rest) == seq![37u8]
            + openlink::unescaped(rest),
        openlink::unescaped(Seq::empty()) == Seq::<u8>::empty(),
{
    let first = hex_byte(byte as int / 16, capital);
    let second = hex_byte(byte as int % 16, capital);
    let whole = seq![37u8, first, second] + rest;
    assert(whole[0] == 37 && whole[1] == first && whole[2] == second);
    assert(openlink::hex_pair(first, second) == Some(byte));
    assert(whole.skip(3) =~= rest);
    let plain = seq![byte] + rest;
    assert(plain.skip(1) =~= rest);
    let bare = seq![37u8] + rest;
    assert(bare.skip(1) =~= rest);
}

/// Bytes with an escape in the place of each.
pub open spec fn escaped(bytes: Seq<u8>, capital: bool) -> Seq<u8>
    decreases bytes.len(),
{
    if bytes.len() == 0 {
        Seq::empty()
    } else {
        seq![
            37u8,
            hex_byte(bytes[0] as int / 16, capital),
            hex_byte(bytes[0] as int % 16, capital),
        ] + escaped(bytes.skip(1), capital)
    }
}

/// Decoding undoes escaping, for every run of bytes.
pub proof fn decoding_undoes_escaping(bytes: Seq<u8>, capital: bool)
    ensures
        openlink::unescaped(escaped(bytes, capital)) == bytes,
    decreases bytes.len(),
{
    if bytes.len() > 0 {
        escapes_stand_for_bytes(bytes[0], capital, escaped(bytes.skip(1), capital));
        decoding_undoes_escaping(bytes.skip(1), capital);
        assert(seq![bytes[0]] + bytes.skip(1) =~= bytes);
    } else {
        escapes_stand_for_bytes(0, capital, Seq::empty());
        assert(openlink::unescaped(Seq::empty()) =~= bytes);
    }
}

/// A text with escapes is decoded to the text whose UTF-8 is what the escapes stand for, where they
/// stand for UTF-8.
pub proof fn decoded_text_is_what_is_meant(text: Seq<char>, meant: Seq<char>)
    requires
        openlink::unescaped(vstd::utf8::encode_utf8(text)) == vstd::utf8::encode_utf8(meant),
    ensures
        openlink::percent_decoded(text) == meant,
{
    vstd::utf8::encode_utf8_valid_utf8(meant);
    vstd::utf8::encode_utf8_decode_utf8(meant);
}

/// A path from the root leads to itself, whatever directory it is seen from. A path that starts
/// neither at the root nor with a tilde leads below the directory, with one slash between them.
pub proof fn paths_lead_below_the_directory(
    file: Seq<char>,
    cwd: Seq<char>,
    home: Option<Seq<char>>,
)
    requires
        file.len() > 0,
    ensures
        file[0] == '/' ==> extract::resolved(file, cwd, home) == file,
        file[0] != '/' && file[0] != '~' && cwd.len() > 0 && cwd.last() != '/'
            ==> extract::resolved(file, cwd, home) == cwd + "/"@ + file,
        file[0] != '/' && file[0] != '~' && cwd.len() > 0 && cwd.last() == '/'
            ==> extract::resolved(file, cwd, home) == cwd + file,
{
    reveal_strlit("/");
    assert("/"@ =~= seq!['/']);
}

/// A tilde alone leads to the home directory, and a path behind a tilde and a slash leads below it,
/// where it is known. A tilde with anything else behind it, and every tilde where no home directory
/// is known, is left as it is.
pub proof fn tildes_lead_home(rest: Seq<char>, cwd: Seq<char>, home: Seq<char>)
    ensures
        extract::resolved("~"@, cwd, Some(home)) == home,
        rest.len() > 0 && rest[0] != '/' && home.len() > 0 && home.last() != '/'
            ==> extract::resolved("~/"@ + rest, cwd, Some(home)) == home + "/"@ + rest,
        rest.len() > 0 && rest[0] != '/' ==> extract::resolved("~"@ + rest, cwd, Some(home)) == "~"@
            + rest,
        extract::resolved("~"@ + rest, cwd, None) == "~"@ + rest,
{
    reveal_strlit("~");
    reveal_strlit("~/");
    reveal_strlit("/");
    assert("/"@ =~= seq!['/']);
    assert(("~/"@ + rest).skip(2) =~= rest);
    assert(("~/"@ + rest)[1] == '/');
    assert(("~"@ + rest)[0] == '~');
    if rest.len() > 0 {
        assert(("~"@ + rest)[1] == rest[0]);
    }
}

/// Whether an exchange finds that this is a file.
pub open spec fn sees_file(entry: Entry, file: Seq<char>) -> bool {
    entry.call == (Call::IsFile { path: file }) && entry.answer == Answer::Flag(true)
}

/// A file is found where it is: from the directory that the click came from if it is there, and
/// only else, for a path that starts neither at the root nor with a tilde, from the root of the git
/// worktree of that directory. What is found was seen to be a file, and nothing is found only where
/// every place was looked at and no file was there.
pub proof fn files_are_found_where_they_are(
    file: Seq<char>,
    cwd: Seq<char>,
    home: Option<Seq<char>>,
    talk: Seq<Entry>,
    found: Option<Seq<char>>,
)
    requires
        openlink::click_ran(file, cwd, home, talk, found),
    ensures
        1 <= talk.len() <= 3,
        talk[0].call == (Call::IsFile { path: extract::resolved(file, cwd, home) }),
        talk[0].answer == Answer::Flag(true) ==> found == Some(
            extract::resolved(file, cwd, home),
        ) && talk.len() == 1,
        talk.len() > 1 ==> {
            &&& talk[0].answer == Answer::Flag(false)
            &&& file.len() == 0 || file[0] != '/' && file[0] != '~'
            &&& talk[1].call == (Call::GitToplevel { cwd })
            &&& talk[1].answer is FoundText
        },
        talk.len() > 2 ==> {
            &&& talk[1].answer->FoundText_0 is Some
            &&& talk[2].call == (Call::IsFile {
                path: extract::resolved(file, talk[1].answer->FoundText_0->0@, home),
            })
            &&& talk[2].answer is Flag
        },
        found is Some ==> sees_file(talk.last(), found->0),
        found is None ==> {
            &&& forall|i: int|
                0 <= i < talk.len() && (#[trigger] talk[i]).call is IsFile ==> talk[i].answer
                    == Answer::Flag(false)
            &&& file.len() > 0 && file[0] != '/' && file[0] != '~' ==> {
                ||| talk.len() == 3
                ||| talk.len() == 2 && talk[1].answer->FoundText_0 is None
            }
        },
{
    if talk[0].answer == Answer::Flag(false) && talk.len() > 1 {
        let rest = talk.skip(1);
        assert(rest[0] == talk[1]);
        if rest.len() > 1 {
            assert(rest[1] == talk[2]);
        }
    }
}

/// Where the environment tells of a click.
pub open spec fn tells_click(environment: Environment) -> bool {
    &&& environment.clicked_url is Ok
    &&& environment.pane is Ok
    &&& environment.workspace is Ok
    &&& environment.tab is Ok
}

/// A click is followed to the file that it points at. Where the editor is run at all and all goes
/// well, the clicked text names a path and a line, the file that is opened was seen to be a file,
/// from the directory of the clicked pane or from the root of its worktree, and it is opened in the
/// tab of the click, at the line that the text names or at none.
pub proof fn clicked_file_is_opened(environment: Environment, talk: Seq<Entry>, ran: int) -> (
    places: (int, int))
    requires
        openlink::link_ran(environment, talk, Ok::<(), Failure>(())),
        0 <= ran < talk.len(),
        talk[ran].call is Nvim,
    ensures
        tells_click(environment),
        openlink::clicked_target(environment.clicked_url->Ok_0@) is Some,
        ({
            let target = openlink::clicked_target(environment.clicked_url->Ok_0@)->0;
            let cwd = talk[0].answer->Text_0@;
            let home = text::text_of(environment.home);
            let ctx = CtxView {
                workspace: environment.workspace->Ok_0@,
                tab: environment.tab->Ok_0@,
                focused_pane: environment.pane->Ok_0@,
                cwd,
            };
            let file = talk[places.0].call->IsFile_path;
            &&& talk[0].call == (Call::PaneCwd { pane: environment.pane->Ok_0@ })
            &&& talk[0].answer is Text
            &&& 0 < places.0 < talk.len()
            &&& sees_file(talk[places.0], file)
            &&& file == extract::resolved(target.0, cwd, home) || exists|i: int|
                0 < i < places.0 && (#[trigger] talk[i]).call == (Call::GitToplevel { cwd })
                    && talk[i].answer is FoundText && talk[i].answer->FoundText_0 is Some && file
                    == extract::resolved(target.0, talk[i].answer->FoundText_0->0@, home)
            &&& showing_laws::shows_file(
                ctx,
                file,
                target.1,
                talk.skip(places.0 + 1),
                places.1,
            )
        }),
{
    let click = openlink::click_told(environment)->0;
    let target = openlink::clicked_target(click.clicked_url)->0;
    let home = text::text_of(environment.home);
    let cwd = talk[0].answer->Text_0@;
    let ctx = CtxView {
        workspace: click.workspace,
        tab: click.tab,
        focused_pane: click.pane,
        cwd,
    };
    let rest = talk.skip(1);
    let (length, found) = choose|length: int, found: Option<Seq<char>>|
        {
            &&& #[trigger] openlink::searched_in(target.0, ctx.cwd, home, rest, length, found)
            &&& match found {
                None => length == rest.len() && Ok::<(), Failure>(()) is Ok,
                Some(file) => bridge::show_ran(
                    ctx,
                    file,
                    target.1,
                    rest.skip(length),
                    Ok::<(), Failure>(()),
                ),
            }
        };
    let search = rest.take(length);
    files_are_found_where_they_are(target.0, cwd, home, search, found);
    assert(rest[ran - 1] == talk[ran]);
    if found is None {
        assert(search[ran - 1] == talk[ran]);
        assert(ran - 1 == 0 || ran - 1 == 1 || ran - 1 == 2);
    }
    let file = found->0;
    let shown = rest.skip(length);
    assert(search.last() == talk[length]);
    assert(shown =~= talk.skip(length + 1));
    let at = showing_laws::file_is_shown(ctx, file, target.1, shown);
    if length == 3 {
        assert(search[1] == talk[2]);
    }
    (length, at)
}

/// A click that the environment does not tell of in full, and one whose text names no path, does
/// nothing and is no failure.
pub proof fn misclicks_do_nothing(
    environment: Environment,
    talk: Seq<Entry>,
    outcome: Result<(), Failure>,
)
    requires
        openlink::link_ran(environment, talk, outcome),
        !tells_click(environment) || openlink::clicked_target(
            environment.clicked_url->Ok_0@,
        ) is None,
    ensures
        talk.len() == 0,
        outcome is Ok,
{
}

/// A click on a file that is there opens it: where the search sees a file and the click succeeds,
/// the editor is run, and no other file is looked for.
pub proof fn clicks_on_files_open_them(environment: Environment, talk: Seq<Entry>, seen: int) -> (
    ran: int)
    requires
        openlink::link_ran(environment, talk, Ok::<(), Failure>(())),
        0 <= seen < talk.len(),
        talk[seen].call is IsFile,
        talk[seen].answer == Answer::Flag(true),
    ensures
        seen < ran < talk.len(),
        talk[ran].call is Nvim,
        talk[ran].call->Nvim_args[3] == talk[seen].call->IsFile_path,
        forall|i: int| seen < i < talk.len() ==> !((#[trigger] talk[i]).call is IsFile),
{
    let click = openlink::click_told(environment)->0;
    let target = openlink::clicked_target(click.clicked_url)->0;
    let home = text::text_of(environment.home);
    let cwd = talk[0].answer->Text_0@;
    let ctx = CtxView {
        workspace: click.workspace,
        tab: click.tab,
        focused_pane: click.pane,
        cwd,
    };
    let ok = Ok::<(), Failure>(());
    let rest = talk.skip(1);
    let (length, found) = choose|length: int, found: Option<Seq<char>>|
        {
            &&& #[trigger] openlink::searched_in(target.0, ctx.cwd, home, rest, length, found)
            &&& match found {
                None => length == rest.len() && ok is Ok,
                Some(file) => bridge::show_ran(ctx, file, target.1, rest.skip(length), ok),
            }
        };
    let search = rest.take(length);
    lemma_search_ends(target.0, cwd, home, search, found);
    assert forall|i: int| 0 <= i < length implies search[i] == #[trigger] talk[i + 1] by {}
    if found is None {
        assert(search[seen - 1] == talk[seen]);
    }
    let file = found->0;
    let shown = rest.skip(length);
    assert forall|i: int| length < i < talk.len() implies !((#[trigger] talk[i]).call
        is IsFile) by {
        assert(shown[i - length - 1] == talk[i]);
        showing_laws::nothing_else_is_shown(ctx, file, target.1, shown, ok, i - length - 1);
    }
    if seen < length {
        assert(search[seen - 1] == talk[seen]);
    }
    assert(search.last() == talk[length]);
    let at = showing_laws::file_is_shown(ctx, file, target.1, shown);
    assert(shown[at] == talk[length + 1 + at]);
    length + 1 + at
}

/// A search ends with the first file that it sees.
proof fn lemma_search_ends(
    path: Seq<char>,
    cwd: Seq<char>,
    home: Option<Seq<char>>,
    talk: Seq<Entry>,
    found: Option<Seq<char>>,
)
    requires
        openlink::click_ran(path, cwd, home, talk, found),
    ensures
        0 < talk.len() <= 3,
        forall|i: int|
            0 <= i < talk.len() ==> (#[trigger] talk[i]).call is IsFile || talk[i].call
                is GitToplevel,
        forall|i: int|
            0 <= i < talk.len() - 1 ==> (#[trigger] talk[i]).answer != Answer::Flag(true),
        found is None ==> talk.last().answer != Answer::Flag(true),
        found matches Some(file) ==> talk.last() == (Entry {
            call: Call::IsFile { path: file },
            answer: Answer::Flag(true),
        }),
{
    let rest = talk.skip(1);
    if talk.len() > 1 {
        assert(rest[0] == talk[1]);
    }
    if talk.len() > 2 {
        assert(rest[1] == talk[2]);
    }
}

/// A click whose search sees no file is no failure, and only the directory of the pane, files and
/// git are asked for.
pub proof fn clicks_on_no_file_do_nothing(
    environment: Environment,
    talk: Seq<Entry>,
    outcome: Result<(), Failure>,
    i: int,
)
    requires
        openlink::link_ran(environment, talk, outcome),
        talk.len() > 0 ==> talk[0].answer is Text,
        forall|i: int| 0 <= i < talk.len() ==> (#[trigger] talk[i]).answer != Answer::Flag(true),
    ensures
        outcome is Ok,
        talk.len() <= 4,
        0 <= i < talk.len() ==> talk[i].call is PaneCwd || talk[i].call is IsFile || talk[i].call
            is GitToplevel,
{
    if talk.len() > 0 {
        let click = openlink::click_told(environment)->0;
        let target = openlink::clicked_target(click.clicked_url)->0;
        let home = text::text_of(environment.home);
        let cwd = talk[0].answer->Text_0@;
        let ctx = CtxView {
            workspace: click.workspace,
            tab: click.tab,
            focused_pane: click.pane,
            cwd,
        };
        let rest = talk.skip(1);
        let (length, found) = choose|length: int, found: Option<Seq<char>>|
            {
                &&& #[trigger] openlink::searched_in(target.0, ctx.cwd, home, rest, length, found)
                &&& match found {
                    None => length == rest.len() && outcome is Ok,
                    Some(file) => bridge::show_ran(
                        ctx,
                        file,
                        target.1,
                        rest.skip(length),
                        outcome,
                    ),
                }
            };
        let search = rest.take(length);
        lemma_search_ends(target.0, cwd, home, search, found);
        assert(search.last() == talk[length]);
        if 0 < i < talk.len() {
            assert(search[i - 1] == talk[i]);
        }
    }
}

/// The number that an argument writes in decimal is the one that is read, with a plus sign before
/// it or without. An argument in which anything but digits stands behind such a sign writes none,
/// and neither does an empty one.
pub proof fn written_arguments_are_read_back(line: u32, argument: Seq<char>, i: int)
    ensures
        openlink::argument_value(text::decimal(line as nat)) == Some(line),
        openlink::argument_value("+"@ + text::decimal(line as nat)) == Some(line),
        argument.len() == 0 ==> openlink::argument_value(argument) is None,
        0 < i < argument.len() && !('0' <= argument[i] <= '9') ==> openlink::argument_value(
            argument,
        ) is None,
        argument.len() > 0 && argument[0] != '+' && !('0' <= argument[0] <= '9')
            ==> openlink::argument_value(argument) is None,
{
    reveal_strlit("+");
    token_laws::decimals_are_read_back(line as nat);
    let digits = text::decimal(line as nat);
    assert(text::is_digit(digits[0]));
    assert(("+"@ + digits).skip(1) =~= digits);
    if 0 < i < argument.len() && !('0' <= argument[i] <= '9') {
        assert(argument.skip(1)[i - 1] == argument[i]);
        assert(!text::is_digit(argument[i]));
    }
    if argument.len() > 0 && argument[0] != '+' && !('0' <= argument[0] <= '9') {
        assert(!text::is_digit(argument[0]));
    }
}

/// The file that another program names is the one that is opened. Where the file command succeeds,
/// the path behind its name was seen to be a file, and exactly that file is opened in the tab of
/// the environment, in the directory of its pane, at the line that the next argument writes or at
/// none where there is no such argument.
pub proof fn named_file_is_opened(
    args: Seq<Seq<char>>,
    environment: Environment,
    talk: Seq<Entry>,
) -> (at: int)
    requires
        openlink::file_ran(args, environment, talk, Ok::<(), Failure>(())),
    ensures
        args.len() > 2,
        environment.pane is Ok,
        environment.workspace is Ok,
        environment.tab is Ok,
        talk.len() > 2,
        sees_file(talk[0], args[2]),
        talk[1].call == (Call::PaneCwd { pane: environment.pane->Ok_0@ }),
        talk[1].answer is Text,
        args.len() > 3 ==> openlink::argument_value(args[3]) is Some,
        showing_laws::shows_file(
            CtxView {
                workspace: environment.workspace->Ok_0@,
                tab: environment.tab->Ok_0@,
                focused_pane: environment.pane->Ok_0@,
                cwd: talk[1].answer->Text_0@,
            },
            args[2],
            if args.len() > 3 {
                openlink::argument_value(args[3])
            } else {
                None
            },
            talk.skip(2),
            at,
        ),
{
    let rest = talk.skip(1);
    assert(rest[0] == talk[1]);
    assert(rest.skip(1) =~= talk.skip(2));
    let ctx = CtxView {
        workspace: environment.workspace->Ok_0@,
        tab: environment.tab->Ok_0@,
        focused_pane: environment.pane->Ok_0@,
        cwd: talk[1].answer->Text_0@,
    };
    let line = if args.len() > 3 {
        openlink::argument_value(args[3])
    } else {
        None
    };
    showing_laws::file_is_shown(ctx, args[2], line, talk.skip(2))
}

} // verus!
