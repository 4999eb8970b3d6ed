//! Opening the file that a link or another program points at.
//!
//! herdr turns text that looks like a path, and `file://` addresses, into links. A click on one
//! comes here: the clicked text is taken apart, the file looked for where the clicked pane works
//! and then at the root of its git worktree, and opened in the sidebar. A click that leads nowhere
//! does nothing. Another program that already has a path can have it opened too; for it a bad
//! argument is a failure.

use vstd::prelude::*;
use vstd::string::StrSliceExecFns;

use crate::address_laws;
use crate::bridge::{self, open_in_sidebar};
use crate::context::{self, required, Ctx, CtxView, Environment};
use crate::extract::{self, parse_token, resolve};
use crate::failure::{self, Failure};
use crate::host::Host;
use crate::log::{self, Answer, Call, Entry};
use crate::path::{self, find_slash, starts_with};
use crate::text::{self, read_digits, same};
use crate::utf8::{self, lossy};

verus! {

/// `text` without the full stops and commas at its end.
pub open spec fn unpunctuated(text: Seq<char>) -> Seq<char> {
    text::trimmed_end(text, |c: char| c == '.' || c == ',')
}

/// Cut off the full stops and commas that prose leaves at the end of a path.
pub fn strip_trailing_punct<'a>(text: &'a str) -> (cut: &'a str)
    ensures
        cut@ == unpunctuated(text@),
{
    let ghost punct = |c: char| c == '.' || c == ',';
    let mut end: usize = text.unicode_len();
    assert(text@.take(end as int) =~= text@);
    while end > 0 && (text.get_char(end - 1) == '.' || text.get_char(end - 1) == ',')
        invariant
            punct == (|c: char| c == '.' || c == ','),
            end <= text@.len(),
            unpunctuated(text@) == text::trimmed_end(text@.take(end as int), punct),
        decreases end,
    {
        assert(text@.take(end as int).drop_last() =~= text@.take(end - 1));
        end = end - 1;
    }
    assert(text@.subrange(0, end as int) =~= text@.take(end as int));
    text.substring_char(0, end)
}

/// The value of a hexadecimal digit.
pub open spec fn hex_digit(byte: u8) -> Option<u8> {
    if 48 <= byte <= 57 {
        Some((byte - 48) as u8)
    } else if 65 <= byte <= 70 {
        Some((byte - 55) as u8)
    } else if 97 <= byte <= 102 {
        Some((byte - 87) as u8)
    } else {
        None
    }
}

/// The number that two hexadecimal digits write.
pub open spec fn hex_pair(first: u8, second: u8) -> Option<u8> {
    match (hex_digit(first), hex_digit(second)) {
        (Some(high), Some(low)) => Some((high * 16 + low) as u8),
        _ => None,
    }
}

/// Bytes with each `%XX` in place of the byte that it stands for.
pub open spec fn unescaped(bytes: Seq<u8>) -> Seq<u8>
    decreases bytes.len(),
{
    if bytes.len() == 0 {
        Seq::empty()
    } else {
        match (bytes.len() >= 3 && bytes[0] == 37, hex_pair(bytes[1], bytes[2])) {
            (true, Some(byte)) => seq![byte] + unescaped(bytes.skip(3)),
            _ => seq![bytes[0]] + unescaped(bytes.skip(1)),
        }
    }
}

/// Whether an escape starts at this place.
pub open spec fn escape_at(bytes: Seq<u8>, i: int) -> bool {
    &&& 0 <= i
    &&& i + 2 < bytes.len()
    &&& bytes[i] == 37
    &&& hex_pair(bytes[i + 1], bytes[i + 2]) is Some
}

/// Whether a character is a hexadecimal digit.
pub open spec fn is_hex(c: char) -> bool {
    '0' <= c <= '9' || 'A' <= c <= 'F' || 'a' <= c <= 'f'
}

/// Whether a percent sign and two hexadecimal digits stand at this place of a text.
pub open spec fn escape_in(text: Seq<char>, i: int) -> bool {
    &&& 0 <= i
    &&& i + 2 < text.len()
    &&& text[i] == '%'
    &&& is_hex(text[i + 1])
    &&& is_hex(text[i + 2])
}

/// Whether a text has an escape.
pub open spec fn has_escape(text: Seq<char>) -> bool {
    exists|i: int| escape_in(text, i)
}

/// The bytes that a text with escapes stands for.
pub open spec fn bytes_meant(text: Seq<char>) -> Seq<u8> {
    unescaped(vstd::utf8::encode_utf8(text))
}

/// A text with its escapes decoded. Where the bytes that it stands for are not UTF-8, something
/// takes the place of those that are not.
pub open spec fn percent_decoded(text: Seq<char>) -> Seq<char> {
    if vstd::utf8::valid_utf8(bytes_meant(text)) {
        vstd::utf8::decode_utf8(bytes_meant(text))
    } else {
        utf8::lossy_text(bytes_meant(text))
    }
}

fn hex_value(byte: u8) -> (value: Option<u8>)
    ensures
        value == hex_digit(byte),
{
    if 48 <= byte && byte <= 57 {
        Some(byte - 48)
    } else if 65 <= byte && byte <= 70 {
        Some(byte - 55)
    } else if 97 <= byte && byte <= 102 {
        Some(byte - 87)
    } else {
        None
    }
}

fn read_pair(first: u8, second: u8) -> (value: Option<u8>)
    ensures
        value == hex_pair(first, second),
{
    match (hex_value(first), hex_value(second)) {
        (Some(high), Some(low)) => Some(high * 16 + low),
        _ => None,
    }
}

fn unescape(bytes: &[u8]) -> (decoded: Vec<u8>)
    ensures
        decoded@ == unescaped(bytes@),
{
    let mut decoded: Vec<u8> = Vec::new();
    let mut i: usize = 0;
    assert(bytes@.skip(0) =~= bytes@);
    assert(decoded@ + unescaped(bytes@) =~= unescaped(bytes@));
    while i < bytes.len()
        invariant
            i <= bytes@.len(),
            decoded@ + unescaped(bytes@.skip(i as int)) == unescaped(bytes@),
        decreases bytes@.len() - i,
    {
        let ghost rest = bytes@.skip(i as int);
        let ghost before = decoded@;
        if bytes[i] == 37 && bytes.len() - i >= 3 {
            assert(rest[1] == bytes@[i + 1] && rest[2] == bytes@[i + 2]);
            if let Some(byte) = read_pair(bytes[i + 1], bytes[i + 2]) {
                decoded.push(byte);
                assert(rest.skip(3) =~= bytes@.skip(i + 3));
                assert(decoded@ + unescaped(bytes@.skip(i + 3)) =~= before + (seq![byte]
                    + unescaped(rest.skip(3))));
                i = i + 3;
                continue;
            }
        }
        decoded.push(bytes[i]);
        assert(rest.skip(1) =~= bytes@.skip(i + 1));
        assert(decoded@ + unescaped(bytes@.skip(i + 1)) =~= before + (seq![rest[0]] + unescaped(
            rest.skip(1),
        )));
        i = i + 1;
    }
    assert(decoded@ + unescaped(bytes@.skip(i as int)) =~= decoded@);
    decoded
}

/// Decode the `%XX` escapes of a text.
pub fn percent_decode(text: &str) -> (decoded: String)
    ensures
        decoded@ == percent_decoded(text@),
        !has_escape(text@) ==> decoded@ == text@,
{
    let bytes: Vec<u8> = unescape(text.as_bytes());
    proof {
        if !has_escape(text@) {
            text_without_escapes_is_kept(text@);
        }
    }
    lossy(bytes.as_slice())
}

/// A text in which no percent sign stands before two hexadecimal digits comes back as it is.
pub proof fn text_without_escapes_is_kept(text: Seq<char>)
    requires
        !has_escape(text),
    ensures
        percent_decoded(text) == text,
{
    assert forall|i: int| !#[trigger] escape_at(vstd::utf8::encode_utf8(text), i) by {
        if escape_at(vstd::utf8::encode_utf8(text), i) {
            let place = lemma_escapes_are_ascii(text, i);
            assert(escape_in(text, place));
        }
    }
    lemma_nothing_to_unescape(vstd::utf8::encode_utf8(text));
    vstd::utf8::encode_utf8_valid_utf8(text);
    vstd::utf8::encode_utf8_decode_utf8(text);
}

proof fn lemma_nothing_to_unescape(bytes: Seq<u8>)
    requires
        forall|i: int| !#[trigger] escape_at(bytes, i),
    ensures
        unescaped(bytes) == bytes,
    decreases bytes.len(),
{
    if bytes.len() > 0 {
        assert(!escape_at(bytes, 0));
        assert forall|i: int| !#[trigger] escape_at(bytes.skip(1), i) by {
            assert(!escape_at(bytes, i + 1));
        }
        lemma_nothing_to_unescape(bytes.skip(1));
        assert(seq![bytes[0]] + bytes.skip(1) =~= bytes);
    }
}

/// A byte of an ASCII character is that character alone.
proof fn lemma_scalar_bytes(scalar: u32, i: int)
    requires
        0 <= i < vstd::utf8::encode_scalar(scalar).len(),
        vstd::utf8::encode_scalar(scalar)[i] < 0x80,
    ensures
        vstd::utf8::encode_scalar(scalar) == seq![scalar as u8],
        scalar < 0x80,
{
    assert(scalar <= 0x7f ==> (scalar & 0x7f) as u8 == scalar as u8) by (bit_vector);
    assert((0x80u8 | (scalar & 0x3f) as u8) >= 0x80u8) by (bit_vector);
    assert((0x80u8 | ((scalar >> 6) & 0x3f) as u8) >= 0x80u8) by (bit_vector);
    assert((0x80u8 | ((scalar >> 12) & 0x3f) as u8) >= 0x80u8) by (bit_vector);
    assert((0xc0u8 | ((scalar >> 6) & 0x1f) as u8) >= 0x80u8) by (bit_vector);
    assert((0xe0u8 | ((scalar >> 12) & 0x0f) as u8) >= 0x80u8) by (bit_vector);
    assert((0xf0u8 | ((scalar >> 18) & 0x07) as u8) >= 0x80u8) by (bit_vector);
}

/// Where the encoding of a text starts with a byte of an ASCII character, the text starts with that
/// character.
proof fn lemma_first_byte(text: Seq<char>)
    requires
        vstd::utf8::encode_utf8(text).len() > 0,
        vstd::utf8::encode_utf8(text)[0] < 0x80,
    ensures
        text.len() > 0,
        text[0] as u32 == vstd::utf8::encode_utf8(text)[0],
        vstd::utf8::encode_utf8(text).skip(1) == vstd::utf8::encode_utf8(text.drop_first()),
{
    let first = text[0] as u32;
    let head = vstd::utf8::encode_scalar(first);
    assert(vstd::utf8::encode_utf8(text)[0] == head[0]);
    lemma_scalar_bytes(first, 0);
    assert(vstd::utf8::encode_utf8(text).skip(1) =~= vstd::utf8::encode_utf8(text.drop_first()));
}

proof fn lemma_byte_of_char(c: char, byte: u8)
    requires
        c as u32 == byte,
    ensures
        byte == 37 ==> c == '%',
        hex_digit(byte) is Some ==> is_hex(c),
{
    assert(c as int == c as u32);
    assert('%' as int == 37);
}

/// An escape of the encoded text is one of the text.
proof fn lemma_escapes_are_ascii(text: Seq<char>, i: int) -> (place: int)
    requires
        escape_at(vstd::utf8::encode_utf8(text), i),
    ensures
        escape_in(text, place),
    decreases text.len(),
{
    let bytes = vstd::utf8::encode_utf8(text);
    let first = text[0] as u32;
    let rest = text.drop_first();
    let head = vstd::utf8::encode_scalar(first);
    let tail = vstd::utf8::encode_utf8(rest);
    if i < head.len() {
        assert(bytes[i] == head[i]);
        lemma_scalar_bytes(first, i);
        assert(tail[0] == bytes[1] && tail[1] == bytes[2]);
        lemma_first_byte(rest);
        assert(tail.skip(1)[0] == tail[1]);
        lemma_first_byte(rest.drop_first());
        assert(text[1] == rest[0]);
        assert(text[2] == rest.drop_first()[0]);
        lemma_byte_of_char(text[0], bytes[0]);
        lemma_byte_of_char(text[1], bytes[1]);
        lemma_byte_of_char(text[2], bytes[2]);
        0
    } else {
        let later = i - head.len();
        assert(tail[later] == bytes[i]);
        assert(tail[later + 1] == bytes[i + 1]);
        assert(tail[later + 2] == bytes[i + 2]);
        let place = lemma_escapes_are_ascii(rest, later);
        assert(text[place + 1] == rest[place]);
        assert(text[place + 2] == rest[place + 1]);
        assert(text[place + 3] == rest[place + 2]);
        place + 1
    }
}

/// How the address of a file starts.
pub const FILE_SCHEME: &'static str = "file://";

/// The path of a `file://` address, behind the name of a host where it has one.
pub open spec fn url_path(clicked: Seq<char>) -> Option<Seq<char>> {
    let scheme = FILE_SCHEME@;
    if scheme.is_prefix_of(clicked) {
        let rest = clicked.skip(scheme.len() as int);
        match path::first_slash(rest) {
            Some(slash) => Some(rest.skip(slash)),
            None => None,
        }
    } else {
        None
    }
}

/// The decoded path of a `file://` address. Any other text has none.
pub open spec fn stripped(clicked: Seq<char>) -> Option<Seq<char>> {
    match url_path(clicked) {
        Some(path) => Some(percent_decoded(path)),
        None => None,
    }
}

/// The text that a clicked text stands for.
pub open spec fn clicked_text(clicked: Seq<char>) -> Seq<char> {
    match stripped(clicked) {
        Some(path) => path,
        None => clicked,
    }
}

fn find_url_path<'a>(clicked: &'a str) -> (path: Option<&'a str>)
    ensures
        match path {
            Some(path) => url_path(clicked@) == Some(path@),
            None => url_path(clicked@) is None,
        },
{
    let scheme: usize = FILE_SCHEME.unicode_len();
    let length: usize = clicked.unicode_len();
    if length < scheme {
        return None;
    }
    let start: &str = clicked.substring_char(0, scheme);
    if !same(start, FILE_SCHEME) {
        assert(!FILE_SCHEME@.is_prefix_of(clicked@));
        return None;
    }
    assert(FILE_SCHEME@.is_prefix_of(clicked@));
    let rest: &'a str = clicked.substring_char(scheme, length);
    assert(rest@ =~= clicked@.skip(scheme as int));
    match find_slash(rest) {
        Some(slash) => {
            assert(rest@.subrange(slash as int, rest@.len() as int) =~= rest@.skip(slash as int));
            Some(rest.substring_char(slash, rest.unicode_len()))
        },
        None => None,
    }
}

/// Take the path out of a `file://` address and decode it. Any other text gives nothing.
pub fn strip_file_url(clicked: &str) -> (path: Option<String>)
    ensures
        text::text_of(path) == stripped(clicked@),
        url_path(clicked@) matches Some(file) ==> (!has_escape(file) ==> text::text_of(path)
            == Some(file)),
{
    match find_url_path(clicked) {
        Some(path) => Some(percent_decode(path)),
        None => None,
    }
}

/// The path and the line that a text points at.
pub open spec fn target_in(text: Seq<char>) -> Option<(Seq<char>, Option<u32>)> {
    extract::token_in(unpunctuated(text))
}

/// A path and a line, as characters.
pub open spec fn target_of(target: Option<(String, Option<u32>)>) -> Option<
    (Seq<char>, Option<u32>),
> {
    match target {
        Some((path, line)) => Some((path@, line)),
        None => None,
    }
}

/// Take the path and the line out of a text that points at a file.
pub fn parse_target(text: &str) -> (target: Option<(String, Option<u32>)>)
    ensures
        target_of(target) == target_in(text@),
        target matches Some((path, _)) ==> path@.contains('/'),
{
    match parse_token(strip_trailing_punct(text)) {
        Some((path, line)) => Some((path.to_owned(), line)),
        None => None,
    }
}

/// The path and the line that a clicked text points at. Punctuation at the end is none of them,
/// neither before an address is decoded nor after.
pub open spec fn clicked_target(clicked: Seq<char>) -> Option<(Seq<char>, Option<u32>)> {
    target_in(clicked_text(unpunctuated(clicked)))
}

/// Whether a clicked text is no address of a file, or one whose path stands for UTF-8.
pub open spec fn is_readable(clicked: Seq<char>) -> bool {
    url_path(clicked) matches Some(path) ==> vstd::utf8::valid_utf8(bytes_meant(path))
}

/// Take the path and the line out of a clicked text, which is a `path[:line[:column]]` or a
/// `file://` address. A text that does not look like a path gives nothing.
pub fn parse_clicked(clicked: &str) -> (target: Option<(String, Option<u32>)>)
    ensures
        target_of(target) == clicked_target(clicked@),
        is_readable(clicked@) ==> target_of(target) == target_in(clicked_text(clicked@)),
        target matches Some((path, _)) ==> path@.contains('/'),
{
    proof {
        if is_readable(clicked@) {
            address_laws::punctuation_may_go_first(clicked@);
        }
    }
    let cut: &str = strip_trailing_punct(clicked);
    match strip_file_url(cut) {
        Some(path) => parse_target(path.as_str()),
        None => parse_target(cut),
    }
}

/// The conversation of a search for the file that a path leads to, from a directory and, for a
/// path that does not start at the root or a home directory, from the root of its git worktree.
pub open spec fn click_ran(
    path: Seq<char>,
    cwd: Seq<char>,
    home: Option<Seq<char>>,
    talk: Seq<Entry>,
    found: Option<Seq<char>>,
) -> bool {
    let direct = extract::resolved(path, cwd, home);
    &&& log::asks(talk, Call::IsFile { path: direct })
    &&& match talk[0].answer {
        Answer::Flag(true) => talk.len() == 1 && found == Some(direct),
        Answer::Flag(false) => if path.len() > 0 && (path[0] == '/' || path[0] == '~') {
            talk.len() == 1 && found is None
        } else {
            worktree_ran(path, cwd, home, talk.skip(1), found)
        },
        _ => false,
    }
}

/// The conversation of a search from the root of a git worktree.
pub open spec fn worktree_ran(
    path: Seq<char>,
    cwd: Seq<char>,
    home: Option<Seq<char>>,
    talk: Seq<Entry>,
    found: Option<Seq<char>>,
) -> bool {
    &&& log::asks(talk, Call::GitToplevel { cwd })
    &&& match talk[0].answer {
        Answer::FoundText(None) => talk.len() == 1 && found is None,
        Answer::FoundText(Some(toplevel)) => {
            let place = extract::resolved(path, toplevel@, home);
            &&& talk.len() == 2
            &&& talk[1].call == (Call::IsFile { path: place })
            &&& match talk[1].answer {
                Answer::Flag(true) => found == Some(place),
                Answer::Flag(false) => found is None,
                _ => false,
            }
        },
        _ => false,
    }
}

/// Find the file that a clicked path leads to.
pub fn resolve_click<H: Host>(h: &mut H, path: &str, cwd: &str, home: &Option<String>) -> (found:
    Option<String>)
    ensures
        log::extends(old(h).log(), final(h).log()),
        click_ran(
            path@,
            cwd@,
            text::text_of(*home),
            log::since(old(h).log(), final(h).log()),
            text::text_of(found),
        ),
{
    let ghost before = h.log();
    let direct: String = resolve(path, cwd, home);
    let is_there: bool = h.is_file(direct.as_str());
    let ghost entry = h.log().last();
    proof {
        log::lemma_one(before, entry);
    }
    if is_there {
        return Some(direct);
    }
    if starts_with(path, '/') || starts_with(path, '~') {
        return None;
    }
    let found: Option<String> = resolve_in_worktree(h, path, cwd, home);
    proof {
        log::lemma_first(before, entry, h.log());
    }
    found
}

fn resolve_in_worktree<H: Host>(
    h: &mut H,
    path: &str,
    cwd: &str,
    home: &Option<String>,
) -> (found: Option<String>)
    ensures
        log::extends(old(h).log(), final(h).log()),
        worktree_ran(
            path@,
            cwd@,
            text::text_of(*home),
            log::since(old(h).log(), final(h).log()),
            text::text_of(found),
        ),
{
    let ghost before = h.log();
    let answer: Option<String> = h.git_toplevel(cwd);
    let ghost asked = h.log();
    proof {
        log::lemma_one(before, asked.last());
    }
    match answer {
        Some(toplevel) => {
            let place: String = resolve(path, toplevel.as_str(), home);
            let is_there: bool = h.is_file(place.as_str());
            proof {
                log::lemma_since_push(before, asked, h.log().last());
            }
            if is_there {
                Some(place)
            } else {
                None
            }
        },
        None => None,
    }
}

/// A path from the root or below `~` is looked for in one place only, and git is not asked.
pub proof fn rooted_paths_never_ask_git(
    path: Seq<char>,
    cwd: Seq<char>,
    home: Option<Seq<char>>,
    talk: Seq<Entry>,
    found: Option<Seq<char>>,
)
    requires
        click_ran(path, cwd, home, talk, found),
        path.len() > 0,
        path[0] == '/' || path[0] == '~',
    ensures
        talk.len() == 1,
        talk[0].call == (Call::IsFile { path: extract::resolved(path, cwd, home) }),
{
}

/// What is found was seen to be a file.
pub proof fn only_files_are_found(
    path: Seq<char>,
    cwd: Seq<char>,
    home: Option<Seq<char>>,
    talk: Seq<Entry>,
    found: Option<Seq<char>>,
)
    requires
        click_ran(path, cwd, home, talk, found),
        found is Some,
    ensures
        talk.last() == (Entry {
            call: Call::IsFile { path: found->0 },
            answer: Answer::Flag(true),
        }),
{
    if talk[0].answer == Answer::Flag(false) {
        assert(talk.skip(1)[0] == talk[1]);
        assert(talk.skip(1)[1] == talk[2]);
    }
}

/// What herdr tells of a click.
#[derive(Clone, Debug, PartialEq, Eq)]
pub struct ClickEnv {
    pub clicked_url: String,
    pub pane: String,
    pub workspace: String,
    pub tab: String,
}

/// A click, as characters.
pub struct ClickView {
    pub clicked_url: Seq<char>,
    pub pane: Seq<char>,
    pub workspace: Seq<char>,
    pub tab: Seq<char>,
}

impl View for ClickEnv {
    type V = ClickView;

    open spec fn view(&self) -> ClickView {
        ClickView {
            clicked_url: self.clicked_url@,
            pane: self.pane@,
            workspace: self.workspace@,
            tab: self.tab@,
        }
    }
}

/// The click that the environment tells of. Where one of its parts is missing there is none.
pub open spec fn click_told(environment: Environment) -> Option<ClickView> {
    match (
        environment.clicked_url,
        environment.pane,
        environment.workspace,
        environment.tab,
    ) {
        (Ok(clicked_url), Ok(pane), Ok(workspace), Ok(tab)) => Some(
            ClickView {
                clicked_url: clicked_url@,
                pane: pane@,
                workspace: workspace@,
                tab: tab@,
            },
        ),
        _ => None,
    }
}

/// Read the click that the environment tells of.
pub fn read_click_env(environment: &Environment) -> (click: Option<ClickEnv>)
    ensures
        match click {
            Some(click) => click_told(*environment) == Some(click@),
            None => click_told(*environment) is None,
        },
{
    match (
        &environment.clicked_url,
        &environment.pane,
        &environment.workspace,
        &environment.tab,
    ) {
        (Ok(clicked_url), Ok(pane), Ok(workspace), Ok(tab)) => Some(
            ClickEnv {
                clicked_url: clicked_url.clone(),
                pane: pane.clone(),
                workspace: workspace.clone(),
                tab: tab.clone(),
            },
        ),
        _ => None,
    }
}

/// The conversation of following a click. A click that points at no file does nothing.
pub open spec fn link_ran(
    environment: Environment,
    talk: Seq<Entry>,
    outcome: Result<(), Failure>,
) -> bool {
    match click_told(environment) {
        None => talk.len() == 0 && outcome is Ok,
        Some(click) => match clicked_target(click.clicked_url) {
            None => talk.len() == 0 && outcome is Ok,
            Some((path, line)) => target_ran(
                click,
                path,
                line,
                text::text_of(environment.home),
                talk,
                outcome,
            ),
        },
    }
}

/// The conversation of following a click that points at a path and a line.
pub open spec fn target_ran(
    click: ClickView,
    path: Seq<char>,
    line: Option<u32>,
    home: Option<Seq<char>>,
    talk: Seq<Entry>,
    outcome: Result<(), Failure>,
) -> bool {
    log::asks(talk, Call::PaneCwd { pane: click.pane }) && match talk[0].answer {
        Answer::Text(cwd) => follow_ran(
            CtxView {
                workspace: click.workspace,
                tab: click.tab,
                focused_pane: click.pane,
                cwd: cwd@,
            },
            path,
            line,
            home,
            talk.skip(1),
            outcome,
        ),
        _ => log::stops(talk, outcome),
    }
}

/// Whether the first `length` exchanges are those of a search for a file with this result.
pub open spec fn searched_in(
    path: Seq<char>,
    cwd: Seq<char>,
    home: Option<Seq<char>>,
    talk: Seq<Entry>,
    length: int,
    found: Option<Seq<char>>,
) -> bool {
    &&& 0 <= length <= talk.len()
    &&& click_ran(path, cwd, home, talk.take(length), found)
}

/// The conversation of following a path from the search for its file on.
pub open spec fn follow_ran(
    ctx: CtxView,
    path: Seq<char>,
    line: Option<u32>,
    home: Option<Seq<char>>,
    talk: Seq<Entry>,
    outcome: Result<(), Failure>,
) -> bool {
    exists|length: int, found: Option<Seq<char>>|
        {
            &&& #[trigger] searched_in(path, ctx.cwd, home, talk, length, found)
            &&& match found {
                None => length == talk.len() && outcome is Ok,
                Some(file) => bridge::show_ran(ctx, file, line, talk.skip(length), outcome),
            }
        }
}

fn follow<H: Host>(
    h: &mut H,
    ctx: &Ctx,
    path: &str,
    line: Option<u32>,
    home: &Option<String>,
) -> (outcome: Result<(), Failure>)
    ensures
        log::extends(old(h).log(), final(h).log()),
        follow_ran(
            ctx@,
            path@,
            line,
            text::text_of(*home),
            log::since(old(h).log(), final(h).log()),
            outcome,
        ),
{
    let ghost before = h.log();
    let found: Option<String> = resolve_click(h, path, ctx.cwd.as_str(), home);
    let ghost middle = h.log();
    let ghost answer = text::text_of(found);
    let outcome: Result<(), Failure> = match found {
        Some(file) => open_in_sidebar(h, ctx, file.as_str(), line),
        None => {
            proof {
                log::lemma_nothing(middle);
            }
            Ok(())
        },
    };
    proof {
        log::lemma_split(before, middle, h.log());
        let length = log::since(before, middle).len() as int;
        assert(searched_in(
            path@,
            ctx@.cwd,
            text::text_of(*home),
            log::since(before, h.log()),
            length,
            answer,
        ));
    }
    outcome
}

/// The link command: open the file that a click points at. A click that leads nowhere does
/// nothing, and is no failure.
pub fn open_link_cmd<H: Host>(
    h: &mut H,
    environment: &Environment,
) -> (outcome: Result<(), Failure>)
    ensures
        log::extends(old(h).log(), final(h).log()),
        link_ran(*environment, log::since(old(h).log(), final(h).log()), outcome),
{
    let ghost before = h.log();
    proof {
        log::lemma_nothing(before);
    }
    let click: ClickEnv = match read_click_env(environment) {
        Some(click) => click,
        None => return Ok(()),
    };
    let (path, line): (String, Option<u32>) = match parse_clicked(click.clicked_url.as_str()) {
        Some(target) => target,
        None => return Ok(()),
    };
    match h.pane_cwd(click.pane.as_str()) {
        Ok(cwd) => {
            let ghost entry = h.log().last();
            let ctx: Ctx = Ctx {
                workspace: click.workspace,
                tab: click.tab,
                focused_pane: click.pane,
                cwd,
            };
            let outcome: Result<(), Failure> = follow(
                h,
                &ctx,
                path.as_str(),
                line,
                &environment.home,
            );
            proof {
                log::lemma_first(before, entry, h.log());
            }
            outcome
        },
        Err(failure) => {
            proof {
                log::lemma_one(before, h.log().last());
            }
            Err(failure)
        },
    }
}

/// The number that an argument writes, with a plus sign before it or without.
pub open spec fn argument_value(argument: Seq<char>) -> Option<u32> {
    if argument.len() > 0 && argument[0] == '+' {
        text::digits_value(argument.skip(1))
    } else {
        text::digits_value(argument)
    }
}

/// Read the number that an argument writes.
pub fn read_number(argument: &str) -> (value: Option<u32>)
    ensures
        value == argument_value(argument@),
{
    if starts_with(argument, '+') {
        let length: usize = argument.unicode_len();
        assert(argument@.subrange(1, length as int) =~= argument@.skip(1));
        read_digits(argument.substring_char(1, length))
    } else {
        read_digits(argument)
    }
}

/// How the file command is used.
pub const FILE_USAGE: &'static str = "usage: herdr-nvim open-file <path> [<line>]";

/// Where the environment says that a file is to be opened, but for the working directory: the
/// workspace, the tab and the pane. Or else the report of what is missing.
pub open spec fn place_told(environment: Environment) -> Result<
    (Seq<char>, Seq<char>, Seq<char>),
    Seq<char>,
> {
    match (environment.pane, environment.workspace, environment.tab) {
        (Err(reason), _, _) => Err(context::not_set("HERDR_PANE_ID"@, reason)),
        (Ok(_), Err(reason), _) => Err(context::not_set("HERDR_WORKSPACE_ID"@, reason)),
        (Ok(_), Ok(_), Err(reason)) => Err(context::not_set("HERDR_TAB_ID"@, reason)),
        (Ok(pane), Ok(workspace), Ok(tab)) => Ok((workspace@, tab@, pane@)),
    }
}

/// The line that the arguments of the file command name, if they name one. Or else the report that
/// it is no number.
pub open spec fn line_told(args: Seq<Seq<char>>) -> Result<Option<u32>, Seq<char>> {
    if args.len() > 3 {
        match argument_value(args[3]) {
            Some(line) => Ok(Some(line)),
            None => Err("not a line number: "@ + args[3]),
        }
    } else {
        Ok(None)
    }
}

/// The conversation of the file command. The path and the line are looked at before anything is
/// done, and an argument that is bad or missing is a failure.
pub open spec fn file_ran(
    args: Seq<Seq<char>>,
    environment: Environment,
    talk: Seq<Entry>,
    outcome: Result<(), Failure>,
) -> bool {
    if args.len() <= 2 {
        &&& talk.len() == 1
        &&& talk[0].call == (Call::Warn { text: FILE_USAGE@ })
        &&& outcome is Err
        &&& failure::report(outcome->Err_0) == "no path is given"@
    } else {
        &&& log::asks(talk, Call::IsFile { path: args[2] })
        &&& match talk[0].answer {
            Answer::Flag(true) => match (line_told(args), place_told(environment)) {
                (Err(fault), _) => {
                    &&& talk.len() == 1
                    &&& outcome is Err
                    &&& failure::report(outcome->Err_0) == fault
                },
                (Ok(_), Err(fault)) => {
                    &&& talk.len() == 1
                    &&& outcome is Err
                    &&& failure::report(outcome->Err_0) == fault
                },
                (Ok(line), Ok((workspace, tab, focused_pane))) => place_ran(
                    workspace,
                    tab,
                    focused_pane,
                    args[2],
                    line,
                    talk.skip(1),
                    outcome,
                ),
            },
            Answer::Flag(false) => {
                &&& talk.len() == 1
                &&& outcome is Err
                &&& failure::report(outcome->Err_0) == "not a file: "@ + args[2]
            },
            _ => false,
        }
    }
}

/// The conversation of the file command from the working directory on.
pub open spec fn place_ran(
    workspace: Seq<char>,
    tab: Seq<char>,
    focused_pane: Seq<char>,
    path: Seq<char>,
    line: Option<u32>,
    talk: Seq<Entry>,
    outcome: Result<(), Failure>,
) -> bool {
    log::asks(talk, Call::PaneCwd { pane: focused_pane }) && match talk[0].answer {
        Answer::Text(cwd) => bridge::show_ran(
            CtxView { workspace, tab, focused_pane, cwd: cwd@ },
            path,
            line,
            talk.skip(1),
            outcome,
        ),
        _ => log::stops(talk, outcome),
    }
}

fn open_at_place<H: Host>(
    h: &mut H,
    workspace: &str,
    tab: &str,
    pane: &str,
    path: &str,
    line: Option<u32>,
) -> (outcome: Result<(), Failure>)
    ensures
        log::extends(old(h).log(), final(h).log()),
        place_ran(
            workspace@,
            tab@,
            pane@,
            path@,
            line,
            log::since(old(h).log(), final(h).log()),
            outcome,
        ),
{
    let ghost before = h.log();
    match h.pane_cwd(pane) {
        Ok(cwd) => {
            let ghost entry = h.log().last();
            let ctx: Ctx = Ctx {
                workspace: workspace.to_owned(),
                tab: tab.to_owned(),
                focused_pane: pane.to_owned(),
                cwd,
            };
            let outcome: Result<(), Failure> = open_in_sidebar(h, &ctx, path, line);
            proof {
                log::lemma_first(before, entry, h.log());
            }
            outcome
        },
        Err(failure) => {
            proof {
                log::lemma_one(before, h.log().last());
            }
            Err(failure)
        },
    }
}

/// The file command: open the file that another program names, at a line if it names one. A path
/// that leads to no file and a line that is no number are refused before anything is done.
pub fn open_file_cmd<H: Host>(
    h: &mut H,
    args: &Vec<String>,
    environment: &Environment,
) -> (outcome: Result<(), Failure>)
    ensures
        log::extends(old(h).log(), final(h).log()),
        file_ran(
            text::texts(args@),
            *environment,
            log::since(old(h).log(), final(h).log()),
            outcome,
        ),
{
    let ghost before = h.log();
    let ghost all = text::texts(args@);
    if args.len() <= 2 {
        h.warn(FILE_USAGE);
        proof {
            log::lemma_one(before, h.log().last());
        }
        return Err(Failure::NoPath);
    }
    let path: &str = args[2].as_str();
    assert(all[2] == path@);
    let is_there: bool = h.is_file(path);
    let ghost entry = h.log().last();
    proof {
        log::lemma_one(before, entry);
    }
    if !is_there {
        return Err(Failure::NotAFile { path: path.to_owned() });
    }
    let line: Option<u32> = if args.len() > 3 {
        assert(all[3] == args@[3]@);
        match read_number(args[3].as_str()) {
            Some(line) => Some(line),
            None => return Err(Failure::NotALine { argument: args[3].clone() }),
        }
    } else {
        None
    };
    assert(line_told(all) == Ok::<Option<u32>, Seq<char>>(line));
    let pane: &String = match required("HERDR_PANE_ID", &environment.pane) {
        Ok(pane) => pane,
        Err(failure) => return Err(failure),
    };
    let workspace: &String = match required("HERDR_WORKSPACE_ID", &environment.workspace) {
        Ok(workspace) => workspace,
        Err(failure) => return Err(failure),
    };
    let tab: &String = match required("HERDR_TAB_ID", &environment.tab) {
        Ok(tab) => tab,
        Err(failure) => return Err(failure),
    };
    let outcome: Result<(), Failure> = open_at_place(
        h,
        workspace.as_str(),
        tab.as_str(),
        pane.as_str(),
        path,
        line,
    );
    proof {
        log::lemma_first(before, entry, h.log());
    }
    outcome
}

/// A bad argument of the file command is a failure, and nothing is done for it: where the path is
/// missing the user is told how the command is used, and where it leads to no file, or the line is
/// no number, the path is looked at and nothing else happens.
pub proof fn bad_arguments_change_nothing(
    args: Seq<Seq<char>>,
    environment: Environment,
    talk: Seq<Entry>,
    outcome: Result<(), Failure>,
)
    requires
        file_ran(args, environment, talk, outcome),
        args.len() > 2 ==> talk[0].answer == Answer::Flag(false) || line_told(args) is Err,
    ensures
        outcome is Err,
        talk.len() == 1,
        talk[0].call == if args.len() > 2 {
            Call::IsFile { path: args[2] }
        } else {
            Call::Warn { text: FILE_USAGE@ }
        },
{
}

} // verus!
