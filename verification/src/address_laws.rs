//! What holds of every clicked text and every address of a file.

use vstd::prelude::*;

use crate::openlink;
use crate::path;

verus! {

/// Whether a text is made of full stops and commas only.
pub open spec fn is_punctuation(text: Seq<char>) -> bool {
    forall|i: int| 0 <= i < text.len() ==> (#[trigger] text[i] == '.' || text[i] == ',')
}

/// The address of a file gives its decoded path, whatever host it names, and none too.
pub proof fn hosts_are_ignored(host: Seq<char>, file: Seq<char>)
    requires
        !host.contains('/'),
        path::is_rooted(file),
    ensures
        openlink::url_path(openlink::FILE_SCHEME@ + host + file) == Some(file),
        openlink::stripped(openlink::FILE_SCHEME@ + host + file) == Some(
            openlink::percent_decoded(file),
        ),
{
    let scheme = openlink::FILE_SCHEME@;
    let named = scheme + host + file;
    assert(named.subrange(0, scheme.len() as int) =~= scheme);
    assert(named.skip(scheme.len() as int) =~= host + file);
    lemma_first_slash_behind(host, file);
    assert((host + file).skip(host.len() as int) =~= file);
}

/// Whether a text is the address of this file on this host.
pub open spec fn is_address(clicked: Seq<char>, host: Seq<char>, file: Seq<char>) -> bool {
    &&& !host.contains('/')
    &&& path::is_rooted(file)
    &&& clicked == openlink::FILE_SCHEME@ + host + file
}

/// A text that is not the address of a file on any host has no path.
pub proof fn only_addresses_are_stripped(clicked: Seq<char>)
    requires
        forall|host: Seq<char>, file: Seq<char>| !#[trigger] is_address(clicked, host, file),
    ensures
        openlink::stripped(clicked) is None,
{
    let scheme = openlink::FILE_SCHEME@;
    if openlink::url_path(clicked) is Some {
        let rest = clicked.skip(scheme.len() as int);
        lemma_first_slash_found(rest);
        let slash = path::first_slash(rest)->0;
        let host = rest.take(slash);
        let file = rest.skip(slash);
        assert(host.contains('/') ==> false) by {
            if host.contains('/') {
                let i = choose|i: int| 0 <= i < host.len() && host[i] == '/';
                assert(rest[i] == '/');
            }
        }
        assert(file[0] == rest[slash]);
        assert(clicked.subrange(0, scheme.len() as int) =~= scheme);
        assert(clicked =~= scheme + host + file);
        assert(is_address(clicked, host, file));
    }
}

proof fn lemma_first_slash_found(text: Seq<char>)
    ensures
        match path::first_slash(text) {
            Some(slash) => {
                &&& 0 <= slash < text.len()
                &&& text[slash] == '/'
                &&& forall|i: int| 0 <= i < slash ==> #[trigger] text[i] != '/'
            },
            None => !text.contains('/'),
        },
    decreases text.len(),
{
    if text.len() > 0 && text[0] != '/' {
        let rest = text.drop_first();
        lemma_first_slash_found(rest);
        match path::first_slash(rest) {
            Some(slash) => {
                assert(text[slash + 1] == rest[slash]);
                assert forall|i: int| 0 <= i < slash + 1 implies #[trigger] text[i] != '/' by {
                    if i > 0 {
                        assert(text[i] == rest[i - 1]);
                    }
                }
            },
            None => {
                if text.contains('/') {
                    let i = choose|i: int| 0 <= i < text.len() && text[i] == '/';
                    assert(rest[i - 1] == '/');
                }
            },
        }
    }
}

proof fn lemma_first_slash_behind(host: Seq<char>, file: Seq<char>)
    requires
        !host.contains('/'),
        path::is_rooted(file),
    ensures
        path::first_slash(host + file) == Some(host.len() as int),
    decreases host.len(),
{
    if host.len() > 0 {
        let rest = host.drop_first();
        assert(host[0] != '/');
        assert forall|i: int| 0 <= i < rest.len() implies rest[i] != '/' by {
            assert(rest[i] == host[i + 1]);
        }
        lemma_first_slash_behind(rest, file);
        assert((host + file).drop_first() =~= rest + file);
    } else {
        assert(host + file =~= file);
    }
}

/// Full stops and commas at the end of a clicked text never change what it points at.
pub proof fn trailing_punctuation_changes_nothing(clicked: Seq<char>, punctuation: Seq<char>)
    requires
        is_punctuation(punctuation),
    ensures
        openlink::clicked_target(clicked + punctuation) == openlink::clicked_target(clicked),
{
    lemma_unpunctuated_longer(clicked, punctuation);
}

proof fn lemma_unpunctuated_longer(text: Seq<char>, punctuation: Seq<char>)
    requires
        is_punctuation(punctuation),
    ensures
        openlink::unpunctuated(text + punctuation) == openlink::unpunctuated(text),
    decreases punctuation.len(),
{
    if punctuation.len() == 0 {
        assert(text + punctuation =~= text);
    } else {
        let whole = text + punctuation;
        let shorter = punctuation.drop_last();
        assert(whole.last() == punctuation[punctuation.len() - 1]);
        assert(whole.drop_last() =~= text + shorter);
        lemma_unpunctuated_longer(text, shorter);
    }
}

/// What is cut off at the end of a text is punctuation.
proof fn lemma_cut_is_punctuation(text: Seq<char>) -> (punctuation: Seq<char>)
    ensures
        is_punctuation(punctuation),
        text == openlink::unpunctuated(text) + punctuation,
    decreases text.len(),
{
    let punct = |c: char| c == '.' || c == ',';
    if text.len() > 0 && punct(text.last()) {
        let before = lemma_cut_is_punctuation(text.drop_last());
        let punctuation = before.push(text.last());
        assert(openlink::unpunctuated(text) == openlink::unpunctuated(text.drop_last()));
        assert(text =~= text.drop_last().push(text.last()));
        assert(text =~= openlink::unpunctuated(text) + punctuation);
        punctuation
    } else {
        assert(text =~= openlink::unpunctuated(text) + Seq::empty());
        Seq::empty()
    }
}

proof fn lemma_first_slash_longer(text: Seq<char>, punctuation: Seq<char>)
    requires
        is_punctuation(punctuation),
    ensures
        path::first_slash(text + punctuation) == path::first_slash(text),
    decreases text.len(),
{
    let whole = text + punctuation;
    if text.len() == 0 {
        lemma_first_slash_found(whole);
        assert(whole =~= punctuation);
    } else if text[0] != '/' {
        assert(whole.drop_first() =~= text.drop_first() + punctuation);
        lemma_first_slash_longer(text.drop_first(), punctuation);
    }
}

/// Punctuation at the end of an address is at the end of its path, and makes no address.
proof fn lemma_url_path_longer(clicked: Seq<char>, punctuation: Seq<char>)
    requires
        is_punctuation(punctuation),
    ensures
        openlink::url_path(clicked + punctuation) == match openlink::url_path(clicked) {
            Some(file) => Some(file + punctuation),
            None => None,
        },
{
    let scheme = openlink::FILE_SCHEME@;
    let whole = clicked + punctuation;
    reveal_strlit("file://");
    if clicked.len() < scheme.len() {
        if scheme.is_prefix_of(whole) {
            assert(whole.subrange(0, scheme.len() as int) =~= scheme);
            let i = clicked.len() as int;
            assert(whole[i] == scheme[i]);
            assert(whole[i] == punctuation[0]);
        }
    } else {
        let rest = clicked.skip(scheme.len() as int);
        assert(whole.subrange(0, scheme.len() as int) =~= clicked.subrange(
            0,
            scheme.len() as int,
        ));
        assert(scheme.is_prefix_of(whole) == scheme.is_prefix_of(clicked));
        assert(whole.skip(scheme.len() as int) =~= rest + punctuation);
        lemma_first_slash_longer(rest, punctuation);
        lemma_first_slash_found(rest);
        if let Some(slash) = path::first_slash(rest) {
            assert((rest + punctuation).skip(slash) =~= rest.skip(slash) + punctuation);
        }
    }
}

proof fn lemma_encode_joined(left: Seq<char>, right: Seq<char>)
    ensures
        vstd::utf8::encode_utf8(left + right) == vstd::utf8::encode_utf8(left)
            + vstd::utf8::encode_utf8(right),
    decreases left.len(),
{
    if left.len() == 0 {
        assert(left + right =~= right);
        assert(Seq::<u8>::empty() + vstd::utf8::encode_utf8(right) =~= vstd::utf8::encode_utf8(
            right,
        ));
    } else {
        assert((left + right).drop_first() =~= left.drop_first() + right);
        lemma_encode_joined(left.drop_first(), right);
        let first = vstd::utf8::encode_scalar(left[0] as u32);
        assert(first + (vstd::utf8::encode_utf8(left.drop_first()) + vstd::utf8::encode_utf8(right))
            =~= (first + vstd::utf8::encode_utf8(left.drop_first())) + vstd::utf8::encode_utf8(
            right,
        ));
    }
}

/// Bytes that are no digits do not take part in an escape.
proof fn lemma_unescaped_longer(bytes: Seq<u8>, tail: Seq<u8>)
    requires
        forall|i: int| 0 <= i < tail.len() ==> (#[trigger] tail[i] == 44 || tail[i] == 46),
    ensures
        openlink::unescaped(bytes + tail) == openlink::unescaped(bytes) + tail,
    decreases bytes.len() + tail.len(),
{
    let whole = bytes + tail;
    if bytes.len() == 0 {
        assert(whole =~= tail);
        if tail.len() > 0 {
            assert(tail[0] != 37);
            let rest = tail.skip(1);
            lemma_unescaped_longer(bytes, rest);
            assert(bytes + rest =~= rest);
            assert(seq![tail[0]] + rest =~= tail);
        }
        assert(openlink::unescaped(bytes) + tail =~= tail);
    } else {
        assert(whole[0] == bytes[0]);
        let escape = bytes.len() >= 3 && bytes[0] == 37 && openlink::hex_pair(
            bytes[1],
            bytes[2],
        ) is Some;
        if escape {
            assert(whole[1] == bytes[1] && whole[2] == bytes[2]);
            assert(whole.skip(3) =~= bytes.skip(3) + tail);
            lemma_unescaped_longer(bytes.skip(3), tail);
            let byte = openlink::hex_pair(bytes[1], bytes[2])->0;
            assert(seq![byte] + (openlink::unescaped(bytes.skip(3)) + tail) =~= (seq![byte]
                + openlink::unescaped(bytes.skip(3))) + tail);
        } else {
            if whole.len() >= 3 && bytes.len() < 3 {
                assert(whole[2] == tail[2 - bytes.len()]);
            }
            assert(whole.skip(1) =~= bytes.skip(1) + tail);
            lemma_unescaped_longer(bytes.skip(1), tail);
            assert(seq![bytes[0]] + (openlink::unescaped(bytes.skip(1)) + tail) =~= (seq![bytes[0]]
                + openlink::unescaped(bytes.skip(1))) + tail);
        }
    }
}

/// Punctuation at the end of a path is at the end of the decoded path.
proof fn lemma_decoded_longer(file: Seq<char>, punctuation: Seq<char>)
    requires
        is_punctuation(punctuation),
        vstd::utf8::valid_utf8(openlink::bytes_meant(file + punctuation)),
    ensures
        openlink::percent_decoded(file + punctuation) == openlink::percent_decoded(file)
            + punctuation,
{
    let tail = vstd::utf8::encode_utf8(punctuation);
    let bytes = openlink::bytes_meant(file);
    assert(vstd::utf8::is_ascii_chars(punctuation));
    vstd::utf8::is_ascii_chars_encode_utf8(punctuation);
    assert forall|i: int| 0 <= i < tail.len() implies (#[trigger] tail[i] == 44 || tail[i]
        == 46) by {
        assert(punctuation[i] as u8 == tail[i]);
    }
    lemma_encode_joined(file, punctuation);
    lemma_unescaped_longer(vstd::utf8::encode_utf8(file), tail);
    let whole = bytes + tail;
    assert(openlink::bytes_meant(file + punctuation) == whole);
    vstd::utf8::encode_utf8_decode_utf8(punctuation);
    if punctuation.len() == 0 {
        assert(file + punctuation =~= file);
        assert(openlink::percent_decoded(file) + punctuation =~= openlink::percent_decoded(file));
    } else {
        let cut = bytes.len() as int;
        assert(whole[cut] == tail[0]);
        vstd::utf8::is_char_boundary_iff_not_is_continuation_byte(whole, cut);
        vstd::utf8::valid_utf8_split(whole, cut);
        vstd::utf8::decode_utf8_split(whole, cut);
        assert(whole.subrange(0, cut) =~= bytes);
        assert(whole.subrange(cut, whole.len() as int) =~= tail);
    }
}

/// It makes no difference whether punctuation is cut off before an address is decoded, or only
/// after.
pub proof fn punctuation_may_go_first(clicked: Seq<char>)
    requires
        openlink::is_readable(clicked),
    ensures
        openlink::clicked_target(clicked) == openlink::target_in(openlink::clicked_text(clicked)),
{
    let cut = openlink::unpunctuated(clicked);
    let punctuation = lemma_cut_is_punctuation(clicked);
    lemma_url_path_longer(cut, punctuation);
    match openlink::url_path(cut) {
        Some(file) => {
            lemma_decoded_longer(file, punctuation);
            lemma_unpunctuated_longer(openlink::percent_decoded(file), punctuation);
        },
        None => {
            lemma_unpunctuated_longer(cut, punctuation);
        },
    }
}

} // verus!
