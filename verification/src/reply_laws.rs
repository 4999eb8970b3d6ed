//! What is read out of herdr's replies, told by where it stands in the whole document.

use vstd::prelude::*;

use crate::context;
use crate::herdr::{self, AgentView, PaneScroll, RectView, SessionView};
use crate::json::{self, Document, Node};
use crate::pick;
use crate::text;

verus! {

/// Whether this node stands at this pointer of a document.
pub open spec fn holds(document: Document, pointer: Seq<char>, node: Node) -> bool {
    document.dom().contains(pointer) && document[pointer] == node
}

/// Whether some text stands at this pointer of a document.
pub open spec fn holds_text(document: Document, pointer: Seq<char>) -> bool {
    document.dom().contains(pointer) && document[pointer] is Text
}

/// What is read of a part of a document is what stands behind the pointer to it.
proof fn lemma_part(document: Document, start: Seq<char>, rest: Seq<char>)
    requires
        json::is_pointer(rest),
    ensures
        json::text_at(json::below(document, start), rest) == json::text_at(document, start + rest),
        json::unsigned_at(json::below(document, start), rest) == json::unsigned_at(
            document,
            start + rest,
        ),
        json::flag_at(json::below(document, start), rest) == json::flag_at(document, start + rest),
{
    let part = json::below(document, start);
    let whole = start + rest;
    assert(part.dom().contains(rest) == document.dom().contains(whole));
    if document.dom().contains(whole) {
        lemma_root(document, whole);
        lemma_root(part, rest);
    }
}

/// The part at a pointer starts with the node that stands there.
proof fn lemma_root(document: Document, pointer: Seq<char>)
    requires
        document.dom().contains(pointer),
    ensures
        json::root(json::below(document, pointer)) == document[pointer],
{
    assert(pointer + Seq::<char>::empty() =~= pointer);
}

/// What stands at a pointer is what is read there.
pub proof fn lemma_read(document: Document, pointer: Seq<char>)
    ensures
        json::text_at(document, pointer) == if holds_text(document, pointer) {
            Some(document[pointer]->Text_0)
        } else {
            None
        },
        json::unsigned_at(document, pointer) == if document.dom().contains(pointer)
            && document[pointer] is Unsigned {
            Some(document[pointer]->Unsigned_0)
        } else {
            None
        },
        json::flag_at(document, pointer) == if document.dom().contains(pointer)
            && document[pointer] is Flag {
            Some(document[pointer]->Flag_0)
        } else {
            None
        },
{
    if document.dom().contains(pointer) {
        lemma_root(document, pointer);
    }
}

/// The scrolling that a reply tells of is the number of rows at `/result/pane/scroll/viewport_rows`
/// with the number of lines at `/result/pane/scroll/max_offset_from_bottom`, both within 32 bits,
/// whatever else the reply holds. A reply without one of them tells of none.
pub proof fn scroll_is_read(reply: Document, rows: u32, lines: u32)
    requires
        reply.dom().contains("/result/pane/scroll"@),
    ensures
        herdr::scroll_in(reply) == Some(
            PaneScroll { viewport_rows: rows, max_offset_from_bottom: lines },
        ) <==> {
            &&& holds(
                reply,
                "/result/pane/scroll/viewport_rows"@,
                Node::Unsigned(rows as u64),
            )
            &&& holds(
                reply,
                "/result/pane/scroll/max_offset_from_bottom"@,
                Node::Unsigned(lines as u64),
            )
        },
{
    reveal_strlit("/result/pane/scroll");
    reveal_strlit("/viewport_rows");
    reveal_strlit("/max_offset_from_bottom");
    reveal_strlit("/result/pane/scroll/viewport_rows");
    reveal_strlit("/result/pane/scroll/max_offset_from_bottom");
    let start = "/result/pane/scroll"@;
    assert(start + "/viewport_rows"@ =~= "/result/pane/scroll/viewport_rows"@);
    assert(start + "/max_offset_from_bottom"@ =~= "/result/pane/scroll/max_offset_from_bottom"@);
    lemma_part(reply, start, "/viewport_rows"@);
    lemma_part(reply, start, "/max_offset_from_bottom"@);
    lemma_read(reply, start + "/viewport_rows"@);
    lemma_read(reply, start + "/max_offset_from_bottom"@);
}

/// The session that a reply tells of is made of the texts at `agent`, `kind` and `value` below
/// `/result/pane/agent_session`. A reply without one of them tells of none.
pub proof fn session_is_read(reply: Document, session: SessionView)
    requires
        reply.dom().contains("/result/pane/agent_session"@),
    ensures
        herdr::session_in(reply) == Some(session) <==> {
            &&& holds(reply, "/result/pane/agent_session/agent"@, Node::Text(session.agent))
            &&& holds(reply, "/result/pane/agent_session/kind"@, Node::Text(session.kind))
            &&& holds(reply, "/result/pane/agent_session/value"@, Node::Text(session.value))
        },
{
    reveal_strlit("/result/pane/agent_session");
    reveal_strlit("/agent");
    reveal_strlit("/kind");
    reveal_strlit("/value");
    reveal_strlit("/result/pane/agent_session/agent");
    reveal_strlit("/result/pane/agent_session/kind");
    reveal_strlit("/result/pane/agent_session/value");
    let start = "/result/pane/agent_session"@;
    assert(start + "/agent"@ =~= "/result/pane/agent_session/agent"@);
    assert(start + "/kind"@ =~= "/result/pane/agent_session/kind"@);
    assert(start + "/value"@ =~= "/result/pane/agent_session/value"@);
    lemma_part(reply, start, "/agent"@);
    lemma_part(reply, start, "/kind"@);
    lemma_part(reply, start, "/value"@);
    lemma_read(reply, start + "/agent"@);
    lemma_read(reply, start + "/kind"@);
    lemma_read(reply, start + "/value"@);
}

/// A reply gives a snapshot exactly if a text stands at `/result/pane/foreground_cwd`, which is its
/// working directory. The snapshot tells of a session and of scrolling only where the reply has a
/// block of them, and then of what stands there.
pub proof fn snapshot_is_read(reply: Document, rows: u32, lines: u32, session: SessionView)
    ensures
        herdr::snapshot_in(reply) is Ok <==> holds_text(reply, "/result/pane/foreground_cwd"@),
        herdr::snapshot_in(reply) matches Ok(snapshot) ==> {
            &&& holds(reply, "/result/pane/foreground_cwd"@, Node::Text(snapshot.cwd))
            &&& snapshot.scroll is Some ==> reply.dom().contains("/result/pane/scroll"@)
            &&& snapshot.agent_session is Some ==> reply.dom().contains(
                "/result/pane/agent_session"@,
            )
            &&& reply.dom().contains("/result/pane/scroll"@) ==> {
                snapshot.scroll == Some(
                    PaneScroll { viewport_rows: rows, max_offset_from_bottom: lines },
                ) <==> {
                    &&& holds(
                        reply,
                        "/result/pane/scroll/viewport_rows"@,
                        Node::Unsigned(rows as u64),
                    )
                    &&& holds(
                        reply,
                        "/result/pane/scroll/max_offset_from_bottom"@,
                        Node::Unsigned(lines as u64),
                    )
                }
            }
            &&& reply.dom().contains("/result/pane/agent_session"@) ==> {
                snapshot.agent_session == Some(session) <==> {
                    &&& holds(
                        reply,
                        "/result/pane/agent_session/agent"@,
                        Node::Text(session.agent),
                    )
                    &&& holds(
                        reply,
                        "/result/pane/agent_session/kind"@,
                        Node::Text(session.kind),
                    )
                    &&& holds(
                        reply,
                        "/result/pane/agent_session/value"@,
                        Node::Text(session.value),
                    )
                }
            }
        },
{
    lemma_read(reply, "/result/pane/foreground_cwd"@);
    if reply.dom().contains("/result/pane/scroll"@) {
        scroll_is_read(reply, rows, lines);
    }
    if reply.dom().contains("/result/pane/agent_session"@) {
        session_is_read(reply, session);
    }
}

/// What is read of a pane is never more than is configured, nor more than the rows on its screen
/// with the lines behind them, and is one of the two. Where a reply tells of no scrolling it is
/// what is configured.
pub proof fn scan_is_bounded(reply: Document, configured: u32, rows: u32, lines: u32)
    ensures
        reply.dom().contains("/result/pane/scroll"@) && holds(
            reply,
            "/result/pane/scroll/viewport_rows"@,
            Node::Unsigned(rows as u64),
        ) && holds(
            reply,
            "/result/pane/scroll/max_offset_from_bottom"@,
            Node::Unsigned(lines as u64),
        ) ==> pick::scan_lines(configured, herdr::scroll_in(reply)) == if configured <= rows
            + lines {
            configured as int
        } else {
            rows + lines
        },
        !reply.dom().contains("/result/pane/scroll"@) ==> pick::scan_lines(
            configured,
            herdr::scroll_in(reply),
        ) == configured,
{
    if reply.dom().contains("/result/pane/scroll"@) {
        scroll_is_read(reply, rows, lines);
    }
}

/// The pointer to an item of the array at a pointer.
pub open spec fn entry_at(array: Seq<char>, i: int) -> Seq<char> {
    array + "/"@ + text::decimal(i as nat)
}

/// A part of a part is a part of the whole.
proof fn lemma_deeper(document: Document, start: Seq<char>, rest: Seq<char>)
    requires
        rest.len() > 0,
        rest[0] == '/',
    ensures
        json::below(json::below(document, start), rest) == json::below(document, start + rest),
{
    let left = json::below(json::below(document, start), rest);
    let right = json::below(document, start + rest);
    assert forall|last: Seq<char>| left.dom().contains(last) == right.dom().contains(last) by {
        assert(start + (rest + last) =~= (start + rest) + last);
        assert((rest + last)[0] == '/');
    }
    assert forall|last: Seq<char>| left.dom().contains(last) implies left[last] == right[last] by {
        assert(start + (rest + last) =~= (start + rest) + last);
    }
    assert(left =~= right);
}

/// The items of an array are the parts of the document at the pointers to them.
proof fn lemma_items(document: Document, array: Seq<char>)
    requires
        array.len() > 0,
        array[0] == '/',
    ensures
        json::items_at(document, array) is Some <==> document.dom().contains(array)
            && document[array] is Array,
        json::items_at(document, array) matches Some(items) ==> {
            &&& document[array] == Node::Array(items.len())
            &&& forall|i: int|
                0 <= i < items.len() ==> #[trigger] items[i] == json::below(
                    document,
                    entry_at(array, i),
                )
        },
{
    if document.dom().contains(array) {
        lemma_root(document, array);
        if let Some(items) = json::items_at(document, array) {
            assert forall|i: int| 0 <= i < items.len() implies #[trigger] items[i] == json::below(
                document,
                entry_at(array, i),
            ) by {
                reveal_strlit("/");
                let rest = json::item_pointer(i as nat);
                assert("/"@ =~= seq!['/']);
                assert(rest[0] == '/');
                lemma_deeper(document, array, rest);
                assert(array + rest =~= entry_at(array, i));
            }
        }
    }
}

/// A list is read exactly if each of its parts is, one by one.
proof fn lemma_read_all<T>(
    parts: Seq<Document>,
    read: spec_fn(Document) -> Result<T, Seq<char>>,
)
    ensures
        json::read_all(parts, read) is Ok <==> forall|i: int|
            0 <= i < parts.len() ==> read(#[trigger] parts[i]) is Ok,
        json::read_all(parts, read) matches Ok(list) ==> {
            &&& list.len() == parts.len()
            &&& forall|i: int|
                0 <= i < parts.len() ==> read(#[trigger] parts[i]) == Ok::<T, Seq<char>>(list[i])
        },
    decreases parts.len(),
{
    if parts.len() > 0 {
        let start = parts.drop_last();
        lemma_read_all(start, read);
        assert(parts.last() == parts[parts.len() - 1]);
        assert forall|i: int| 0 <= i < start.len() implies start[i] == #[trigger] parts[i] by {}
        if json::read_all(parts, read) is Ok {
            assert forall|i: int| 0 <= i < parts.len() implies read(#[trigger] parts[i]) is Ok by {
                if i < start.len() {
                    assert(read(start[i]) is Ok);
                }
            }
            let list = json::read_all(parts, read)->Ok_0;
            assert forall|i: int| 0 <= i < parts.len() implies read(#[trigger] parts[i]) == Ok::<
                T,
                Seq<char>,
            >(list[i]) by {
                if i < start.len() {
                    assert(read(start[i]) is Ok);
                }
            }
        } else if forall|i: int| 0 <= i < parts.len() ==> read(#[trigger] parts[i]) is Ok {
            assert forall|i: int| 0 <= i < start.len() implies read(#[trigger] start[i]) is Ok by {
                assert(read(parts[i]) is Ok);
            }
            assert(read(parts[parts.len() - 1]) is Ok);
        }
    }
}

/// Whether a rectangle is the one that an entry of a layout tells of: its id, its size, and its
/// place once the corner of the area is taken off.
pub open spec fn tells_rect(reply: Document, i: int, rect: RectView) -> bool {
    let entry = entry_at("/result/layout/panes"@, i);
    &&& holds(reply, entry + "/pane_id"@, Node::Text(rect.pane_id))
    &&& exists|x: u64| #[trigger]
        holds(reply, "/result/layout/area/x"@, Node::Unsigned(x)) && x + rect.x <= u32::MAX
            && holds(reply, entry + "/rect/x"@, Node::Unsigned((x + rect.x) as u64))
    &&& exists|y: u64| #[trigger]
        holds(reply, "/result/layout/area/y"@, Node::Unsigned(y)) && y + rect.y <= u32::MAX
            && holds(reply, entry + "/rect/y"@, Node::Unsigned((y + rect.y) as u64))
    &&& holds(reply, entry + "/rect/width"@, Node::Unsigned(rect.w as u64))
    &&& holds(reply, entry + "/rect/height"@, Node::Unsigned(rect.h as u64))
}

proof fn lemma_rect(reply: Document, x: u32, y: u32, i: int, rect: RectView)
    requires
        holds(reply, "/result/layout/area/x"@, Node::Unsigned(x as u64)),
        holds(reply, "/result/layout/area/y"@, Node::Unsigned(y as u64)),
    ensures
        herdr::rect_in(
            json::below(reply, entry_at("/result/layout/panes"@, i)),
            x,
            y,
        ) == Ok::<RectView, Seq<char>>(rect) <==> tells_rect(reply, i, rect),
{
    reveal_strlit("/pane_id");
    reveal_strlit("/rect/x");
    reveal_strlit("/rect/y");
    reveal_strlit("/rect/width");
    reveal_strlit("/rect/height");
    let entry = entry_at("/result/layout/panes"@, i);
    let part = json::below(reply, entry);
    lemma_part(reply, entry, "/pane_id"@);
    lemma_part(reply, entry, "/rect/x"@);
    lemma_part(reply, entry, "/rect/y"@);
    lemma_part(reply, entry, "/rect/width"@);
    lemma_part(reply, entry, "/rect/height"@);
    lemma_read(reply, entry + "/pane_id"@);
    lemma_read(reply, entry + "/rect/x"@);
    lemma_read(reply, entry + "/rect/y"@);
    lemma_read(reply, entry + "/rect/width"@);
    lemma_read(reply, entry + "/rect/height"@);
    assert(holds(reply, "/result/layout/area/x"@, Node::Unsigned(x as u64)));
    assert(holds(reply, "/result/layout/area/y"@, Node::Unsigned(y as u64)));
}

/// The rectangles of a layout reply are those of the entries of the array at
/// `/result/layout/panes`, one for each and in that order, each counted from the corner at
/// `/result/layout/area`.
pub proof fn layout_is_read(reply: Document, rects: Seq<RectView>, i: int)
    requires
        herdr::rects_in(reply) == Ok::<Seq<RectView>, Seq<char>>(rects),
    ensures
        holds(reply, "/result/layout/panes"@, Node::Array(rects.len())),
        0 <= i < rects.len() ==> tells_rect(reply, i, rects[i]),
{
    let (x, y) = lemma_layout(reply);
    let layout = json::below(reply, "/result/layout"@);
    let read = |pane: Document| herdr::rect_in(pane, x, y);
    let panes = json::items_at(layout, "/panes"@)->0;
    lemma_read_all(panes, read);
    if 0 <= i < rects.len() {
        assert(read(panes[i]) == Ok::<RectView, Seq<char>>(rects[i]));
        lemma_rect(reply, x, y, i, rects[i]);
    }
}

/// What a layout reply that can be read has to hold beside its panes.
proof fn lemma_layout(reply: Document) -> (corner: (u32, u32))
    requires
        herdr::rects_in(reply) is Ok,
    ensures
        holds(reply, "/result/layout/area/x"@, Node::Unsigned(corner.0 as u64)),
        holds(reply, "/result/layout/area/y"@, Node::Unsigned(corner.1 as u64)),
        reply.dom().contains("/result/layout"@),
        ({
            let layout = json::below(reply, "/result/layout"@);
            &&& json::items_at(layout, "/panes"@) is Some
            &&& holds(
                reply,
                "/result/layout/panes"@,
                Node::Array(json::items_at(layout, "/panes"@)->0.len()),
            )
            &&& forall|i: int|
                0 <= i < json::items_at(layout, "/panes"@)->0.len() ==> #[trigger] json::items_at(
                    layout,
                    "/panes"@,
                )->0[i] == json::below(reply, entry_at("/result/layout/panes"@, i))
            &&& herdr::rects_in(reply) == json::read_all(
                json::items_at(layout, "/panes"@)->0,
                |pane: Document| herdr::rect_in(pane, corner.0, corner.1),
            )
        }),
{
    reveal_strlit("/result/layout");
    reveal_strlit("/area/x");
    reveal_strlit("/area/y");
    reveal_strlit("/panes");
    reveal_strlit("/result/layout/area/x");
    reveal_strlit("/result/layout/area/y");
    reveal_strlit("/result/layout/panes");
    let start = "/result/layout"@;
    let layout = json::below(reply, start);
    assert(start + "/area/x"@ =~= "/result/layout/area/x"@);
    assert(start + "/area/y"@ =~= "/result/layout/area/y"@);
    assert(start + "/panes"@ =~= "/result/layout/panes"@);
    lemma_part(reply, start, "/area/x"@);
    lemma_part(reply, start, "/area/y"@);
    lemma_read(reply, start + "/area/x"@);
    lemma_read(reply, start + "/area/y"@);
    lemma_items(layout, "/panes"@);
    let panes = json::items_at(layout, "/panes"@)->0;
    assert forall|i: int| 0 <= i < panes.len() implies #[trigger] panes[i] == json::below(
        reply,
        entry_at("/result/layout/panes"@, i),
    ) by {
        let rest = entry_at("/panes"@, i);
        assert(rest[0] == '/');
        lemma_deeper(reply, start, rest);
        assert(start + rest =~= entry_at("/result/layout/panes"@, i));
    }
    (
        json::required_u32(layout, "/area/x"@)->Ok_0,
        json::required_u32(layout, "/area/y"@)->Ok_0,
    )
}

/// Whether an entry of a pane list tells of this pane in this tab.
pub open spec fn tells_place(reply: Document, i: int, pane: Seq<char>, tab: Seq<char>) -> bool {
    let entry = entry_at("/result/panes"@, i);
    &&& holds(reply, entry + "/pane_id"@, Node::Text(pane))
    &&& holds(reply, entry + "/tab_id"@, Node::Text(tab))
}

/// The panes of a list reply are those of the entries of the array at `/result/panes`, one for each
/// and in that order, each with its tab.
pub proof fn places_are_read(reply: Document, places: Seq<(Seq<char>, Seq<char>)>, i: int)
    requires
        herdr::places_in(reply) == Ok::<Seq<(Seq<char>, Seq<char>)>, Seq<char>>(places),
    ensures
        holds(reply, "/result/panes"@, Node::Array(places.len())),
        0 <= i < places.len() ==> tells_place(reply, i, places[i].0, places[i].1),
{
    reveal_strlit("/result/panes");
    reveal_strlit("/pane_id");
    reveal_strlit("/tab_id");
    lemma_items(reply, "/result/panes"@);
    let panes = json::items_at(reply, "/result/panes"@)->0;
    let read = |pane: Document| herdr::place_in(pane);
    lemma_read_all(panes, read);
    if 0 <= i < places.len() {
        let entry = entry_at("/result/panes"@, i);
        assert(read(panes[i]) == Ok::<(Seq<char>, Seq<char>), Seq<char>>(places[i]));
        lemma_part(reply, entry, "/pane_id"@);
        lemma_part(reply, entry, "/tab_id"@);
        lemma_read(reply, entry + "/pane_id"@);
        lemma_read(reply, entry + "/tab_id"@);
    }
}

/// The tabs of a snapshot reply are those of the entries of the array at `/result/snapshot/tabs`,
/// one for each and in that order.
pub proof fn tabs_are_read(reply: Document, tabs: Seq<Seq<char>>, i: int)
    requires
        herdr::tabs_in(reply) == Ok::<Seq<Seq<char>>, Seq<char>>(tabs),
    ensures
        holds(reply, "/result/snapshot/tabs"@, Node::Array(tabs.len())),
        0 <= i < tabs.len() ==> holds(
            reply,
            entry_at("/result/snapshot/tabs"@, i) + "/tab_id"@,
            Node::Text(tabs[i]),
        ),
{
    reveal_strlit("/result/snapshot/tabs");
    reveal_strlit("/tab_id");
    lemma_items(reply, "/result/snapshot/tabs"@);
    let items = json::items_at(reply, "/result/snapshot/tabs"@)->0;
    let read = |tab: Document| json::required_text(tab, "/tab_id"@);
    lemma_read_all(items, read);
    if 0 <= i < tabs.len() {
        let entry = entry_at("/result/snapshot/tabs"@, i);
        assert(read(items[i]) == Ok::<Seq<char>, Seq<char>>(tabs[i]));
        lemma_part(reply, entry, "/tab_id"@);
        lemma_read(reply, entry + "/tab_id"@);
    }
}

/// A pane list reply is read exactly if an array stands at `/result/panes` and each of its entries
/// has the ids of a pane and a tab, and a snapshot reply exactly if an array stands at
/// `/result/snapshot/tabs` and each of its entries has the id of a tab.
pub proof fn complete_lists_are_read(reply: Document)
    ensures
        herdr::places_in(reply) is Ok <==> {
            &&& reply.dom().contains("/result/panes"@)
            &&& reply["/result/panes"@] is Array
            &&& forall|i: int|
                0 <= i < reply["/result/panes"@]->Array_0 ==> holds_text(
                    reply,
                    #[trigger] entry_at("/result/panes"@, i) + "/pane_id"@,
                ) && holds_text(reply, entry_at("/result/panes"@, i) + "/tab_id"@)
        },
        herdr::tabs_in(reply) is Ok <==> {
            &&& reply.dom().contains("/result/snapshot/tabs"@)
            &&& reply["/result/snapshot/tabs"@] is Array
            &&& forall|i: int|
                0 <= i < reply["/result/snapshot/tabs"@]->Array_0 ==> holds_text(
                    reply,
                    #[trigger] entry_at("/result/snapshot/tabs"@, i) + "/tab_id"@,
                )
        },
{
    reveal_strlit("/result/panes");
    reveal_strlit("/result/snapshot/tabs");
    reveal_strlit("/pane_id");
    reveal_strlit("/tab_id");
    lemma_items(reply, "/result/panes"@);
    if let Some(panes) = json::items_at(reply, "/result/panes"@) {
        let read = |pane: Document| herdr::place_in(pane);
        lemma_read_all(panes, read);
        assert forall|i: int| 0 <= i < panes.len() implies (read(#[trigger] panes[i]) is Ok) == (
        holds_text(reply, entry_at("/result/panes"@, i) + "/pane_id"@) && holds_text(
            reply,
            entry_at("/result/panes"@, i) + "/tab_id"@,
        )) by {
            let entry = entry_at("/result/panes"@, i);
            lemma_part(reply, entry, "/pane_id"@);
            lemma_part(reply, entry, "/tab_id"@);
            lemma_read(reply, entry + "/pane_id"@);
            lemma_read(reply, entry + "/tab_id"@);
        }
        assert forall|i: int| 0 <= i < panes.len() implies panes[i] == json::below(
            reply,
            #[trigger] entry_at("/result/panes"@, i),
        ) by {}
    }
    lemma_items(reply, "/result/snapshot/tabs"@);
    if let Some(tabs) = json::items_at(reply, "/result/snapshot/tabs"@) {
        let read = |tab: Document| json::required_text(tab, "/tab_id"@);
        lemma_read_all(tabs, read);
        assert forall|i: int| 0 <= i < tabs.len() implies (read(#[trigger] tabs[i]) is Ok)
            == holds_text(reply, entry_at("/result/snapshot/tabs"@, i) + "/tab_id"@) by {
            let entry = entry_at("/result/snapshot/tabs"@, i);
            lemma_part(reply, entry, "/tab_id"@);
            lemma_read(reply, entry + "/tab_id"@);
        }
        assert forall|i: int| 0 <= i < tabs.len() implies tabs[i] == json::below(
            reply,
            #[trigger] entry_at("/result/snapshot/tabs"@, i),
        ) by {}
    }
}

/// Whether an entry of an agent list is of an agent in this workspace.
pub open spec fn lists_agent(reply: Document, i: int, workspace: Seq<char>) -> bool {
    let entry = entry_at("/result/agents"@, i);
    &&& holds_text(reply, entry + "/agent"@)
    &&& holds(reply, entry + "/workspace_id"@, Node::Text(workspace))
}

/// Whether an entry of an agent list tells of this agent. One without the id of a tab has an empty
/// one, and one counts as focused only where that is said.
pub open spec fn tells_agent(reply: Document, i: int, agent: AgentView) -> bool {
    let entry = entry_at("/result/agents"@, i);
    &&& holds(reply, entry + "/pane_id"@, Node::Text(agent.pane_id))
    &&& if holds_text(reply, entry + "/tab_id"@) {
        holds(reply, entry + "/tab_id"@, Node::Text(agent.tab_id))
    } else {
        agent.tab_id.len() == 0
    }
    &&& agent.focused == holds(reply, entry + "/focused"@, Node::Flag(true))
}

proof fn lemma_agent(reply: Document, i: int, workspace: Seq<char>)
    ensures
        ({
            let part = json::below(reply, entry_at("/result/agents"@, i));
            &&& herdr::is_agent_of(part, workspace) == lists_agent(reply, i, workspace)
            &&& herdr::agent_in(part) matches Ok(agent) ==> tells_agent(reply, i, agent)
        }),
{
    reveal_strlit("/agent");
    reveal_strlit("/workspace_id");
    reveal_strlit("/pane_id");
    reveal_strlit("/tab_id");
    reveal_strlit("/focused");
    let entry = entry_at("/result/agents"@, i);
    lemma_part(reply, entry, "/agent"@);
    lemma_part(reply, entry, "/workspace_id"@);
    lemma_part(reply, entry, "/pane_id"@);
    lemma_part(reply, entry, "/tab_id"@);
    lemma_part(reply, entry, "/focused"@);
    lemma_read(reply, entry + "/agent"@);
    lemma_read(reply, entry + "/workspace_id"@);
    lemma_read(reply, entry + "/pane_id"@);
    lemma_read(reply, entry + "/tab_id"@);
    lemma_read(reply, entry + "/focused"@);
}

/// Whether a part is one of a list, and is kept.
spec fn is_one_of(
    parts: Seq<Document>,
    keep: spec_fn(Document) -> bool,
    part: Document,
) -> bool {
    exists|i: int| 0 <= i < parts.len() && keep(#[trigger] parts[i]) && part == parts[i]
}

/// Where what is kept of a list comes from, and where what is kept of it goes.
proof fn lemma_kept(parts: Seq<Document>, keep: spec_fn(Document) -> bool)
    ensures
        forall|j: int|
            0 <= j < parts.filter(keep).len() ==> is_one_of(
                parts,
                keep,
                #[trigger] parts.filter(keep)[j],
            ),
        forall|i: int|
            0 <= i < parts.len() && keep(#[trigger] parts[i]) ==> {
                let j = parts.take(i).filter(keep).len() as int;
                0 <= j < parts.filter(keep).len() && parts.filter(keep)[j] == parts[i]
            },
    decreases parts.len(),
{
    reveal(Seq::filter);
    if parts.len() > 0 {
        let start = parts.drop_last();
        let kept = start.filter(keep);
        lemma_kept(start, keep);
        assert forall|j: int| 0 <= j < parts.filter(keep).len() implies is_one_of(
            parts,
            keep,
            #[trigger] parts.filter(keep)[j],
        ) by {
            if j < kept.len() {
                assert(is_one_of(start, keep, kept[j]));
                let i = choose|i: int|
                    0 <= i < start.len() && keep(#[trigger] start[i]) && kept[j] == start[i];
                assert(parts[i] == start[i]);
                assert(parts.filter(keep)[j] == kept[j]);
            } else {
                assert(keep(parts[parts.len() - 1]));
            }
        }
        assert forall|i: int| 0 <= i < parts.len() && keep(#[trigger] parts[i]) implies {
            let j = parts.take(i).filter(keep).len() as int;
            0 <= j < parts.filter(keep).len() && parts.filter(keep)[j] == parts[i]
        } by {
            if i < start.len() {
                assert(start[i] == parts[i]);
                assert(start.take(i) =~= parts.take(i));
            } else {
                assert(parts.take(i) =~= start);
            }
        }
    }
}

/// Every agent that is read out of an agent list is one of the workspace that an entry of the array
/// at `/result/agents` tells of, and every entry of an agent of the workspace gives one. herdr's
/// panes without an agent, and the agents of other workspaces, give none.
pub proof fn agents_are_read(
    reply: Document,
    workspace: Seq<char>,
    agents: Seq<AgentView>,
)
    requires
        herdr::agents_in(reply, workspace) == Ok::<Seq<AgentView>, Seq<char>>(agents),
    ensures
        reply.dom().contains("/result/agents"@),
        reply["/result/agents"@] is Array,
        forall|j: int|
            0 <= j < agents.len() ==> exists|i: int|
                0 <= i < reply["/result/agents"@]->Array_0 && #[trigger] lists_agent(
                    reply,
                    i,
                    workspace,
                ) && tells_agent(reply, i, #[trigger] agents[j]),
        forall|i: int|
            0 <= i < reply["/result/agents"@]->Array_0 && #[trigger] lists_agent(
                reply,
                i,
                workspace,
            ) ==> exists|j: int|
                0 <= j < agents.len() && tells_agent(reply, i, #[trigger] agents[j]),
{
    reveal_strlit("/result/agents");
    lemma_items(reply, "/result/agents"@);
    let parts = json::items_at(reply, "/result/agents"@)->0;
    let keep = |entry: Document| herdr::is_agent_of(entry, workspace);
    let read = |entry: Document| herdr::agent_in(entry);
    let kept = parts.filter(keep);
    lemma_kept(parts, keep);
    lemma_read_all(kept, read);
    assert forall|j: int| 0 <= j < agents.len() implies exists|i: int|
        0 <= i < reply["/result/agents"@]->Array_0 && #[trigger] lists_agent(
            reply,
            i,
            workspace,
        ) && tells_agent(reply, i, #[trigger] agents[j]) by {
        assert(read(kept[j]) == Ok::<AgentView, Seq<char>>(agents[j]));
        assert(is_one_of(parts, keep, kept[j]));
        let i = choose|i: int|
            0 <= i < parts.len() && keep(#[trigger] parts[i]) && kept[j] == parts[i];
        lemma_agent(reply, i, workspace);
        assert(lists_agent(reply, i, workspace));
    }
    assert forall|i: int|
        0 <= i < reply["/result/agents"@]->Array_0 && #[trigger] lists_agent(
            reply,
            i,
            workspace,
        ) implies exists|j: int|
        0 <= j < agents.len() && tells_agent(reply, i, #[trigger] agents[j]) by {
        lemma_agent(reply, i, workspace);
        assert(keep(parts[i]));
        let j = parts.take(i).filter(keep).len() as int;
        assert(read(kept[j]) == Ok::<AgentView, Seq<char>>(agents[j]));
        assert(tells_agent(reply, i, agents[j]));
    }
}

/// The first agent that is read out of an agent list is the one that stands first in it: no entry
/// before its own is of an agent in the workspace.
pub proof fn first_agent_stands_first(
    reply: Document,
    workspace: Seq<char>,
    agents: Seq<AgentView>,
    i: int,
)
    requires
        herdr::agents_in(reply, workspace) == Ok::<Seq<AgentView>, Seq<char>>(agents),
        lists_agent(reply, i, workspace),
        0 <= i < reply["/result/agents"@]->Array_0,
        forall|k: int| 0 <= k < i ==> !#[trigger] lists_agent(reply, k, workspace),
    ensures
        agents.len() > 0,
        tells_agent(reply, i, agents[0]),
{
    reveal_strlit("/result/agents");
    lemma_items(reply, "/result/agents"@);
    let parts = json::items_at(reply, "/result/agents"@)->0;
    let keep = |entry: Document| herdr::is_agent_of(entry, workspace);
    let read = |entry: Document| herdr::agent_in(entry);
    let kept = parts.filter(keep);
    lemma_kept(parts, keep);
    lemma_read_all(kept, read);
    lemma_agent(reply, i, workspace);
    assert(keep(parts[i]));
    let start = parts.take(i);
    lemma_kept(start, keep);
    if start.filter(keep).len() > 0 {
        assert(is_one_of(start, keep, start.filter(keep)[0]));
        let k = choose|k: int|
            0 <= k < start.len() && keep(#[trigger] start[k]) && start.filter(keep)[0] == start[k];
        lemma_agent(reply, k, workspace);
        assert(start[k] == parts[k]);
        assert(lists_agent(reply, k, workspace));
    }
    assert(read(kept[0]) == Ok::<AgentView, Seq<char>>(agents[0]));
}

/// The tab that a plugin context names is the text at `/tab_id`, or else that at `/pane/tab_id`, or
/// else that at `/focused_pane/tab_id`, and its working directory is the text at `/workspace_cwd`,
/// or else that at `/focused_pane_cwd`.
pub proof fn context_is_read(told: Document)
    ensures
        context::tab_in(told) == if holds_text(told, "/tab_id"@) {
            Some(told["/tab_id"@]->Text_0)
        } else if holds_text(told, "/pane/tab_id"@) {
            Some(told["/pane/tab_id"@]->Text_0)
        } else if holds_text(told, "/focused_pane/tab_id"@) {
            Some(told["/focused_pane/tab_id"@]->Text_0)
        } else {
            None
        },
        context::cwd_in(told) == if holds_text(told, "/workspace_cwd"@) {
            Some(told["/workspace_cwd"@]->Text_0)
        } else if holds_text(told, "/focused_pane_cwd"@) {
            Some(told["/focused_pane_cwd"@]->Text_0)
        } else {
            None
        },
{
    lemma_read(told, "/tab_id"@);
    lemma_read(told, "/pane/tab_id"@);
    lemma_read(told, "/focused_pane/tab_id"@);
    lemma_read(told, "/workspace_cwd"@);
    lemma_read(told, "/focused_pane_cwd"@);
}

/// A list that cannot be read is reported by the first of its entries that cannot be.
pub proof fn first_faults_are_reported<T>(
    parts: Seq<Document>,
    read: spec_fn(Document) -> Result<T, Seq<char>>,
) -> (i: int)
    requires
        json::read_all(parts, read) is Err,
    ensures
        0 <= i < parts.len(),
        read(parts[i]) is Err,
        json::read_all(parts, read)->Err_0 == read(parts[i])->Err_0,
        forall|j: int| 0 <= j < i ==> read(#[trigger] parts[j]) is Ok,
    decreases parts.len(),
{
    let shorter = parts.drop_last();
    if json::read_all(shorter, read) is Err {
        let i = first_faults_are_reported(shorter, read);
        assert(shorter[i] == parts[i]);
        assert forall|j: int| 0 <= j < i implies read(#[trigger] parts[j]) is Ok by {
            assert(shorter[j] == parts[j]);
        }
        i
    } else {
        lemma_all_read(shorter, read);
        assert forall|j: int| 0 <= j < shorter.len() implies read(#[trigger] parts[j]) is Ok by {
            assert(shorter[j] == parts[j]);
        }
        parts.len() - 1
    }
}

proof fn lemma_all_read<T>(parts: Seq<Document>, read: spec_fn(Document) -> Result<T, Seq<char>>)
    requires
        json::read_all(parts, read) is Ok,
    ensures
        forall|j: int| 0 <= j < parts.len() ==> read(#[trigger] parts[j]) is Ok,
    decreases parts.len(),
{
    if parts.len() > 0 {
        let shorter = parts.drop_last();
        lemma_all_read(shorter, read);
        assert forall|j: int| 0 <= j < parts.len() implies read(#[trigger] parts[j]) is Ok by {
            if j < shorter.len() {
                assert(shorter[j] == parts[j]);
            }
        }
    }
}

/// A layout that is given as text is what its JSON tells, and a text that is no JSON tells of none.
pub proof fn written_layouts_are_read(written: Seq<char>, rects: Seq<RectView>)
    ensures
        herdr::rects_in_text(written) == Ok::<Seq<RectView>, Seq<char>>(rects) <==> {
            &&& json::parsed_text(written) is Ok
            &&& herdr::rects_in(json::parsed_text(written)->Ok_0) == Ok::<
                Seq<RectView>,
                Seq<char>,
            >(rects)
        },
{
}

} // verus!
