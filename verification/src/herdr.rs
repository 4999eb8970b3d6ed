//! herdr's panes, tabs and agents, and what its replies say of them.

use serde_json::Value;
use vstd::prelude::*;

use crate::failure::{self, Failure};
use crate::json::{self, find_flag, find_items, find_text, string_at, u32_at, Document};
use crate::json::parse_text;
use crate::log::{self, Call, Entry};
use crate::text::{self, same};

verus! {

/// A pane of a tab and the cells that it covers, counted from the corner of the tab.
#[derive(Clone, Debug, PartialEq, Eq)]
pub struct PaneRect {
    pub pane_id: String,
    pub x: u32,
    pub y: u32,
    pub w: u32,
    pub h: u32,
}

/// A pane rectangle, with its pane id as characters.
pub struct RectView {
    pub pane_id: Seq<char>,
    pub x: u32,
    pub y: u32,
    pub w: u32,
    pub h: u32,
}

impl View for PaneRect {
    type V = RectView;

    open spec fn view(&self) -> RectView {
        RectView { pane_id: self.pane_id@, x: self.x, y: self.y, w: self.w, h: self.h }
    }
}

/// The rectangles of a list, as their views.
pub open spec fn rects_of(list: Seq<PaneRect>) -> Seq<RectView> {
    list.map_values(|rect: PaneRect| rect@)
}

/// An agent pane that `herdr agent list` reports.
#[derive(Clone, Debug, PartialEq, Eq)]
pub struct AgentInfo {
    pub pane_id: String,
    /// The tab that the agent lives in, so that the agent in the same tab as the focused pane can
    /// be preferred over one elsewhere in the workspace, which may work in another repository.
    pub tab_id: String,
    pub focused: bool,
}

/// An agent, with its ids as characters.
pub struct AgentView {
    pub pane_id: Seq<char>,
    pub tab_id: Seq<char>,
    pub focused: bool,
}

impl View for AgentInfo {
    type V = AgentView;

    open spec fn view(&self) -> AgentView {
        AgentView { pane_id: self.pane_id@, tab_id: self.tab_id@, focused: self.focused }
    }
}

/// The agents of a list, as their views.
pub open spec fn agents_of(list: Seq<AgentInfo>) -> Seq<AgentView> {
    list.map_values(|agent: AgentInfo| agent@)
}

/// The session that an agent keeps.
#[derive(Clone, Debug, PartialEq, Eq)]
pub struct AgentSession {
    pub agent: String,
    pub kind: String,
    pub value: String,
}

/// An agent session, as characters.
pub struct SessionView {
    pub agent: Seq<char>,
    pub kind: Seq<char>,
    pub value: Seq<char>,
}

impl View for AgentSession {
    type V = SessionView;

    open spec fn view(&self) -> SessionView {
        SessionView { agent: self.agent@, kind: self.kind@, value: self.value@ }
    }
}

/// An optional agent session, as its view.
pub open spec fn session_of(session: Option<AgentSession>) -> Option<SessionView> {
    match session {
        Some(session) => Some(session@),
        None => None,
    }
}

/// How far a pane can be scrolled, from `herdr pane get`.
#[derive(Clone, Copy, Debug, PartialEq, Eq)]
pub struct PaneScroll {
    pub viewport_rows: u32,
    pub max_offset_from_bottom: u32,
}

impl PaneScroll {
    /// The number of lines that herdr holds: the live screen and the scrollback behind it.
    pub open spec fn held_lines(self) -> int {
        self.viewport_rows + self.max_offset_from_bottom
    }

    /// The number of lines that herdr can serve cheaply.
    ///
    /// Asking `pane read` for more makes herdr drive the application's own scrolling to recover
    /// history, which moves an alternate-screen program visibly and takes some 40 ms a line.
    pub fn cheap_read_limit(self) -> (lines: u32)
        ensures
            lines == if self.held_lines() <= u32::MAX {
                self.held_lines()
            } else {
                u32::MAX as int
            },
    {
        self.viewport_rows.saturating_add(self.max_offset_from_bottom)
    }
}

/// The working directory, agent session and scrolling of a pane, from one `herdr pane get`.
#[derive(Clone, Debug, PartialEq, Eq)]
pub struct PaneSnapshot {
    pub cwd: String,
    pub agent_session: Option<AgentSession>,
    pub scroll: Option<PaneScroll>,
}

/// A pane snapshot, with its texts as characters.
pub struct SnapshotView {
    pub cwd: Seq<char>,
    pub agent_session: Option<SessionView>,
    pub scroll: Option<PaneScroll>,
}

impl View for PaneSnapshot {
    type V = SnapshotView;

    open spec fn view(&self) -> SnapshotView {
        SnapshotView {
            cwd: self.cwd@,
            agent_session: session_of(self.agent_session),
            scroll: self.scroll,
        }
    }
}

/// Where herdr splits a pane: to its right or below it.
#[derive(Clone, Copy, Debug, PartialEq, Eq, Structural)]
pub enum Dir {
    Right,
    Down,
}

impl Dir {
    /// The word for a direction on herdr's command line.
    pub open spec fn cli_arg(self) -> Seq<char> {
        match self {
            Dir::Right => "right"@,
            Dir::Down => "down"@,
        }
    }

    /// The word for this direction on herdr's command line.
    pub fn as_cli_arg(self) -> (word: &'static str)
        ensures
            word@ == self.cli_arg(),
    {
        match self {
            Dir::Right => "right",
            Dir::Down => "down",
        }
    }
}

/// The agent session that a `pane get` reply tells of.
pub open spec fn session_in(reply: Document) -> Option<SessionView> {
    match json::at(reply, "/result/pane/agent_session"@) {
        Some(part) => match (
            json::text_at(part, "/agent"@),
            json::text_at(part, "/kind"@),
            json::text_at(part, "/value"@),
        ) {
            (Some(agent), Some(kind), Some(value)) => Some(SessionView { agent, kind, value }),
            _ => None,
        },
        None => None,
    }
}

/// The 32-bit integer at a pointer, if there is one.
pub open spec fn small_at(document: Document, pointer: Seq<char>) -> Option<u32> {
    match json::required_u32(document, pointer) {
        Ok(number) => Some(number),
        Err(_) => None,
    }
}

/// The scrolling that a `pane get` reply tells of.
pub open spec fn scroll_in(reply: Document) -> Option<PaneScroll> {
    match json::at(reply, "/result/pane/scroll"@) {
        Some(part) => match (
            small_at(part, "/viewport_rows"@),
            small_at(part, "/max_offset_from_bottom"@),
        ) {
            (Some(viewport_rows), Some(max_offset_from_bottom)) => Some(
                PaneScroll { viewport_rows, max_offset_from_bottom },
            ),
            _ => None,
        },
        None => None,
    }
}

/// The snapshot that a `pane get` reply gives, or the report of what it lacks.
pub open spec fn snapshot_in(reply: Document) -> Result<SnapshotView, Seq<char>> {
    match json::required_text(reply, "/result/pane/foreground_cwd"@) {
        Ok(cwd) => Ok(
            SnapshotView { cwd, agent_session: session_in(reply), scroll: scroll_in(reply) },
        ),
        Err(fault) => Err(fault),
    }
}

/// Take the agent session out of a `pane get` reply. A reply without one, from an older herdr or
/// for a pane that keeps none, is no failure.
pub fn parse_agent_session(value: &Value) -> (session: Option<AgentSession>)
    ensures
        session_of(session) == session_in(json::nodes(*value)),
{
    match value.pointer("/result/pane/agent_session") {
        Some(node) => match (
            find_text(node, "/agent"),
            find_text(node, "/kind"),
            find_text(node, "/value"),
        ) {
            (Some(agent), Some(kind), Some(value)) => Some(
                AgentSession {
                    agent: agent.to_owned(),
                    kind: kind.to_owned(),
                    value: value.to_owned(),
                },
            ),
            _ => None,
        },
        None => None,
    }
}

/// Take the scrolling out of a `pane get` reply. A reply without it is no failure.
pub fn parse_pane_scroll(value: &Value) -> (scroll: Option<PaneScroll>)
    ensures
        scroll == scroll_in(json::nodes(*value)),
{
    match value.pointer("/result/pane/scroll") {
        Some(node) => match (
            u32_at(node, "/viewport_rows"),
            u32_at(node, "/max_offset_from_bottom"),
        ) {
            (Ok(viewport_rows), Ok(max_offset_from_bottom)) => Some(
                PaneScroll { viewport_rows, max_offset_from_bottom },
            ),
            _ => None,
        },
        None => None,
    }
}

/// Take the working directory, the agent session and the scrolling out of one `pane get` reply.
/// Only the working directory has to be there.
pub fn parse_pane_snapshot(value: &Value) -> (snapshot: Result<PaneSnapshot, Failure>)
    ensures
        match snapshot {
            Ok(snapshot) => snapshot_in(
                json::nodes(*value),
            ) == Ok::<SnapshotView, Seq<char>>(snapshot@),
            Err(failure) => snapshot_in(json::nodes(*value)) == Err::<SnapshotView, Seq<char>>(
                failure::report(failure),
            ),
        },
{
    match string_at(value, "/result/pane/foreground_cwd") {
        Ok(cwd) => Ok(
            PaneSnapshot {
                cwd: cwd.to_owned(),
                agent_session: parse_agent_session(value),
                scroll: parse_pane_scroll(value),
            },
        ),
        Err(failure) => Err(failure),
    }
}

/// The rectangle that one pane of a layout covers, counted from the corner of the layout's area,
/// or the report of the first thing that is wrong with it.
pub open spec fn rect_in(pane: Document, origin_x: u32, origin_y: u32) -> Result<
    RectView,
    Seq<char>,
> {
    match json::required_u32(pane, "/rect/x"@) {
        Err(fault) => Err(fault),
        Ok(x) => match json::required_u32(pane, "/rect/y"@) {
            Err(fault) => Err(fault),
            Ok(y) => match json::required_text(pane, "/pane_id"@) {
                Err(fault) => Err(fault),
                Ok(pane_id) => if x < origin_x {
                    Err("pane rect x is outside the layout area"@)
                } else if y < origin_y {
                    Err("pane rect y is outside the layout area"@)
                } else {
                    match json::required_u32(pane, "/rect/width"@) {
                        Err(fault) => Err(fault),
                        Ok(w) => match json::required_u32(pane, "/rect/height"@) {
                            Err(fault) => Err(fault),
                            Ok(h) => Ok(
                                RectView {
                                    pane_id,
                                    x: (x - origin_x) as u32,
                                    y: (y - origin_y) as u32,
                                    w,
                                    h,
                                },
                            ),
                        },
                    }
                },
            },
        },
    }
}

/// The rectangles of a `pane layout` reply, or the report of the first thing that is wrong.
pub open spec fn rects_in(reply: Document) -> Result<Seq<RectView>, Seq<char>> {
    match json::at(reply, "/result/layout"@) {
        None => Err("pane layout response missing result.layout"@),
        Some(layout) => match json::required_u32(layout, "/area/x"@) {
            Err(fault) => Err(fault),
            Ok(origin_x) => match json::required_u32(layout, "/area/y"@) {
                Err(fault) => Err(fault),
                Ok(origin_y) => match json::items_at(layout, "/panes"@) {
                    None => Err("pane layout response missing result.layout.panes array"@),
                    Some(panes) => json::read_all(
                        panes,
                        |pane: Document| rect_in(pane, origin_x, origin_y),
                    ),
                },
            },
        },
    }
}

fn parse_pane_rect(pane: &Value, origin_x: u32, origin_y: u32) -> (rect: Result<PaneRect, Failure>)
    ensures
        match rect {
            Ok(rect) => rect_in(
                json::nodes(*pane),
                origin_x,
                origin_y,
            ) == Ok::<RectView, Seq<char>>(
                rect@,
            ),
            Err(failure) => rect_in(
                json::nodes(*pane),
                origin_x,
                origin_y,
            ) == Err::<RectView, Seq<char>>(
                failure::report(failure),
            ),
        },
{
    let x: u32 = match u32_at(pane, "/rect/x") {
        Ok(x) => x,
        Err(failure) => return Err(failure),
    };
    let y: u32 = match u32_at(pane, "/rect/y") {
        Ok(y) => y,
        Err(failure) => return Err(failure),
    };
    let pane_id: String = match string_at(pane, "/pane_id") {
        Ok(pane_id) => pane_id.to_owned(),
        Err(failure) => return Err(failure),
    };
    if x < origin_x {
        return Err(Failure::LeftOfArea);
    }
    if y < origin_y {
        return Err(Failure::AboveArea);
    }
    let w: u32 = match u32_at(pane, "/rect/width") {
        Ok(w) => w,
        Err(failure) => return Err(failure),
    };
    let h: u32 = match u32_at(pane, "/rect/height") {
        Ok(h) => h,
        Err(failure) => return Err(failure),
    };
    Ok(PaneRect { pane_id, x: x - origin_x, y: y - origin_y, w, h })
}

/// Take the rectangles out of a parsed `pane layout` reply.
pub fn parse_pane_rects_value(value: &Value) -> (rects: Result<Vec<PaneRect>, Failure>)
    ensures
        match rects {
            Ok(rects) => rects_in(json::nodes(*value)) == Ok::<Seq<RectView>, Seq<char>>(
                rects_of(rects@),
            ),
            Err(failure) => rects_in(json::nodes(*value)) == Err::<Seq<RectView>, Seq<char>>(
                failure::report(failure),
            ),
        },
{
    let layout: &Value = match value.pointer("/result/layout") {
        Some(layout) => layout,
        None => return Err(Failure::NoLayout),
    };
    let origin_x: u32 = match u32_at(layout, "/area/x") {
        Ok(x) => x,
        Err(failure) => return Err(failure),
    };
    let origin_y: u32 = match u32_at(layout, "/area/y") {
        Ok(y) => y,
        Err(failure) => return Err(failure),
    };
    let panes: &Vec<Value> = match find_items(layout, "/panes") {
        Some(panes) => panes,
        None => return Err(Failure::NoLayoutPanes),
    };
    let ghost parts = json::documents(panes@);
    let ghost read = |pane: Document| rect_in(pane, origin_x, origin_y);
    let mut rects: Vec<PaneRect> = Vec::new();
    assert(rects_of(rects@) =~= Seq::empty());
    for i in 0..panes.len()
        invariant
            parts == json::documents(panes@),
            read == (|pane: Document| rect_in(pane, origin_x, origin_y)),
            json::read_all(parts.take(i as int), read) == Ok::<Seq<RectView>, Seq<char>>(
                rects_of(rects@),
            ),
            rects_in(json::nodes(*value)) == json::read_all(parts, read),
    {
        let ghost before = rects@;
        proof {
            assert(parts.take(i + 1).drop_last() =~= parts.take(i as int));
        }
        match parse_pane_rect(&panes[i], origin_x, origin_y) {
            Ok(rect) => {
                rects.push(rect);
                assert(rects_of(rects@) =~= rects_of(before).push(rect@));
            },
            Err(failure) => {
                proof {
                    lemma_fault_stays(parts, read, i + 1);
                }
                return Err(failure);
            },
        }
    }
    assert(parts.take(parts.len() as int) =~= parts);
    Ok(rects)
}

/// A part that cannot be read keeps the whole list from being read, with the same report.
pub proof fn lemma_fault_stays<T>(
    parts: Seq<Document>,
    read: spec_fn(Document) -> Result<T,
    Seq<char>>, count: int,
)
    requires
        0 <= count <= parts.len(),
        json::read_all(parts.take(count), read) is Err,
    ensures
        json::read_all(parts, read) == json::read_all(parts.take(count), read),
    decreases parts.len() - count,
{
    if count < parts.len() {
        assert(parts.take(count + 1).drop_last() =~= parts.take(count));
        lemma_fault_stays(parts, read, count + 1);
    } else {
        assert(parts.take(count) =~= parts);
    }
}

/// The rectangles that a `pane layout` reply gives as text, or the report of what is wrong.
pub open spec fn rects_in_text(json: Seq<char>) -> Result<Seq<RectView>, Seq<char>> {
    match json::parsed_text(json) {
        Ok(reply) => rects_in(reply),
        Err(reason) => Err("invalid pane layout JSON: "@ + reason),
    }
}

/// Take the rectangles out of the text of a `pane layout` reply.
pub fn parse_pane_rects(json: &str) -> (rects: Result<Vec<PaneRect>, Failure>)
    ensures
        match rects {
            Ok(rects) => rects_in_text(json@) == Ok::<Seq<RectView>, Seq<char>>(rects_of(rects@)),
            Err(failure) => rects_in_text(json@) == Err::<Seq<RectView>, Seq<char>>(
                failure::report(failure),
            ),
        },
{
    match parse_text(json) {
        Ok(value) => parse_pane_rects_value(&value),
        Err(reason) => Err(Failure::InvalidLayout { reason }),
    }
}

/// The pane and tab ids of one entry of a pane list, or the report of what it lacks.
pub open spec fn place_in(pane: Document) -> Result<(Seq<char>, Seq<char>), Seq<char>> {
    match json::required_text(pane, "/pane_id"@) {
        Err(fault) => Err(fault),
        Ok(pane_id) => match json::required_text(pane, "/tab_id"@) {
            Err(fault) => Err(fault),
            Ok(tab_id) => Ok((pane_id, tab_id)),
        },
    }
}

/// The panes of a `pane list` reply, each with its tab, or the report of what is wrong.
pub open spec fn places_in(reply: Document) -> Result<Seq<(Seq<char>, Seq<char>)>, Seq<char>> {
    match json::items_at(reply, "/result/panes"@) {
        None => Err("herdr pane list response missing result.panes array"@),
        Some(panes) => json::read_all(panes, |pane: Document| place_in(pane)),
    }
}

/// The pairs of a list, as characters.
pub open spec fn places_of(list: Seq<(String, String)>) -> Seq<(Seq<char>, Seq<char>)> {
    list.map_values(|place: (String, String)| (place.0@, place.1@))
}

fn parse_place(pane: &Value) -> (place: Result<(String, String), Failure>)
    ensures
        match place {
            Ok(place) => place_in(json::nodes(*pane)) == Ok::<(Seq<char>, Seq<char>), Seq<char>>(
                (place.0@, place.1@),
            ),
            Err(failure) => place_in(json::nodes(*pane)) == Err::<
                (Seq<char>, Seq<char>),
                Seq<char>,
            >(failure::report(failure)),
        },
{
    let pane_id: String = match string_at(pane, "/pane_id") {
        Ok(pane_id) => pane_id.to_owned(),
        Err(failure) => return Err(failure),
    };
    match string_at(pane, "/tab_id") {
        Ok(tab_id) => Ok((pane_id, tab_id.to_owned())),
        Err(failure) => Err(failure),
    }
}

/// Take the panes, each with its tab, out of a `pane list` reply.
pub fn parse_places(value: &Value) -> (places: Result<Vec<(String, String)>, Failure>)
    ensures
        match places {
            Ok(places) => places_in(json::nodes(*value)) == Ok::<
                Seq<(Seq<char>, Seq<char>)>,
                Seq<char>,
            >(places_of(places@)),
            Err(failure) => places_in(json::nodes(*value)) == Err::<
                Seq<(Seq<char>, Seq<char>)>,
                Seq<char>,
            >(failure::report(failure)),
        },
{
    let panes: &Vec<Value> = match find_items(value, "/result/panes") {
        Some(panes) => panes,
        None => return Err(Failure::NoPanes),
    };
    let ghost parts = json::documents(panes@);
    let ghost read = |pane: Document| place_in(pane);
    let mut places: Vec<(String, String)> = Vec::new();
    assert(places_of(places@) =~= Seq::empty());
    for i in 0..panes.len()
        invariant
            parts == json::documents(panes@),
            read == (|pane: Document| place_in(pane)),
            json::read_all(parts.take(i as int), read) == Ok::<
                Seq<(Seq<char>, Seq<char>)>,
                Seq<char>,
            >(places_of(places@)),
            places_in(json::nodes(*value)) == json::read_all(parts, read),
    {
        let ghost before = places@;
        proof {
            assert(parts.take(i + 1).drop_last() =~= parts.take(i as int));
        }
        match parse_place(&panes[i]) {
            Ok(place) => {
                places.push(place);
                assert(places_of(places@) =~= places_of(before).push((place.0@, place.1@)));
            },
            Err(failure) => {
                proof {
                    lemma_fault_stays(parts, read, i + 1);
                }
                return Err(failure);
            },
        }
    }
    assert(parts.take(parts.len() as int) =~= parts);
    Ok(places)
}

/// The tabs of an `api snapshot` reply, or the report of what is wrong.
pub open spec fn tabs_in(reply: Document) -> Result<Seq<Seq<char>>, Seq<char>> {
    match json::items_at(reply, "/result/snapshot/tabs"@) {
        None => Err("herdr api snapshot response missing result.snapshot.tabs array"@),
        Some(tabs) => json::read_all(tabs, |tab: Document| json::required_text(tab, "/tab_id"@)),
    }
}

/// Take the ids of all tabs out of an `api snapshot` reply.
pub fn parse_tabs(value: &Value) -> (tabs: Result<Vec<String>, Failure>)
    ensures
        match tabs {
            Ok(tabs) => tabs_in(json::nodes(*value)) == Ok::<Seq<Seq<char>>, Seq<char>>(
                text::texts(tabs@),
            ),
            Err(failure) => tabs_in(json::nodes(*value)) == Err::<Seq<Seq<char>>, Seq<char>>(
                failure::report(failure),
            ),
        },
{
    let items: &Vec<Value> = match find_items(value, "/result/snapshot/tabs") {
        Some(items) => items,
        None => return Err(Failure::NoTabs),
    };
    let ghost parts = json::documents(items@);
    let ghost read = |tab: Document| json::required_text(tab, "/tab_id"@);
    let mut tabs: Vec<String> = Vec::new();
    assert(text::texts(tabs@) =~= Seq::empty());
    for i in 0..items.len()
        invariant
            parts == json::documents(items@),
            read == (|tab: Document| json::required_text(tab, "/tab_id"@)),
            json::read_all(parts.take(i as int), read) == Ok::<Seq<Seq<char>>, Seq<char>>(
                text::texts(tabs@),
            ),
            tabs_in(json::nodes(*value)) == json::read_all(parts, read),
    {
        let ghost before = tabs@;
        proof {
            assert(parts.take(i + 1).drop_last() =~= parts.take(i as int));
        }
        match string_at(&items[i], "/tab_id") {
            Ok(tab) => {
                tabs.push(tab.to_owned());
                assert(text::texts(tabs@) =~= text::texts(before).push(tab@));
            },
            Err(failure) => {
                proof {
                    lemma_fault_stays(parts, read, i + 1);
                }
                return Err(failure);
            },
        }
    }
    assert(parts.take(parts.len() as int) =~= parts);
    Ok(tabs)
}

/// Whether an entry of an agent list is an agent of a workspace. herdr lists panes without an
/// agent too; those carry no agent label.
pub open spec fn is_agent_of(entry: Document, workspace: Seq<char>) -> bool {
    &&& json::text_at(entry, "/agent"@) is Some
    &&& json::text_at(entry, "/workspace_id"@) == Some(workspace)
}

/// The agent that an entry of an agent list tells of, or the report of what it lacks.
pub open spec fn agent_in(entry: Document) -> Result<AgentView, Seq<char>> {
    match json::required_text(entry, "/pane_id"@) {
        Err(fault) => Err(fault),
        Ok(pane_id) => Ok(
            AgentView {
                pane_id,
                tab_id: match json::text_at(entry, "/tab_id"@) {
                    Some(tab_id) => tab_id,
                    None => Seq::empty(),
                },
                focused: json::flag_at(entry, "/focused"@) == Some(true),
            },
        ),
    }
}

/// The agents of a workspace in an `agent list` reply, or the report of what is wrong.
pub open spec fn agents_in(reply: Document, workspace: Seq<char>) -> Result<
    Seq<AgentView>,
    Seq<char>,
> {
    match json::items_at(reply, "/result/agents"@) {
        None => Err("herdr agent list response missing result.agents array"@),
        Some(entries) => json::read_all(
            entries.filter(|entry: Document| is_agent_of(entry, workspace)),
            |entry: Document| agent_in(entry),
        ),
    }
}

fn agent_of(entry: &Value, workspace: &str) -> (answer: bool)
    ensures
        answer == is_agent_of(json::nodes(*entry), workspace@),
{
    if find_text(entry, "/agent").is_none() {
        return false;
    }
    match find_text(entry, "/workspace_id") {
        Some(found) => same(found, workspace),
        None => false,
    }
}

fn parse_agent(entry: &Value) -> (agent: Result<AgentInfo, Failure>)
    ensures
        match agent {
            Ok(agent) => agent_in(json::nodes(*entry)) == Ok::<AgentView, Seq<char>>(agent@),
            Err(failure) => agent_in(json::nodes(*entry)) == Err::<AgentView, Seq<char>>(
                failure::report(failure),
            ),
        },
{
    match string_at(entry, "/pane_id") {
        Ok(pane_id) => {
            let tab_id: String = match find_text(entry, "/tab_id") {
                Some(tab_id) => tab_id.to_owned(),
                None => String::new(),
            };
            let focused: bool = match find_flag(entry, "/focused") {
                Some(focused) => focused,
                None => false,
            };
            Ok(AgentInfo { pane_id: pane_id.to_owned(), tab_id, focused })
        },
        Err(failure) => Err(failure),
    }
}

/// What is kept of the start of a list is a start of what is kept of the whole list.
proof fn lemma_filter_start(parts: Seq<Document>, keep: spec_fn(Document) -> bool, count: int)
    requires
        0 <= count <= parts.len(),
    ensures
        parts.take(count).filter(keep).len() <= parts.filter(keep).len(),
        parts.filter(keep).take(parts.take(count).filter(keep).len() as int) == parts.take(
            count,
        ).filter(keep),
    decreases parts.len() - count,
{
    reveal(Seq::filter);
    if count < parts.len() {
        lemma_filter_start(parts, keep, count + 1);
        let longer = parts.take(count + 1);
        assert(longer.drop_last() =~= parts.take(count));
        let kept = parts.take(count).filter(keep);
        assert(longer.filter(keep).take(kept.len() as int) =~= kept);
        assert(parts.filter(keep).take(kept.len() as int) =~= parts.filter(keep).take(
            longer.filter(keep).len() as int,
        ).take(kept.len() as int));
    } else {
        assert(parts.take(count) =~= parts);
        assert(parts.filter(keep).take(parts.filter(keep).len() as int) =~= parts.filter(keep));
    }
}

/// Take the agents of a workspace out of an `agent list` reply.
pub fn parse_agents(value: &Value, workspace: &str) -> (agents: Result<Vec<AgentInfo>, Failure>)
    ensures
        match agents {
            Ok(agents) => agents_in(json::nodes(*value), workspace@) == Ok::<
                Seq<AgentView>,
                Seq<char>,
            >(agents_of(agents@)),
            Err(failure) => agents_in(json::nodes(*value), workspace@) == Err::<
                Seq<AgentView>,
                Seq<char>,
            >(failure::report(failure)),
        },
{
    let entries: &Vec<Value> = match find_items(value, "/result/agents") {
        Some(entries) => entries,
        None => return Err(Failure::NoAgentList),
    };
    let ghost parts = json::documents(entries@);
    let ghost keep = |entry: Document| is_agent_of(entry, workspace@);
    let ghost read = |entry: Document| agent_in(entry);
    let mut agents: Vec<AgentInfo> = Vec::new();
    proof {
        assert(agents_of(agents@) =~= Seq::empty());
        reveal(Seq::filter);
        assert(parts.take(0).filter(keep) =~= Seq::empty());
    }
    for i in 0..entries.len()
        invariant
            parts == json::documents(entries@),
            keep == (|entry: Document| is_agent_of(entry, workspace@)),
            read == (|entry: Document| agent_in(entry)),
            json::read_all(parts.take(i as int).filter(keep), read) == Ok::<
                Seq<AgentView>,
                Seq<char>,
            >(agents_of(agents@)),
            agents_in(json::nodes(*value), workspace@) == json::read_all(parts.filter(keep), read),
    {
        let ghost before = agents@;
        let ghost kept = parts.take(i as int).filter(keep);
        proof {
            reveal(Seq::filter);
            assert(parts.take(i + 1).drop_last() =~= parts.take(i as int));
            assert(parts.take(i + 1).last() == json::nodes(entries@[i as int]));
        }
        if agent_of(&entries[i], workspace) {
            let ghost longer = parts.take(i + 1).filter(keep);
            assert(longer.drop_last() =~= kept);
            match parse_agent(&entries[i]) {
                Ok(agent) => {
                    agents.push(agent);
                    assert(agents_of(agents@) =~= agents_of(before).push(agent@));
                },
                Err(failure) => {
                    proof {
                        lemma_filter_start(parts, keep, i + 1);
                        lemma_fault_stays(parts.filter(keep), read, longer.len() as int);
                    }
                    return Err(failure);
                },
            }
        }
    }
    assert(parts.take(parts.len() as int) =~= parts);
    Ok(agents)
}

/// A running herdr.
///
/// Each operation is one exchange, and `log` holds all exchanges so far. Nothing is promised of
/// an answer: the functions that use a herdr hold for every one of them.
pub trait Herdr {
    spec fn log(&self) -> Seq<Entry>;

    /// The panes of a tab and where they lie.
    fn pane_rects(&mut self, tab: &str) -> (answer: Result<Vec<PaneRect>, Failure>)
        ensures
            final(self).log() == old(self).log().push(
                Entry {
                    call: Call::PaneRects { tab: tab@ },
                    answer: log::rects_answer(answer),
                },
            ),
    ;

    /// The tab that a pane is in.
    fn tab_of_pane(&mut self, pane: &str) -> (answer: Result<String, Failure>)
        ensures
            final(self).log() == old(self).log().push(
                Entry {
                    call: Call::TabOfPane { pane: pane@ },
                    answer: log::text_answer(answer),
                },
            ),
    ;

    /// Create a tab without focusing it, and give its id and that of its one pane.
    fn create_tab(&mut self, workspace: &str) -> (answer: Result<(String, String), Failure>)
        ensures
            final(self).log() == old(self).log().push(
                Entry {
                    call: Call::CreateTab { workspace: workspace@ },
                    answer: log::tab_answer(answer),
                },
            ),
    ;

    /// Move a pane into a tab, next to `target` where one is given.
    fn move_pane(
        &mut self,
        pane: &str,
        tab: &str,
        dir: Dir,
        target: Option<&str>,
        ratio: Option<&str>,
        focus: bool,
    ) -> (answer: Result<(), Failure>)
        ensures
            final(self).log() == old(self).log().push(
                Entry {
                    call: Call::MovePane {
                        pane: pane@,
                        tab: tab@,
                        dir,
                        target: slice_of(target),
                        ratio: slice_of(ratio),
                        focus,
                    },
                    answer: log::done_answer(answer),
                },
            ),
    ;

    /// Split a pane and give the id of the new one.
    fn split_pane(
        &mut self,
        pane: &str,
        dir: Dir,
        ratio: &str,
        focus: bool,
    ) -> (answer: Result<String, Failure>)
        ensures
            final(self).log() == old(self).log().push(
                Entry {
                    call: Call::SplitPane { pane: pane@, dir, ratio: ratio@, focus },
                    answer: log::text_answer(answer),
                },
            ),
    ;

    /// Open the sidebar as a plugin pane split off `anchor`, and give its id. A plugin pane starts
    /// without a shell, so no command line is echoed in it.
    fn open_sidebar_pane(
        &mut self,
        anchor: &str,
        dir: Dir,
        cwd: &str,
        focus: bool,
    ) -> (answer: Result<String, Failure>)
        ensures
            final(self).log() == old(self).log().push(
                Entry {
                    call: Call::OpenSidebarPane { anchor: anchor@, dir, cwd: cwd@, focus },
                    answer: log::text_answer(answer),
                },
            ),
    ;

    /// Run a command line in a pane.
    fn run_in_pane(&mut self, pane: &str, cmd: &str) -> (answer: Result<(), Failure>)
        ensures
            final(self).log() == old(self).log().push(
                Entry {
                    call: Call::RunInPane { pane: pane@, cmd: cmd@ },
                    answer: log::done_answer(answer),
                },
            ),
    ;

    /// Close a pane.
    fn close_pane(&mut self, pane: &str) -> (answer: Result<(), Failure>)
        ensures
            final(self).log() == old(self).log().push(
                Entry {
                    call: Call::ClosePane { pane: pane@ },
                    answer: log::done_answer(answer),
                },
            ),
    ;

    /// Whether a pane exists.
    fn pane_alive(&mut self, pane: &str) -> (answer: Result<bool, Failure>)
        ensures
            final(self).log() == old(self).log().push(
                Entry {
                    call: Call::PaneAlive { pane: pane@ },
                    answer: log::flag_answer(answer),
                },
            ),
    ;

    /// The ids of all tabs of all workspaces.
    fn list_tabs(&mut self) -> (answer: Result<Vec<String>, Failure>)
        ensures
            final(self).log() == old(self).log().push(
                Entry {
                    call: Call::ListTabs,
                    answer: log::tabs_answer(answer),
                },
            ),
    ;

    /// The last lines of a pane's output as plain text, at most `lines` of them.
    fn read_pane(&mut self, pane: &str, lines: u32) -> (answer: Result<String, Failure>)
        ensures
            final(self).log() == old(self).log().push(
                Entry {
                    call: Call::ReadPane { pane: pane@, lines },
                    answer: log::text_answer(answer),
                },
            ),
    ;

    /// The working directory of what runs in a pane.
    fn pane_cwd(&mut self, pane: &str) -> (answer: Result<String, Failure>)
        ensures
            final(self).log() == old(self).log().push(
                Entry {
                    call: Call::PaneCwd { pane: pane@ },
                    answer: log::text_answer(answer),
                },
            ),
    ;

    /// The agent panes of a workspace.
    fn agents(&mut self, workspace: &str) -> (answer: Result<Vec<AgentInfo>, Failure>)
        ensures
            final(self).log() == old(self).log().push(
                Entry {
                    call: Call::Agents { workspace: workspace@ },
                    answer: log::agents_answer(answer),
                },
            ),
    ;

    /// The working directory, agent session and scrolling of a pane, in one exchange.
    fn pane_snapshot(&mut self, pane: &str) -> (answer: Result<PaneSnapshot, Failure>)
        ensures
            final(self).log() == old(self).log().push(
                Entry {
                    call: Call::PaneSnapshot { pane: pane@ },
                    answer: log::snapshot_answer(answer),
                },
            ),
    ;
}

/// The characters of an optional borrowed text.
pub open spec fn slice_of(text: Option<&str>) -> Option<Seq<char>> {
    match text {
        Some(text) => Some(text@),
        None => None,
    }
}

} // verus!
