//! A running herdr, driven through its command line.

use serde_json::Value;
use vstd::prelude::*;

use crate::failure::{self, Failure};
use crate::herdr::{
    self, parse_agents, parse_pane_rects_value, parse_pane_snapshot, parse_places, parse_tabs,
    AgentInfo, AgentView, Dir, Herdr, PaneRect, PaneSnapshot, RectView, SnapshotView,
};
use crate::json::{self, parse_bytes, string_at, Document};
use crate::log::{self, Call, Entry};
use crate::text::{self, args, concat, decimal_text, join, same, trim};
use crate::utf8::{self, lossy};

verus! {

/// What a program that was run for its output left behind.
#[derive(Clone, Debug, PartialEq, Eq)]
pub enum Output {
    /// It could not be started.
    NotStarted { reason: String },
    Finished { success: bool, stdout: Vec<u8>, stderr: Vec<u8> },
}

/// One run of the herdr program: its arguments, and what it left behind.
pub struct Ran {
    pub args: Seq<Seq<char>>,
    pub output: Output,
}

/// Whoever runs the herdr program. Nothing is promised of what it leaves behind.
pub trait Runner {
    /// The runs of the herdr program so far. A runner that is verified says where it keeps this;
    /// for one that is not, it is only spoken of.
    open spec fn runs(&self) -> Seq<Ran> {
        Seq::empty()
    }

    /// Run herdr for its output.
    fn run_herdr(&mut self, args: &Vec<String>) -> (output: Output)
        ensures
            final(self).runs() == old(self).runs().push(
                Ran { args: text::texts(args@), output },
            ),
    ;
}

/// A running herdr, driven through its command line.
pub struct CliHerdr<R: Runner> {
    pub runner: R,
    /// What was asked for so far, and what was answered.
    pub talk: Ghost<Seq<Entry>>,
}

/// A herdr command as it is shown in reports.
pub open spec fn command_text(args: Seq<Seq<char>>) -> Seq<char> {
    "herdr "@ + text::joined(args, " "@)
}

/// The output of a run, or the report of why there is none.
pub open spec fn output_of(args: Seq<Seq<char>>, output: Output) -> Result<Seq<u8>, Seq<char>> {
    match output {
        Output::NotStarted { reason } => Err(
            "failed to run "@ + command_text(args) + ": "@ + reason@,
        ),
        Output::Finished { success, stdout, stderr } => if success {
            Ok(stdout@)
        } else {
            Err(command_text(args) + " failed: "@ + text::trimmed(utf8::lossy_text(stderr@)))
        },
    }
}

/// The JSON that a run answered with, or the report of why there is none.
pub open spec fn reply_of(args: Seq<Seq<char>>, output: Output) -> Result<Document, Seq<char>> {
    match output_of(args, output) {
        Ok(stdout) => match json::parsed_bytes(stdout) {
            Ok(reply) => Ok(reply),
            Err(reason) => Err(
                "failed to parse JSON from herdr "@ + text::joined(args, " "@) + ": "@ + reason,
            ),
        },
        Err(fault) => Err(fault),
    }
}

/// Whether exactly one more run was made, with these arguments.
pub open spec fn ran_once(before: Seq<Ran>, after: Seq<Ran>, args: Seq<Seq<char>>) -> bool {
    &&& after.len() == before.len() + 1
    &&& after.drop_last() == before
    &&& after.last().args == args
}

/// The text that a run showed, or the report of why there is none.
pub open spec fn shown_by(args: Seq<Seq<char>>, output: Output) -> Result<Seq<char>, Seq<char>> {
    match output_of(args, output) {
        Ok(stdout) => Ok(utf8::lossy_text(stdout)),
        Err(fault) => Err(fault),
    }
}

/// The text at a pointer of the reply of a run, or the report of why there is none.
pub open spec fn text_of_reply(
    args: Seq<Seq<char>>,
    output: Output,
    pointer: Seq<char>,
) -> Result<Seq<char>, Seq<char>> {
    match reply_of(args, output) {
        Ok(reply) => json::required_text(reply, pointer),
        Err(fault) => Err(fault),
    }
}

/// The id under which herdr knows this plugin.
pub const PLUGIN_ID: &'static str = "chmarax.herdr-nvim";

/// Listing all panes.
pub open spec fn list_args() -> Seq<Seq<char>> {
    seq!["pane"@, "list"@]
}

/// Telling of one pane.
pub open spec fn get_args(pane: Seq<char>) -> Seq<Seq<char>> {
    seq!["pane"@, "get"@, pane]
}

/// Telling of the layout that a pane is in.
pub open spec fn layout_args(pane: Seq<char>) -> Seq<Seq<char>> {
    seq!["pane"@, "layout"@, "--pane"@, pane]
}

/// Creating a tab without focusing it.
pub open spec fn create_args(workspace: Seq<char>) -> Seq<Seq<char>> {
    seq!["tab"@, "create"@, "--workspace"@, workspace, "--no-focus"@]
}

pub open spec fn focus_arg(focus: bool) -> Seq<char> {
    if focus {
        "--focus"@
    } else {
        "--no-focus"@
    }
}

/// An option with its value, where there is one.
pub open spec fn option_args(name: Seq<char>, value: Option<Seq<char>>) -> Seq<Seq<char>> {
    match value {
        Some(value) => seq![name, value],
        None => Seq::empty(),
    }
}

/// Moving a pane.
pub open spec fn move_args(
    pane: Seq<char>,
    tab: Seq<char>,
    dir: Dir,
    target: Option<Seq<char>>,
    ratio: Option<Seq<char>>,
    focus: bool,
) -> Seq<Seq<char>> {
    (seq!["pane"@, "move"@, pane, "--tab"@, tab, "--split"@, dir.cli_arg()] + option_args(
        "--target-pane"@,
        target,
    ) + option_args("--ratio"@, ratio)).push(focus_arg(focus))
}

/// Splitting a pane.
pub open spec fn split_args(
    pane: Seq<char>,
    dir: Dir,
    ratio: Seq<char>,
    focus: bool,
) -> Seq<Seq<char>> {
    seq![
        "pane"@,
        "split"@,
        pane,
        "--direction"@,
        dir.cli_arg(),
        "--ratio"@,
        ratio,
        focus_arg(focus),
    ]
}

/// Opening the sidebar as a pane of this plugin.
pub open spec fn sidebar_args(
    anchor: Seq<char>,
    dir: Dir,
    cwd: Seq<char>,
    focus: bool,
) -> Seq<Seq<char>> {
    seq![
        "plugin"@,
        "pane"@,
        "open"@,
        "--plugin"@,
        PLUGIN_ID@,
        "--entrypoint"@,
        "sidebar"@,
        "--placement"@,
        "split"@,
        "--target-pane"@,
        anchor,
        "--direction"@,
        dir.cli_arg(),
        "--cwd"@,
        cwd,
        focus_arg(focus),
    ]
}

/// Running a command line in a pane.
pub open spec fn run_args(pane: Seq<char>, cmd: Seq<char>) -> Seq<Seq<char>> {
    seq!["pane"@, "run"@, pane, cmd]
}

/// Closing a pane.
pub open spec fn close_args(pane: Seq<char>) -> Seq<Seq<char>> {
    seq!["pane"@, "close"@, pane]
}

/// Telling of everything that herdr holds.
pub open spec fn snapshot_args() -> Seq<Seq<char>> {
    seq!["api"@, "snapshot"@]
}

/// Reading the last lines of a pane.
pub open spec fn read_args(pane: Seq<char>, lines: u32) -> Seq<Seq<char>> {
    seq![
        "pane"@,
        "read"@,
        pane,
        "--source"@,
        "recent-unwrapped"@,
        "--lines"@,
        text::decimal(lines as nat),
        "--format"@,
        "text"@,
    ]
}

/// Listing the agents.
pub open spec fn agents_args() -> Seq<Seq<char>> {
    seq!["agent"@, "list"@]
}

/// The panes that a listing gives, each with its tab, or the report of what is wrong.
pub open spec fn places_listed(output: Output) -> Result<
    Seq<(Seq<char>, Seq<char>)>,
    Seq<char>,
> {
    match reply_of(list_args(), output) {
        Ok(reply) => herdr::places_in(reply),
        Err(fault) => Err(fault),
    }
}

/// The tab and the pane in it that were created, or the report of what is wrong.
pub open spec fn tab_made(workspace: Seq<char>, output: Output) -> Result<
    (Seq<char>, Seq<char>),
    Seq<char>,
> {
    match reply_of(create_args(workspace), output) {
        Ok(reply) => match json::required_text(reply, "/result/tab/tab_id"@) {
            Ok(tab) => match json::required_text(reply, "/result/root_pane/pane_id"@) {
                Ok(pane) => Ok((tab, pane)),
                Err(fault) => Err(fault),
            },
            Err(fault) => Err(fault),
        },
        Err(fault) => Err(fault),
    }
}

/// The tab that a pane is told to be in, or the report of what is wrong.
pub open spec fn tab_told(pane: Seq<char>, output: Output) -> Result<Seq<char>, Seq<char>> {
    text_of_reply(get_args(pane), output, "/result/pane/tab_id"@)
}

/// The working directory of a pane, or the report of what is wrong.
pub open spec fn cwd_told(pane: Seq<char>, output: Output) -> Result<Seq<char>, Seq<char>> {
    text_of_reply(get_args(pane), output, "/result/pane/foreground_cwd"@)
}

/// The pane that was split off, or the report of what is wrong.
pub open spec fn split_told(
    pane: Seq<char>,
    dir: Dir,
    ratio: Seq<char>,
    focus: bool,
    output: Output,
) -> Result<Seq<char>, Seq<char>> {
    text_of_reply(split_args(pane, dir, ratio, focus), output, "/result/pane/pane_id"@)
}

/// The pane of the sidebar that was opened, or the report of what is wrong.
pub open spec fn sidebar_told(
    anchor: Seq<char>,
    dir: Dir,
    cwd: Seq<char>,
    focus: bool,
    output: Output,
) -> Result<Seq<char>, Seq<char>> {
    text_of_reply(
        sidebar_args(anchor, dir, cwd, focus),
        output,
        "/result/plugin_pane/pane/pane_id"@,
    )
}

/// The tabs that a listing gives, or the report of what is wrong.
pub open spec fn tabs_listed(output: Output) -> Result<Seq<Seq<char>>, Seq<char>> {
    match reply_of(snapshot_args(), output) {
        Ok(reply) => herdr::tabs_in(reply),
        Err(fault) => Err(fault),
    }
}

/// The agents of a workspace that a listing gives, or the report of what is wrong.
pub open spec fn agents_listed(workspace: Seq<char>, output: Output) -> Result<
    Seq<AgentView>,
    Seq<char>,
> {
    match reply_of(agents_args(), output) {
        Ok(reply) => herdr::agents_in(reply, workspace),
        Err(fault) => Err(fault),
    }
}

/// The snapshot of a pane, or the report of what is wrong.
pub open spec fn snapshot_told(pane: Seq<char>, output: Output) -> Result<
    SnapshotView,
    Seq<char>,
> {
    match reply_of(get_args(pane), output) {
        Ok(reply) => herdr::snapshot_in(reply),
        Err(fault) => Err(fault),
    }
}

/// The first pane of a list that is in a tab.
pub open spec fn first_pane(
    places: Seq<(Seq<char>, Seq<char>)>,
    tab: Seq<char>,
) -> Option<Seq<char>>
    decreases places.len(),
{
    if places.len() == 0 {
        None
    } else if places[0].1 == tab {
        Some(places[0].0)
    } else {
        first_pane(places.drop_first(), tab)
    }
}

/// Whether a pane is in a list.
pub open spec fn has_pane(places: Seq<(Seq<char>, Seq<char>)>, pane: Seq<char>) -> bool {
    exists|i: int| 0 <= i < places.len() && (#[trigger] places[i]).0 == pane
}

/// The runs by which the layout of a tab is found: a listing, to find a pane of the tab, and then
/// the layout of that pane.
pub open spec fn rects_ran(
    tab: Seq<char>,
    before: Seq<Ran>,
    after: Seq<Ran>,
    rects: Result<Vec<PaneRect>, Failure>,
) -> bool {
    &&& before.len() < after.len()
    &&& after.take(before.len() as int) == before
    &&& after[before.len() as int].args == list_args()
    &&& match places_listed(after[before.len() as int].output) {
        Err(fault) => {
            &&& after.len() == before.len() + 1
            &&& rects is Err
            &&& failure::report(rects->Err_0) == fault
        },
        Ok(places) => match first_pane(places, tab) {
            None => {
                &&& after.len() == before.len() + 1
                &&& rects is Err
                &&& failure::report(rects->Err_0) == "tab "@ + tab + " has no live panes"@
            },
            Some(pane) => {
                &&& after.len() == before.len() + 2
                &&& after.last().args == layout_args(pane)
                &&& ({
                    let told = match reply_of(layout_args(pane), after.last().output) {
                        Ok(reply) => herdr::rects_in(reply),
                        Err(fault) => Err(fault),
                    };
                    match rects {
                        Ok(rects) => told == Ok::<Seq<RectView>, Seq<char>>(
                            herdr::rects_of(rects@),
                        ),
                        Err(failure) => told == Err::<Seq<RectView>, Seq<char>>(
                            failure::report(failure),
                        ),
                    }
                })
            },
        },
    }
}

/// Take the output of a run that was told to succeed.
pub fn check_output(args: &Vec<String>, output: Output) -> (stdout: Result<Vec<u8>, Failure>)
    ensures
        match stdout {
            Ok(stdout) => output_of(text::texts(args@), output) == Ok::<Seq<u8>, Seq<char>>(
                stdout@,
            ),
            Err(failure) => output_of(text::texts(args@), output) == Err::<Seq<u8>, Seq<char>>(
                failure::report(failure),
            ),
        },
{
    let command: String = concat("herdr ", &join(args, " "));
    match output {
        Output::NotStarted { reason } => Err(Failure::NotStarted { command, reason }),
        Output::Finished { success, stdout, stderr } => if success {
            Ok(stdout)
        } else {
            let text: String = lossy(stderr.as_slice());
            Err(Failure::CommandFailed { command, stderr: trim(&text) })
        },
    }
}

impl<R: Runner> CliHerdr<R> {
    /// The runs of the herdr program so far.
    pub open spec fn ran(&self) -> Seq<Ran> {
        self.runner.runs()
    }

    /// A herdr of which nothing was asked yet.
    pub fn new(runner: R) -> (herdr: CliHerdr<R>)
        ensures
            herdr.runner == runner,
            herdr.talk@.len() == 0,
    {
        CliHerdr { runner, talk: Ghost(Seq::empty()) }
    }

    fn output(&mut self, args: &Vec<String>) -> (stdout: Result<Vec<u8>, Failure>)
        ensures
            final(self).talk@ == old(self).talk@,
            ran_once(old(self).ran(), final(self).ran(), text::texts(args@)),
            match stdout {
                Ok(stdout) => output_of(text::texts(args@), final(self).ran().last().output)
                    == Ok::<Seq<u8>, Seq<char>>(stdout@),
                Err(failure) => output_of(text::texts(args@), final(self).ran().last().output)
                    == Err::<Seq<u8>, Seq<char>>(failure::report(failure)),
            },
    {
        let output: Output = self.runner.run_herdr(args);
        assert(self.ran().drop_last() =~= old(self).ran());
        check_output(args, output)
    }

    fn run(&mut self, args: &Vec<String>) -> (reply: Result<Value, Failure>)
        ensures
            final(self).talk@ == old(self).talk@,
            ran_once(old(self).ran(), final(self).ran(), text::texts(args@)),
            match reply {
                Ok(value) => reply_of(text::texts(args@), final(self).ran().last().output)
                    == Ok::<Document, Seq<char>>(json::nodes(value)),
                Err(failure) => reply_of(text::texts(args@), final(self).ran().last().output)
                    == Err::<Document, Seq<char>>(failure::report(failure)),
            },
    {
        match self.output(args) {
            Ok(stdout) => match parse_bytes(stdout.as_slice()) {
                Ok(value) => Ok(value),
                Err(reason) => Err(Failure::InvalidReply { arguments: join(args, " "), reason }),
            },
            Err(failure) => Err(failure),
        }
    }

    fn run_text(&mut self, args: &Vec<String>) -> (shown: Result<String, Failure>)
        ensures
            final(self).talk@ == old(self).talk@,
            ran_once(old(self).ran(), final(self).ran(), text::texts(args@)),
            failure::told_text(
                shown,
                shown_by(text::texts(args@), final(self).ran().last().output),
            ),
    {
        match self.output(args) {
            Ok(stdout) => Ok(lossy(stdout.as_slice())),
            Err(failure) => Err(failure),
        }
    }

    fn text_from(&mut self, args: &Vec<String>, pointer: &str) -> (found: Result<String, Failure>)
        ensures
            final(self).talk@ == old(self).talk@,
            ran_once(old(self).ran(), final(self).ran(), text::texts(args@)),
            failure::told_text(
                found,
                text_of_reply(text::texts(args@), final(self).ran().last().output, pointer@),
            ),
    {
        match self.run(args) {
            Ok(value) => match string_at(&value, pointer) {
                Ok(found) => Ok(found.to_owned()),
                Err(failure) => Err(failure),
            },
            Err(failure) => Err(failure),
        }
    }

    fn done_by(&mut self, args: &Vec<String>) -> (outcome: Result<(), Failure>)
        ensures
            final(self).talk@ == old(self).talk@,
            ran_once(old(self).ran(), final(self).ran(), text::texts(args@)),
            failure::told_done(
                outcome,
                reply_of(text::texts(args@), final(self).ran().last().output),
            ),
    {
        match self.run(args) {
            Ok(_) => Ok(()),
            Err(failure) => Err(failure),
        }
    }

    fn places(&mut self) -> (places: Result<Vec<(String, String)>, Failure>)
        ensures
            final(self).talk@ == old(self).talk@,
            ran_once(old(self).ran(), final(self).ran(), list_args()),
            match places {
                Ok(places) => places_listed(final(self).ran().last().output) == Ok::<
                    Seq<(Seq<char>, Seq<char>)>,
                    Seq<char>,
                >(herdr::places_of(places@)),
                Err(failure) => places_listed(final(self).ran().last().output) == Err::<
                    Seq<(Seq<char>, Seq<char>)>,
                    Seq<char>,
                >(failure::report(failure)),
            },
    {
        let command: Vec<String> = args(&["pane", "list"]);
        assert(text::texts(command@) =~= list_args());
        match self.run(&command) {
            Ok(value) => parse_places(&value),
            Err(failure) => Err(failure),
        }
    }

    fn rects(&mut self, tab: &str) -> (rects: Result<Vec<PaneRect>, Failure>)
        ensures
            final(self).talk@ == old(self).talk@,
            rects_ran(tab@, old(self).ran(), final(self).ran(), rects),
    {
        let places: Vec<(String, String)> = match self.places() {
            Ok(places) => places,
            Err(failure) => return Err(failure),
        };
        let pane: String = match first_in_tab(&places, tab) {
            Some(pane) => pane,
            None => return Err(Failure::EmptyTab { tab: tab.to_owned() }),
        };
        let command: Vec<String> = args(&["pane", "layout", "--pane", pane.as_str()]);
        assert(text::texts(command@) =~= layout_args(pane@));
        let reply: Result<Value, Failure> = self.run(&command);
        proof {
            let count = old(self).ran().len() as int;
            assert(self.ran()[count] == self.ran().drop_last()[count]);
            assert(self.ran().take(count) =~= self.ran().drop_last().drop_last());
        }
        match reply {
            Ok(value) => parse_pane_rects_value(&value),
            Err(failure) => Err(failure),
        }
    }
}

/// Find the first pane of a list that is in a tab.
fn first_in_tab(places: &Vec<(String, String)>, tab: &str) -> (pane: Option<String>)
    ensures
        text::text_of(pane) == first_pane(herdr::places_of(places@), tab@),
{
    let ghost list = herdr::places_of(places@);
    assert(list.skip(0) =~= list);
    for i in 0..places.len()
        invariant
            list == herdr::places_of(places@),
            first_pane(list, tab@) == first_pane(list.skip(i as int), tab@),
    {
        assert(list.skip(i as int).drop_first() =~= list.skip(i + 1));
        assert(list.skip(i as int)[0] == (places@[i as int].0@, places@[i as int].1@));
        if same(places[i].1.as_str(), tab) {
            return Some(places[i].0.clone());
        }
    }
    None
}

/// Whether a pane is in a list.
fn is_listed(places: &Vec<(String, String)>, pane: &str) -> (answer: bool)
    ensures
        answer == has_pane(herdr::places_of(places@), pane@),
{
    let ghost list = herdr::places_of(places@);
    for i in 0..places.len()
        invariant
            list == herdr::places_of(places@),
            forall|j: int| 0 <= j < i ==> (#[trigger] list[j]).0 != pane@,
    {
        if same(places[i].0.as_str(), pane) {
            assert(list[i as int].0 == pane@);
            return true;
        }
    }
    false
}

fn focus_flag(focus: bool) -> (flag: &'static str)
    ensures
        flag@ == focus_arg(focus),
{
    if focus {
        "--focus"
    } else {
        "--no-focus"
    }
}

impl<R: Runner> Herdr for CliHerdr<R> {
    open spec fn log(&self) -> Seq<Entry> {
        self.talk@
    }

    fn pane_rects(&mut self, tab: &str) -> (answer: Result<Vec<PaneRect>, Failure>)
        ensures
            rects_ran(tab@, old(self).ran(), final(self).ran(), answer),
    {
        let answer: Result<Vec<PaneRect>, Failure> = self.rects(tab);
        self.talk = Ghost(
            self.talk@.push(
                Entry {
                    call: Call::PaneRects { tab: tab@ },
                    answer: log::rects_answer(answer),
                },
            ),
        );
        answer
    }

    fn tab_of_pane(&mut self, pane: &str) -> (answer: Result<String, Failure>)
        ensures
            ran_once(old(self).ran(), final(self).ran(), get_args(pane@)),
            failure::told_text(
                answer,
                tab_told(pane@, final(self).ran().last().output),
            ),
    {
        let command: Vec<String> = args(&["pane", "get", pane]);
        assert(text::texts(command@) =~= get_args(pane@));
        let answer: Result<String, Failure> = self.text_from(&command, "/result/pane/tab_id");
        self.talk = Ghost(
            self.talk@.push(
                Entry {
                    call: Call::TabOfPane { pane: pane@ },
                    answer: log::text_answer(answer),
                },
            ),
        );
        answer
    }

    fn create_tab(&mut self, workspace: &str) -> (answer: Result<(String, String), Failure>)
        ensures
            ran_once(old(self).ran(), final(self).ran(), create_args(workspace@)),
            match answer {
                Ok((tab, pane)) => tab_made(workspace@, final(self).ran().last().output) == Ok::<
                    (Seq<char>, Seq<char>),
                    Seq<char>,
                >((tab@, pane@)),
                Err(failure) => tab_made(workspace@, final(self).ran().last().output) == Err::<
                    (Seq<char>, Seq<char>),
                    Seq<char>,
                >(failure::report(failure)),
            },
    {
        let command: Vec<String> = args(&["tab", "create", "--workspace", workspace, "--no-focus"]);
        assert(text::texts(command@) =~= create_args(workspace@));
        let answer: Result<(String, String), Failure> = match self.run(&command) {
            Ok(value) => match string_at(&value, "/result/tab/tab_id") {
                Ok(tab) => match string_at(&value, "/result/root_pane/pane_id") {
                    Ok(pane) => Ok((tab.to_owned(), pane.to_owned())),
                    Err(failure) => Err(failure),
                },
                Err(failure) => Err(failure),
            },
            Err(failure) => Err(failure),
        };
        self.talk = Ghost(
            self.talk@.push(
                Entry {
                    call: Call::CreateTab { workspace: workspace@ },
                    answer: log::tab_answer(answer),
                },
            ),
        );
        answer
    }

    fn move_pane(
        &mut self,
        pane: &str,
        tab: &str,
        dir: Dir,
        target: Option<&str>,
        ratio: Option<&str>,
        focus: bool,
    ) -> (answer: Result<(), Failure>)
        ensures
            ran_once(
                old(self).ran(),
                final(self).ran(),
                move_args(pane@, tab@, dir, herdr::slice_of(target), herdr::slice_of(ratio), focus),
            ),
            failure::told_done(
                answer,
                reply_of(
                    move_args(
                        pane@,
                        tab@,
                        dir,
                        herdr::slice_of(target),
                        herdr::slice_of(ratio),
                        focus,
                    ),
                    final(self).ran().last().output,
                ),
            ),
    {
        let mut command: Vec<String> = args(
            &["pane", "move", pane, "--tab", tab, "--split", dir.as_cli_arg()],
        );
        let ghost start = seq![
            "pane"@,
            "move"@,
            pane@,
            "--tab"@,
            tab@,
            "--split"@,
            dir.cli_arg(),
        ];
        assert(text::texts(command@) =~= start);
        if let Some(target) = target {
            command.push("--target-pane".to_owned());
            command.push(target.to_owned());
        }
        let ghost placed = start + option_args("--target-pane"@, herdr::slice_of(target));
        assert(text::texts(command@) =~= placed);
        if let Some(ratio) = ratio {
            command.push("--ratio".to_owned());
            command.push(ratio.to_owned());
        }
        let ghost sized = placed + option_args("--ratio"@, herdr::slice_of(ratio));
        assert(text::texts(command@) =~= sized);
        command.push(focus_flag(focus).to_owned());
        assert(text::texts(command@) =~= sized.push(focus_arg(focus)));
        let answer: Result<(), Failure> = self.done_by(&command);
        self.talk = Ghost(
            self.talk@.push(
                Entry {
                    call: Call::MovePane {
                        pane: pane@,
                        tab: tab@,
                        dir,
                        target: herdr::slice_of(target),
                        ratio: herdr::slice_of(ratio),
                        focus,
                    },
                    answer: log::done_answer(answer),
                },
            ),
        );
        answer
    }

    fn split_pane(
        &mut self,
        pane: &str,
        dir: Dir,
        ratio: &str,
        focus: bool,
    ) -> (answer: Result<String, Failure>)
        ensures
            ran_once(old(self).ran(), final(self).ran(), split_args(pane@, dir, ratio@, focus)),
            failure::told_text(
                answer,
                split_told(pane@, dir, ratio@, focus, final(self).ran().last().output),
            ),
    {
        let command: Vec<String> = args(
            &[
                "pane",
                "split",
                pane,
                "--direction",
                dir.as_cli_arg(),
                "--ratio",
                ratio,
                focus_flag(focus),
            ],
        );
        assert(text::texts(command@) =~= split_args(pane@, dir, ratio@, focus));
        let answer: Result<String, Failure> = self.text_from(&command, "/result/pane/pane_id");
        self.talk = Ghost(
            self.talk@.push(
                Entry {
                    call: Call::SplitPane { pane: pane@, dir, ratio: ratio@, focus },
                    answer: log::text_answer(answer),
                },
            ),
        );
        answer
    }

    fn open_sidebar_pane(
        &mut self,
        anchor: &str,
        dir: Dir,
        cwd: &str,
        focus: bool,
    ) -> (answer: Result<String, Failure>)
        ensures
            ran_once(old(self).ran(), final(self).ran(), sidebar_args(anchor@, dir, cwd@, focus)),
            failure::told_text(
                answer,
                sidebar_told(anchor@, dir, cwd@, focus, final(self).ran().last().output),
            ),
    {
        let command: Vec<String> = args(
            &[
                "plugin",
                "pane",
                "open",
                "--plugin",
                PLUGIN_ID,
                "--entrypoint",
                "sidebar",
                "--placement",
                "split",
                "--target-pane",
                anchor,
                "--direction",
                dir.as_cli_arg(),
                "--cwd",
                cwd,
                focus_flag(focus),
            ],
        );
        assert(text::texts(command@) =~= sidebar_args(anchor@, dir, cwd@, focus));
        let answer: Result<String, Failure> = self.text_from(
            &command,
            "/result/plugin_pane/pane/pane_id",
        );
        self.talk = Ghost(
            self.talk@.push(
                Entry {
                    call: Call::OpenSidebarPane { anchor: anchor@, dir, cwd: cwd@, focus },
                    answer: log::text_answer(answer),
                },
            ),
        );
        answer
    }

    fn run_in_pane(&mut self, pane: &str, cmd: &str) -> (answer: Result<(), Failure>)
        ensures
            ran_once(old(self).ran(), final(self).ran(), run_args(pane@, cmd@)),
            failure::told_done(
                answer,
                output_of(run_args(pane@, cmd@), final(self).ran().last().output),
            ),
    {
        let command: Vec<String> = args(&["pane", "run", pane, cmd]);
        assert(text::texts(command@) =~= run_args(pane@, cmd@));
        let answer: Result<(), Failure> = match self.output(&command) {
            Ok(_) => Ok(()),
            Err(failure) => Err(failure),
        };
        self.talk = Ghost(
            self.talk@.push(
                Entry {
                    call: Call::RunInPane { pane: pane@, cmd: cmd@ },
                    answer: log::done_answer(answer),
                },
            ),
        );
        answer
    }

    fn close_pane(&mut self, pane: &str) -> (answer: Result<(), Failure>)
        ensures
            ran_once(old(self).ran(), final(self).ran(), close_args(pane@)),
            failure::told_done(
                answer,
                reply_of(close_args(pane@), final(self).ran().last().output),
            ),
    {
        let command: Vec<String> = args(&["pane", "close", pane]);
        assert(text::texts(command@) =~= close_args(pane@));
        let answer: Result<(), Failure> = self.done_by(&command);
        self.talk = Ghost(
            self.talk@.push(
                Entry {
                    call: Call::ClosePane { pane: pane@ },
                    answer: log::done_answer(answer),
                },
            ),
        );
        answer
    }

    fn pane_alive(&mut self, pane: &str) -> (answer: Result<bool, Failure>)
        ensures
            ran_once(old(self).ran(), final(self).ran(), list_args()),
            match answer {
                Ok(alive) => match places_listed(final(self).ran().last().output) {
                    Ok(places) => alive == has_pane(places, pane@),
                    Err(_) => false,
                },
                Err(failure) => places_listed(final(self).ran().last().output) == Err::<
                    Seq<(Seq<char>, Seq<char>)>,
                    Seq<char>,
                >(failure::report(failure)),
            },
    {
        let answer: Result<bool, Failure> = match self.places() {
            Ok(places) => Ok(is_listed(&places, pane)),
            Err(failure) => Err(failure),
        };
        self.talk = Ghost(
            self.talk@.push(
                Entry {
                    call: Call::PaneAlive { pane: pane@ },
                    answer: log::flag_answer(answer),
                },
            ),
        );
        answer
    }

    fn list_tabs(&mut self) -> (answer: Result<Vec<String>, Failure>)
        ensures
            ran_once(old(self).ran(), final(self).ran(), snapshot_args()),
            match answer {
                Ok(found) => tabs_listed(
                    final(self).ran().last().output,
                ) == Ok::<Seq<Seq<char>>, Seq<char>>(text::texts(found@)),
                Err(failure) => tabs_listed(
                    final(self).ran().last().output,
                ) == Err::<Seq<Seq<char>>, Seq<char>>(failure::report(failure)),
            },
    {
        let command: Vec<String> = args(&["api", "snapshot"]);
        assert(text::texts(command@) =~= snapshot_args());
        let answer: Result<Vec<String>, Failure> = match self.run(&command) {
            Ok(value) => parse_tabs(&value),
            Err(failure) => Err(failure),
        };
        self.talk = Ghost(
            self.talk@.push(
                Entry {
                    call: Call::ListTabs,
                    answer: log::tabs_answer(answer),
                },
            ),
        );
        answer
    }

    fn read_pane(&mut self, pane: &str, lines: u32) -> (answer: Result<String, Failure>)
        ensures
            ran_once(old(self).ran(), final(self).ran(), read_args(pane@, lines)),
            failure::told_text(
                answer,
                shown_by(read_args(pane@, lines), final(self).ran().last().output),
            ),
    {
        let count: String = decimal_text(lines as u128);
        let command: Vec<String> = args(
            &[
                "pane",
                "read",
                pane,
                "--source",
                "recent-unwrapped",
                "--lines",
                count.as_str(),
                "--format",
                "text",
            ],
        );
        assert(text::texts(command@) =~= read_args(pane@, lines));
        let answer: Result<String, Failure> = self.run_text(&command);
        self.talk = Ghost(
            self.talk@.push(
                Entry {
                    call: Call::ReadPane { pane: pane@, lines },
                    answer: log::text_answer(answer),
                },
            ),
        );
        answer
    }

    fn pane_cwd(&mut self, pane: &str) -> (answer: Result<String, Failure>)
        ensures
            ran_once(old(self).ran(), final(self).ran(), get_args(pane@)),
            failure::told_text(
                answer,
                cwd_told(pane@, final(self).ran().last().output),
            ),
    {
        let command: Vec<String> = args(&["pane", "get", pane]);
        assert(text::texts(command@) =~= get_args(pane@));
        let answer: Result<String, Failure> = self.text_from(
            &command,
            "/result/pane/foreground_cwd",
        );
        self.talk = Ghost(
            self.talk@.push(
                Entry {
                    call: Call::PaneCwd { pane: pane@ },
                    answer: log::text_answer(answer),
                },
            ),
        );
        answer
    }

    fn agents(&mut self, workspace: &str) -> (answer: Result<Vec<AgentInfo>, Failure>)
        ensures
            ran_once(old(self).ran(), final(self).ran(), agents_args()),
            match answer {
                Ok(found) => agents_listed(
                    workspace@,
                    final(self).ran().last().output,
                ) == Ok::<Seq<AgentView>, Seq<char>>(herdr::agents_of(found@)),
                Err(failure) => agents_listed(
                    workspace@,
                    final(self).ran().last().output,
                ) == Err::<Seq<AgentView>, Seq<char>>(failure::report(failure)),
            },
    {
        let command: Vec<String> = args(&["agent", "list"]);
        assert(text::texts(command@) =~= agents_args());
        let answer: Result<Vec<AgentInfo>, Failure> = match self.run(&command) {
            Ok(value) => parse_agents(&value, workspace),
            Err(failure) => Err(failure),
        };
        self.talk = Ghost(
            self.talk@.push(
                Entry {
                    call: Call::Agents { workspace: workspace@ },
                    answer: log::agents_answer(answer),
                },
            ),
        );
        answer
    }

    fn pane_snapshot(&mut self, pane: &str) -> (answer: Result<PaneSnapshot, Failure>)
        ensures
            ran_once(old(self).ran(), final(self).ran(), get_args(pane@)),
            match answer {
                Ok(found) => snapshot_told(
                    pane@,
                    final(self).ran().last().output,
                ) == Ok::<SnapshotView, Seq<char>>(found@),
                Err(failure) => snapshot_told(
                    pane@,
                    final(self).ran().last().output,
                ) == Err::<SnapshotView, Seq<char>>(failure::report(failure)),
            },
    {
        let command: Vec<String> = args(&["pane", "get", pane]);
        assert(text::texts(command@) =~= get_args(pane@));
        let answer: Result<PaneSnapshot, Failure> = match self.run(&command) {
            Ok(value) => parse_pane_snapshot(&value),
            Err(failure) => Err(failure),
        };
        self.talk = Ghost(
            self.talk@.push(
                Entry {
                    call: Call::PaneSnapshot { pane: pane@ },
                    answer: log::snapshot_answer(answer),
                },
            ),
        );
        answer
    }
}

} // verus!
