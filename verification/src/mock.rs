//! A herdr, and someone who runs it, that answer from a script and write down what they are asked,
//! for rehearsals.

use std::collections::VecDeque;

use vstd::prelude::*;
use vstd::string::StringExecFns;

use crate::cli::{Output, Ran, Runner};
use crate::failure::{self, Failure};
use crate::herdr::{self, AgentInfo, Dir, Herdr, PaneRect, PaneSnapshot};
use crate::log::{self, Call, Entry};
use crate::text::{self, decimal_text, join};

verus! {

/// A rehearsed herdr. Each kind of question has its own queue of answers, and `ops` holds what was
/// asked, one line each.
pub struct MockHerdr {
    pub ops: Vec<String>,
    pub pane_rects_results: VecDeque<Result<Vec<PaneRect>, Failure>>,
    pub tab_of_pane_results: VecDeque<Result<String, Failure>>,
    pub create_tab_results: VecDeque<Result<(String, String), Failure>>,
    pub split_pane_results: VecDeque<Result<String, Failure>>,
    pub pane_alive_results: VecDeque<Result<bool, Failure>>,
    pub list_tabs_results: VecDeque<Result<Vec<String>, Failure>>,
    pub read_pane_results: VecDeque<Result<String, Failure>>,
    pub pane_cwd_results: VecDeque<Result<String, Failure>>,
    pub agents_results: VecDeque<Result<Vec<AgentInfo>, Failure>>,
    pub pane_snapshot_results: VecDeque<Result<PaneSnapshot, Failure>>,
    pub talk: Ghost<Seq<Entry>>,
}

impl Default for MockHerdr {
    /// A herdr without a script.
    fn default() -> (herdr: MockHerdr)
        ensures
            herdr.ops@.len() == 0,
            herdr.pane_rects_results@.len() == 0,
            herdr.tab_of_pane_results@.len() == 0,
            herdr.create_tab_results@.len() == 0,
            herdr.split_pane_results@.len() == 0,
            herdr.pane_alive_results@.len() == 0,
            herdr.list_tabs_results@.len() == 0,
            herdr.read_pane_results@.len() == 0,
            herdr.pane_cwd_results@.len() == 0,
            herdr.agents_results@.len() == 0,
            herdr.pane_snapshot_results@.len() == 0,
            herdr.talk@.len() == 0,
    {
        MockHerdr {
            ops: Vec::new(),
            pane_rects_results: VecDeque::new(),
            tab_of_pane_results: VecDeque::new(),
            create_tab_results: VecDeque::new(),
            split_pane_results: VecDeque::new(),
            pane_alive_results: VecDeque::new(),
            list_tabs_results: VecDeque::new(),
            read_pane_results: VecDeque::new(),
            pane_cwd_results: VecDeque::new(),
            agents_results: VecDeque::new(),
            pane_snapshot_results: VecDeque::new(),
            talk: Ghost(Seq::empty()),
        }
    }
}

/// Whether an answer is the next of a queue, which is then shorter, or the queue is empty and the
/// answer says so.
pub open spec fn scripted<T>(
    before: Seq<Result<T, Failure>>,
    after: Seq<Result<T, Failure>>,
    operation: Seq<char>,
    answer: Result<T, Failure>,
) -> bool {
    if before.len() > 0 {
        answer == before[0] && after == before.drop_first()
    } else {
        &&& answer is Err
        &&& failure::report(answer->Err_0) == "no scripted response for "@ + operation
        &&& after == before
    }
}

/// Take the next answer of a queue.
pub(crate) fn next<T>(queue: &mut VecDeque<Result<T, Failure>>, operation: &str) -> (answer: Result<
    T,
    Failure,
>)
    ensures
        scripted(old(queue)@, final(queue)@, operation@, answer),
{
    match queue.pop_front() {
        Some(answer) => {
            assert(queue@ =~= old(queue)@.drop_first());
            answer
        },
        None => Err(Failure::Unscripted { operation: operation.to_owned() }),
    }
}

/// Someone who runs herdr by a script: `outputs` holds what the runs leave behind, and `lines` the
/// arguments that they were made with, one line each. Once the script is over herdr cannot be
/// started.
pub struct MockRunner {
    pub outputs: VecDeque<Output>,
    pub lines: Vec<String>,
    pub ran: Ghost<Seq<Ran>>,
}

impl MockRunner {
    /// A runner with a script.
    pub fn new(outputs: VecDeque<Output>) -> (runner: MockRunner)
        ensures
            runner.outputs == outputs,
            runner.lines@.len() == 0,
            runner.ran@.len() == 0,
    {
        MockRunner { outputs, lines: Vec::new(), ran: Ghost(Seq::empty()) }
    }
}

impl Runner for MockRunner {
    open spec fn runs(
        &self,
    ) -> Seq<Ran> { self.ran@ } fn run_herdr(&mut self, args: &Vec<String>) -> (output: Output)
        ensures
            final(self).lines@.len() == old(self).lines@.len() + 1,
            final(self).lines@.drop_last() == old(self).lines@,
            final(self).lines@.last()@ == text::joined(text::texts(args@), " "@),
            if old(self).outputs@.len() > 0 {
                &&& output == old(self).outputs@[0]
                &&& final(self).outputs@ == old(self).outputs@.drop_first()
            } else {
                &&& output is NotStarted
                &&& output->reason@ == "not found"@
                &&& final(self).outputs@ == old(self).outputs@
            },
    {
        self.lines.push(join(args, " "));
        assert(self.lines@.drop_last() =~= old(self).lines@);
        let output: Output = match self.outputs.pop_front() {
            Some(output) => output,
            None => Output::NotStarted { reason: "not found".to_owned() },
        };
        assert(old(self).outputs@.len() > 0 ==> self.outputs@
            =~= old(self).outputs@.drop_first());
        self.ran = Ghost(self.ran@.push(Ran { args: text::texts(args@), output }));
        output
    }
}

/// How a direction is written down.
pub open spec fn dir_name(dir: Dir) -> Seq<char> {
    match dir {
        Dir::Right => "Right"@,
        Dir::Down => "Down"@,
    }
}

/// How a truth value is written down.
pub open spec fn flag_name(flag: bool) -> Seq<char> {
    if flag {
        "true"@
    } else {
        "false"@
    }
}

/// How an optional text is written down.
pub open spec fn or_dash(value: Option<Seq<char>>) -> Seq<char> {
    match value {
        Some(value) => value,
        None => "-"@,
    }
}

/// How a question is written down.
pub open spec fn op_text(call: Call) -> Seq<char> {
    match call {
        Call::PaneRects { tab } => "rects "@ + tab,
        Call::TabOfPane { pane } => "tab_of "@ + pane,
        Call::CreateTab { workspace } => "create_tab "@ + workspace,
        Call::MovePane { pane, tab, dir, target, ratio, focus } => "move "@ + pane + " -> tab:"@
            + tab + " dir:"@ + dir_name(dir) + " target:"@ + or_dash(target) + " ratio:"@ + or_dash(
            ratio,
        ) + " focus:"@ + flag_name(focus),
        Call::SplitPane { pane, dir, ratio, focus } => "split "@ + pane + " dir:"@ + dir_name(dir)
            + " ratio:"@ + ratio + " focus:"@ + flag_name(focus),
        Call::OpenSidebarPane { anchor, dir, cwd, focus } => "open_sidebar "@ + anchor + " dir:"@
            + dir_name(dir) + " cwd:"@ + cwd + " focus:"@ + flag_name(focus),
        Call::RunInPane { pane, cmd } => "run "@ + pane + " "@ + cmd,
        Call::ClosePane { pane } => "close "@ + pane,
        Call::PaneAlive { pane } => "alive "@ + pane,
        Call::ListTabs => "list_tabs"@,
        Call::ReadPane { pane, lines } => "read_pane "@ + pane + " "@ + text::decimal(lines as nat),
        Call::PaneCwd { pane } => "pane_cwd "@ + pane,
        Call::Agents { workspace } => "agents "@ + workspace,
        Call::PaneSnapshot { pane } => "pane_snapshot "@ + pane,
        _ => Seq::empty(),
    }
}

/// Whether exactly one question more is written down.
pub open spec fn noted(before: Seq<String>, after: Seq<String>, call: Call) -> bool {
    &&& after.len() == before.len() + 1
    &&& after.drop_last() == before
    &&& after.last()@ == op_text(call)
}

fn name_of(dir: Dir) -> (name: &'static str)
    ensures
        name@ == dir_name(dir),
{
    match dir {
        Dir::Right => "Right",
        Dir::Down => "Down",
    }
}

fn name_flag(flag: bool) -> (name: &'static str)
    ensures
        name@ == flag_name(flag),
{
    if flag {
        "true"
    } else {
        "false"
    }
}

fn dash_or<'a>(value: Option<&'a str>) -> (text: &'a str)
    ensures
        text@ == or_dash(herdr::slice_of(value)),
{
    match value {
        Some(value) => value,
        None => "-",
    }
}

impl Herdr for MockHerdr {
    open spec fn log(&self) -> Seq<Entry> {
        self.talk@
    }

    fn pane_rects(&mut self, tab: &str) -> (answer: Result<Vec<PaneRect>, Failure>)
        ensures
            noted(old(self).ops@, final(self).ops@, final(self).talk@.last().call),
            scripted(
                old(self).pane_rects_results@,
                final(self).pane_rects_results@,
                "pane_rects"@,
                answer,
            ),
            *final(self) == (MockHerdr {
                ops: final(self).ops,
                pane_rects_results: final(self).pane_rects_results,
                talk: final(self).talk,
                ..*old(self)
            }),
    {
        let mut op: String = "rects ".to_owned();
        op.append(tab);
        self.ops.push(op);
        let answer: Result<Vec<PaneRect>, Failure> = next(
            &mut self.pane_rects_results,
            "pane_rects",
        );
        let ghost entry = Entry {
            call: Call::PaneRects { tab: tab@ },
            answer: log::rects_answer(answer),
        };
        self.talk = Ghost(self.talk@.push(entry));
        assert(self.ops@.drop_last() =~= old(self).ops@);
        answer
    }

    fn tab_of_pane(&mut self, pane: &str) -> (answer: Result<String, Failure>)
        ensures
            noted(old(self).ops@, final(self).ops@, final(self).talk@.last().call),
            scripted(
                old(self).tab_of_pane_results@,
                final(self).tab_of_pane_results@,
                "tab_of_pane"@,
                answer,
            ),
            *final(self) == (MockHerdr {
                ops: final(self).ops,
                tab_of_pane_results: final(self).tab_of_pane_results,
                talk: final(self).talk,
                ..*old(self)
            }),
    {
        let mut op: String = "tab_of ".to_owned();
        op.append(pane);
        self.ops.push(op);
        let answer: Result<String, Failure> = next(&mut self.tab_of_pane_results, "tab_of_pane");
        let ghost entry = Entry {
            call: Call::TabOfPane { pane: pane@ },
            answer: log::text_answer(answer),
        };
        self.talk = Ghost(self.talk@.push(entry));
        assert(self.ops@.drop_last() =~= old(self).ops@);
        answer
    }

    fn create_tab(&mut self, workspace: &str) -> (answer: Result<(String, String), Failure>)
        ensures
            noted(old(self).ops@, final(self).ops@, final(self).talk@.last().call),
            scripted(
                old(self).create_tab_results@,
                final(self).create_tab_results@,
                "create_tab"@,
                answer,
            ),
            *final(self) == (MockHerdr {
                ops: final(self).ops,
                create_tab_results: final(self).create_tab_results,
                talk: final(self).talk,
                ..*old(self)
            }),
    {
        let mut op: String = "create_tab ".to_owned();
        op.append(workspace);
        self.ops.push(op);
        let answer: Result<(String, String), Failure> = next(
            &mut self.create_tab_results,
            "create_tab",
        );
        let ghost entry = Entry {
            call: Call::CreateTab { workspace: workspace@ },
            answer: log::tab_answer(answer),
        };
        self.talk = Ghost(self.talk@.push(entry));
        assert(self.ops@.drop_last() =~= old(self).ops@);
        answer
    }

    fn move_pane(
        &mut self,
        pane: &str,
        tab: &str,
        dir: Dir,
        target: Option<&str>,
        ratio: Option<&str>,
        focus: bool,
    ) -> (answer: Result<(), Failure>)
        ensures
            noted(old(self).ops@, final(self).ops@, final(self).talk@.last().call),
            answer is Ok,
            *final(self) == (MockHerdr {
                ops: final(self).ops,
                talk: final(self).talk,
                ..*old(self)
            }),
    {
        let mut op: String = "move ".to_owned();
        op.append(pane);
        op.append(" -> tab:");
        op.append(tab);
        op.append(" dir:");
        op.append(name_of(dir));
        op.append(" target:");
        op.append(dash_or(target));
        op.append(" ratio:");
        op.append(dash_or(ratio));
        op.append(" focus:");
        op.append(name_flag(focus));
        self.ops.push(op);
        let answer: Result<(), Failure> = Ok(());
        let ghost entry = Entry {
            call: Call::MovePane {
                pane: pane@,
                tab: tab@,
                dir,
                target: herdr::slice_of(target),
                ratio: herdr::slice_of(ratio),
                focus,
            },
            answer: log::done_answer(answer),
        };
        self.talk = Ghost(self.talk@.push(entry));
        assert(self.ops@.drop_last() =~= old(self).ops@);
        answer
    }

    fn split_pane(
        &mut self,
        pane: &str,
        dir: Dir,
        ratio: &str,
        focus: bool,
    ) -> (answer: Result<String, Failure>)
        ensures
            noted(old(self).ops@, final(self).ops@, final(self).talk@.last().call),
            scripted(
                old(self).split_pane_results@,
                final(self).split_pane_results@,
                "split_pane"@,
                answer,
            ),
            *final(self) == (MockHerdr {
                ops: final(self).ops,
                split_pane_results: final(self).split_pane_results,
                talk: final(self).talk,
                ..*old(self)
            }),
    {
        let mut op: String = "split ".to_owned();
        op.append(pane);
        op.append(" dir:");
        op.append(name_of(dir));
        op.append(" ratio:");
        op.append(ratio);
        op.append(" focus:");
        op.append(name_flag(focus));
        self.ops.push(op);
        let answer: Result<String, Failure> = next(&mut self.split_pane_results, "split_pane");
        let ghost entry = Entry {
            call: Call::SplitPane { pane: pane@, dir, ratio: ratio@, focus },
            answer: log::text_answer(answer),
        };
        self.talk = Ghost(self.talk@.push(entry));
        assert(self.ops@.drop_last() =~= old(self).ops@);
        answer
    }

    fn open_sidebar_pane(
        &mut self,
        anchor: &str,
        dir: Dir,
        cwd: &str,
        focus: bool,
    ) -> (answer: Result<String, Failure>)
        ensures
            noted(old(self).ops@, final(self).ops@, final(self).talk@.last().call),
            scripted(
                old(self).split_pane_results@,
                final(self).split_pane_results@,
                "open_sidebar_pane"@,
                answer,
            ),
            *final(self) == (MockHerdr {
                ops: final(self).ops,
                split_pane_results: final(self).split_pane_results,
                talk: final(self).talk,
                ..*old(self)
            }),
    {
        let mut op: String = "open_sidebar ".to_owned();
        op.append(anchor);
        op.append(" dir:");
        op.append(name_of(dir));
        op.append(" cwd:");
        op.append(cwd);
        op.append(" focus:");
        op.append(name_flag(focus));
        self.ops.push(op);
        let answer: Result<String, Failure> = next(
            &mut self.split_pane_results,
            "open_sidebar_pane",
        );
        let ghost entry = Entry {
            call: Call::OpenSidebarPane { anchor: anchor@, dir, cwd: cwd@, focus },
            answer: log::text_answer(answer),
        };
        self.talk = Ghost(self.talk@.push(entry));
        assert(self.ops@.drop_last() =~= old(self).ops@);
        answer
    }

    fn run_in_pane(&mut self, pane: &str, cmd: &str) -> (answer: Result<(), Failure>)
        ensures
            noted(old(self).ops@, final(self).ops@, final(self).talk@.last().call),
            answer is Ok,
            *final(self) == (MockHerdr {
                ops: final(self).ops,
                talk: final(self).talk,
                ..*old(self)
            }),
    {
        let mut op: String = "run ".to_owned();
        op.append(pane);
        op.append(" ");
        op.append(cmd);
        self.ops.push(op);
        let answer: Result<(), Failure> = Ok(());
        let ghost entry = Entry {
            call: Call::RunInPane { pane: pane@, cmd: cmd@ },
            answer: log::done_answer(answer),
        };
        self.talk = Ghost(self.talk@.push(entry));
        assert(self.ops@.drop_last() =~= old(self).ops@);
        answer
    }

    fn close_pane(&mut self, pane: &str) -> (answer: Result<(), Failure>)
        ensures
            noted(old(self).ops@, final(self).ops@, final(self).talk@.last().call),
            answer is Ok,
            *final(self) == (MockHerdr {
                ops: final(self).ops,
                talk: final(self).talk,
                ..*old(self)
            }),
    {
        let mut op: String = "close ".to_owned();
        op.append(pane);
        self.ops.push(op);
        let answer: Result<(), Failure> = Ok(());
        let ghost entry = Entry {
            call: Call::ClosePane { pane: pane@ },
            answer: log::done_answer(answer),
        };
        self.talk = Ghost(self.talk@.push(entry));
        assert(self.ops@.drop_last() =~= old(self).ops@);
        answer
    }

    fn pane_alive(&mut self, pane: &str) -> (answer: Result<bool, Failure>)
        ensures
            noted(old(self).ops@, final(self).ops@, final(self).talk@.last().call),
            scripted(
                old(self).pane_alive_results@,
                final(self).pane_alive_results@,
                "pane_alive"@,
                answer,
            ),
            *final(self) == (MockHerdr {
                ops: final(self).ops,
                pane_alive_results: final(self).pane_alive_results,
                talk: final(self).talk,
                ..*old(self)
            }),
    {
        let mut op: String = "alive ".to_owned();
        op.append(pane);
        self.ops.push(op);
        let answer: Result<bool, Failure> = next(&mut self.pane_alive_results, "pane_alive");
        let ghost entry = Entry {
            call: Call::PaneAlive { pane: pane@ },
            answer: log::flag_answer(answer),
        };
        self.talk = Ghost(self.talk@.push(entry));
        assert(self.ops@.drop_last() =~= old(self).ops@);
        answer
    }

    fn list_tabs(&mut self) -> (answer: Result<Vec<String>, Failure>)
        ensures
            noted(old(self).ops@, final(self).ops@, final(self).talk@.last().call),
            scripted(
                old(self).list_tabs_results@,
                final(self).list_tabs_results@,
                "list_tabs"@,
                answer,
            ),
            *final(self) == (MockHerdr {
                ops: final(self).ops,
                list_tabs_results: final(self).list_tabs_results,
                talk: final(self).talk,
                ..*old(self)
            }),
    {
        let op: String = "list_tabs".to_owned();
        self.ops.push(op);
        let answer: Result<Vec<String>, Failure> = next(&mut self.list_tabs_results, "list_tabs");
        let ghost entry = Entry {
            call: Call::ListTabs,
            answer: log::tabs_answer(answer),
        };
        self.talk = Ghost(self.talk@.push(entry));
        assert(self.ops@.drop_last() =~= old(self).ops@);
        answer
    }

    fn read_pane(&mut self, pane: &str, lines: u32) -> (answer: Result<String, Failure>)
        ensures
            noted(old(self).ops@, final(self).ops@, final(self).talk@.last().call),
            scripted(
                old(self).read_pane_results@,
                final(self).read_pane_results@,
                "read_pane"@,
                answer,
            ),
            *final(self) == (MockHerdr {
                ops: final(self).ops,
                read_pane_results: final(self).read_pane_results,
                talk: final(self).talk,
                ..*old(self)
            }),
    {
        let count: String = decimal_text(lines as u128);
        let mut op: String = "read_pane ".to_owned();
        op.append(pane);
        op.append(" ");
        op.append(count.as_str());
        self.ops.push(op);
        let answer: Result<String, Failure> = next(&mut self.read_pane_results, "read_pane");
        let ghost entry = Entry {
            call: Call::ReadPane { pane: pane@, lines },
            answer: log::text_answer(answer),
        };
        self.talk = Ghost(self.talk@.push(entry));
        assert(self.ops@.drop_last() =~= old(self).ops@);
        answer
    }

    fn pane_cwd(&mut self, pane: &str) -> (answer: Result<String, Failure>)
        ensures
            noted(old(self).ops@, final(self).ops@, final(self).talk@.last().call),
            scripted(
                old(self).pane_cwd_results@,
                final(self).pane_cwd_results@,
                "pane_cwd"@,
                answer,
            ),
            *final(self) == (MockHerdr {
                ops: final(self).ops,
                pane_cwd_results: final(self).pane_cwd_results,
                talk: final(self).talk,
                ..*old(self)
            }),
    {
        let mut op: String = "pane_cwd ".to_owned();
        op.append(pane);
        self.ops.push(op);
        let answer: Result<String, Failure> = next(&mut self.pane_cwd_results, "pane_cwd");
        let ghost entry = Entry {
            call: Call::PaneCwd { pane: pane@ },
            answer: log::text_answer(answer),
        };
        self.talk = Ghost(self.talk@.push(entry));
        assert(self.ops@.drop_last() =~= old(self).ops@);
        answer
    }

    fn agents(&mut self, workspace: &str) -> (answer: Result<Vec<AgentInfo>, Failure>)
        ensures
            noted(old(self).ops@, final(self).ops@, final(self).talk@.last().call),
            scripted(
                old(self).agents_results@,
                final(self).agents_results@,
                "agents"@,
                answer,
            ),
            *final(self) == (MockHerdr {
                ops: final(self).ops,
                agents_results: final(self).agents_results,
                talk: final(self).talk,
                ..*old(self)
            }),
    {
        let mut op: String = "agents ".to_owned();
        op.append(workspace);
        self.ops.push(op);
        let answer: Result<Vec<AgentInfo>, Failure> = next(&mut self.agents_results, "agents");
        let ghost entry = Entry {
            call: Call::Agents { workspace: workspace@ },
            answer: log::agents_answer(answer),
        };
        self.talk = Ghost(self.talk@.push(entry));
        assert(self.ops@.drop_last() =~= old(self).ops@);
        answer
    }

    fn pane_snapshot(&mut self, pane: &str) -> (answer: Result<PaneSnapshot, Failure>)
        ensures
            noted(old(self).ops@, final(self).ops@, final(self).talk@.last().call),
            scripted(
                old(self).pane_snapshot_results@,
                final(self).pane_snapshot_results@,
                "pane_snapshot"@,
                answer,
            ),
            *final(self) == (MockHerdr {
                ops: final(self).ops,
                pane_snapshot_results: final(self).pane_snapshot_results,
                talk: final(self).talk,
                ..*old(self)
            }),
    {
        let mut op: String = "pane_snapshot ".to_owned();
        op.append(pane);
        self.ops.push(op);
        let answer: Result<PaneSnapshot, Failure> = next(
            &mut self.pane_snapshot_results,
            "pane_snapshot",
        );
        let ghost entry = Entry {
            call: Call::PaneSnapshot { pane: pane@ },
            answer: log::snapshot_answer(answer),
        };
        self.talk = Ghost(self.talk@.push(entry));
        assert(self.ops@.drop_last() =~= old(self).ops@);
        answer
    }
}

} // verus!
