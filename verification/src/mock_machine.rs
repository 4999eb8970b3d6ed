//! A machine that lives in memory, for rehearsals.

use std::collections::VecDeque;

use vstd::prelude::*;
use vstd::string::StringExecFns;

use crate::candidates::{
    self, copied_candidates, copied_stats, BuildInput, Candidate, CandidateView, DiffStat, Handoff,
    InputView, Mined,
};
use crate::config::{Config, ConfigView, Picker, Sidebar, SidebarPosition, SidebarView};
use crate::failure::{self, Failure};
use crate::herdr::{self, AgentSession, PaneRect};
use crate::host::Machine;
use crate::log::{self, Answer, Call, Entry, Exit, Part, Removal};
use crate::mock::{self, next};
use crate::path::{self, join};
use crate::sidebar_lock::Guard;
use crate::state::{self, copied_option, RebuildPlan, StateFile, StateView};
use crate::text::{self, concat, contains, copied, same};

verus! {

/// A machine that lives in memory, and writes down what is done to it.
pub struct MockMachine {
    /// The records of tabs.
    pub records: Vec<StateFile>,
    /// Whether records are lost as soon as they are put down.
    pub forgetful: bool,
    /// Whether records lose the sidebar that they name.
    pub careless: bool,
    /// The records that were put down, in order.
    pub saved: Vec<StateFile>,
    /// Whether the lock was held each time a record was put down.
    pub held_while_saving: Vec<bool>,
    pub config: Config,
    /// The plans to hand out, in order.
    pub plans: VecDeque<Result<RebuildPlan, Failure>>,
    /// Whether there is a directory for editor daemons.
    pub daemons: bool,
    /// The tabs whose daemons were spared, each time that daemons were stopped.
    pub collected: Vec<Vec<String>>,
    pub collecting_fails: bool,
    /// Where the lock is.
    pub lock_dir: String,
    /// Whether the directory of the lock stands.
    pub locked: bool,
    /// Where the plugin is installed.
    pub root: String,
    /// The socket of every editor daemon.
    pub socket: String,
    /// How the programs that are run end, in order. Once this is empty they succeed.
    pub exits: VecDeque<Exit>,
    /// The programs that were run, one line each.
    pub ran: Vec<String>,
    pub warnings: Vec<String>,
    /// The files that there are.
    pub files: Vec<String>,
    /// The root of the git worktree that every directory is in.
    pub toplevel: Option<String>,
    /// The directories whose worktree was asked for.
    pub toplevel_asked: Vec<String>,
    /// The text of every session record.
    pub session: Option<String>,
    /// The files that every session record tells of.
    pub touches: Vec<String>,
    pub first_op_unix: Option<u64>,
    /// The agents and the session records that were mined.
    pub mined: Vec<(String, String)>,
    /// What git tells of files that differ from the last commit.
    pub dirty: Option<Vec<String>>,
    /// What git tells of files that were committed.
    pub committed: Option<Vec<String>>,
    /// The times since which commits were asked for.
    pub commits_asked: Vec<u64>,
    /// What git tells of changes.
    pub stats: Option<Vec<DiffStat>>,
    /// What git tells of all files.
    pub all_files: Option<Vec<String>>,
    /// What every text mentions.
    pub scraped: Vec<Candidate>,
    /// What candidates were built from.
    pub inputs: Vec<BuildInput>,
    /// Where every handoff is written.
    pub handoff_path: String,
    /// The handoffs that were written.
    pub written: Vec<Handoff>,
    /// The handoff to read.
    pub handoff: Option<Handoff>,
    /// How the removal of every file ends.
    pub removal: Removal,
    /// The files that were removed.
    pub removed: Vec<String>,
    /// The parts that were run.
    pub parts: Vec<Part>,
    pub talk: Ghost<Seq<Entry>>,
}

impl Default for MockMachine {
    /// A machine with nothing on it.
    fn default() -> (machine: MockMachine)
        ensures
            machine.records@.len() == 0,
            !machine.forgetful,
            !machine.careless,
            machine.saved@.len() == 0,
            machine.held_while_saving@.len() == 0,
            machine.config@ == (ConfigView {
                sidebar: SidebarView { position: SidebarPosition::Right, editor: "nvim"@ },
                picker: Picker { scan_lines: 300, max_files: 15 },
            }),
            machine.plans@.len() == 0,
            !machine.daemons,
            machine.collected@.len() == 0,
            !machine.collecting_fails,
            machine.lock_dir@ == "/tmp/lock"@,
            !machine.locked,
            machine.root@ == "/plugin"@,
            machine.socket@ == "/run/t1.sock"@,
            machine.exits@.len() == 0,
            machine.ran@.len() == 0,
            machine.warnings@.len() == 0,
            machine.files@.len() == 0,
            machine.toplevel is None,
            machine.toplevel_asked@.len() == 0,
            machine.session is None,
            machine.touches@.len() == 0,
            machine.first_op_unix is None,
            machine.mined@.len() == 0,
            machine.dirty is None,
            machine.committed is None,
            machine.commits_asked@.len() == 0,
            machine.stats is None,
            machine.all_files is None,
            machine.scraped@.len() == 0,
            machine.inputs@.len() == 0,
            machine.handoff_path@ == "/tmp/h.json"@,
            machine.written@.len() == 0,
            machine.handoff is None,
            machine.removal == Removal::Removed,
            machine.removed@.len() == 0,
            machine.parts@.len() == 0,
            machine.talk@.len() == 0,
    {
        MockMachine {
            records: Vec::new(),
            forgetful: false,
            careless: false,
            saved: Vec::new(),
            held_while_saving: Vec::new(),
            config: Config {
                sidebar: Sidebar { position: SidebarPosition::Right, editor: "nvim".to_owned() },
                picker: Picker { scan_lines: 300, max_files: 15 },
            },
            plans: VecDeque::new(),
            daemons: false,
            collected: Vec::new(),
            collecting_fails: false,
            lock_dir: "/tmp/lock".to_owned(),
            locked: false,
            root: "/plugin".to_owned(),
            socket: "/run/t1.sock".to_owned(),
            exits: VecDeque::new(),
            ran: Vec::new(),
            warnings: Vec::new(),
            files: Vec::new(),
            toplevel: None,
            toplevel_asked: Vec::new(),
            session: None,
            touches: Vec::new(),
            first_op_unix: None,
            mined: Vec::new(),
            dirty: None,
            committed: None,
            commits_asked: Vec::new(),
            stats: None,
            all_files: None,
            scraped: Vec::new(),
            inputs: Vec::new(),
            handoff_path: "/tmp/h.json".to_owned(),
            written: Vec::new(),
            handoff: None,
            removal: Removal::Removed,
            removed: Vec::new(),
            parts: Vec::new(),
            talk: Ghost(Seq::empty()),
        }
    }
}

/// The records of a list, as their views.
pub open spec fn states_of(list: Seq<StateFile>) -> Seq<StateView> {
    list.map_values(|state: StateFile| state@)
}

/// The first record of a list that is of a tab.
pub open spec fn recorded(list: Seq<StateView>, tab: Seq<char>) -> Option<StateView>
    decreases list.len(),
{
    if list.len() == 0 {
        None
    } else if list[0].tab == tab {
        Some(list[0])
    } else {
        recorded(list.drop_first(), tab)
    }
}

/// The records of a list that are not of a tab.
pub open spec fn without_tab(list: Seq<StateView>, tab: Seq<char>) -> Seq<StateView> {
    list.filter(|state: StateView| state.tab != tab)
}

/// The records of a machine once one more is put down.
pub open spec fn kept(machine: MockMachine, state: StateView) -> Seq<StateView> {
    let others = without_tab(states_of(machine.records@), state.tab);
    if machine.forgetful {
        others
    } else if machine.careless {
        others.push(StateView { sidebar_pane: None, ..state })
    } else {
        others.push(state)
    }
}

/// Take the records of a tab out of a list.
fn drop_record(list: &Vec<StateFile>, tab: &str) -> (left: Vec<StateFile>)
    ensures
        states_of(left@) == without_tab(states_of(list@), tab@),
{
    let ghost all = states_of(list@);
    let ghost keep = |state: StateView| state.tab != tab@;
    let mut left: Vec<StateFile> = Vec::new();
    assert(all.take(0).filter(keep) =~= Seq::empty()) by {
        reveal(Seq::filter);
    }
    assert(states_of(left@) =~= Seq::empty());
    for i in 0..list.len()
        invariant
            all == states_of(list@),
            keep == (|state: StateView| state.tab != tab@),
            states_of(left@) == all.take(i as int).filter(keep),
    {
        let ghost before = left@;
        proof {
            reveal(Seq::filter);
            assert(all.take(i + 1).drop_last() =~= all.take(i as int));
            assert(all.take(i + 1).last() == list@[i as int]@);
        }
        if !same(list[i].tab.as_str(), tab) {
            let record: StateFile = list[i].copy();
            left.push(record);
            assert(states_of(left@) =~= states_of(before).push(record@));
        }
    }
    assert(all.take(list@.len() as int) =~= all);
    left
}

/// Whether a list is another one with this line added.
pub open spec fn added(before: Seq<String>, after: Seq<String>, line: Seq<char>) -> bool {
    &&& after.len() == before.len() + 1
    &&& after.drop_last() == before
    &&& after.last()@ == line
}

/// How the start of an editor daemon is written down.
pub open spec fn daemon_line(
    tab: Seq<char>,
    root: Seq<char>,
    config: ConfigView,
    cwd: Seq<char>,
) -> Seq<char> {
    "daemon "@ + tab + " "@ + root + " "@ + cwd + " "@ + config.sidebar.editor
}

/// How the run of a program is written down.
pub open spec fn run_line(program: Seq<char>, args: Seq<Seq<char>>, quiet: bool) -> Seq<char> {
    program + " "@ + text::joined(args, " "@) + if quiet {
        " quiet"@
    } else {
        ""@
    }
}

fn written_run(program: &str, args: &Vec<String>, quiet: bool) -> (line: String)
    ensures
        line@ == run_line(program@, text::texts(args@), quiet),
{
    let line: String = concat(&concat(program, " "), &text::join(args, " "));
    concat(&line, if quiet {
        " quiet"
    } else {
        ""
    })
}

/// Whether an exit is the next of a queue, which is then shorter, or the queue is empty and the
/// exit a success.
pub open spec fn ended(before: Seq<Exit>, after: Seq<Exit>, exit: Exit) -> bool {
    if before.len() > 0 {
        exit == before[0] && after == before.drop_first()
    } else {
        &&& exit is Finished
        &&& exit->success
        &&& exit->status@ == "exit status: 0"@
        &&& after == before
    }
}

fn next_exit(exits: &mut VecDeque<Exit>) -> (exit: Exit)
    ensures
        ended(old(exits)@, final(exits)@, exit),
{
    match exits.pop_front() {
        Some(exit) => {
            assert(exits@ =~= old(exits)@.drop_first());
            exit
        },
        None => Exit::Finished { success: true, status: "exit status: 0".to_owned() },
    }
}

/// Whether a list of paths is a copy of another, where there is one.
pub open spec fn is_copy(paths: Option<Vec<String>>, copy: Option<Vec<String>>) -> bool {
    match copy {
        Some(copy) => paths is Some && copy@ == paths->0@,
        None => paths is None,
    }
}

fn copied_paths(paths: &Option<Vec<String>>) -> (copy: Option<Vec<String>>)
    ensures
        is_copy(*paths, copy),
{
    match paths {
        Some(paths) => Some(copied(paths)),
        None => None,
    }
}

/// What a text mentions, seen from a directory: the files among it that there are.
pub open spec fn mentioned(machine: MockMachine, cwd: Seq<char>) -> Seq<CandidateView> {
    candidates::candidates_of(machine.scraped@).filter(
        |candidate: CandidateView|
            text::texts(machine.files@).contains(path::joined(cwd, candidate.path)),
    )
}

/// Whether a path is that of a file in the worktree of the input.
pub open spec fn is_worktree_file(
    machine: MockMachine,
    input: InputView,
    file: Seq<char>,
) -> bool {
    &&& input.toplevel is Some
    &&& path::is_within(file, input.toplevel->0)
    &&& text::texts(machine.files@).contains(path::joined(input.cwd, file))
}

/// The candidates that are built: what was mentioned, and then the dirty files of the worktree.
pub open spec fn built(machine: MockMachine, input: InputView) -> Seq<CandidateView> {
    input.scraped_mentioned + input.git_dirty.filter(
        |file: Seq<char>| is_worktree_file(machine, input, file),
    ).map_values(|file: Seq<char>| CandidateView { path: file, line: None })
}

impl MockMachine {
    /// The record of a tab, if there is one.
    pub fn record(&self, tab: &str) -> (found: Option<StateFile>)
        ensures
            state::state_of(found) == recorded(states_of(self.records@), tab@),
    {
        let ghost all = states_of(self.records@);
        assert(all.skip(0) =~= all);
        for i in 0..self.records.len()
            invariant
                all == states_of(self.records@),
                recorded(all, tab@) == recorded(all.skip(i as int), tab@),
        {
            assert(all.skip(i as int).drop_first() =~= all.skip(i + 1));
            assert(all.skip(i as int)[0] == self.records@[i as int]@);
            if same(self.records[i].tab.as_str(), tab) {
                return Some(self.records[i].copy());
            }
        }
        None
    }

    fn existing(&self, cwd: &str) -> (found: Vec<Candidate>)
        ensures
            candidates::candidates_of(found@) == mentioned(*self, cwd@),
    {
        let ghost all = candidates::candidates_of(self.scraped@);
        let ghost keep = |candidate: CandidateView|
            text::texts(self.files@).contains(path::joined(cwd@, candidate.path));
        let mut found: Vec<Candidate> = Vec::new();
        assert(all.take(0).filter(keep) =~= Seq::empty()) by {
            reveal(Seq::filter);
        }
        assert(candidates::candidates_of(found@) =~= Seq::empty());
        for i in 0..self.scraped.len()
            invariant
                all == candidates::candidates_of(self.scraped@),
                keep == (|candidate: CandidateView|
                    text::texts(self.files@).contains(path::joined(cwd@, candidate.path))),
                candidates::candidates_of(found@) == all.take(i as int).filter(keep),
        {
            let ghost before = found@;
            proof {
                reveal(Seq::filter);
                assert(all.take(i + 1).drop_last() =~= all.take(i as int));
                assert(all.take(i + 1).last() == self.scraped@[i as int]@);
            }
            if contains(&self.files, join(cwd, self.scraped[i].path.as_str()).as_str()) {
                let candidate: Candidate = self.scraped[i].copy();
                found.push(candidate);
                assert(candidates::candidates_of(found@) =~= candidates::candidates_of(before).push(
                    candidate@,
                ));
            }
        }
        assert(all.take(self.scraped@.len() as int) =~= all);
        found
    }

    fn offered(&self, input: &BuildInput) -> (found: Vec<Candidate>)
        ensures
            candidates::candidates_of(found@) == built(*self, input@),
    {
        let ghost dirty = text::texts(input.git_dirty@);
        let ghost keep = |file: Seq<char>| is_worktree_file(*self, input@, file);
        let ghost show = |file: Seq<char>| CandidateView { path: file, line: None };
        let ghost start = input@.scraped_mentioned;
        let mut found: Vec<Candidate> = copied_candidates(&input.scraped_mentioned);
        assert(dirty.take(0).filter(keep) =~= Seq::empty()) by {
            reveal(Seq::filter);
        }
        assert(start + dirty.take(0).filter(keep).map_values(show) =~= start);
        for i in 0..input.git_dirty.len()
            invariant
                dirty == text::texts(input.git_dirty@),
                keep == (|file: Seq<char>| is_worktree_file(*self, input@, file)),
                show == (|file: Seq<char>| CandidateView { path: file, line: None }),
                start == input@.scraped_mentioned,
                candidates::candidates_of(found@) == start + dirty.take(i as int).filter(
                    keep,
                ).map_values(show),
        {
            let ghost before = found@;
            let file: &str = input.git_dirty[i].as_str();
            proof {
                reveal(Seq::filter);
                assert(dirty.take(i + 1).drop_last() =~= dirty.take(i as int));
                assert(dirty.take(i + 1).last() == file@);
            }
            if input.in_git_worktree(file) && contains(&self.files, input.place_of(file).as_str()) {
                let candidate: Candidate = Candidate { path: file.to_owned(), line: None };
                found.push(candidate);
                proof {
                    let chosen = dirty.take(i as int).filter(keep);
                    assert(candidate@ == show(file@));
                    assert(candidates::candidates_of(found@) =~= candidates::candidates_of(
                        before,
                    ).push(candidate@));
                    assert(chosen.push(file@).map_values(show) =~= chosen.map_values(show).push(
                        show(file@),
                    ));
                    assert(start + chosen.map_values(show).push(show(file@)) =~= (start
                        + chosen.map_values(show)).push(show(file@)));
                }
            }
        }
        assert(dirty.take(dirty.len() as int) =~= dirty);
        found
    }
}

impl Machine for MockMachine {
    open spec fn log(&self) -> Seq<Entry> {
        self.talk@
    }

    fn load_state(&mut self, tab: &str) -> (answer: Result<Option<StateFile>, Failure>)
        ensures
            answer is Ok,
            state::state_of(answer->Ok_0) == recorded(states_of(old(self).records@), tab@),
            *final(self) == (MockMachine {
                talk: final(self).talk,
                ..*old(self)
            }),
    {
        let answer: Result<Option<StateFile>, Failure> = Ok(self.record(tab));
        let ghost entry = Entry {
            call: Call::LoadState { tab: tab@ },
            answer: log::state_answer(answer),
        };
        self.talk = Ghost(self.talk@.push(entry));
        answer
    }

    fn save_state(&mut self, state: &StateFile) -> (answer: Result<(), Failure>)
        ensures
            answer is Ok,
            states_of(final(self).records@) == kept(*old(self), state@),
            states_of(final(self).saved@) == states_of(old(self).saved@).push(state@),
            final(self).held_while_saving@ == old(self).held_while_saving@.push(old(self).locked),
            *final(self) == (MockMachine {
                records: final(self).records,
                saved: final(self).saved,
                held_while_saving: final(self).held_while_saving,
                talk: final(self).talk,
                ..*old(self)
            }),
    {
        let mut left: Vec<StateFile> = drop_record(&self.records, state.tab.as_str());
        let ghost others = left@;
        if !self.forgetful {
            let mut record: StateFile = state.copy();
            if self.careless {
                record.sidebar_pane = None;
            }
            left.push(record);
            assert(states_of(left@) =~= states_of(others).push(record@));
        }
        self.records = left;
        self.saved.push(state.copy());
        assert(states_of(self.saved@) =~= states_of(old(self).saved@).push(state@));
        self.held_while_saving.push(self.locked);
        let answer: Result<(), Failure> = Ok(());
        let ghost entry = Entry {
            call: Call::SaveState { state: state@ },
            answer: log::done_answer(answer),
        };
        self.talk = Ghost(self.talk@.push(entry));
        answer
    }

    fn remove_state(&mut self, tab: &str) -> (answer: Result<(), Failure>)
        ensures
            answer is Ok,
            states_of(final(self).records@) == without_tab(states_of(old(self).records@), tab@),
            *final(self) == (MockMachine {
                records: final(self).records,
                talk: final(self).talk,
                ..*old(self)
            }),
    {
        self.records = drop_record(&self.records, tab);
        let answer: Result<(), Failure> = Ok(());
        let ghost entry = Entry {
            call: Call::RemoveState { tab: tab@ },
            answer: log::done_answer(answer),
        };
        self.talk = Ghost(self.talk@.push(entry));
        answer
    }

    fn load_config(&mut self) -> (answer: Config)
        ensures
            answer@ == old(self).config@,
            *final(self) == (MockMachine {
                talk: final(self).talk,
                ..*old(self)
            }),
    {
        let answer: Config = self.config.copy();
        let ghost entry = Entry {
            call: Call::LoadConfig,
            answer: Answer::Settings(answer),
        };
        self.talk = Ghost(self.talk@.push(entry));
        answer
    }

    fn has_daemons(&mut self) -> (answer: bool)
        ensures
            answer == old(self).daemons,
            *final(self) == (MockMachine {
                talk: final(self).talk,
                ..*old(self)
            }),
    {
        let answer: bool = self.daemons;
        let ghost entry = Entry {
            call: Call::HasDaemons,
            answer: Answer::Flag(answer),
        };
        self.talk = Ghost(self.talk@.push(entry));
        answer
    }

    fn collect_daemons(
        &mut self,
        tabs: &Vec<String>,
        sidebar: &Sidebar,
    ) -> (answer: Result<(), Failure>)
        ensures
            final(self).collected@.len() == old(self).collected@.len() + 1,
            final(self).collected@.drop_last() == old(self).collected@,
            final(self).collected@.last()@ == tabs@,
            match answer {
                Ok(_) => !old(self).collecting_fails,
                Err(failure) => {
                    &&& old(self).collecting_fails
                    &&& failure::report(failure) == "no daemon answers"@
                },
            },
            *final(self) == (MockMachine {
                collected: final(self).collected,
                talk: final(self).talk,
                ..*old(self)
            }),
    {
        self.collected.push(copied(tabs));
        assert(self.collected@.drop_last() =~= old(self).collected@);
        let answer: Result<(), Failure> = if self.collecting_fails {
            Err(Failure::Other { reason: "no daemon answers".to_owned() })
        } else {
            Ok(())
        };
        let ghost entry = Entry {
            call: Call::CollectDaemons { tabs: text::texts(tabs@), sidebar: sidebar@ },
            answer: log::done_answer(answer),
        };
        self.talk = Ghost(self.talk@.push(entry));
        answer
    }

    fn hold_lock(&mut self) -> (answer: Guard)
        ensures
            final(self).locked,
            text::text_of(answer.dir) == if old(self).locked {
                None
            } else {
                Some(old(self).lock_dir@)
            },
            *final(self) == (MockMachine {
                locked: final(self).locked,
                talk: final(self).talk,
                ..*old(self)
            }),
    {
        let answer: Guard = if self.locked {
            Guard { dir: None }
        } else {
            Guard { dir: Some(self.lock_dir.clone()) }
        };
        self.locked = true;
        let ghost entry = Entry {
            call: Call::HoldLock,
            answer: Answer::Lock(answer),
        };
        self.talk = Ghost(self.talk@.push(entry));
        answer
    }

    fn remove_dir(&mut self, dir: &str)
        ensures
            final(self).locked == (old(self).locked && dir@ != old(self).lock_dir@),
            *final(self) == (MockMachine {
                locked: final(self).locked,
                talk: final(self).talk,
                ..*old(self)
            }),
    {
        if same(dir, self.lock_dir.as_str()) {
            self.locked = false;
        }
        let ghost entry = Entry {
            call: Call::RemoveDir { dir: dir@ },
            answer: Answer::Done,
        };
        self.talk = Ghost(self.talk@.push(entry));
    }

    fn plan_rebuild(&mut self, rects: &Vec<PaneRect>) -> (answer: Result<RebuildPlan, Failure>)
        ensures
            mock::scripted(old(self).plans@, final(self).plans@, "plan_rebuild"@, answer),
            *final(self) == (MockMachine {
                plans: final(self).plans,
                talk: final(self).talk,
                ..*old(self)
            }),
    {
        let answer: Result<RebuildPlan, Failure> = next(&mut self.plans, "plan_rebuild");
        let ghost entry = Entry {
            call: Call::PlanRebuild { rects: herdr::rects_of(rects@) },
            answer: log::plan_answer(answer),
        };
        self.talk = Ghost(self.talk@.push(entry));
        answer
    }

    fn plugin_root(&mut self) -> (answer: Result<String, Failure>)
        ensures
            answer is Ok,
            answer->Ok_0@ == old(self).root@,
            *final(self) == (MockMachine {
                talk: final(self).talk,
                ..*old(self)
            }),
    {
        let answer: Result<String, Failure> = Ok(self.root.clone());
        let ghost entry = Entry {
            call: Call::PluginRoot,
            answer: log::text_answer(answer),
        };
        self.talk = Ghost(self.talk@.push(entry));
        answer
    }

    fn ensure_daemon(
        &mut self,
        tab: &str,
        root: &str,
        config: &Config,
        cwd: &str,
    ) -> (answer: Result<String, Failure>)
        ensures
            answer is Ok,
            answer->Ok_0@ == old(self).socket@,
            added(old(self).ran@, final(self).ran@, daemon_line(tab@, root@, config@, cwd@)),
            *final(self) == (MockMachine {
                ran: final(self).ran,
                talk: final(self).talk,
                ..*old(self)
            }),
    {
        let mut line: String = "daemon ".to_owned();
        line.append(tab);
        line.append(" ");
        line.append(root);
        line.append(" ");
        line.append(cwd);
        line.append(" ");
        line.append(config.sidebar.editor.as_str());
        self.ran.push(line);
        assert(self.ran@.drop_last() =~= old(self).ran@);
        let answer: Result<String, Failure> = Ok(self.socket.clone());
        let ghost entry = Entry {
            call: Call::EnsureDaemon { tab: tab@, root: root@, config: config@, cwd: cwd@ },
            answer: log::text_answer(answer),
        };
        self.talk = Ghost(self.talk@.push(entry));
        answer
    }

    fn nvim(&mut self, sidebar: &Sidebar, args: &Vec<String>, quiet: bool) -> (answer: Exit)
        ensures
            added(
                old(self).ran@,
                final(self).ran@,
                run_line(sidebar@.editor, text::texts(args@), quiet),
            ),
            ended(old(self).exits@, final(self).exits@, answer),
            *final(self) == (MockMachine {
                ran: final(self).ran,
                exits: final(self).exits,
                talk: final(self).talk,
                ..*old(self)
            }),
    {
        self.ran.push(written_run(sidebar.editor.as_str(), args, quiet));
        assert(self.ran@.drop_last() =~= old(self).ran@);
        let answer: Exit = next_exit(&mut self.exits);
        let ghost entry = Entry {
            call: Call::Nvim { sidebar: sidebar@, args: text::texts(args@), quiet },
            answer: Answer::Exit(answer),
        };
        self.talk = Ghost(self.talk@.push(entry));
        answer
    }

    fn herdr_status(&mut self, args: &Vec<String>, quiet: bool) -> (answer: Exit)
        ensures
            added(old(self).ran@, final(self).ran@, run_line("herdr"@, text::texts(args@), quiet)),
            ended(old(self).exits@, final(self).exits@, answer),
            *final(self) == (MockMachine {
                ran: final(self).ran,
                exits: final(self).exits,
                talk: final(self).talk,
                ..*old(self)
            }),
    {
        self.ran.push(written_run("herdr", args, quiet));
        assert(self.ran@.drop_last() =~= old(self).ran@);
        let answer: Exit = next_exit(&mut self.exits);
        let ghost entry = Entry {
            call: Call::HerdrStatus { args: text::texts(args@), quiet },
            answer: Answer::Exit(answer),
        };
        self.talk = Ghost(self.talk@.push(entry));
        answer
    }

    fn warn(&mut self, text: &str)
        ensures
            added(old(self).warnings@, final(self).warnings@, text@),
            *final(self) == (MockMachine {
                warnings: final(self).warnings,
                talk: final(self).talk,
                ..*old(self)
            }),
    {
        self.warnings.push(text.to_owned());
        assert(self.warnings@.drop_last() =~= old(self).warnings@);
        let ghost entry = Entry {
            call: Call::Warn { text: text@ },
            answer: Answer::Done,
        };
        self.talk = Ghost(self.talk@.push(entry));
    }

    fn is_file(&mut self, path: &str) -> (answer: bool)
        ensures
            answer == text::texts(old(self).files@).contains(path@),
            *final(self) == (MockMachine {
                talk: final(self).talk,
                ..*old(self)
            }),
    {
        let answer: bool = contains(&self.files, path);
        let ghost entry = Entry {
            call: Call::IsFile { path: path@ },
            answer: Answer::Flag(answer),
        };
        self.talk = Ghost(self.talk@.push(entry));
        answer
    }

    fn git_toplevel(&mut self, cwd: &str) -> (answer: Option<String>)
        ensures
            answer == old(self).toplevel,
            added(old(self).toplevel_asked@, final(self).toplevel_asked@, cwd@),
            *final(self) == (MockMachine {
                toplevel_asked: final(self).toplevel_asked,
                talk: final(self).talk,
                ..*old(self)
            }),
    {
        self.toplevel_asked.push(cwd.to_owned());
        assert(self.toplevel_asked@.drop_last() =~= old(self).toplevel_asked@);
        let answer: Option<String> = copied_option(&self.toplevel);
        let ghost entry = Entry {
            call: Call::GitToplevel { cwd: cwd@ },
            answer: Answer::FoundText(answer),
        };
        self.talk = Ghost(self.talk@.push(entry));
        answer
    }

    fn session_text(&mut self, session: &AgentSession, cwd: &str) -> (answer: Option<String>)
        ensures
            answer == old(self).session,
            *final(self) == (MockMachine {
                talk: final(self).talk,
                ..*old(self)
            }),
    {
        let answer: Option<String> = copied_option(&self.session);
        let ghost entry = Entry {
            call: Call::SessionText { session: session@, cwd: cwd@ },
            answer: Answer::FoundText(answer),
        };
        self.talk = Ghost(self.talk@.push(entry));
        answer
    }

    fn mine_session(&mut self, agent: &str, record: &str) -> (answer: Mined)
        ensures
            answer.touches@ == old(self).touches@,
            answer.first_op_unix == old(self).first_op_unix,
            final(self).mined@.len() == old(self).mined@.len() + 1,
            final(self).mined@.drop_last() == old(self).mined@,
            final(self).mined@.last().0@ == agent@,
            final(self).mined@.last().1@ == record@,
            *final(self) == (MockMachine {
                mined: final(self).mined,
                talk: final(self).talk,
                ..*old(self)
            }),
    {
        self.mined.push((agent.to_owned(), record.to_owned()));
        assert(self.mined@.drop_last() =~= old(self).mined@);
        let answer: Mined = Mined {
            touches: copied(&self.touches),
            first_op_unix: self.first_op_unix,
        };
        let ghost entry = Entry {
            call: Call::MineSession { agent: agent@, text: record@ },
            answer: Answer::Mined(answer),
        };
        self.talk = Ghost(self.talk@.push(entry));
        answer
    }

    fn dirty_paths(&mut self, toplevel: &str) -> (answer: Option<Vec<String>>)
        ensures
            is_copy(old(self).dirty, answer),
            *final(self) == (MockMachine {
                talk: final(self).talk,
                ..*old(self)
            }),
    {
        let answer: Option<Vec<String>> = copied_paths(&self.dirty);
        let ghost entry = Entry {
            call: Call::DirtyPaths { toplevel: toplevel@ },
            answer: Answer::FoundPaths(answer),
        };
        self.talk = Ghost(self.talk@.push(entry));
        answer
    }

    fn committed_since(&mut self, toplevel: &str, since: u64) -> (answer: Option<Vec<String>>)
        ensures
            is_copy(old(self).committed, answer),
            final(self).commits_asked@ == old(self).commits_asked@.push(since),
            *final(self) == (MockMachine {
                commits_asked: final(self).commits_asked,
                talk: final(self).talk,
                ..*old(self)
            }),
    {
        self.commits_asked.push(since);
        let answer: Option<Vec<String>> = copied_paths(&self.committed);
        let ghost entry = Entry {
            call: Call::CommittedSince { toplevel: toplevel@, since },
            answer: Answer::FoundPaths(answer),
        };
        self.talk = Ghost(self.talk@.push(entry));
        answer
    }

    fn diff_stats(&mut self, toplevel: &str) -> (answer: Option<Vec<DiffStat>>)
        ensures
            match answer {
                Some(stats) => {
                    &&& old(self).stats is Some
                    &&& candidates::stats_of(stats@) == candidates::stats_of(old(self).stats->0@)
                },
                None => old(self).stats is None,
            },
            *final(self) == (MockMachine {
                talk: final(self).talk,
                ..*old(self)
            }),
    {
        let answer: Option<Vec<DiffStat>> = match &self.stats {
            Some(stats) => Some(copied_stats(stats)),
            None => None,
        };
        let ghost entry = Entry {
            call: Call::DiffStats { toplevel: toplevel@ },
            answer: Answer::FoundStats(answer),
        };
        self.talk = Ghost(self.talk@.push(entry));
        answer
    }

    fn repo_files(&mut self, toplevel: &str) -> (answer: Option<Vec<String>>)
        ensures
            is_copy(old(self).all_files, answer),
            *final(self) == (MockMachine {
                talk: final(self).talk,
                ..*old(self)
            }),
    {
        let answer: Option<Vec<String>> = copied_paths(&self.all_files);
        let ghost entry = Entry {
            call: Call::RepoFiles { toplevel: toplevel@ },
            answer: Answer::FoundPaths(answer),
        };
        self.talk = Ghost(self.talk@.push(entry));
        answer
    }

    fn extract(&mut self, screen: &str, cwd: &str) -> (answer: Vec<Candidate>)
        ensures
            candidates::candidates_of(answer@) == mentioned(*old(self), cwd@),
            *final(self) == (MockMachine {
                talk: final(self).talk,
                ..*old(self)
            }),
    {
        let answer: Vec<Candidate> = self.existing(cwd);
        let ghost entry = Entry {
            call: Call::Extract { text: screen@, cwd: cwd@ },
            answer: Answer::Candidates(answer),
        };
        self.talk = Ghost(self.talk@.push(entry));
        answer
    }

    fn build_candidates(&mut self, input: &BuildInput) -> (answer: Vec<Candidate>)
        ensures
            candidates::candidates_of(answer@) == built(*old(self), input@),
            final(self).inputs@.len() == old(self).inputs@.len() + 1,
            final(self).inputs@.drop_last() == old(self).inputs@,
            final(self).inputs@.last()@ == input@,
            *final(self) == (MockMachine {
                inputs: final(self).inputs,
                talk: final(self).talk,
                ..*old(self)
            }),
    {
        let answer: Vec<Candidate> = self.offered(input);
        self.inputs.push(input.copy());
        assert(self.inputs@.drop_last() =~= old(self).inputs@);
        let ghost entry = Entry {
            call: Call::BuildCandidates { input: input@ },
            answer: Answer::Candidates(answer),
        };
        self.talk = Ghost(self.talk@.push(entry));
        answer
    }

    fn write_handoff(&mut self, handoff: &Handoff) -> (answer: Result<String, Failure>)
        ensures
            answer is Ok,
            answer->Ok_0@ == old(self).handoff_path@,
            final(self).written@.len() == old(self).written@.len() + 1,
            final(self).written@.drop_last() == old(self).written@,
            final(self).written@.last()@ == handoff@,
            *final(self) == (MockMachine {
                written: final(self).written,
                talk: final(self).talk,
                ..*old(self)
            }),
    {
        self.written.push(handoff.copy());
        assert(self.written@.drop_last() =~= old(self).written@);
        let answer: Result<String, Failure> = Ok(self.handoff_path.clone());
        let ghost entry = Entry {
            call: Call::WriteHandoff { handoff: handoff@ },
            answer: log::text_answer(answer),
        };
        self.talk = Ghost(self.talk@.push(entry));
        answer
    }

    fn read_handoff(&mut self, path: &str) -> (answer: Result<Handoff, Failure>)
        ensures
            match answer {
                Ok(handoff) => old(self).handoff is Some && handoff@ == old(self).handoff->0@,
                Err(failure) => {
                    &&& old(self).handoff is None
                    &&& failure::report(failure) == "reading handoff "@ + path@
                },
            },
            *final(self) == (MockMachine {
                talk: final(self).talk,
                ..*old(self)
            }),
    {
        let answer: Result<Handoff, Failure> = match &self.handoff {
            Some(handoff) => Ok(handoff.copy()),
            None => Err(Failure::Other { reason: concat("reading handoff ", path) }),
        };
        let ghost entry = Entry {
            call: Call::ReadHandoff { path: path@ },
            answer: log::handoff_answer(answer),
        };
        self.talk = Ghost(self.talk@.push(entry));
        answer
    }

    fn run_part(&mut self, part: Part) -> (answer: Result<(), Failure>)
        ensures
            answer is Ok,
            final(self).parts@ == old(self).parts@.push(part),
            *final(self) == (MockMachine {
                parts: final(self).parts,
                talk: final(self).talk,
                ..*old(self)
            }),
    {
        self.parts.push(part);
        let answer: Result<(), Failure> = Ok(());
        let ghost entry = Entry {
            call: Call::RunPart { part },
            answer: log::done_answer(answer),
        };
        self.talk = Ghost(self.talk@.push(entry));
        answer
    }

    fn remove_file(&mut self, path: &str) -> (answer: Removal)
        ensures
            answer == old(self).removal,
            added(old(self).removed@, final(self).removed@, path@),
            *final(self) == (MockMachine {
                removed: final(self).removed,
                talk: final(self).talk,
                ..*old(self)
            }),
    {
        self.removed.push(path.to_owned());
        assert(self.removed@.drop_last() =~= old(self).removed@);
        let answer: Removal = match &self.removal {
            Removal::Removed => Removal::Removed,
            Removal::Missing => Removal::Missing,
            Removal::Refused { reason } => Removal::Refused { reason: reason.clone() },
        };
        let ghost entry = Entry {
            call: Call::RemoveFile { path: path@ },
            answer: Answer::Removal(answer),
        };
        self.talk = Ghost(self.talk@.push(entry));
        answer
    }
}

} // verus!
