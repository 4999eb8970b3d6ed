//! Gathering the files that the picker offers.
//!
//! Three layers tell of files: the record of the agent's session, the git worktree that the agent
//! works in, and the text on its screen. A layer that cannot be read is left out; gathering never
//! fails.

use vstd::prelude::*;

use crate::candidates::{self, keep_latest, BuildInput, Candidate, DiffStat, InputView, Mined};
use crate::herdr::{self, AgentSession, SessionView};
use crate::host::Host;
use crate::log::{self, Answer, Call, Entry};
use crate::text::{self, dedup};

verus! {

/// The paths that a layer told of, none where it could not be read.
pub open spec fn paths_told(answer: Option<Vec<String>>) -> Seq<Seq<char>> {
    match answer {
        Some(paths) => text::texts(paths@),
        None => Seq::empty(),
    }
}

/// The diff counts that git told of, one for each path, and none where it could not.
pub open spec fn stats_told(answer: Option<Vec<DiffStat>>) -> Seq<candidates::StatView> {
    match answer {
        Some(stats) => candidates::latest_stats(candidates::stats_of(stats@)),
        None => Seq::empty(),
    }
}

/// The conversation of gathering: first the record of the session is read, where there is one.
pub open spec fn gather_ran(
    session: Option<SessionView>,
    screen: Seq<char>,
    cwd: Seq<char>,
    talk: Seq<Entry>,
    found: Seq<Candidate>,
) -> bool {
    match session {
        Some(session) => {
            &&& log::asks(talk, Call::SessionText { session, cwd })
            &&& match talk[0].answer {
                Answer::FoundText(Some(record)) => mine_ran(
                    session.agent,
                    record@,
                    screen,
                    cwd,
                    talk.skip(1),
                    found,
                ),
                Answer::FoundText(None) => mine_ran(
                    ""@,
                    ""@,
                    screen,
                    cwd,
                    talk.skip(1),
                    found,
                ),
                _ => false,
            }
        },
        None => mine_ran(""@, ""@, screen, cwd, talk, found),
    }
}

/// The conversation of gathering from the mining of the record on.
pub open spec fn mine_ran(
    agent: Seq<char>,
    record: Seq<char>,
    screen: Seq<char>,
    cwd: Seq<char>,
    talk: Seq<Entry>,
    found: Seq<Candidate>,
) -> bool {
    &&& log::asks(talk, Call::MineSession { agent, text: record })
    &&& match talk[0].answer {
        Answer::Mined(mined) => worktree_ran(
            InputView {
                mined_touches: text::texts(mined.touches@),
                first_op_unix: mined.first_op_unix,
                git_dirty: Seq::empty(),
                git_committed_in_session: Seq::empty(),
                toplevel: None,
                cwd,
                diff_stats: Seq::empty(),
                scraped_mentioned: Seq::empty(),
                repo_files: Seq::empty(),
            },
            screen,
            talk.skip(1),
            found,
        ),
        _ => false,
    }
}

/// The conversation of gathering from the git worktree on. Without one, git is not asked again.
pub open spec fn worktree_ran(
    input: InputView,
    screen: Seq<char>,
    talk: Seq<Entry>,
    found: Seq<Candidate>,
) -> bool {
    &&& log::asks(talk, Call::GitToplevel { cwd: input.cwd })
    &&& match talk[0].answer {
        Answer::FoundText(Some(toplevel)) => dirty_ran(
            InputView { toplevel: Some(toplevel@), ..input },
            toplevel@,
            screen,
            talk.skip(1),
            found,
        ),
        Answer::FoundText(None) => scrape_ran(input, screen, talk.skip(1), found),
        _ => false,
    }
}

/// The conversation of gathering from the files that differ from the last commit on.
pub open spec fn dirty_ran(
    input: InputView,
    toplevel: Seq<char>,
    screen: Seq<char>,
    talk: Seq<Entry>,
    found: Seq<Candidate>,
) -> bool {
    &&& log::asks(talk, Call::DirtyPaths { toplevel })
    &&& match talk[0].answer {
        Answer::FoundPaths(paths) => commits_ran(
            InputView { git_dirty: text::distinct(paths_told(paths)), ..input },
            toplevel,
            screen,
            talk.skip(1),
            found,
        ),
        _ => false,
    }
}

/// The conversation of gathering from the files that were committed during the session on. They
/// are asked for only where the session tells when it started.
pub open spec fn commits_ran(
    input: InputView,
    toplevel: Seq<char>,
    screen: Seq<char>,
    talk: Seq<Entry>,
    found: Seq<Candidate>,
) -> bool {
    match input.first_op_unix {
        Some(since) => {
            &&& log::asks(talk, Call::CommittedSince { toplevel, since })
            &&& match talk[0].answer {
                Answer::FoundPaths(paths) => stats_ran(
                    InputView {
                        git_committed_in_session: text::distinct(paths_told(paths)),
                        ..input
                    },
                    toplevel,
                    screen,
                    talk.skip(1),
                    found,
                ),
                _ => false,
            }
        },
        None => stats_ran(input, toplevel, screen, talk, found),
    }
}

/// The conversation of gathering from the diff counts on.
pub open spec fn stats_ran(
    input: InputView,
    toplevel: Seq<char>,
    screen: Seq<char>,
    talk: Seq<Entry>,
    found: Seq<Candidate>,
) -> bool {
    &&& log::asks(talk, Call::DiffStats { toplevel })
    &&& match talk[0].answer {
        Answer::FoundStats(stats) => files_ran(
            InputView { diff_stats: stats_told(stats), ..input },
            toplevel,
            screen,
            talk.skip(1),
            found,
        ),
        _ => false,
    }
}

/// The conversation of gathering from the list of all files on.
pub open spec fn files_ran(
    input: InputView,
    toplevel: Seq<char>,
    screen: Seq<char>,
    talk: Seq<Entry>,
    found: Seq<Candidate>,
) -> bool {
    &&& log::asks(talk, Call::RepoFiles { toplevel })
    &&& match talk[0].answer {
        Answer::FoundPaths(paths) => scrape_ran(
            InputView { repo_files: paths_told(paths), ..input },
            screen,
            talk.skip(1),
            found,
        ),
        _ => false,
    }
}

/// The conversation of gathering from the text on the screen on, at whose end the candidates are
/// built from all that was told.
pub open spec fn scrape_ran(
    input: InputView,
    screen: Seq<char>,
    talk: Seq<Entry>,
    found: Seq<Candidate>,
) -> bool {
    &&& talk.len() == 2
    &&& talk[0].call == (Call::Extract { text: screen, cwd: input.cwd })
    &&& talk[0].answer is Candidates
    &&& talk[1].call == (Call::BuildCandidates {
        input: InputView {
            scraped_mentioned: candidates::candidates_of(talk[0].answer->Candidates_0@),
            ..input
        },
    })
    &&& talk[1].answer is Candidates
    &&& talk[1].answer->Candidates_0@ == found
}

/// Gather candidates from all layers that can be read.
pub fn gather_candidates<H: Host>(
    h: &mut H,
    agent_session: &Option<AgentSession>,
    screen: &str,
    cwd: &str,
) -> (found: Vec<Candidate>)
    ensures
        log::extends(old(h).log(), final(h).log()),
        gather_ran(
            herdr::session_of(*agent_session),
            screen@,
            cwd@,
            log::since(old(h).log(), final(h).log()),
            found@,
        ),
{
    match agent_session {
        Some(session) => {
            let ghost before = h.log();
            let record: Option<String> = h.session_text(session, cwd);
            let ghost entry = h.log().last();
            let found: Vec<Candidate> = match record {
                Some(record) => gather_mined(
                    h,
                    session.agent.as_str(),
                    record.as_str(),
                    screen,
                    cwd,
                ),
                None => gather_mined(h, "", "", screen, cwd),
            };
            proof {
                log::lemma_first(before, entry, h.log());
            }
            found
        },
        None => gather_mined(h, "", "", screen, cwd),
    }
}

fn gather_mined<H: Host>(
    h: &mut H,
    agent: &str,
    record: &str,
    screen: &str,
    cwd: &str,
) -> (found: Vec<Candidate>)
    ensures
        log::extends(old(h).log(), final(h).log()),
        mine_ran(
            agent@,
            record@,
            screen@,
            cwd@,
            log::since(old(h).log(), final(h).log()),
            found@,
        ),
{
    let ghost before = h.log();
    let mined: Mined = h.mine_session(agent, record);
    let ghost entry = h.log().last();
    let input: BuildInput = BuildInput {
        mined_touches: mined.touches,
        first_op_unix: mined.first_op_unix,
        git_dirty: Vec::new(),
        git_committed_in_session: Vec::new(),
        toplevel: None,
        cwd: cwd.to_owned(),
        diff_stats: Vec::new(),
        scraped_mentioned: Vec::new(),
        repo_files: Vec::new(),
    };
    assert(text::texts(Seq::<String>::empty()) =~= Seq::empty());
    assert(candidates::stats_of(Seq::<DiffStat>::empty()) =~= Seq::empty());
    assert(candidates::candidates_of(Seq::<Candidate>::empty()) =~= Seq::empty());
    let found: Vec<Candidate> = gather_worktree(h, input, screen);
    proof {
        log::lemma_first(before, entry, h.log());
    }
    found
}

fn gather_worktree<H: Host>(h: &mut H, input: BuildInput, screen: &str) -> (found: Vec<Candidate>)
    ensures
        log::extends(old(h).log(), final(h).log()),
        worktree_ran(input@, screen@, log::since(old(h).log(), final(h).log()), found@),
{
    let ghost before = h.log();
    let answer: Option<String> = h.git_toplevel(input.cwd.as_str());
    let ghost entry = h.log().last();
    let mut input: BuildInput = input;
    let found: Vec<Candidate> = match answer {
        Some(toplevel) => {
            input.toplevel = Some(toplevel.clone());
            gather_dirty(h, input, toplevel.as_str(), screen)
        },
        None => gather_scraped(h, input, screen),
    };
    proof {
        log::lemma_first(before, entry, h.log());
    }
    found
}

fn or_none(answer: Option<Vec<String>>) -> (paths: Vec<String>)
    ensures
        text::texts(paths@) == paths_told(answer),
{
    match answer {
        Some(paths) => paths,
        None => {
            assert(text::texts(Seq::<String>::empty()) =~= Seq::empty());
            Vec::new()
        },
    }
}

fn gather_dirty<H: Host>(
    h: &mut H,
    input: BuildInput,
    toplevel: &str,
    screen: &str,
) -> (found: Vec<Candidate>)
    ensures
        log::extends(old(h).log(), final(h).log()),
        dirty_ran(
            input@,
            toplevel@,
            screen@,
            log::since(old(h).log(), final(h).log()),
            found@,
        ),
{
    let ghost before = h.log();
    let mut input: BuildInput = input;
    input.git_dirty = dedup(or_none(h.dirty_paths(toplevel)));
    let ghost entry = h.log().last();
    let found: Vec<Candidate> = gather_commits(h, input, toplevel, screen);
    proof {
        log::lemma_first(before, entry, h.log());
    }
    found
}

fn gather_commits<H: Host>(
    h: &mut H,
    input: BuildInput,
    toplevel: &str,
    screen: &str,
) -> (found: Vec<Candidate>)
    ensures
        log::extends(old(h).log(), final(h).log()),
        commits_ran(
            input@,
            toplevel@,
            screen@,
            log::since(old(h).log(), final(h).log()),
            found@,
        ),
{
    match input.first_op_unix {
        Some(since) => {
            let ghost before = h.log();
            let mut input: BuildInput = input;
            input.git_committed_in_session = dedup(or_none(h.committed_since(toplevel, since)));
            let ghost entry = h.log().last();
            let found: Vec<Candidate> = gather_stats(h, input, toplevel, screen);
            proof {
                log::lemma_first(before, entry, h.log());
            }
            found
        },
        None => gather_stats(h, input, toplevel, screen),
    }
}

fn gather_stats<H: Host>(
    h: &mut H,
    input: BuildInput,
    toplevel: &str,
    screen: &str,
) -> (found: Vec<Candidate>)
    ensures
        log::extends(old(h).log(), final(h).log()),
        stats_ran(
            input@,
            toplevel@,
            screen@,
            log::since(old(h).log(), final(h).log()),
            found@,
        ),
{
    let ghost before = h.log();
    let mut input: BuildInput = input;
    let answer: Option<Vec<DiffStat>> = h.diff_stats(toplevel);
    let ghost entry = h.log().last();
    let ghost told = stats_told(answer);
    input.diff_stats = match answer {
        Some(stats) => keep_latest(stats),
        None => Vec::new(),
    };
    assert(candidates::stats_of(input.diff_stats@) =~= told);
    let found: Vec<Candidate> = gather_files(h, input, toplevel, screen);
    proof {
        log::lemma_first(before, entry, h.log());
    }
    found
}

fn gather_files<H: Host>(
    h: &mut H,
    input: BuildInput,
    toplevel: &str,
    screen: &str,
) -> (found: Vec<Candidate>)
    ensures
        log::extends(old(h).log(), final(h).log()),
        files_ran(
            input@,
            toplevel@,
            screen@,
            log::since(old(h).log(), final(h).log()),
            found@,
        ),
{
    let ghost before = h.log();
    let mut input: BuildInput = input;
    input.repo_files = or_none(h.repo_files(toplevel));
    let ghost entry = h.log().last();
    let found: Vec<Candidate> = gather_scraped(h, input, screen);
    proof {
        log::lemma_first(before, entry, h.log());
    }
    found
}

fn gather_scraped<H: Host>(h: &mut H, input: BuildInput, screen: &str) -> (found: Vec<Candidate>)
    ensures
        log::extends(old(h).log(), final(h).log()),
        scrape_ran(input@, screen@, log::since(old(h).log(), final(h).log()), found@),
{
    let ghost before = h.log();
    let mut input: BuildInput = input;
    input.scraped_mentioned = h.extract(screen, input.cwd.as_str());
    let ghost scraped = h.log();
    let found: Vec<Candidate> = h.build_candidates(&input);
    proof {
        log::lemma_one(before, scraped.last());
        log::lemma_since_push(before, scraped, h.log().last());
    }
    found
}

/// Whether a conversation ends with a build from something that has nothing twice.
pub open spec fn builds_from_sets(talk: Seq<Entry>) -> bool {
    &&& talk.len() > 0
    &&& talk.last().call is BuildCandidates
    &&& candidates::has_nothing_twice(talk.last().call->BuildCandidates_input)
}

proof fn lemma_scraped_once(
    input: InputView,
    screen: Seq<char>,
    talk: Seq<Entry>,
    found: Seq<Candidate>,
)
    requires
        scrape_ran(input, screen, talk, found),
        candidates::has_nothing_twice(input),
    ensures
        builds_from_sets(talk),
{
}

proof fn lemma_counted_once(
    input: InputView,
    toplevel: Seq<char>,
    screen: Seq<char>,
    talk: Seq<Entry>,
    found: Seq<Candidate>,
)
    requires
        stats_ran(input, toplevel, screen, talk, found),
        candidates::has_nothing_twice(input),
    ensures
        builds_from_sets(talk),
{
    if let Answer::FoundStats(stats) = talk[0].answer {
        let counted = InputView { diff_stats: stats_told(stats), ..input };
        if let Some(stats) = stats {
            candidates::lemma_latest_stats(candidates::stats_of(stats@));
        }
        let rest = talk.skip(1);
        if let Answer::FoundPaths(paths) = rest[0].answer {
            let listed = InputView { repo_files: paths_told(paths), ..counted };
            lemma_scraped_once(listed, screen, rest.skip(1), found);
            assert(rest.last() == rest.skip(1).last());
        }
        assert(talk.last() == rest.last());
    }
}

proof fn lemma_committed_once(
    input: InputView,
    toplevel: Seq<char>,
    screen: Seq<char>,
    talk: Seq<Entry>,
    found: Seq<Candidate>,
)
    requires
        commits_ran(input, toplevel, screen, talk, found),
        candidates::has_nothing_twice(input),
    ensures
        builds_from_sets(talk),
{
    if input.first_op_unix is Some {
        if let Answer::FoundPaths(paths) = talk[0].answer {
            text::lemma_distinct(paths_told(paths));
            let committed = InputView {
                git_committed_in_session: text::distinct(paths_told(paths)),
                ..input
            };
            lemma_counted_once(committed, toplevel, screen, talk.skip(1), found);
            assert(talk.last() == talk.skip(1).last());
        }
    } else {
        lemma_counted_once(input, toplevel, screen, talk, found);
    }
}

proof fn lemma_mined_once(
    agent: Seq<char>,
    record: Seq<char>,
    screen: Seq<char>,
    cwd: Seq<char>,
    talk: Seq<Entry>,
    found: Seq<Candidate>,
)
    requires
        mine_ran(agent, record, screen, cwd, talk, found),
    ensures
        builds_from_sets(talk),
{
    if let Answer::Mined(mined) = talk[0].answer {
        let rest = talk.skip(1);
        let input = InputView {
            mined_touches: text::texts(mined.touches@),
            first_op_unix: mined.first_op_unix,
            git_dirty: Seq::empty(),
            git_committed_in_session: Seq::empty(),
            toplevel: None,
            cwd,
            diff_stats: Seq::empty(),
            scraped_mentioned: Seq::empty(),
            repo_files: Seq::empty(),
        };
        let last = rest.skip(1);
        match rest[0].answer {
            Answer::FoundText(Some(toplevel)) => {
                let there = InputView { toplevel: Some(toplevel@), ..input };
                if let Answer::FoundPaths(paths) = last[0].answer {
                    text::lemma_distinct(paths_told(paths));
                    let dirty = InputView {
                        git_dirty: text::distinct(paths_told(paths)),
                        ..there
                    };
                    lemma_committed_once(dirty, toplevel@, screen, last.skip(1), found);
                    assert(last.last() == last.skip(1).last());
                }
            },
            _ => {
                lemma_scraped_once(input, screen, last, found);
            },
        }
        assert(rest.last() == last.last());
        assert(talk.last() == rest.last());
    }
}

/// What candidates are built from has nothing twice: no path among the dirty or the committed ones,
/// and no diff count for a path.
pub proof fn nothing_is_told_twice(
    session: Option<SessionView>,
    screen: Seq<char>,
    cwd: Seq<char>,
    talk: Seq<Entry>,
    found: Seq<Candidate>,
)
    requires
        gather_ran(session, screen, cwd, talk, found),
    ensures
        builds_from_sets(talk),
{
    match session {
        Some(session) => {
            match talk[0].answer {
                Answer::FoundText(Some(record)) => {
                    lemma_mined_once(session.agent, record@, screen, cwd, talk.skip(1), found);
                },
                _ => {
                    lemma_mined_once(""@, ""@, screen, cwd, talk.skip(1), found);
                },
            }
            assert(talk.last() == talk.skip(1).last());
        },
        None => {
            lemma_mined_once(""@, ""@, screen, cwd, talk, found);
        },
    }
}

} // verus!
