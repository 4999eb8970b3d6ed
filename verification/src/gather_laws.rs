//! What candidates are built from, and whom it was asked of.

use vstd::prelude::*;

use crate::candidates::{self, Candidate, InputView, StatView};
use crate::gather;
use crate::herdr::SessionView;
use crate::log::{Answer, Call, Entry};
use crate::text;

verus! {

/// Whether gathering may ask for this.
pub open spec fn is_gathering(call: Call) -> bool {
    ||| call is SessionText
    ||| call is MineSession
    ||| call is GitToplevel
    ||| call is DirtyPaths
    ||| call is CommittedSince
    ||| call is DiffStats
    ||| call is RepoFiles
    ||| call is Extract
    ||| call is BuildCandidates
}

/// Whether two lists hold the same texts, however often and in whatever order.
pub open spec fn same_texts(left: Seq<Seq<char>>, right: Seq<Seq<char>>) -> bool {
    forall|text: Seq<char>| #[trigger] left.contains(text) == right.contains(text)
}

/// Whether paths are those that a layer answered with, and none where it could not be read.
pub open spec fn are_answered(paths: Seq<Seq<char>>, answer: Answer) -> bool {
    &&& answer is FoundPaths
    &&& match answer->FoundPaths_0 {
        Some(list) => same_texts(paths, text::texts(list@)),
        None => paths.len() == 0,
    }
}

/// Whether diff counts are those that git answered with: for each path the last that was told, no
/// path without one, and none where git could not tell.
pub open spec fn are_latest(stats: Seq<StatView>, answer: Answer) -> bool {
    &&& answer is FoundStats
    &&& match answer->FoundStats_0 {
        Some(list) => {
            &&& forall|i: int|
                0 <= i < stats.len() ==> is_last_for(
                    candidates::stats_of(list@),
                    #[trigger] stats[i],
                )
            &&& forall|k: int|
                0 <= k < list@.len() ==> candidates::has_stat(
                    stats,
                    (#[trigger] candidates::stats_of(list@)[k]).path,
                )
        },
        None => stats.len() == 0,
    }
}

/// Whether a diff count is the last of a list for its path.
pub open spec fn is_last_for(list: Seq<StatView>, stat: StatView) -> bool {
    exists|k: int|
        0 <= k < list.len() && #[trigger] list[k] == stat && forall|m: int|
            k < m < list.len() ==> (#[trigger] list[m]).path != stat.path
}

/// What is kept of a list of diff counts is the last for each path, and each path has one.
pub proof fn latest_stats_are_last(list: Seq<StatView>)
    ensures
        forall|i: int|
            0 <= i < candidates::latest_stats(list).len() ==> is_last_for(
                list,
                #[trigger] candidates::latest_stats(list)[i],
            ),
        forall|k: int|
            0 <= k < list.len() ==> candidates::has_stat(
                candidates::latest_stats(list),
                (#[trigger] list[k]).path,
            ),
    decreases list.len(),
{
    if list.len() > 0 {
        let rest = list.drop_first();
        let later = candidates::latest_stats(rest);
        let kept = candidates::latest_stats(list);
        latest_stats_are_last(rest);
        let shift: int = if candidates::has_stat(later, list[0].path) {
            0
        } else {
            1
        };
        assert forall|i: int| 0 <= i < kept.len() implies is_last_for(list, #[trigger] kept[i]) by {
            if i < shift {
                assert(kept[i] == list[0]);
                assert forall|m: int| 0 < m < list.len() implies (#[trigger] list[m]).path
                    != list[0].path by {
                    assert(rest[m - 1] == list[m]);
                    assert(candidates::has_stat(later, rest[m - 1].path));
                }
            } else {
                assert(kept[i] == later[i - shift]);
                assert(is_last_for(rest, later[i - shift]));
                let k = choose|k: int|
                    0 <= k < rest.len() && #[trigger] rest[k] == later[i - shift] && forall|m: int|
                        k < m < rest.len() ==> (#[trigger] rest[m]).path != later[i - shift].path;
                assert(list[k + 1] == kept[i]);
                assert forall|m: int| k + 1 < m < list.len() implies (#[trigger] list[m]).path
                    != kept[i].path by {
                    assert(rest[m - 1] == list[m]);
                }
            }
        }
        assert forall|k: int| 0 <= k < list.len() implies candidates::has_stat(
            kept,
            (#[trigger] list[k]).path,
        ) by {
            if k == 0 {
                if shift == 1 {
                    assert(kept[0] == list[0]);
                }
            } else {
                assert(rest[k - 1] == list[k]);
                assert(candidates::has_stat(later, rest[k - 1].path));
                let i = choose|i: int|
                    0 <= i < later.len() && (#[trigger] later[i]).path == list[k].path;
                assert(kept[i + shift] == later[i]);
            }
        }
    }
}

/// Whether candidates were built from what was told in a conversation whose record of a session was
/// mined at exchange `mined`.
pub open spec fn builds_from_answers(
    screen: Seq<char>,
    cwd: Seq<char>,
    talk: Seq<Entry>,
    mined: int,
    found: Seq<Candidate>,
) -> bool {
    let last = talk.len() - 1;
    let input = talk[last].call->BuildCandidates_input;
    let told = talk[mined].answer->Mined_0;
    &&& 0 <= mined
    &&& mined + 3 <= last
    &&& talk[mined].call is MineSession
    &&& talk[mined].answer is Mined
    &&& talk[mined + 1].call == (Call::GitToplevel { cwd })
    &&& talk[mined + 1].answer is FoundText
    &&& talk[last - 1].call == (Call::Extract { text: screen, cwd })
    &&& talk[last - 1].answer is Candidates
    &&& talk[last].call is BuildCandidates
    &&& talk[last].answer is Candidates
    &&& talk[last].answer->Candidates_0@ == found
    &&& input.cwd == cwd
    &&& input.mined_touches == text::texts(told.touches@)
    &&& input.first_op_unix == told.first_op_unix
    &&& input.toplevel == text::text_of(talk[mined + 1].answer->FoundText_0)
    &&& input.scraped_mentioned == candidates::candidates_of(talk[last - 1].answer->Candidates_0@)
    &&& match talk[mined + 1].answer->FoundText_0 {
        None => {
            &&& last == mined + 3
            &&& input.git_dirty.len() == 0
            &&& input.git_committed_in_session.len() == 0
            &&& input.diff_stats.len() == 0
            &&& input.repo_files.len() == 0
        },
        Some(root) => {
            let toplevel = root@;
            &&& last == mined + (if told.first_op_unix is Some {
                7int
            } else {
                6int
            })
            &&& talk[mined + 2].call == (Call::DirtyPaths { toplevel })
            &&& are_answered(input.git_dirty, talk[mined + 2].answer)
            &&& match told.first_op_unix {
                Some(since) => {
                    &&& talk[mined + 3].call == (Call::CommittedSince { toplevel, since })
                    &&& are_answered(input.git_committed_in_session, talk[mined + 3].answer)
                },
                None => input.git_committed_in_session.len() == 0,
            }
            &&& talk[last - 3].call == (Call::DiffStats { toplevel })
            &&& are_latest(input.diff_stats, talk[last - 3].answer)
            &&& talk[last - 2].call == (Call::RepoFiles { toplevel })
            &&& talk[last - 2].answer is FoundPaths
            &&& match talk[last - 2].answer->FoundPaths_0 {
                Some(files) => input.repo_files == text::texts(files@),
                None => input.repo_files.len() == 0,
            }
        },
    }
}

proof fn lemma_paths(answer: Answer)
    requires
        answer is FoundPaths,
    ensures
        are_answered(text::distinct(gather::paths_told(answer->FoundPaths_0)), answer),
{
    let paths = gather::paths_told(answer->FoundPaths_0);
    text::lemma_distinct(paths);
}

proof fn lemma_stats(answer: Answer)
    requires
        answer is FoundStats,
    ensures
        are_latest(gather::stats_told(answer->FoundStats_0), answer),
{
    if let Some(list) = answer->FoundStats_0 {
        latest_stats_are_last(candidates::stats_of(list@));
    }
}

/// What stands in a conversation about the git worktree from the diff counts on.
proof fn lemma_stats_laid_out(
    input: InputView,
    toplevel: Seq<char>,
    screen: Seq<char>,
    talk: Seq<Entry>,
    found: Seq<Candidate>,
)
    requires
        gather::stats_ran(input, toplevel, screen, talk, found),
    ensures
        talk.len() == 4,
        talk[0].call == (Call::DiffStats { toplevel }),
        are_latest(talk[3].call->BuildCandidates_input.diff_stats, talk[0].answer),
        talk[1].call == (Call::RepoFiles { toplevel }),
        talk[1].answer is FoundPaths,
        talk[3].call->BuildCandidates_input.repo_files == gather::paths_told(
            talk[1].answer->FoundPaths_0,
        ),
        talk[2].call == (Call::Extract { text: screen, cwd: input.cwd }),
        talk[2].answer is Candidates,
        talk[3].call is BuildCandidates,
        talk[3].answer is Candidates,
        talk[3].answer->Candidates_0@ == found,
        talk[3].call->BuildCandidates_input == (InputView {
            diff_stats: talk[3].call->BuildCandidates_input.diff_stats,
            repo_files: talk[3].call->BuildCandidates_input.repo_files,
            scraped_mentioned: candidates::candidates_of(talk[2].answer->Candidates_0@),
            ..input
        }),
{
    let files = talk.skip(1);
    assert(files[0] == talk[1]);
    let last = files.skip(1);
    assert(last[0] == talk[2]);
    assert(last[1] == talk[3]);
    lemma_stats(talk[0].answer);
}

proof fn lemma_mined_laid_out(
    agent: Seq<char>,
    record: Seq<char>,
    screen: Seq<char>,
    cwd: Seq<char>,
    talk: Seq<Entry>,
    found: Seq<Candidate>,
)
    requires
        gather::mine_ran(agent, record, screen, cwd, talk, found),
    ensures
        talk[0].call == (Call::MineSession { agent, text: record }),
        builds_from_answers(screen, cwd, talk, 0, found),
        forall|i: int| 0 <= i < talk.len() ==> is_gathering((#[trigger] talk[i]).call),
{
    let rest = talk.skip(1);
    assert(rest[0] == talk[1]);
    let told = talk[0].answer->Mined_0;
    let last = rest.skip(1);
    match rest[0].answer {
        Answer::FoundText(Some(toplevel)) => {
            assert(last[0] == talk[2]);
            lemma_paths(last[0].answer);
            let commits = last.skip(1);
            if told.first_op_unix is Some {
                assert(commits[0] == talk[3]);
                lemma_paths(commits[0].answer);
                let stats = commits.skip(1);
                let input = InputView {
                    mined_touches: text::texts(told.touches@),
                    first_op_unix: told.first_op_unix,
                    git_dirty: text::distinct(
                        gather::paths_told(last[0].answer->FoundPaths_0),
                    ),
                    git_committed_in_session: text::distinct(
                        gather::paths_told(commits[0].answer->FoundPaths_0),
                    ),
                    toplevel: Some(toplevel@),
                    cwd,
                    diff_stats: Seq::empty(),
                    scraped_mentioned: Seq::empty(),
                    repo_files: Seq::empty(),
                };
                lemma_stats_laid_out(input, toplevel@, screen, stats, found);
                assert(stats[0] == talk[4]);
                assert(stats[1] == talk[5]);
                assert(stats[2] == talk[6]);
                assert(stats[3] == talk[7]);
            } else {
                let input = InputView {
                    mined_touches: text::texts(told.touches@),
                    first_op_unix: told.first_op_unix,
                    git_dirty: text::distinct(
                        gather::paths_told(last[0].answer->FoundPaths_0),
                    ),
                    git_committed_in_session: Seq::empty(),
                    toplevel: Some(toplevel@),
                    cwd,
                    diff_stats: Seq::empty(),
                    scraped_mentioned: Seq::empty(),
                    repo_files: Seq::empty(),
                };
                lemma_stats_laid_out(input, toplevel@, screen, commits, found);
                assert(commits[0] == talk[3]);
                assert(commits[1] == talk[4]);
                assert(commits[2] == talk[5]);
                assert(commits[3] == talk[6]);
            }
        },
        _ => {
            assert(last[0] == talk[2]);
            assert(last[1] == talk[3]);
        },
    }
}

/// Candidates are built from exactly what was told: the files that the record of the session names,
/// the worktree that git names for the directory, the files that git tells of in that worktree, and
/// those on the screen. Files that were committed are asked for from the time on that the record
/// names, and not without one. The record is that of the given session, and an empty one where
/// there is no session or it cannot be read. What is built is what is offered.
pub proof fn candidates_are_built_from_answers(
    session: Option<SessionView>,
    screen: Seq<char>,
    cwd: Seq<char>,
    talk: Seq<Entry>,
    found: Seq<Candidate>,
)
    requires
        gather::gather_ran(session, screen, cwd, talk, found),
    ensures
        forall|i: int| 0 <= i < talk.len() ==> is_gathering((#[trigger] talk[i]).call),
        match session {
            Some(session) => {
                &&& talk[0].call == (Call::SessionText { session, cwd })
                &&& talk[0].answer is FoundText
                &&& talk[1].call == match talk[0].answer->FoundText_0 {
                    Some(record) => Call::MineSession { agent: session.agent, text: record@ },
                    None => Call::MineSession { agent: ""@, text: ""@ },
                }
                &&& builds_from_answers(screen, cwd, talk, 1, found)
            },
            None => {
                &&& talk[0].call == (Call::MineSession { agent: ""@, text: ""@ })
                &&& builds_from_answers(screen, cwd, talk, 0, found)
            },
        },
{
    match session {
        Some(session) => {
            let rest = talk.skip(1);
            match talk[0].answer {
                Answer::FoundText(Some(record)) => {
                    lemma_mined_laid_out(session.agent, record@, screen, cwd, rest, found);
                },
                _ => {
                    lemma_mined_laid_out(""@, ""@, screen, cwd, rest, found);
                },
            }
            lemma_built_later(screen, cwd, talk, found);
        },
        None => {
            lemma_mined_laid_out(""@, ""@, screen, cwd, talk, found);
        },
    }
}

proof fn lemma_built_later(
    screen: Seq<char>,
    cwd: Seq<char>,
    talk: Seq<Entry>,
    found: Seq<Candidate>,
)
    requires
        talk.len() > 0,
        is_gathering(talk[0].call),
        builds_from_answers(screen, cwd, talk.skip(1), 0, found),
        forall|i: int|
            0 <= i < talk.skip(1).len() ==> is_gathering((#[trigger] talk.skip(1)[i]).call),
    ensures
        builds_from_answers(screen, cwd, talk, 1, found),
        talk.skip(1)[0] == talk[1],
        forall|i: int| 0 <= i < talk.len() ==> is_gathering((#[trigger] talk[i]).call),
{
    let rest = talk.skip(1);
    assert(forall|k: int| 0 <= k < rest.len() ==> #[trigger] rest[k] == talk[k + 1]);
    assert forall|i: int| 0 <= i < talk.len() implies is_gathering((#[trigger] talk[i]).call) by {
        if i > 0 {
            assert(rest[i - 1] == talk[i]);
        }
    }
    let last = rest.len() - 1;
    assert(rest[0] == talk[1]);
    assert(rest[1] == talk[2]);
    assert(rest[2] == talk[3]);
    assert(rest[3] == talk[4]);
    assert(rest[last] == talk[last + 1]);
    assert(rest[last - 1] == talk[last]);
    assert(rest[last - 2] == talk[last - 1]);
    assert(last >= 3 ==> rest[last - 3] == talk[last - 2]);
}

} // verus!
