//! The files that the picker can offer, and what they are gathered from.

use vstd::prelude::*;

use crate::path::{self, join, within};
use crate::state::copied_option;
use crate::text::{self, copied, same};

verus! {

/// A file that the picker can offer, with the line to jump to.
#[derive(Clone, Debug, PartialEq, Eq)]
pub struct Candidate {
    pub path: String,
    pub line: Option<u32>,
}

/// A candidate, with its path as characters.
pub struct CandidateView {
    pub path: Seq<char>,
    pub line: Option<u32>,
}

impl View for Candidate {
    type V = CandidateView;

    open spec fn view(&self) -> CandidateView {
        CandidateView { path: self.path@, line: self.line }
    }
}

/// The candidates of a list, as their views.
pub open spec fn candidates_of(list: Seq<Candidate>) -> Seq<CandidateView> {
    list.map_values(|candidate: Candidate| candidate@)
}

impl Candidate {
    /// A copy of this candidate.
    pub fn copy(&self) -> (copy: Candidate)
        ensures
            copy@ == self@,
    {
        Candidate { path: self.path.clone(), line: self.line }
    }
}

/// A copy of a list of candidates.
pub fn copied_candidates(list: &Vec<Candidate>) -> (copy: Vec<Candidate>)
    ensures
        candidates_of(copy@) == candidates_of(list@),
{
    let mut copy: Vec<Candidate> = Vec::new();
    for i in 0..list.len()
        invariant
            copy@.len() == i,
            forall|j: int| 0 <= j < i ==> (#[trigger] copy@[j])@ == list@[j]@,
    {
        copy.push(list[i].copy());
    }
    assert(candidates_of(copy@) =~= candidates_of(list@));
    copy
}

/// What the record of an agent session tells: the files that it touched, and when it first did.
#[derive(Clone, Debug, PartialEq, Eq)]
pub struct Mined {
    pub touches: Vec<String>,
    pub first_op_unix: Option<u64>,
}

/// How many lines of a file were added and removed since the last commit.
#[derive(Clone, Debug, PartialEq, Eq)]
pub struct DiffStat {
    pub path: String,
    pub added: u32,
    pub removed: u32,
}

impl DiffStat {
    /// A copy of a diff count.
    pub fn copy(&self) -> (copy: DiffStat)
        ensures
            copy@ == self@,
    {
        DiffStat { path: self.path.clone(), added: self.added, removed: self.removed }
    }
}

/// A diff count, with its path as characters.
pub struct StatView {
    pub path: Seq<char>,
    pub added: u32,
    pub removed: u32,
}

impl View for DiffStat {
    type V = StatView;

    open spec fn view(&self) -> StatView {
        StatView { path: self.path@, added: self.added, removed: self.removed }
    }
}

/// The diff counts of a list, as their views.
pub open spec fn stats_of(list: Seq<DiffStat>) -> Seq<StatView> {
    list.map_values(|stat: DiffStat| stat@)
}

/// A copy of a list of diff counts.
pub fn copied_stats(list: &Vec<DiffStat>) -> (copy: Vec<DiffStat>)
    ensures
        stats_of(copy@) == stats_of(list@),
{
    let mut copy: Vec<DiffStat> = Vec::new();
    for i in 0..list.len()
        invariant
            copy@.len() == i,
            forall|j: int| 0 <= j < i ==> (#[trigger] copy@[j])@ == list@[j]@,
    {
        copy.push(list[i].copy());
    }
    assert(stats_of(copy@) =~= stats_of(list@));
    copy
}

/// Whether a list has a diff count for a path.
pub open spec fn has_stat(list: Seq<StatView>, path: Seq<char>) -> bool {
    exists|i: int| 0 <= i < list.len() && (#[trigger] list[i]).path == path
}

/// The diff counts of a list, for each path the last one that was told.
pub open spec fn latest_stats(list: Seq<StatView>) -> Seq<StatView>
    decreases list.len(),
{
    if list.len() == 0 {
        Seq::empty()
    } else {
        let later = latest_stats(list.drop_first());
        if has_stat(later, list[0].path) {
            later
        } else {
            seq![list[0]] + later
        }
    }
}

/// Whether no two diff counts are for one path.
pub open spec fn one_per_path(list: Seq<StatView>) -> bool {
    forall|i: int, j: int|
        0 <= i < j < list.len() ==> (#[trigger] list[i]).path != (#[trigger] list[j]).path
}

pub proof fn lemma_latest_stats(list: Seq<StatView>)
    ensures
        one_per_path(latest_stats(list)),
    decreases list.len(),
{
    if list.len() > 0 {
        lemma_latest_stats(list.drop_first());
    }
}

fn has_stat_for(list: &Vec<DiffStat>, path: &str) -> (answer: bool)
    ensures
        answer == has_stat(stats_of(list@), path@),
{
    let ghost all = stats_of(list@);
    for i in 0..list.len()
        invariant
            all == stats_of(list@),
            forall|j: int| 0 <= j < i ==> (#[trigger] all[j]).path != path@,
    {
        if same(list[i].path.as_str(), path) {
            assert(all[i as int].path == path@);
            return true;
        }
    }
    false
}

/// Keep for each path the last diff count that was told.
pub fn keep_latest(list: Vec<DiffStat>) -> (kept: Vec<DiffStat>)
    ensures
        stats_of(kept@) == latest_stats(stats_of(list@)),
{
    let ghost all = stats_of(list@);
    let mut kept: Vec<DiffStat> = Vec::new();
    let mut i: usize = list.len();
    assert(stats_of(kept@) =~= latest_stats(all.skip(i as int)));
    while i > 0
        invariant
            i <= list@.len(),
            all == stats_of(list@),
            stats_of(kept@) == latest_stats(all.skip(i as int)),
        decreases i,
    {
        i = i - 1;
        let ghost before = kept@;
        assert(all.skip(i as int).drop_first() =~= all.skip(i + 1));
        assert(all.skip(i as int)[0] == list@[i as int]@);
        if !has_stat_for(&kept, list[i].path.as_str()) {
            let stat: DiffStat = list[i].copy();
            kept.insert(0, stat);
            assert(stats_of(kept@) =~= seq![stat@] + stats_of(before));
        }
    }
    assert(all.skip(0) =~= all);
    kept
}

/// All that candidates are built from: the agent's session, the git worktree and the text on the
/// agent's screen. No path is twice among the dirty or the committed ones, and none has two diff
/// counts.
#[derive(Clone, Debug, PartialEq, Eq)]
pub struct BuildInput {
    pub mined_touches: Vec<String>,
    pub first_op_unix: Option<u64>,
    pub git_dirty: Vec<String>,
    pub git_committed_in_session: Vec<String>,
    /// The root of the worktree that the agent works in; a path below it is in that worktree.
    pub toplevel: Option<String>,
    /// The directory that relative paths start from.
    pub cwd: String,
    pub diff_stats: Vec<DiffStat>,
    pub scraped_mentioned: Vec<Candidate>,
    pub repo_files: Vec<String>,
}

/// The input of a build, as its views.
pub struct InputView {
    pub mined_touches: Seq<Seq<char>>,
    pub first_op_unix: Option<u64>,
    pub git_dirty: Seq<Seq<char>>,
    pub git_committed_in_session: Seq<Seq<char>>,
    pub toplevel: Option<Seq<char>>,
    pub cwd: Seq<char>,
    pub diff_stats: Seq<StatView>,
    pub scraped_mentioned: Seq<CandidateView>,
    pub repo_files: Seq<Seq<char>>,
}

impl View for BuildInput {
    type V = InputView;

    open spec fn view(&self) -> InputView {
        InputView {
            mined_touches: text::texts(self.mined_touches@),
            first_op_unix: self.first_op_unix,
            git_dirty: text::texts(self.git_dirty@),
            git_committed_in_session: text::texts(self.git_committed_in_session@),
            toplevel: text::text_of(self.toplevel),
            cwd: self.cwd@,
            diff_stats: stats_of(self.diff_stats@),
            scraped_mentioned: candidates_of(self.scraped_mentioned@),
            repo_files: text::texts(self.repo_files@),
        }
    }
}

/// Whether no path is twice where one path counts once.
pub open spec fn has_nothing_twice(input: InputView) -> bool {
    &&& input.git_dirty.no_duplicates()
    &&& input.git_committed_in_session.no_duplicates()
    &&& one_per_path(input.diff_stats)
}

impl BuildInput {
    /// Tell whether a file is in the git worktree that the agent works in, if it works in one.
    pub fn in_git_worktree(&self, path: &str) -> (answer: bool)
        ensures
            answer == match self@.toplevel {
                Some(toplevel) => path::is_within(path@, toplevel),
                None => false,
            },
    {
        match &self.toplevel {
            Some(toplevel) => within(path, toplevel.as_str()),
            None => false,
        }
    }

    /// Where to look whether a file exists: a path that is not absolute starts from the directory
    /// that the agent works in.
    pub fn place_of(&self, path: &str) -> (place: String)
        ensures
            place@ == path::joined(self@.cwd, path@),
    {
        join(self.cwd.as_str(), path)
    }

    /// A copy of this input.
    pub fn copy(&self) -> (copy: BuildInput)
        ensures
            copy@ == self@,
    {
        BuildInput {
            mined_touches: copied(&self.mined_touches),
            first_op_unix: self.first_op_unix,
            git_dirty: copied(&self.git_dirty),
            git_committed_in_session: copied(&self.git_committed_in_session),
            toplevel: copied_option(&self.toplevel),
            cwd: self.cwd.clone(),
            diff_stats: copied_stats(&self.diff_stats),
            scraped_mentioned: copied_candidates(&self.scraped_mentioned),
            repo_files: copied(&self.repo_files),
        }
    }
}

/// What the two phases of a pick hand to each other.
#[derive(Clone, Debug, PartialEq, Eq)]
pub struct Handoff {
    pub candidates: Vec<Candidate>,
    pub chosen: Option<usize>,
    pub workspace: String,
    pub tab: String,
    pub focused_pane: String,
    pub cwd: String,
    pub max_files: usize,
}

/// A handoff, as its views.
pub struct HandoffView {
    pub candidates: Seq<CandidateView>,
    pub chosen: Option<usize>,
    pub workspace: Seq<char>,
    pub tab: Seq<char>,
    pub focused_pane: Seq<char>,
    pub cwd: Seq<char>,
    pub max_files: usize,
}

impl View for Handoff {
    type V = HandoffView;

    open spec fn view(&self) -> HandoffView {
        HandoffView {
            candidates: candidates_of(self.candidates@),
            chosen: self.chosen,
            workspace: self.workspace@,
            tab: self.tab@,
            focused_pane: self.focused_pane@,
            cwd: self.cwd@,
            max_files: self.max_files,
        }
    }
}

impl Handoff {
    /// A copy of this handoff.
    pub fn copy(&self) -> (copy: Handoff)
        ensures
            copy@ == self@,
    {
        Handoff {
            candidates: copied_candidates(&self.candidates),
            chosen: self.chosen,
            workspace: self.workspace.clone(),
            tab: self.tab.clone(),
            focused_pane: self.focused_pane.clone(),
            cwd: self.cwd.clone(),
            max_files: self.max_files,
        }
    }
}

} // verus!
