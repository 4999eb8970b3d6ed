//! What the rehearsals of herdr and of the machine keep to.

use vstd::prelude::*;

use crate::candidates::{self, CandidateView, InputView};
use crate::config::ConfigView;
use crate::failure::Failure;
use crate::herdr::Dir;
use crate::log::{Call, Exit};
use crate::mock;
use crate::mock_machine::{self, MockMachine};
use crate::path;
use crate::report_laws::{self, names};
use crate::state::StateView;
use crate::text;

verus! {

/// A script is played from its start: two questions in a row get the first two answers, in that
/// order, and what is left is the rest of the script. A script that is over stays over.
pub proof fn scripts_are_played_in_order<T>(
    script: Seq<Result<T, Failure>>,
    between: Seq<Result<T, Failure>>,
    left: Seq<Result<T, Failure>>,
    operation: Seq<char>,
    first: Result<T, Failure>,
    second: Result<T, Failure>,
)
    requires
        mock::scripted(script, between, operation, first),
        mock::scripted(between, left, operation, second),
    ensures
        script.len() >= 2 ==> first == script[0] && second == script[1] && left == script.skip(2),
        script.len() == 1 ==> first == script[0] && second is Err,
        script.len() == 0 ==> first is Err && second is Err,
{
    if script.len() >= 2 {
        assert(left =~= script.skip(2));
    }
}

/// The exits of a script are given from its start, and where it is over programs succeed.
pub proof fn exits_are_given_in_order(
    script: Seq<Exit>,
    between: Seq<Exit>,
    left: Seq<Exit>,
    first: Exit,
    second: Exit,
)
    requires
        mock_machine::ended(script, between, first),
        mock_machine::ended(between, left, second),
    ensures
        script.len() >= 2 ==> first == script[0] && second == script[1] && left == script.skip(2),
        script.len() == 1 ==> first == script[0] && second is Finished && second->success,
        script.len() == 0 ==> first is Finished && first->success,
{
    if script.len() >= 2 {
        assert(left =~= script.skip(2));
    }
}

proof fn lemma_first_record(list: Seq<StateView>, state: StateView, tab: Seq<char>)
    ensures
        mock_machine::recorded(list.push(state), tab) == match mock_machine::recorded(list, tab) {
            Some(found) => Some(found),
            None => if state.tab == tab {
                Some(state)
            } else {
                None
            },
        },
    decreases list.len(),
{
    let longer = list.push(state);
    if list.len() == 0 {
        assert(longer.drop_first() =~= Seq::empty());
    } else {
        assert(longer[0] == list[0]);
        assert(longer.drop_first() =~= list.drop_first().push(state));
        lemma_first_record(list.drop_first(), state, tab);
    }
}

proof fn lemma_record_dropped(list: Seq<StateView>, dropped: Seq<char>, tab: Seq<char>)
    ensures
        mock_machine::recorded(mock_machine::without_tab(list, dropped), tab) == if tab == dropped {
            None
        } else {
            mock_machine::recorded(list, tab)
        },
    decreases list.len(),
{
    reveal(Seq::filter);
    if list.len() > 0 {
        let shorter = list.drop_last();
        let kept = mock_machine::without_tab(shorter, dropped);
        lemma_record_dropped(shorter, dropped, tab);
        assert(list =~= shorter.push(list.last()));
        lemma_first_record(shorter, list.last(), tab);
        lemma_first_record(kept, list.last(), tab);
        if list.last().tab != dropped {
            assert(mock_machine::without_tab(list, dropped) =~= kept.push(list.last()));
        } else {
            assert(mock_machine::without_tab(list, dropped) =~= kept);
        }
    }
}

/// What is put on record for a tab is what is found there afterwards, and the records of other tabs
/// stay as they were. A record that is dropped is not found any more.
pub proof fn records_are_read_back(machine: MockMachine, state: StateView, tab: Seq<char>)
    ensures
        ({
            let before = mock_machine::states_of(machine.records@);
            let after = mock_machine::kept(machine, state);
            &&& !machine.forgetful && !machine.careless ==> mock_machine::recorded(
                after,
                state.tab,
            ) == Some(state)
            &&& machine.forgetful ==> mock_machine::recorded(after, state.tab) is None
            &&& tab != state.tab ==> mock_machine::recorded(after, tab) == mock_machine::recorded(
                before,
                tab,
            )
            &&& mock_machine::recorded(mock_machine::without_tab(before, tab), tab) is None
        }),
{
    let before = mock_machine::states_of(machine.records@);
    let others = mock_machine::without_tab(before, state.tab);
    lemma_record_dropped(before, state.tab, state.tab);
    lemma_record_dropped(before, state.tab, tab);
    lemma_record_dropped(before, tab, tab);
    let careless = StateView { sidebar_pane: None, ..state };
    lemma_first_record(others, state, state.tab);
    lemma_first_record(others, state, tab);
    lemma_first_record(others, careless, state.tab);
    lemma_first_record(others, careless, tab);
}

/// What a text mentions is among what the machine was told that it does, and is a file of the
/// machine, and the other way round.
pub proof fn only_files_are_mentioned(
    machine: MockMachine,
    cwd: Seq<char>,
    candidate: CandidateView,
)
    ensures
        mock_machine::mentioned(machine, cwd).contains(candidate) <==> {
            &&& candidates::candidates_of(machine.scraped@).contains(candidate)
            &&& text::texts(machine.files@).contains(path::joined(cwd, candidate.path))
        },
{
    let list = candidates::candidates_of(machine.scraped@);
    let keep = |candidate: CandidateView|
        text::texts(machine.files@).contains(path::joined(cwd, candidate.path));
    lemma_filtered(list, keep, candidate);
}

proof fn lemma_filtered<T>(list: Seq<T>, keep: spec_fn(T) -> bool, item: T)
    ensures
        list.filter(keep).contains(item) <==> list.contains(item) && keep(item),
    decreases list.len(),
{
    reveal(Seq::filter);
    if list.len() > 0 {
        let shorter = list.drop_last();
        let kept = shorter.filter(keep);
        lemma_filtered(shorter, keep, item);
        assert(list =~= shorter.push(list.last()));
        lemma_pushed(shorter, list.last(), item);
        lemma_pushed(kept, list.last(), item);
    }
}

proof fn lemma_pushed<T>(list: Seq<T>, last: T, item: T)
    ensures
        list.push(last).contains(item) <==> list.contains(item) || last == item,
{
    let longer = list.push(last);
    assert(longer[list.len() as int] == last);
    if list.contains(item) {
        let i = choose|i: int| 0 <= i < list.len() && list[i] == item;
        assert(longer[i] == item);
    }
    if longer.contains(item) && last != item {
        let i = choose|i: int| 0 <= i < longer.len() && longer[i] == item;
        assert(list[i] == item);
    }
}

proof fn lemma_longer(whole: Seq<char>, part: Seq<char>, after: Seq<char>)
    requires
        names(whole, part),
    ensures
        names(whole + after, part),
{
    let start = choose|start: int| report_laws::stands_at(whole, part, start);
    assert((whole + after).subrange(start, start + part.len()) =~= part) by {
        assert(part == whole.subrange(start, start + part.len()));
    }
    assert(report_laws::stands_at(whole + after, part, start));
}

proof fn lemma_labelled(whole: Seq<char>, label: Seq<char>, value: Seq<char>)
    ensures
        names(whole + label + value, label + value),
{
    lemma_grouped(whole, label, value);
    report_laws::lemma_at_end(whole, label + value);
}

proof fn lemma_grouped(first: Seq<char>, second: Seq<char>, third: Seq<char>)
    ensures
        first + second + third == first + (second + third),
{
    assert(first + second + third =~= first + (second + third));
}

proof fn lemma_goes_on(whole: Seq<char>, part: Seq<char>, label: Seq<char>, value: Seq<char>)
    requires
        names(whole, part),
    ensures
        names(whole + label + value, part),
{
    lemma_longer(whole, part, label);
    lemma_longer(whole + label, part, value);
}

proof fn lemma_flagged(whole: Seq<char>, part: Seq<char>, flag: bool)
    requires
        names(whole, part),
    ensures
        names(whole + " focus:"@ + mock::flag_name(flag), part),
{
    lemma_longer(whole, part, " focus:"@);
    lemma_longer(whole + " focus:"@, part, mock::flag_name(flag));
}

proof fn lemma_move_written(
    pane: Seq<char>,
    tab: Seq<char>,
    dir: Dir,
    target: Option<Seq<char>>,
    ratio: Option<Seq<char>>,
    focus: bool,
)
    ensures
        ({
            let line = mock::op_text(Call::MovePane { pane, tab, dir, target, ratio, focus });
            &&& names(line, pane)
            &&& names(line, " -> tab:"@ + tab)
            &&& target matches Some(target) ==> names(line, " target:"@ + target)
            &&& ratio matches Some(ratio) ==> names(line, " ratio:"@ + ratio)
        }),
{
    let tab_part = " -> tab:"@ + tab;
    let target_part = " target:"@ + mock::or_dash(target);
    let ratio_part = " ratio:"@ + mock::or_dash(ratio);
    let to_pane = "move "@ + pane;
    let to_tab = to_pane + " -> tab:"@ + tab;
    let to_dir = to_tab + " dir:"@ + mock::dir_name(dir);
    let to_target = to_dir + " target:"@ + mock::or_dash(target);
    let to_ratio = to_target + " ratio:"@ + mock::or_dash(ratio);
    report_laws::lemma_at_end("move "@, pane);
    lemma_goes_on(to_pane, pane, " -> tab:"@, tab);
    lemma_labelled(to_pane, " -> tab:"@, tab);
    lemma_goes_on(to_tab, pane, " dir:"@, mock::dir_name(dir));
    lemma_goes_on(to_tab, tab_part, " dir:"@, mock::dir_name(dir));
    lemma_goes_on(to_dir, pane, " target:"@, mock::or_dash(target));
    lemma_goes_on(to_dir, tab_part, " target:"@, mock::or_dash(target));
    lemma_labelled(to_dir, " target:"@, mock::or_dash(target));
    lemma_goes_on(to_target, pane, " ratio:"@, mock::or_dash(ratio));
    lemma_goes_on(to_target, tab_part, " ratio:"@, mock::or_dash(ratio));
    lemma_goes_on(to_target, target_part, " ratio:"@, mock::or_dash(ratio));
    lemma_labelled(to_target, " ratio:"@, mock::or_dash(ratio));
    lemma_flagged(to_ratio, pane, focus);
    lemma_flagged(to_ratio, tab_part, focus);
    lemma_flagged(to_ratio, target_part, focus);
    lemma_flagged(to_ratio, ratio_part, focus);
}

/// What is written down of a question names all that the question names.
pub proof fn written_questions_name_everything(call: Call)
    ensures
        ({
            let line = mock::op_text(call);
            match call {
                Call::PaneRects { tab } => names(line, tab),
                Call::TabOfPane { pane } => names(line, pane),
                Call::CreateTab { workspace } => names(line, workspace),
                Call::MovePane { pane, tab, dir, target, ratio, focus } => {
                    &&& names(line, pane)
                    &&& names(line, " -> tab:"@ + tab)
                    &&& target matches Some(target) ==> names(line, " target:"@ + target)
                    &&& ratio matches Some(ratio) ==> names(line, " ratio:"@ + ratio)
                },
                Call::SplitPane { pane, dir, ratio, focus } => names(line, pane) && names(
                    line,
                    " ratio:"@ + ratio,
                ),
                Call::OpenSidebarPane { anchor, dir, cwd, focus } => names(line, anchor) && names(
                    line,
                    " cwd:"@ + cwd,
                ),
                Call::RunInPane { pane, cmd } => names(line, pane) && report_laws::ends_with(
                    line,
                    cmd,
                ),
                Call::ClosePane { pane } => names(line, pane),
                Call::PaneAlive { pane } => names(line, pane),
                Call::ReadPane { pane, lines } => names(line, pane) && report_laws::ends_with(
                    line,
                    text::decimal(lines as nat),
                ),
                Call::PaneCwd { pane } => names(line, pane),
                Call::Agents { workspace } => names(line, workspace),
                Call::PaneSnapshot { pane } => names(line, pane),
                _ => true,
            }
        }),
{
    match call {
        Call::PaneRects { tab } => report_laws::lemma_at_end("rects "@, tab),
        Call::TabOfPane { pane } => report_laws::lemma_at_end("tab_of "@, pane),
        Call::CreateTab { workspace } => report_laws::lemma_at_end("create_tab "@, workspace),
        Call::MovePane { pane, tab, dir, target, ratio, focus } => lemma_move_written(
            pane,
            tab,
            dir,
            target,
            ratio,
            focus,
        ),
        Call::SplitPane { pane, dir, ratio, focus } => {
            let start = "split "@ + pane;
            let direction = start + " dir:"@ + mock::dir_name(dir);
            report_laws::lemma_at_end("split "@, pane);
            lemma_goes_on(start, pane, " dir:"@, mock::dir_name(dir));
            lemma_goes_on(direction, pane, " ratio:"@, ratio);
            lemma_labelled(direction, " ratio:"@, ratio);
            lemma_flagged(direction + " ratio:"@ + ratio, pane, focus);
            lemma_flagged(direction + " ratio:"@ + ratio, " ratio:"@ + ratio, focus);
        },
        Call::OpenSidebarPane { anchor, dir, cwd, focus } => {
            let start = "open_sidebar "@ + anchor;
            let direction = start + " dir:"@ + mock::dir_name(dir);
            report_laws::lemma_at_end("open_sidebar "@, anchor);
            lemma_goes_on(start, anchor, " dir:"@, mock::dir_name(dir));
            lemma_goes_on(direction, anchor, " cwd:"@, cwd);
            lemma_labelled(direction, " cwd:"@, cwd);
            lemma_flagged(direction + " cwd:"@ + cwd, anchor, focus);
            lemma_flagged(direction + " cwd:"@ + cwd, " cwd:"@ + cwd, focus);
        },
        Call::RunInPane { pane, cmd } => {
            report_laws::lemma_at_end("run "@ + pane + " "@, cmd);
            report_laws::lemma_between("run "@, pane, " "@ + cmd);
            assert("run "@ + pane + " "@ + cmd =~= "run "@ + pane + (" "@ + cmd));
        },
        Call::ClosePane { pane } => report_laws::lemma_at_end("close "@, pane),
        Call::PaneAlive { pane } => report_laws::lemma_at_end("alive "@, pane),
        Call::ReadPane { pane, lines } => {
            let number = text::decimal(lines as nat);
            report_laws::lemma_at_end("read_pane "@ + pane + " "@, number);
            report_laws::lemma_between("read_pane "@, pane, " "@ + number);
            assert("read_pane "@ + pane + " "@ + number =~= "read_pane "@ + pane + (" "@ + number));
        },
        Call::PaneCwd { pane } => report_laws::lemma_at_end("pane_cwd "@, pane),
        Call::Agents { workspace } => report_laws::lemma_at_end("agents "@, workspace),
        Call::PaneSnapshot { pane } => report_laws::lemma_at_end("pane_snapshot "@, pane),
        _ => {},
    }
}

/// What is written down of a run names the program and its arguments, and ends in a word of its own
/// where the run is quiet. What is written down of a daemon names its tab, its root, its directory
/// and its editor.
pub proof fn written_runs_name_everything(
    program: Seq<char>,
    args: Seq<Seq<char>>,
    tab: Seq<char>,
    root: Seq<char>,
    config: ConfigView,
    cwd: Seq<char>,
)
    ensures
        program.is_prefix_of(mock_machine::run_line(program, args, true)),
        program.is_prefix_of(mock_machine::run_line(program, args, false)),
        report_laws::ends_with(
            mock_machine::run_line(program, args, false),
            text::joined(args, " "@),
        ),
        report_laws::ends_with(mock_machine::run_line(program, args, true), " quiet"@),
        names(mock_machine::run_line(program, args, true), text::joined(args, " "@)),
        names(mock_machine::daemon_line(tab, root, config, cwd), " "@ + root),
        names(mock_machine::daemon_line(tab, root, config, cwd), " "@ + cwd),
        report_laws::ends_with(
            mock_machine::daemon_line(tab, root, config, cwd),
            config.sidebar.editor,
        ),
{
    reveal_strlit("");
    let start = program + " "@;
    let told = text::joined(args, " "@);
    let loud = mock_machine::run_line(program, args, false);
    let quiet = mock_machine::run_line(program, args, true);
    assert(loud =~= start + told);
    assert(program =~= loud.subrange(0, program.len() as int));
    assert(program =~= quiet.subrange(0, program.len() as int));
    report_laws::lemma_at_end(start, told);
    report_laws::lemma_at_end(start + told, " quiet"@);
    lemma_longer(start + told, told, " quiet"@);
    let to_tab = "daemon "@ + tab;
    let to_root = to_tab + " "@ + root;
    let to_cwd = to_root + " "@ + cwd;
    let editor = config.sidebar.editor;
    lemma_labelled(to_tab, " "@, root);
    lemma_goes_on(to_root, " "@ + root, " "@, cwd);
    lemma_goes_on(to_cwd, " "@ + root, " "@, editor);
    lemma_labelled(to_root, " "@, cwd);
    lemma_goes_on(to_cwd, " "@ + cwd, " "@, editor);
    report_laws::lemma_at_end(to_cwd + " "@, editor);
}

/// What is built is what was mentioned and the changed files of the worktree, if there is one, that
/// are files of the machine.
pub proof fn mentions_and_changes_are_built(
    machine: MockMachine,
    input: InputView,
    candidate: CandidateView,
)
    ensures
        mock_machine::built(machine, input).contains(candidate) <==> {
            ||| input.scraped_mentioned.contains(candidate)
            ||| candidate.line is None && input.git_dirty.contains(candidate.path)
                && input.toplevel is Some && path::is_within(candidate.path, input.toplevel->0)
                && text::texts(machine.files@).contains(path::joined(input.cwd, candidate.path))
        },
{
    let keep = |file: Seq<char>| mock_machine::is_worktree_file(machine, input, file);
    let kept = input.git_dirty.filter(keep);
    lemma_filtered(input.git_dirty, keep, candidate.path);
    let changed = kept.map_values(
        |file: Seq<char>| CandidateView { path: file, line: None },
    );
    let mentioned = input.scraped_mentioned;
    let built = mock_machine::built(machine, input);
    assert(built == mentioned + changed);
    if built.contains(candidate) {
        let i = choose|i: int| 0 <= i < built.len() && built[i] == candidate;
        if i < mentioned.len() {
            assert(mentioned[i] == candidate);
        } else {
            assert(changed[i - mentioned.len()] == candidate);
            assert(kept[i - mentioned.len()] == candidate.path);
        }
    }
    if mentioned.contains(candidate) {
        let i = choose|i: int| 0 <= i < mentioned.len() && mentioned[i] == candidate;
        assert(built[i] == candidate);
    }
    if candidate.line is None && kept.contains(candidate.path) {
        let i = choose|i: int| 0 <= i < kept.len() && kept[i] == candidate.path;
        assert(changed[i] == candidate);
        assert(built[mentioned.len() + i] == candidate);
    }
}

} // verus!
