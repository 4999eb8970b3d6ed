use std::collections::VecDeque;

use herdr_nvim::bridge::{ensure_sidebar_open, focus_pane, open_in_nvim, open_in_sidebar};
use herdr_nvim::candidates::{BuildInput, Candidate, DiffStat, Handoff};
use herdr_nvim::command::run;
use herdr_nvim::config::{Sidebar, SidebarPosition};
use herdr_nvim::context::{cwd_from_context, read_ctx, tab_id, Ctx, Environment};
use herdr_nvim::gather::gather_candidates;
use herdr_nvim::herdr::{AgentInfo, AgentSession, Dir, PaneRect, PaneScroll, PaneSnapshot};
use herdr_nvim::host::Host;
use herdr_nvim::log::{Exit, Part, Removal};
use herdr_nvim::maneuver::{live_open_sidebar, toggle, toggle_cmd};
use herdr_nvim::mock::MockHerdr;
use herdr_nvim::mock_machine::MockMachine;
use herdr_nvim::opening::open;
use herdr_nvim::openlink::{open_file_cmd, open_link_cmd, read_click_env, resolve_click};
use herdr_nvim::pick::{finish_pick, pick_file_cmd, start_pick, target_agent_pane};
use herdr_nvim::recovery::recover;
use herdr_nvim::state::{MoveStep, Phase, RebuildPlan, StateFile};
use herdr_nvim::workbench::Workbench;

type Bench = Workbench<MockHerdr, MockMachine>;

fn ctx() -> Ctx {
    Ctx {
        workspace: "wT".into(),
        tab: "wT:t1".into(),
        focused_pane: "wT:p1".into(),
        cwd: "/repo".into(),
    }
}

fn rect(pane_id: &str, x: u32, y: u32, w: u32, h: u32) -> PaneRect {
    PaneRect {
        pane_id: pane_id.into(),
        x,
        y,
        w,
        h,
    }
}

fn three_pane_rects() -> Vec<PaneRect> {
    vec![
        rect("wT:p1", 0, 0, 40, 100),
        rect("wT:p2", 40, 0, 60, 30),
        rect("wT:p3", 40, 30, 60, 70),
    ]
}

fn steps() -> Vec<MoveStep> {
    vec![
        MoveStep {
            pane: "wT:p2".into(),
            dir: Dir::Right,
            target: "wT:p1".into(),
            ratio: "0.4".into(),
        },
        MoveStep {
            pane: "wT:p3".into(),
            dir: Dir::Down,
            target: "wT:p2".into(),
            ratio: "0.3".into(),
        },
    ]
}

fn bench(herdr: MockHerdr) -> Bench {
    Workbench::new(herdr, MockMachine::default())
}

fn mock_3pane() -> Bench {
    let mut h = bench(MockHerdr {
        pane_rects_results: VecDeque::from([Ok(three_pane_rects())]),
        create_tab_results: VecDeque::from([Ok(("wT:t9".into(), "wT:p90".into()))]),
        split_pane_results: VecDeque::from([Ok("wT:p99".into())]),
        list_tabs_results: VecDeque::from([Ok(vec![])]),
        ..Default::default()
    });
    h.machine.plans.push_back(Ok(RebuildPlan {
        anchor: "wT:p1".into(),
        steps: steps(),
    }));
    h
}

fn mock_1pane() -> Bench {
    let mut h = bench(MockHerdr {
        pane_rects_results: VecDeque::from([Ok(vec![rect("wT:p1", 0, 0, 100, 100)])]),
        split_pane_results: VecDeque::from([Ok("wT:p99".into())]),
        list_tabs_results: VecDeque::from([Ok(vec![])]),
        ..Default::default()
    });
    h.machine.plans.push_back(Ok(RebuildPlan {
        anchor: "wT:p1".into(),
        steps: vec![],
    }));
    h
}

fn mock_with_alive_sidebar() -> Bench {
    bench(MockHerdr {
        pane_alive_results: VecDeque::from([Ok(true)]),
        list_tabs_results: VecDeque::from([Ok(vec![])]),
        ..Default::default()
    })
}

fn open_state() -> StateFile {
    StateFile {
        phase: Phase::Open,
        workspace: "wT".into(),
        tab: "wT:t1".into(),
        anchor: "wT:p1".into(),
        parking_tab: None,
        parked: vec![],
        plan_steps: vec![],
        sidebar_pane: Some("wT:p99".into()),
    }
}

fn evacuating_state() -> StateFile {
    StateFile {
        phase: Phase::Evacuating,
        workspace: "wT".into(),
        tab: "wT:t1".into(),
        anchor: "wT:p1".into(),
        parking_tab: Some("wT:t9".into()),
        parked: vec!["wT:p2".into(), "wT:p3".into()],
        plan_steps: steps(),
        sidebar_pane: None,
    }
}

#[test]
fn open_on_multi_pane_tab_emits_validated_sequence() {
    let mut h = mock_3pane();
    open(&mut h, &ctx(), SidebarPosition::Right).unwrap();
    assert_eq!(
        h.herdr.ops,
        vec![
            "rects wT:t1",
            "create_tab wT",
            "move wT:p2 -> tab:wT:t9 dir:Right target:- ratio:- focus:false",
            "move wT:p3 -> tab:wT:t9 dir:Right target:- ratio:- focus:false",
            "open_sidebar wT:p1 dir:Right cwd:/repo focus:true",
            "move wT:p2 -> tab:wT:t1 dir:Right target:wT:p1 ratio:0.4 focus:false",
            "move wT:p3 -> tab:wT:t1 dir:Down target:wT:p2 ratio:0.3 focus:false",
            "close wT:p90",
        ]
    );
    let state = h.machine.record("wT:t1").unwrap();
    assert!(matches!(state.phase, Phase::Open));
    assert!(state.parked.is_empty());
    assert_eq!(state.sidebar_pane.as_deref(), Some("wT:p99"));
}

#[test]
fn open_on_single_pane_tab_skips_evacuation() {
    let mut h = mock_1pane();
    open(&mut h, &ctx(), SidebarPosition::Right).unwrap();
    assert!(h
        .herdr
        .ops
        .iter()
        .all(|op| !op.starts_with("create_tab")));
    assert!(h
        .herdr
        .ops
        .iter()
        .any(|op| op.starts_with("open_sidebar wT:p1") && op.ends_with("focus:true")));
}

#[test]
fn sidebar_position_controls_split_direction() {
    let cases = [
        (
            SidebarPosition::Left,
            "open_sidebar wT:p1 dir:Right cwd:/repo focus:true",
            Some("move wT:p1 -> tab:wT:t1 dir:Right target:wT:p99 ratio:0.5 focus:false"),
        ),
        (
            SidebarPosition::Right,
            "open_sidebar wT:p1 dir:Right cwd:/repo focus:true",
            None,
        ),
        (
            SidebarPosition::Top,
            "open_sidebar wT:p1 dir:Down cwd:/repo focus:true",
            Some("move wT:p1 -> tab:wT:t1 dir:Down target:wT:p99 ratio:0.5 focus:false"),
        ),
        (
            SidebarPosition::Bottom,
            "open_sidebar wT:p1 dir:Down cwd:/repo focus:true",
            None,
        ),
    ];

    for (position, split, reposition) in cases {
        let mut h = mock_1pane();
        if matches!(position, SidebarPosition::Left | SidebarPosition::Top) {
            h.herdr
                .create_tab_results
                .push_back(Ok(("wT:t9".into(), "wT:p90".into())));
        }
        open(&mut h, &ctx(), position).unwrap();
        let ops = &h.herdr.ops;
        assert!(ops.iter().any(|op| op == split), "{position:?}: {ops:?}");
        if let Some(reposition) = reposition {
            let parked = ops
                .iter()
                .position(|op| {
                    op == "move wT:p1 -> tab:wT:t9 dir:Right target:- ratio:- focus:false"
                })
                .expect("inverse position must park the anchor first");
            let restored = ops
                .iter()
                .position(|op| op == reposition)
                .expect("inverse position must restore the anchor beside the sidebar");
            assert!(parked < restored, "{position:?}: {ops:?}");
        } else {
            assert!(
                ops.iter().all(|op| !op.starts_with("create_tab")),
                "{position:?}: {ops:?}"
            );
        }
    }
}

#[test]
fn toggle_with_live_sidebar_closes_it() {
    let mut h = mock_with_alive_sidebar();
    h.machine.records.push(open_state());
    toggle(&mut h, &ctx()).unwrap();
    assert_eq!(h.herdr.ops, vec!["alive wT:p99", "close wT:p99"]);
    assert!(h.machine.record("wT:t1").is_none());
}

#[test]
fn toggle_falls_through_to_recover_for_evacuating_checkpoint_with_alive_sidebar() {
    let mut h = mock_3pane();
    let mut checkpoint = evacuating_state();
    checkpoint.sidebar_pane = Some("wT:p99".into());
    h.machine.records.push(checkpoint);
    for _ in 0..5 {
        h.herdr.pane_alive_results.push_back(Ok(true));
    }

    toggle(&mut h, &ctx()).unwrap();

    let ops = &h.herdr.ops;
    assert_eq!(ops[0], "alive wT:p99");
    assert_eq!(ops[1], "close wT:p99");
    assert!(
        ops[2..].iter().any(|op| op
            == "move wT:p2 -> tab:wT:t1 dir:Right target:wT:p1 ratio:0.4 focus:false"),
        "parked pane p2 must be replayed back by recover(), not stranded: {ops:?}"
    );
    assert!(
        ops[2..].iter().any(|op| op
            == "move wT:p3 -> tab:wT:t1 dir:Down target:wT:p2 ratio:0.3 focus:false"),
        "parked pane p3 must be replayed back by recover(), not stranded: {ops:?}"
    );
    assert!(
        ops.iter().any(|op| op == "create_tab wT"),
        "toggle must fall through to a fresh open() after recovery: {ops:?}"
    );

    let state = h.machine.record("wT:t1").unwrap();
    assert!(matches!(state.phase, Phase::Open));
    assert!(state.parked.is_empty());
    assert_eq!(state.sidebar_pane.as_deref(), Some("wT:p99"));
}

#[test]
fn stale_state_dead_sidebar_reopens() {
    let mut h = mock_3pane();
    h.machine.records.push(open_state());
    h.herdr.pane_alive_results.push_front(Ok(false));
    toggle(&mut h, &ctx()).unwrap();
    assert_eq!(h.herdr.ops[0], "alive wT:p99");
    assert!(h.herdr.ops.iter().any(|op| op == "create_tab wT"));
    let state = h.machine.record("wT:t1").unwrap();
    assert!(matches!(state.phase, Phase::Open));
    assert_eq!(state.sidebar_pane.as_deref(), Some("wT:p99"));
}

#[test]
fn recover_moves_parked_panes_back() {
    let mut h = bench(MockHerdr::default());
    h.machine.records.push(evacuating_state());
    for _ in 0..4 {
        h.herdr.pane_alive_results.push_back(Ok(true));
    }
    recover(&mut h, "wT:t1").unwrap();
    assert_eq!(
        h.herdr.ops,
        vec![
            "alive wT:p2",
            "alive wT:p1",
            "move wT:p2 -> tab:wT:t1 dir:Right target:wT:p1 ratio:0.4 focus:false",
            "alive wT:p3",
            "alive wT:p2",
            "move wT:p3 -> tab:wT:t1 dir:Down target:wT:p2 ratio:0.3 focus:false",
        ]
    );
    assert!(h.machine.record("wT:t1").is_none());
}

#[test]
fn recover_closes_orphaned_sidebar_before_replaying_moves() {
    let mut h = bench(MockHerdr {
        pane_alive_results: VecDeque::from([Ok(true), Ok(true), Ok(true), Ok(true), Ok(true)]),
        ..Default::default()
    });
    let mut saved_state = evacuating_state();
    saved_state.sidebar_pane = Some("wT:p99".into());
    h.machine.records.push(saved_state);

    recover(&mut h, "wT:t1").unwrap();

    assert_eq!(
        h.herdr.ops,
        vec![
            "alive wT:p99",
            "close wT:p99",
            "alive wT:p2",
            "alive wT:p1",
            "move wT:p2 -> tab:wT:t1 dir:Right target:wT:p1 ratio:0.4 focus:false",
            "alive wT:p3",
            "alive wT:p2",
            "move wT:p3 -> tab:wT:t1 dir:Down target:wT:p2 ratio:0.3 focus:false",
        ]
    );
    assert!(h.machine.record("wT:t1").is_none());
}

#[test]
fn recover_skips_closing_dead_orphaned_sidebar() {
    let mut h = bench(MockHerdr {
        pane_alive_results: VecDeque::from([Ok(false), Ok(true), Ok(true), Ok(true), Ok(true)]),
        ..Default::default()
    });
    let mut saved_state = evacuating_state();
    saved_state.sidebar_pane = Some("wT:p99".into());
    h.machine.records.push(saved_state);

    recover(&mut h, "wT:t1").unwrap();

    assert_eq!(
        h.herdr.ops,
        vec![
            "alive wT:p99",
            "alive wT:p2",
            "alive wT:p1",
            "move wT:p2 -> tab:wT:t1 dir:Right target:wT:p1 ratio:0.4 focus:false",
            "alive wT:p3",
            "alive wT:p2",
            "move wT:p3 -> tab:wT:t1 dir:Down target:wT:p2 ratio:0.3 focus:false",
        ]
    );
    assert!(h.machine.record("wT:t1").is_none());
}

#[test]
fn recover_forgets_a_parked_pane_that_no_longer_exists() {
    let mut h = bench(MockHerdr::default());
    h.machine.records.push(evacuating_state());
    h.herdr.pane_alive_results.push_back(Ok(false)); // p2 is gone
    h.herdr.pane_alive_results.push_back(Ok(true)); // p3 is still there
    h.herdr.pane_alive_results.push_back(Ok(false)); // ... but its sibling p2 is not

    recover(&mut h, "wT:t1").unwrap();

    assert_eq!(
        h.herdr.ops,
        vec![
            "alive wT:p2",
            "alive wT:p3",
            "alive wT:p2",
            // No sibling left to place against, so p3 goes back at herdr's default position
            // rather than staying parked.
            "move wT:p3 -> tab:wT:t1 dir:Right target:- ratio:- focus:false",
        ]
    );
    assert!(
        h.machine.record("wT:t1").is_none(),
        "a dead pane must not leave the tab wedged in Evacuating"
    );
}

#[test]
fn recover_restores_a_parked_pane_the_plan_forgot() {
    let mut h = bench(MockHerdr::default());
    let mut stranded = evacuating_state();
    stranded.parked.push("wT:pX".into());
    h.machine.records.push(stranded);
    for _ in 0..5 {
        h.herdr.pane_alive_results.push_back(Ok(true));
    }

    recover(&mut h, "wT:t1").unwrap();

    assert_eq!(
        h.herdr.ops.last().map(String::as_str),
        Some("move wT:pX -> tab:wT:t1 dir:Right target:- ratio:- focus:false"),
        "the pane the plan forgot must still come home: {:?}",
        h.herdr.ops
    );
    assert!(h.machine.record("wT:t1").is_none());
}

#[test]
fn open_file_recovers_a_tab_whose_parked_panes_all_died() {
    let mut h = mock_3pane();
    h.machine.records.push(evacuating_state());
    h.herdr.pane_alive_results.push_back(Ok(false));
    h.herdr.pane_alive_results.push_back(Ok(false));

    toggle(&mut h, &ctx()).unwrap();

    let ops = &h.herdr.ops;
    let opened = ops
        .iter()
        .position(|op| op == "create_tab wT")
        .expect("toggle must fall through to a fresh open()");
    assert!(
        ops[..opened].iter().all(|op| !op.starts_with("move ")),
        "recovery must not move panes that no longer exist: {:?}",
        &ops[..opened]
    );

    let state = h.machine.record("wT:t1").unwrap();
    assert!(matches!(state.phase, Phase::Open));
    assert!(state.parked.is_empty());
    assert_eq!(state.sidebar_pane.as_deref(), Some("wT:p99"));
}

fn unset() -> Result<String, String> {
    Err("environment variable not found".into())
}

fn bare_environment() -> Environment {
    Environment {
        workspace: unset(),
        pane: unset(),
        tab: unset(),
        plugin_context: unset(),
        clicked_url: unset(),
        home: None,
    }
}

fn invoked(context: &str) -> Environment {
    Environment {
        workspace: Ok("wA".into()),
        pane: Ok("wA:p1".into()),
        plugin_context: Ok(context.into()),
        ..bare_environment()
    }
}

#[test]
fn read_ctx_prefers_workspace_cwd_from_context_json() {
    let environment = invoked(
        r#"{"tab_id":"wA:t1","workspace_cwd":"/repo/ws","focused_pane_cwd":"/repo/pane"}"#,
    );
    let mut h = MockHerdr::default();
    let ctx = read_ctx(&mut h, &environment).unwrap();
    assert_eq!(ctx.cwd, "/repo/ws");
    assert!(h.ops.is_empty(), "no pane_cwd fallback call expected");
}

#[test]
fn read_ctx_falls_back_to_focused_pane_cwd_when_workspace_cwd_absent() {
    let environment = invoked(r#"{"tab_id":"wA:t1","focused_pane_cwd":"/repo/pane"}"#);
    let mut h = MockHerdr::default();
    let ctx = read_ctx(&mut h, &environment).unwrap();
    assert_eq!(ctx.cwd, "/repo/pane");
    assert!(h.ops.is_empty(), "no pane_cwd fallback call expected");
}

#[test]
fn read_ctx_falls_back_to_pane_cwd_call_when_neither_json_field_present() {
    let environment = invoked(r#"{"tab_id":"wA:t1"}"#);
    let mut h = MockHerdr {
        pane_cwd_results: VecDeque::from([Ok("/repo/from-cli".into())]),
        ..Default::default()
    };
    let ctx = read_ctx(&mut h, &environment).unwrap();
    assert_eq!(ctx.cwd, "/repo/from-cli");
    assert_eq!(h.ops, vec!["pane_cwd wA:p1"]);
}

#[test]
fn read_ctx_says_what_is_missing() {
    let complete = || invoked(r#"{"tab_id":"wA:t1","workspace_cwd":"/repo"}"#);
    let cases = [
        (
            Environment {
                workspace: unset(),
                pane: unset(),
                ..complete()
            },
            "HERDR_WORKSPACE_ID is not set: environment variable not found",
        ),
        (
            Environment {
                pane: unset(),
                ..complete()
            },
            "HERDR_PANE_ID is not set: environment variable not found",
        ),
        (
            Environment {
                plugin_context: unset(),
                ..complete()
            },
            "HERDR_PLUGIN_CONTEXT_JSON is not set: environment variable not found",
        ),
        (
            invoked("not JSON"),
            "invalid HERDR_PLUGIN_CONTEXT_JSON: expected ident at line 1 column 2",
        ),
        (invoked("{}"), "plugin context is missing pane tab_id"),
    ];
    for (environment, message) in cases {
        let mut h = MockHerdr::default();
        assert_eq!(
            read_ctx(&mut h, &environment).unwrap_err().message(),
            message
        );
        assert!(h.ops.is_empty());
    }
}

#[test]
fn the_tab_is_found_in_three_places_of_a_context() {
    let json = |text: &str| -> serde_json::Value { serde_json::from_str(text).unwrap() };
    let all = json(
        r#"{"tab_id":"t1","pane":{"tab_id":"t2"},"focused_pane":{"tab_id":"t3"}}"#,
    );
    assert_eq!(tab_id(&all), Some("t1"));
    let two = json(r#"{"tab_id":7,"pane":{"tab_id":"t2"},"focused_pane":{"tab_id":"t3"}}"#);
    assert_eq!(tab_id(&two), Some("t2"));
    let one = json(r#"{"focused_pane":{"tab_id":"t3"}}"#);
    assert_eq!(tab_id(&one), Some("t3"));
    assert_eq!(tab_id(&json("[]")), None);
    assert_eq!(cwd_from_context(&json("{}")), None);
}

#[test]
fn the_lock_is_held_for_the_length_of_an_opening_and_given_back() {
    let mut h = mock_3pane();
    open(&mut h, &ctx(), SidebarPosition::Right).unwrap();
    assert_eq!(h.machine.held_while_saving, [true, true, true]);
    assert!(!h.machine.locked);

    let mut failing = bench(MockHerdr::default());
    assert!(open(&mut failing, &ctx(), SidebarPosition::Right).is_err());
    assert!(!failing.machine.locked);
}

#[test]
fn a_lock_of_someone_else_is_not_released_after_an_opening() {
    let mut h = mock_3pane();
    h.machine.locked = true;
    open(&mut h, &ctx(), SidebarPosition::Right).unwrap();
    assert!(h.machine.locked);
}

#[test]
fn a_lock_that_was_given_back_can_be_taken_again() {
    let mut h = bench(MockHerdr::default());
    let guard = h.hold_lock();
    assert_eq!(guard.dir.as_deref(), Some("/tmp/lock"));
    let other = h.hold_lock();
    assert_eq!(other.dir, None);
    h.release_lock(&other);
    assert!(h.machine.locked);
    h.release_lock(&guard);
    assert!(!h.machine.locked);
    assert_eq!(h.hold_lock(), guard);
}

#[test]
fn an_opening_records_the_parked_panes_before_it_moves_them() {
    let mut h = mock_3pane();
    open(&mut h, &ctx(), SidebarPosition::Left).unwrap();
    let saved = &h.machine.saved;
    assert_eq!(saved.len(), 3);
    assert_eq!(saved[0].phase, Phase::Evacuating);
    assert_eq!(saved[0].parked, ["wT:p2", "wT:p3"]);
    assert_eq!(saved[0].parking_tab.as_deref(), Some("wT:t9"));
    assert_eq!(saved[0].sidebar_pane, None);
    assert_eq!(saved[1].phase, Phase::Evacuating);
    assert_eq!(saved[1].sidebar_pane.as_deref(), Some("wT:p99"));
    assert_eq!(saved[2].phase, Phase::Open);
    assert_eq!(saved[2].parking_tab, None);
    assert_eq!(
        h.herdr.ops[5..7],
        [
            "move wT:p1 -> tab:wT:t9 dir:Right target:- ratio:- focus:false",
            "move wT:p1 -> tab:wT:t1 dir:Right target:wT:p99 ratio:0.5 focus:false"
        ]
    );
}

#[test]
fn an_opening_that_is_cut_short_is_repaired_by_the_next_toggle() {
    let mut h = mock_3pane();
    h.herdr.split_pane_results.clear();
    let failure = open(&mut h, &ctx(), SidebarPosition::Right).unwrap_err();
    assert_eq!(
        failure.message(),
        "no scripted response for open_sidebar_pane"
    );
    let left = h.machine.record("wT:t1").unwrap();
    assert_eq!(left.phase, Phase::Evacuating);
    assert_eq!(left.parked, ["wT:p2", "wT:p3"]);

    let mut again = mock_3pane();
    again.machine.records.push(left);
    for _ in 0..4 {
        again.herdr.pane_alive_results.push_back(Ok(true));
    }
    toggle(&mut again, &ctx()).unwrap();
    assert_eq!(again.machine.record("wT:t1").unwrap().phase, Phase::Open);
}

#[test]
fn a_recovery_records_every_pane_that_it_puts_back() {
    let mut h = bench(MockHerdr::default());
    h.machine.records.push(evacuating_state());
    for _ in 0..4 {
        h.herdr.pane_alive_results.push_back(Ok(true));
    }
    recover(&mut h, "wT:t1").unwrap();
    let parked: Vec<Vec<String>> = h.machine.saved.iter().map(|s| s.parked.clone()).collect();
    assert_eq!(parked, vec![vec!["wT:p3".to_owned()], vec![]]);
}

#[test]
fn a_recovery_that_fails_keeps_what_is_still_parked_on_record() {
    let mut h = bench(MockHerdr::default());
    h.machine.records.push(evacuating_state());
    h.herdr.pane_alive_results.push_back(Ok(false));
    let failure = recover(&mut h, "wT:t1").unwrap_err();
    assert_eq!(failure.message(), "no scripted response for pane_alive");
    let left = h.machine.record("wT:t1").unwrap();
    assert_eq!(left.phase, Phase::Evacuating);
    assert_eq!(left.parked, ["wT:p3"]);

    // The next one has nothing to do with the pane that is gone, but for the place next to it.
    h.herdr.ops.clear();
    h.herdr.pane_alive_results = VecDeque::from([Ok(true), Ok(false)]);
    recover(&mut h, "wT:t1").unwrap();
    assert_eq!(
        h.herdr.ops,
        [
            "alive wT:p3",
            "alive wT:p2",
            "move wT:p3 -> tab:wT:t1 dir:Right target:- ratio:- focus:false"
        ]
    );
}

#[test]
fn a_second_recovery_leaves_alone_what_the_first_has_put_back() {
    let mut h = bench(MockHerdr::default());
    let mut stranded = evacuating_state();
    stranded.parked.push("wT:pX".into());
    h.machine.records.push(stranded);
    // p2 comes home; the look for p3 fails.
    h.herdr.pane_alive_results = VecDeque::from([Ok(true), Ok(true)]);
    assert!(recover(&mut h, "wT:t1").is_err());
    let left = h.machine.record("wT:t1").unwrap();
    assert_eq!(left.phase, Phase::Evacuating);
    assert_eq!(left.parked, ["wT:p3", "wT:pX"]);

    h.herdr.ops.clear();
    h.herdr.pane_alive_results = VecDeque::from([Ok(true), Ok(true), Ok(true)]);
    recover(&mut h, "wT:t1").unwrap();
    assert_eq!(
        h.herdr.ops,
        [
            "alive wT:p3",
            "alive wT:p2",
            "move wT:p3 -> tab:wT:t1 dir:Down target:wT:p2 ratio:0.3 focus:false",
            "alive wT:pX",
            "move wT:pX -> tab:wT:t1 dir:Right target:- ratio:- focus:false"
        ]
    );
    assert!(h.machine.record("wT:t1").is_none());
}

#[test]
fn a_tab_without_an_unfinished_opening_needs_no_recovery() {
    let mut h = bench(MockHerdr::default());
    recover(&mut h, "wT:t1").unwrap();
    h.machine.records.push(open_state());
    recover(&mut h, "wT:t1").unwrap();
    assert!(h.herdr.ops.is_empty());
    assert!(h.machine.record("wT:t1").is_some());
}

#[test]
fn failing_to_collect_daemons_blocks_no_toggle() {
    let mut h = mock_with_alive_sidebar();
    h.machine.records.push(open_state());
    h.machine.daemons = true;
    h.machine.collecting_fails = true;
    toggle(&mut h, &ctx()).unwrap();
    assert_eq!(h.machine.collected.len(), 1);
    assert_eq!(
        h.herdr.ops,
        vec!["list_tabs", "alive wT:p99", "close wT:p99"]
    );

    let mut silent = with_open_sidebar();
    silent.herdr.list_tabs_results.clear();
    silent.machine.daemons = true;
    toggle(&mut silent, &ctx()).unwrap();
    assert!(silent.machine.collected.is_empty());
    assert!(silent.machine.record("wT:t1").is_none());
}

#[test]
fn daemons_of_tabs_that_are_there_are_spared() {
    let mut h = with_open_sidebar();
    h.herdr.list_tabs_results = VecDeque::from([Ok(vec!["wT:t1".into(), "wT:t2".into()])]);
    h.machine.daemons = true;
    toggle(&mut h, &ctx()).unwrap();
    assert_eq!(h.machine.collected, [["wT:t1", "wT:t2"]]);
}

#[test]
fn two_toggles_leave_no_sidebar() {
    let mut h = mock_3pane();
    toggle(&mut h, &ctx()).unwrap();
    h.herdr.pane_alive_results.push_back(Ok(true));
    h.herdr.ops.clear();
    toggle(&mut h, &ctx()).unwrap();
    assert_eq!(h.herdr.ops, vec!["alive wT:p99", "close wT:p99"]);
    assert!(h.machine.record("wT:t1").is_none());
}

#[test]
fn a_sidebar_of_an_unfinished_opening_is_not_live() {
    let mut h = bench(MockHerdr::default());
    assert_eq!(live_open_sidebar(&mut h, "wT:t1"), Ok(None));
    let mut checkpoint = evacuating_state();
    checkpoint.sidebar_pane = Some("wT:p99".into());
    h.machine.records.push(checkpoint);
    assert_eq!(live_open_sidebar(&mut h, "wT:t1"), Ok(None));
    assert!(h.herdr.ops.is_empty());
}

#[test]
fn the_toggle_command_reads_where_it_was_invoked() {
    let mut h = mock_1pane();
    let environment = Environment {
        workspace: Ok("wT".into()),
        pane: Ok("wT:p1".into()),
        plugin_context: Ok(r#"{"tab_id":"wT:t1","workspace_cwd":"/repo"}"#.into()),
        ..bare_environment()
    };
    toggle_cmd(&mut h, &environment).unwrap();
    assert_eq!(
        h.herdr.ops,
        [
            "rects wT:t1",
            "open_sidebar wT:p1 dir:Right cwd:/repo focus:true"
        ]
    );
    let mut none = bench(MockHerdr::default());
    assert!(toggle_cmd(&mut none, &bare_environment()).is_err());
}

fn agent(pane_id: &str, tab_id: &str, focused: bool) -> AgentInfo {
    AgentInfo {
        pane_id: pane_id.into(),
        tab_id: tab_id.into(),
        focused,
    }
}

#[test]
fn focused_pane_that_is_an_agent_is_used() {
    let mut h = MockHerdr {
        agents_results: VecDeque::from([Ok(vec![
            agent("wA:p1", "wA:t1", false),
            agent("wA:p2", "wA:t1", true),
        ])]),
        ..Default::default()
    };
    assert_eq!(
        target_agent_pane(&mut h, "wA", "wA:t1", "wA:p2").unwrap(),
        "wA:p2"
    );
    assert_eq!(h.ops, ["agents wA"]);
}

#[test]
fn non_agent_focus_prefers_agent_in_the_same_tab() {
    let mut h = MockHerdr {
        agents_results: VecDeque::from([Ok(vec![
            agent("wA:p1", "wA:t9", false),
            agent("wA:p2", "wA:t1", false),
        ])]),
        ..Default::default()
    };
    assert_eq!(
        target_agent_pane(&mut h, "wA", "wA:t1", "wA:sidebar").unwrap(),
        "wA:p2"
    );
}

#[test]
fn non_agent_focus_falls_back_to_first_agent_when_no_tab_match() {
    let mut h = MockHerdr {
        agents_results: VecDeque::from([Ok(vec![
            agent("wA:p1", "wA:t3", false),
            agent("wA:p2", "wA:t4", false),
        ])]),
        ..Default::default()
    };
    assert_eq!(
        target_agent_pane(&mut h, "wA", "wA:t9", "wA:p9").unwrap(),
        "wA:p1"
    );
}

#[test]
fn no_agents_is_an_error() {
    let mut h = MockHerdr {
        agents_results: VecDeque::from([Ok(vec![])]),
        ..Default::default()
    };
    assert_eq!(
        target_agent_pane(&mut h, "wA", "wA:t1", "wA:p9")
            .unwrap_err()
            .message(),
        "no agent panes found in workspace wA"
    );
}

fn seen(path: &str, line: Option<u32>) -> Candidate {
    Candidate {
        path: path.into(),
        line,
    }
}

#[test]
fn gather_candidates_falls_back_to_scrape_when_no_agent_session() {
    let mut h = bench(MockHerdr::default());
    let text = "see /tmp/does-not-exist-ever.rs";
    h.machine.scraped = vec![seen("/tmp/does-not-exist-ever.rs", None)];
    let out = gather_candidates(&mut h, &None, text, "/tmp");
    assert!(out.is_empty());
    assert_eq!(h.machine.mined, [(String::new(), String::new())]);
    assert_eq!(h.machine.toplevel_asked, ["/tmp"]);
    assert_eq!(h.machine.inputs.len(), 1);
    assert_eq!(h.machine.inputs[0].toplevel, None);
    assert!(h.machine.inputs[0].git_dirty.is_empty());

    // The same text tells of the file once it is there.
    h.machine.files = vec!["/tmp/does-not-exist-ever.rs".into()];
    assert_eq!(
        gather_candidates(&mut h, &None, text, "/tmp"),
        h.machine.scraped
    );
}

fn session() -> AgentSession {
    AgentSession {
        agent: "pi".into(),
        kind: "path".into(),
        value: "/s.jsonl".into(),
    }
}

#[test]
fn candidates_are_built_from_all_layers() {
    let mut h = bench(MockHerdr::default());
    h.machine.session = Some("record".into());
    h.machine.first_op_unix = Some(7);
    h.machine.toplevel = Some("/repo".into());
    h.machine.scraped = vec![seen("seen.rs", Some(3))];
    h.machine.dirty = Some(vec![
        "/repo/dirty.rs".into(),
        "/repo/gone.rs".into(),
        "/repo/dirty.rs".into(),
        "/other/dirty.rs".into(),
    ]);
    h.machine.committed = Some(vec![
        "/repo/committed.rs".into(),
        "/repo/committed.rs".into(),
    ]);
    let count = |path: &str, added: u32| DiffStat {
        path: path.into(),
        added,
        removed: 1,
    };
    h.machine.stats = Some(vec![
        count("/repo/dirty.rs", 2),
        count("/repo/gone.rs", 9),
        count("/repo/dirty.rs", 3),
    ]);
    h.machine.all_files = Some(vec!["/repo/all.rs".into()]);
    h.machine.files = vec![
        "/repo/sub/seen.rs".into(),
        "/repo/dirty.rs".into(),
        "/other/dirty.rs".into(),
    ];
    let out = gather_candidates(&mut h, &Some(session()), "text", "/repo/sub");
    assert_eq!(
        out,
        [seen("seen.rs", Some(3)), seen("/repo/dirty.rs", None)]
    );
    assert_eq!(h.machine.mined, [("pi".to_owned(), "record".to_owned())]);
    assert_eq!(h.machine.commits_asked, [7]);
    let input = &h.machine.inputs[0];
    assert_eq!(input.first_op_unix, Some(7));
    assert_eq!(
        input.git_dirty,
        ["/repo/dirty.rs", "/repo/gone.rs", "/other/dirty.rs"]
    );
    assert_eq!(input.git_committed_in_session, ["/repo/committed.rs"]);
    assert_eq!(input.toplevel.as_deref(), Some("/repo"));
    assert_eq!(input.cwd, "/repo/sub");
    assert_eq!(
        input.diff_stats,
        [count("/repo/gone.rs", 9), count("/repo/dirty.rs", 3)]
    );
    assert_eq!(input.scraped_mentioned, h.machine.scraped);
    assert_eq!(input.repo_files, ["/repo/all.rs"]);
}

#[test]
fn layers_that_cannot_be_read_are_left_out() {
    let mut h = bench(MockHerdr::default());
    h.machine.toplevel = Some("/repo".into());
    gather_candidates(&mut h, &Some(session()), "text", "/repo");
    // The session could not be read, so nothing is mined from it under its agent's name, and it
    // is not known since when to look for commits.
    assert_eq!(h.machine.mined, [(String::new(), String::new())]);
    assert!(h.machine.commits_asked.is_empty());
    let input = &h.machine.inputs[0];
    assert!(input.git_dirty.is_empty());
    assert!(input.diff_stats.is_empty());
    assert!(input.repo_files.is_empty());
}

#[test]
fn only_what_lies_below_the_toplevel_is_in_the_worktree() {
    let input = |toplevel: Option<&str>| BuildInput {
        mined_touches: vec![],
        first_op_unix: None,
        git_dirty: vec![],
        git_committed_in_session: vec![],
        toplevel: toplevel.map(str::to_owned),
        cwd: "/repo/sub".into(),
        diff_stats: vec![],
        scraped_mentioned: vec![],
        repo_files: vec![],
    };
    let here = input(Some("/repo"));
    assert!(here.in_git_worktree("/repo/src/main.rs"));
    assert!(here.in_git_worktree("/repo"));
    assert!(!here.in_git_worktree("/repository/main.rs"));
    assert!(!here.in_git_worktree("repo/main.rs"));
    assert!(!input(None).in_git_worktree("/repo/main.rs"));
    assert_eq!(here.place_of("/a.rs"), "/a.rs");
    assert_eq!(here.place_of("src/a.rs"), "/repo/sub/src/a.rs");
}

fn snapshot() -> PaneSnapshot {
    PaneSnapshot {
        cwd: "/repo".into(),
        agent_session: None,
        scroll: Some(PaneScroll {
            viewport_rows: 73,
            max_offset_from_bottom: 0,
        }),
    }
}

fn picking() -> Bench {
    bench(MockHerdr {
        agents_results: VecDeque::from([Ok(vec![agent("wA:p1", "wA:t1", true)])]),
        pane_snapshot_results: VecDeque::from([Ok(snapshot())]),
        read_pane_results: VecDeque::from([Ok("see src/main.rs".into())]),
        ..Default::default()
    })
}

#[test]
fn a_pick_offers_candidates_in_the_picker() {
    let mut h = picking();
    h.machine.scraped = vec![seen("/repo/src/main.rs", Some(4))];
    h.machine.files = vec!["/repo/src/main.rs".into()];
    let environment = invoked(r#"{"tab_id":"wA:t1","workspace_cwd":"/ws"}"#);
    start_pick(&mut h, &environment).unwrap();
    assert_eq!(
        h.herdr.ops,
        ["agents wA", "pane_snapshot wA:p1", "read_pane wA:p1 73"]
    );
    let handoff = &h.machine.written[0];
    assert_eq!(handoff.candidates, h.machine.scraped);
    assert_eq!(handoff.chosen, None);
    assert_eq!(handoff.cwd, "/repo");
    assert_eq!(handoff.tab, "wA:t1");
    assert_eq!(handoff.max_files, 15);
    assert_eq!(
        h.machine.ran,
        ["herdr plugin pane open --plugin chmarax.herdr-nvim --entrypoint picker \
          --placement popup --width 80 --height 20 --env HERDR_NVIM_HANDOFF=/tmp/h.json"]
    );
}

#[test]
fn a_pick_without_candidates_says_so_and_succeeds() {
    let environment = invoked(r#"{"tab_id":"wA:t1","workspace_cwd":"/ws"}"#);
    let mut h = picking();
    start_pick(&mut h, &environment).unwrap();
    assert_eq!(
        h.machine.ran,
        ["herdr notification show herdr-nvim --body No file paths found in agent output"]
    );
    assert!(h.machine.warnings.is_empty());

    let mut mute = picking();
    mute.machine.exits.push_back(Exit::NotStarted {
        reason: "no herdr".into(),
    });
    start_pick(&mut mute, &environment).unwrap();
    assert_eq!(
        mute.machine.warnings,
        ["herdr-nvim: no file paths found in agent output"]
    );
}

#[test]
fn a_picker_that_does_not_open_is_a_failure() {
    let environment = invoked(r#"{"tab_id":"wA:t1","workspace_cwd":"/ws"}"#);
    let mut h = picking();
    h.machine.scraped = vec![seen("/a", None)];
    h.machine.files = vec!["/a".into()];
    h.machine.exits.push_back(Exit::Finished {
        success: false,
        status: "exit status: 3".into(),
    });
    assert_eq!(
        start_pick(&mut h, &environment).unwrap_err().message(),
        "herdr plugin pane open failed (exit exit status: 3)"
    );
}

fn chosen(chosen: Option<usize>) -> Handoff {
    Handoff {
        candidates: vec![Candidate {
            path: "/repo/src/main.rs".into(),
            line: Some(4),
        }],
        chosen,
        workspace: "wT".into(),
        tab: "wT:t1".into(),
        focused_pane: "wT:p1".into(),
        cwd: "/repo".into(),
        max_files: 15,
    }
}

fn with_open_sidebar() -> Bench {
    let mut h = mock_with_alive_sidebar();
    h.machine.records.push(open_state());
    h
}

#[test]
fn the_chosen_file_is_opened_at_its_line_and_the_handoff_removed() {
    let mut h = with_open_sidebar();
    h.machine.handoff = Some(chosen(Some(0)));
    finish_pick(&mut h, "/tmp/h.json").unwrap();
    assert_eq!(
        h.machine.ran,
        [
            "daemon wT:t1 /plugin /repo nvim",
            "nvim --server /run/t1.sock --remote /repo/src/main.rs",
            "nvim --server /run/t1.sock --remote-expr cursor(4, 1) quiet",
            "herdr plugin pane focus wT:p99 quiet",
        ]
    );
    assert_eq!(h.machine.removed, ["/tmp/h.json"]);
}

#[test]
fn a_pick_without_a_choice_only_removes_the_handoff() {
    let mut h = bench(MockHerdr::default());
    h.machine.handoff = Some(chosen(None));
    h.machine.removal = Removal::Missing;
    finish_pick(&mut h, "/tmp/h.json").unwrap();
    assert_eq!(h.machine.removed, ["/tmp/h.json"]);
    assert!(h.machine.ran.is_empty());
    assert!(h.machine.warnings.is_empty());

    h.machine.removal = Removal::Refused {
        reason: "permission denied".into(),
    };
    finish_pick(&mut h, "/tmp/h.json").unwrap();
    assert_eq!(
        h.machine.warnings,
        ["herdr-nvim: could not remove handoff /tmp/h.json: permission denied"]
    );
}

#[test]
fn a_choice_out_of_range_is_a_failure_and_keeps_the_handoff() {
    let mut h = bench(MockHerdr::default());
    h.machine.handoff = Some(chosen(Some(1)));
    assert_eq!(
        finish_pick(&mut h, "/tmp/h.json").unwrap_err().message(),
        "handoff chosen index 1 out of range"
    );
    assert!(h.machine.removed.is_empty());
}

#[test]
fn a_handoff_that_cannot_be_read_is_a_failure() {
    let mut h = bench(MockHerdr::default());
    assert_eq!(
        finish_pick(&mut h, "/tmp/h.json").unwrap_err().message(),
        "reading handoff /tmp/h.json"
    );
    assert!(h.machine.removed.is_empty());
}

#[test]
fn the_pick_command_finishes_where_it_is_told_to() {
    let args = |list: &[&str]| -> Vec<String> { list.iter().map(|a| a.to_string()).collect() };
    let mut h = bench(MockHerdr::default());
    h.machine.handoff = Some(chosen(None));
    pick_file_cmd(
        &mut h,
        &args(&["herdr-nvim", "pick-file", "--finish", "/tmp/h.json"]),
        &bare_environment(),
    )
    .unwrap();
    assert_eq!(h.machine.removed, ["/tmp/h.json"]);
    assert_eq!(
        pick_file_cmd(
            &mut h,
            &args(&["herdr-nvim", "pick-file"]),
            &bare_environment()
        )
        .unwrap_err()
        .message(),
        "HERDR_WORKSPACE_ID is not set: environment variable not found"
    );
}

#[test]
fn an_open_sidebar_is_left_alone() {
    let mut h = with_open_sidebar();
    assert_eq!(ensure_sidebar_open(&mut h, &ctx()), Ok("wT:p99".into()));
    assert_eq!(h.herdr.ops, ["alive wT:p99"]);
}

#[test]
fn a_missing_sidebar_is_opened() {
    let mut h = mock_1pane();
    assert_eq!(ensure_sidebar_open(&mut h, &ctx()), Ok("wT:p99".into()));
    assert_eq!(
        h.herdr.ops.last().map(String::as_str),
        Some("open_sidebar wT:p1 dir:Right cwd:/repo focus:true")
    );
}

fn settings() -> Sidebar {
    Sidebar {
        position: SidebarPosition::Right,
        editor: "nvim".into(),
    }
}

#[test]
fn an_editor_that_refuses_is_a_failure() {
    let mut h = bench(MockHerdr::default());
    let failed = || Exit::Finished {
        success: false,
        status: "exit status: 1".into(),
    };
    let fine = || Exit::Finished {
        success: true,
        status: "exit status: 0".into(),
    };
    h.machine.exits = VecDeque::from([failed()]);
    assert_eq!(
        open_in_nvim(&mut h, "/s", "/a b.rs", Some(2), &settings())
            .unwrap_err()
            .message(),
        "nvim --remote failed to open /a b.rs"
    );
    h.machine.exits = VecDeque::from([fine(), failed()]);
    assert_eq!(
        open_in_nvim(&mut h, "/s", "/a.rs", Some(2), &settings())
            .unwrap_err()
            .message(),
        "nvim --remote-expr failed to jump to line 2 in /a.rs"
    );
    h.machine.exits = VecDeque::from([Exit::NotStarted {
        reason: "not found".into(),
    }]);
    assert_eq!(
        open_in_nvim(&mut h, "/s", "/a.rs", None, &settings())
            .unwrap_err()
            .message(),
        "failed to run nvim --server --remote: not found"
    );
    h.machine.exits = VecDeque::from([fine()]);
    h.machine.ran.clear();
    open_in_nvim(&mut h, "/s", "/a.rs", None, &settings()).unwrap();
    assert_eq!(
        h.machine.ran,
        ["nvim --server /s --remote /a.rs"]
    );
}

#[test]
fn the_editor_of_the_settings_is_run() {
    let mut h = with_open_sidebar();
    h.machine.config.sidebar.editor = "nvim-nightly".into();
    open_in_sidebar(&mut h, &ctx(), "/a.rs", Some(3)).unwrap();
    assert_eq!(
        h.machine.ran[..3],
        [
            "daemon wT:t1 /plugin /repo nvim-nightly",
            "nvim-nightly --server /run/t1.sock --remote /a.rs",
            "nvim-nightly --server /run/t1.sock --remote-expr cursor(3, 1) quiet",
        ]
    );
}

#[test]
fn a_sidebar_that_cannot_be_focused_is_only_a_warning() {
    let mut h = bench(MockHerdr::default());
    h.machine.exits = VecDeque::from([
        Exit::Finished {
            success: false,
            status: "exit status: 1".into(),
        },
        Exit::NotStarted {
            reason: "not found".into(),
        },
    ]);
    focus_pane(&mut h, "p9");
    focus_pane(&mut h, "p9");
    focus_pane(&mut h, "p9");
    assert_eq!(
        h.machine.warnings,
        [
            "herdr-nvim: could not focus sidebar pane p9 (exit exit status: 1)",
            "herdr-nvim: could not focus sidebar pane p9: not found",
        ]
    );
}

#[test]
fn a_file_is_opened_without_a_line_too() {
    let mut h = with_open_sidebar();
    open_in_sidebar(&mut h, &ctx(), "/repo/a b.rs", None).unwrap();
    assert_eq!(
        h.machine.ran,
        [
            "daemon wT:t1 /plugin /repo nvim",
            "nvim --server /run/t1.sock --remote /repo/a b.rs",
            "herdr plugin pane focus wT:p99 quiet",
        ]
    );
}

fn searching(files: &[&str], toplevel: Option<&str>) -> Bench {
    let mut h = bench(MockHerdr::default());
    h.machine.files = files.iter().map(|file| file.to_string()).collect();
    h.machine.toplevel = toplevel.map(str::to_owned);
    h
}

#[test]
fn resolves_directly_against_cwd_when_it_exists() {
    let mut h = searching(&["/repo/src/main.rs"], None);
    let resolved = resolve_click(&mut h, "src/main.rs", "/repo", &None);
    assert_eq!(resolved.as_deref(), Some("/repo/src/main.rs"));
    assert_eq!(
        h.machine.toplevel_asked.len(), 0,
        "git_toplevel should not be called when cwd resolves"
    );
}

#[test]
fn falls_back_to_git_toplevel_for_relative_path() {
    let mut h = searching(&["/repo/src/main.rs"], Some("/repo"));
    let resolved = resolve_click(&mut h, "src/main.rs", "/repo/sub/dir", &None);
    assert_eq!(resolved.as_deref(), Some("/repo/src/main.rs"));
}

#[test]
fn returns_none_when_neither_cwd_nor_toplevel_has_it() {
    let mut h = searching(&[], Some("/repo"));
    assert_eq!(
        resolve_click(&mut h, "src/ghost.rs", "/repo/sub", &None),
        None
    );
}

#[test]
fn absolute_path_never_tries_git_toplevel() {
    let mut h = searching(&[], Some("/repo"));
    assert_eq!(resolve_click(&mut h, "/tmp/ghost.rs", "/repo", &None), None);
    assert_eq!(
        h.machine.toplevel_asked.len(), 0,
        "git_toplevel should not be called for absolute paths"
    );
}

#[test]
fn tilde_path_expands_via_home_before_exists_check() {
    let mut h = searching(&["/home/u/notes.md"], Some("/repo"));
    assert_eq!(
        resolve_click(&mut h, "~/notes.md", "/repo", &Some("/home/u".into())).as_deref(),
        Some("/home/u/notes.md")
    );
    assert_eq!(
        h.machine.toplevel_asked.len(), 0,
        "git_toplevel should not be called for ~ paths"
    );
}

fn clicking() -> Environment {
    Environment {
        workspace: Ok("wA".into()),
        pane: Ok("wA:p1".into()),
        tab: Ok("wA:t1".into()),
        clicked_url: Ok("src/main.rs".into()),
        ..bare_environment()
    }
}

#[test]
fn read_click_env_reads_all_four_vars() {
    let click = read_click_env(&clicking()).expect("all vars set");
    assert_eq!(click.clicked_url, "src/main.rs");
    assert_eq!(click.pane, "wA:p1");
    assert_eq!(click.workspace, "wA");
    assert_eq!(click.tab, "wA:t1");
}

#[test]
fn read_click_env_none_when_clicked_url_missing() {
    let environment = Environment {
        clicked_url: unset(),
        ..clicking()
    };
    assert!(read_click_env(&environment).is_none());
}

#[test]
fn read_click_env_none_when_tab_missing() {
    let environment = Environment {
        tab: unset(),
        ..clicking()
    };
    assert!(read_click_env(&environment).is_none());
}

fn click(text: &str) -> Environment {
    Environment {
        workspace: Ok("wT".into()),
        pane: Ok("wT:p1".into()),
        tab: Ok("wT:t1".into()),
        clicked_url: Ok(text.into()),
        ..bare_environment()
    }
}

#[test]
fn a_click_opens_the_file_that_it_points_at() {
    let mut h = with_open_sidebar();
    h.herdr.pane_cwd_results.push_back(Ok("/repo/sub".into()));
    h.machine.files = vec!["/repo/src/my file.rs".into()];
    h.machine.toplevel = Some("/repo".into());
    open_link_cmd(&mut h, &click("file://localhost/repo/src/my%20file.rs:42.")).unwrap();
    assert_eq!(h.herdr.ops, ["pane_cwd wT:p1", "alive wT:p99"]);
    assert_eq!(
        h.machine.ran,
        [
            "daemon wT:t1 /plugin /repo/sub nvim",
            "nvim --server /run/t1.sock --remote /repo/src/my file.rs",
            "nvim --server /run/t1.sock --remote-expr cursor(42, 1) quiet",
            "herdr plugin pane focus wT:p99 quiet",
        ]
    );
}

#[test]
fn a_click_that_leads_nowhere_does_nothing() {
    let mut h = bench(MockHerdr::default());
    open_link_cmd(&mut h, &bare_environment()).unwrap();
    open_link_cmd(&mut h, &click("README.md")).unwrap();
    assert!(h.herdr.ops.is_empty());
    h.herdr.pane_cwd_results.push_back(Ok("/repo".into()));
    open_link_cmd(&mut h, &click("src/ghost.rs")).unwrap();
    assert_eq!(h.herdr.ops, ["pane_cwd wT:p1"]);
    assert!(h.machine.ran.is_empty());
    assert!(open_link_cmd(&mut h, &click("src/ghost.rs")).is_err());
}

#[test]
fn a_click_on_an_odd_address_is_no_failure() {
    let mut h = bench(MockHerdr::default());
    h.herdr.pane_cwd_results.push_back(Ok("/repo".into()));
    open_link_cmd(&mut h, &click("file:///%a\u{e9}")).unwrap();
    assert_eq!(h.herdr.ops, ["pane_cwd wT:p1"]);
    assert!(h.machine.ran.is_empty());
}

fn argv(list: &[&str]) -> Vec<String> {
    list.iter().map(|arg| arg.to_string()).collect()
}

#[test]
fn a_named_file_is_opened_at_the_line_that_is_named() {
    let mut h = with_open_sidebar();
    h.herdr.pane_cwd_results.push_back(Ok("/repo".into()));
    h.machine.files = vec!["/repo/a.rs".into()];
    open_file_cmd(
        &mut h,
        &argv(&["herdr-nvim", "open-file", "/repo/a.rs", "+7"]),
        &click(""),
    )
    .unwrap();
    assert_eq!(
        h.machine.ran[2],
        "nvim --server /run/t1.sock --remote-expr cursor(7, 1) quiet"
    );
}

#[test]
fn a_named_file_that_is_missing_is_refused_before_anything_is_done() {
    let mut h = bench(MockHerdr::default());
    let missing = argv(&["herdr-nvim", "open-file", "/repo/ghost.rs"]);
    assert_eq!(
        open_file_cmd(&mut h, &missing, &bare_environment())
            .unwrap_err()
            .message(),
        "not a file: /repo/ghost.rs"
    );
    assert!(h.herdr.ops.is_empty());
    assert!(h.machine.ran.is_empty());

}

#[test]
fn a_bad_argument_of_the_file_command_is_a_failure() {
    let mut h = searching(&["/repo/a.rs"], None);
    assert_eq!(
        open_file_cmd(&mut h, &argv(&["herdr-nvim", "open-file"]), &click(""))
            .unwrap_err()
            .message(),
        "no path is given"
    );
    assert_eq!(
        h.machine.warnings,
        ["usage: herdr-nvim open-file <path> [<line>]"]
    );
    for line in ["abc", "", "-1", "4294967296"] {
        let args = argv(&["herdr-nvim", "open-file", "/repo/a.rs", line]);
        assert_eq!(
            open_file_cmd(&mut h, &args, &click("")).unwrap_err().message(),
            format!("not a line number: {line}")
        );
    }
    assert!(h.herdr.ops.is_empty());
    assert!(h.machine.ran.is_empty());
}

#[test]
fn a_named_file_needs_a_place_to_be_opened_in() {
    let args = argv(&["herdr-nvim", "open-file", "/a.rs"]);
    let complete = || click("");
    let cases = [
        (bare_environment(), "HERDR_PANE_ID is not set: environment variable not found"),
        (
            Environment {
                workspace: unset(),
                ..complete()
            },
            "HERDR_WORKSPACE_ID is not set: environment variable not found",
        ),
        (
            Environment {
                tab: unset(),
                ..complete()
            },
            "HERDR_TAB_ID is not set: environment variable not found",
        ),
    ];
    for (environment, message) in cases {
        let mut h = searching(&["/a.rs"], None);
        assert_eq!(
            open_file_cmd(&mut h, &args, &environment)
                .unwrap_err()
                .message(),
            message
        );
    }
}

#[test]
fn a_command_line_ends_in_an_exit_code() {
    let mut h = bench(MockHerdr::default());
    let none = bare_environment();
    assert_eq!(run(&mut h, &argv(&["herdr-nvim"]), &none), 2);
    assert_eq!(run(&mut h, &argv(&["herdr-nvim", "dance"]), &none), 2);
    assert_eq!(run(&mut h, &argv(&["herdr-nvim", "toggle"]), &none), 1);
    assert_eq!(run(&mut h, &argv(&["herdr-nvim", "open-link"]), &none), 0);
    for part in ["sidebar", "daemon-gc", "doctor", "picker"] {
        assert_eq!(run(&mut h, &argv(&["herdr-nvim", part]), &none), 0);
    }
    assert_eq!(
        h.machine.parts,
        [Part::Sidebar, Part::DaemonGc, Part::Doctor, Part::Picker]
    );
    let usage =
        "usage: herdr-nvim <toggle|sidebar|daemon-gc|doctor|pick-file|picker|open-link|open-file>";
    assert_eq!(
        h.machine.warnings,
        [usage, usage, "herdr-nvim: HERDR_WORKSPACE_ID is not set: environment variable not found"]
    );
}

#[test]
fn a_sidebar_without_a_record_after_opening_is_a_failure() {
    let mut h = mock_1pane();
    h.machine.forgetful = true;
    // A record of another tab is no record of this one.
    let mut other = open_state();
    other.tab = "wT:t2".into();
    h.machine.records.push(other);
    assert_eq!(h.load_state("wT:t1"), Ok(None));
    assert_eq!(
        ensure_sidebar_open(&mut h, &ctx()).unwrap_err().message(),
        "sidebar state missing after opening"
    );

    let mut h = mock_1pane();
    h.machine.careless = true;
    assert_eq!(
        ensure_sidebar_open(&mut h, &ctx()).unwrap_err().message(),
        "sidebar pane id missing after opening"
    );
}
