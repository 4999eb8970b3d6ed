use herdr_nvim::failure::Failure;
use herdr_nvim::herdr::{
    parse_agent_session, parse_agents, parse_pane_rects, parse_pane_scroll, parse_pane_snapshot,
    parse_places, parse_tabs, AgentInfo, Dir, Herdr, PaneRect, PaneScroll,
};
use herdr_nvim::mock::MockHerdr;
use serde_json::Value;

const LAYOUT_3PANE: &str = r#"{
  "id": "cli:pane:layout",
  "result": {
    "layout": {
      "area": { "x": 26, "y": 1, "width": 146, "height": 52 },
      "panes": [
        { "focused": true, "pane_id": "w0:p1",
          "rect": { "x": 26, "y": 1, "width": 72, "height": 52 } },
        { "focused": false, "pane_id": "w0:p2",
          "rect": { "x": 98, "y": 1, "width": 74, "height": 26 } },
        { "focused": false, "pane_id": "w0:p3",
          "rect": { "x": 98, "y": 27, "width": 74, "height": 26 } }
      ],
      "tab_id": "w0:t1"
    },
    "type": "pane_layout"
  }
}"#;

const LAYOUT_1PANE: &str = r#"{
  "result": {
    "layout": {
      "area": { "x": 26, "y": 1, "width": 146, "height": 52 },
      "panes": [
        { "pane_id": "w0:p1", "rect": { "x": 26, "y": 1, "width": 146, "height": 52 } }
      ]
    }
  }
}"#;

const PANE_GET_WITH_SESSION: &str = r#"{
  "result": {
    "pane": {
      "agent": "pi",
      "agent_session": {
        "agent": "pi",
        "kind": "path",
        "value": "/home/u/.pi/agent/sessions/2026-01-01.jsonl"
      },
      "foreground_cwd": "/repo",
      "pane_id": "w0:p1",
      "scroll": { "max_offset_from_bottom": 0, "offset_from_bottom": 0, "viewport_rows": 73 },
      "tab_id": "w0:t1"
    }
  }
}"#;

const PANE_GET_WITHOUT_SESSION: &str = r#"{
  "result": {
    "pane": { "foreground_cwd": "/repo", "pane_id": "w0:p1", "tab_id": "w0:t1" }
  }
}"#;

fn json(text: &str) -> Value {
    serde_json::from_str(text).unwrap()
}

#[test]
fn parses_pane_rects_from_layout_fixture() {
    let rects = parse_pane_rects(LAYOUT_3PANE).unwrap();

    assert_eq!(rects.len(), 3);
    assert_eq!(
        rects
            .iter()
            .filter(|rect| rect.x == 0 && rect.y == 0)
            .count(),
        1
    );
    assert_eq!(
        rects[0],
        PaneRect {
            pane_id: "w0:p1".to_owned(),
            x: 0,
            y: 0,
            w: 72,
            h: 52,
        }
    );
    assert_eq!((rects[2].x, rects[2].y, rects[2].w, rects[2].h), (72, 26, 74, 26));
}

#[test]
fn single_pane_layout_parses() {
    assert_eq!(parse_pane_rects(LAYOUT_1PANE).unwrap().len(), 1);
}

#[test]
fn parses_pane_get_agent_session_when_present() {
    let session = parse_agent_session(&json(PANE_GET_WITH_SESSION)).unwrap();
    assert_eq!(session.agent, "pi");
    assert_eq!(session.kind, "path");
    assert!(session.value.ends_with(".jsonl"));
}

#[test]
fn returns_none_when_agent_session_field_absent() {
    assert!(parse_agent_session(&json(PANE_GET_WITHOUT_SESSION)).is_none());
}

#[test]
fn parses_pane_snapshot_cwd_session_and_scroll_from_one_response() {
    let snapshot = parse_pane_snapshot(&json(PANE_GET_WITH_SESSION)).unwrap();
    assert_eq!(snapshot.cwd, "/repo");
    assert_eq!(snapshot.agent_session.unwrap().agent, "pi");
    assert_eq!(
        snapshot.scroll,
        Some(PaneScroll {
            viewport_rows: 73,
            max_offset_from_bottom: 0,
        })
    );
}

#[test]
fn parses_pane_snapshot_cwd_with_no_session_or_scroll() {
    let snapshot = parse_pane_snapshot(&json(PANE_GET_WITHOUT_SESSION)).unwrap();
    assert_eq!(snapshot.cwd, "/repo");
    assert!(snapshot.agent_session.is_none());
    assert!(snapshot.scroll.is_none());
}

#[test]
fn mock_records_canonical_move_operation() {
    let mut herdr = MockHerdr::default();
    herdr
        .move_pane("p2", "t9", Dir::Right, Some("p1"), Some("0.4"), false)
        .unwrap();

    assert_eq!(
        herdr.ops,
        ["move p2 -> tab:t9 dir:Right target:p1 ratio:0.4 focus:false"]
    );
}

#[test]
fn mock_writes_every_question_down() {
    let mut herdr = MockHerdr::default();
    assert!(herdr.pane_rects("t1").is_err());
    assert!(herdr.tab_of_pane("p1").is_err());
    assert!(herdr.create_tab("w1").is_err());
    herdr
        .move_pane("p2", "t9", Dir::Down, None, None, true)
        .unwrap();
    assert!(herdr.split_pane("p1", Dir::Right, "0.5", true).is_err());
    assert!(herdr
        .open_sidebar_pane("p1", Dir::Down, "/repo", false)
        .is_err());
    herdr.run_in_pane("p1", "ls -l").unwrap();
    herdr.close_pane("p1").unwrap();
    assert!(herdr.pane_alive("p1").is_err());
    assert!(herdr.list_tabs().is_err());
    assert!(herdr.read_pane("p1", 300).is_err());
    assert!(herdr.pane_cwd("p1").is_err());
    assert!(herdr.agents("w1").is_err());
    assert!(herdr.pane_snapshot("p1").is_err());
    assert_eq!(
        herdr.ops,
        [
            "rects t1",
            "tab_of p1",
            "create_tab w1",
            "move p2 -> tab:t9 dir:Down target:- ratio:- focus:true",
            "split p1 dir:Right ratio:0.5 focus:true",
            "open_sidebar p1 dir:Down cwd:/repo focus:false",
            "run p1 ls -l",
            "close p1",
            "alive p1",
            "list_tabs",
            "read_pane p1 300",
            "pane_cwd p1",
            "agents w1",
            "pane_snapshot p1",
        ]
    );
}

#[test]
fn mock_answers_in_the_order_of_its_script_and_then_refuses() {
    let mut herdr = MockHerdr::default();
    herdr.pane_alive_results.push_back(Ok(true));
    herdr.pane_alive_results.push_back(Ok(false));
    assert_eq!(herdr.pane_alive("p1"), Ok(true));
    assert_eq!(herdr.pane_alive("p1"), Ok(false));
    assert_eq!(
        herdr.pane_alive("p1").unwrap_err().message(),
        "no scripted response for pane_alive"
    );
    herdr.split_pane_results.push_back(Ok("p9".to_owned()));
    assert_eq!(
        herdr.open_sidebar_pane("p1", Dir::Right, "/repo", true),
        Ok("p9".to_owned())
    );
}

#[test]
fn layouts_that_lack_something_are_refused() {
    let cases = [
        (
            "[",
            "invalid pane layout JSON: EOF while parsing a list at line 1 column 1",
        ),
        ("{}", "pane layout response missing result.layout"),
        (
            r#"{"result":{"layout":{"area":{"y":0}}}}"#,
            "JSON response missing unsigned integer at /area/x",
        ),
        (
            r#"{"result":{"layout":{"area":{"x":0,"y":4294967296}}}}"#,
            "integer at /area/y does not fit in u32: \
             out of range integral type conversion attempted",
        ),
        (
            r#"{"result":{"layout":{"area":{"x":0,"y":0}}}}"#,
            "pane layout response missing result.layout.panes array",
        ),
        (
            r#"{"result":{"layout":{"area":{"x":5,"y":5},"panes":[
                {"pane_id":"p","rect":{"x":4,"y":9,"width":1,"height":1}}]}}}"#,
            "pane rect x is outside the layout area",
        ),
        (
            r#"{"result":{"layout":{"area":{"x":5,"y":5},"panes":[
                {"pane_id":"p","rect":{"x":9,"y":4,"width":1,"height":1}}]}}}"#,
            "pane rect y is outside the layout area",
        ),
        (
            r#"{"result":{"layout":{"area":{"x":5,"y":5},"panes":[
                {"rect":{"x":9,"y":9,"width":1,"height":1}}]}}}"#,
            "JSON response missing string at /pane_id",
        ),
    ];
    for (reply, message) in cases {
        assert_eq!(parse_pane_rects(reply).unwrap_err().message(), message);
    }
}

#[test]
fn a_snapshot_without_a_working_directory_is_refused() {
    assert_eq!(
        parse_pane_snapshot(&json(r#"{"result":{"pane":{}}}"#)),
        Err(Failure::NoString {
            pointer: "/result/pane/foreground_cwd".to_owned()
        })
    );
}

#[test]
fn scrolling_that_does_not_fit_is_no_scrolling() {
    let reply = json(
        r#"{"result":{"pane":{"scroll":{"viewport_rows":1,"max_offset_from_bottom":4294967296}}}}"#,
    );
    assert_eq!(parse_pane_scroll(&reply), None);
}

#[test]
fn cheap_read_limit_counts_screen_and_scrollback() {
    let scroll = PaneScroll {
        viewport_rows: 34,
        max_offset_from_bottom: 3459,
    };
    assert_eq!(scroll.cheap_read_limit(), 3493);
    let endless = PaneScroll {
        viewport_rows: 2,
        max_offset_from_bottom: u32::MAX,
    };
    assert_eq!(endless.cheap_read_limit(), u32::MAX);
}

#[test]
fn panes_are_listed_with_their_tabs() {
    let reply = json(
        r#"{"result":{"panes":[{"pane_id":"p1","tab_id":"t1"},{"pane_id":"p2","tab_id":"t2"}]}}"#,
    );
    assert_eq!(
        parse_places(&reply).unwrap(),
        vec![
            ("p1".to_owned(), "t1".to_owned()),
            ("p2".to_owned(), "t2".to_owned())
        ]
    );
    assert_eq!(parse_places(&json("{}")), Err(Failure::NoPanes));
    assert!(parse_places(&json(r#"{"result":{"panes":[{"pane_id":"p1"}]}}"#)).is_err());
}

#[test]
fn tabs_are_listed() {
    let reply = json(r#"{"result":{"snapshot":{"tabs":[{"tab_id":"t1"},{"tab_id":"t2"}]}}}"#);
    assert_eq!(parse_tabs(&reply).unwrap(), ["t1", "t2"]);
    assert_eq!(parse_tabs(&json("{}")), Err(Failure::NoTabs));
}

#[test]
fn only_labelled_agents_of_the_workspace_are_listed() {
    let reply = json(
        r#"{"result":{"agents":[
            {"agent":"pi","workspace_id":"w1","pane_id":"p1","tab_id":"t1","focused":true},
            {"workspace_id":"w1","pane_id":"p2","tab_id":"t1"},
            {"agent":"pi","workspace_id":"w2","pane_id":"p3"},
            {"agent":"amp","workspace_id":"w1","pane_id":"p4"},
            {"agent":"pi","workspace_id":"w2"}
        ]}}"#,
    );
    assert_eq!(
        parse_agents(&reply, "w1").unwrap(),
        vec![
            AgentInfo {
                pane_id: "p1".to_owned(),
                tab_id: "t1".to_owned(),
                focused: true
            },
            AgentInfo {
                pane_id: "p4".to_owned(),
                tab_id: String::new(),
                focused: false
            },
        ]
    );
    assert_eq!(
        parse_agents(&reply, "w2").unwrap_err().message(),
        "JSON response missing string at /pane_id"
    );
    assert_eq!(parse_agents(&json("{}"), "w1"), Err(Failure::NoAgentList));
}
