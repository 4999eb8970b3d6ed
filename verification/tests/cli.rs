use std::collections::VecDeque;

use herdr_nvim::cli::{check_output, CliHerdr, Output};
use herdr_nvim::failure::Failure;
use herdr_nvim::herdr::{Dir, Herdr};
use herdr_nvim::mock::MockRunner;

fn shown(stdout: &[u8]) -> Output {
    Output::Finished {
        success: true,
        stdout: stdout.to_vec(),
        stderr: vec![],
    }
}

fn herdr(replies: &[&str]) -> CliHerdr<MockRunner> {
    CliHerdr::new(MockRunner::new(
        replies.iter().map(|reply| shown(reply.as_bytes())).collect(),
    ))
}

const LISTED: &str = r#"{"result":{"panes":[
    {"pane_id":"p1","tab_id":"t1"},{"pane_id":"p2","tab_id":"t2"},{"pane_id":"p3","tab_id":"t2"}]}}"#;

#[test]
fn the_layout_of_a_tab_is_that_of_its_first_pane() {
    let layout = r#"{"result":{"layout":{"area":{"x":1,"y":1},"panes":[
        {"pane_id":"p2","rect":{"x":1,"y":2,"width":3,"height":4}}]}}}"#;
    let mut h = herdr(&[LISTED, layout]);
    let rects = h.pane_rects("t2").unwrap();
    assert_eq!((rects[0].x, rects[0].y, rects[0].w, rects[0].h), (0, 1, 3, 4));
    assert_eq!(h.runner.lines, ["pane list", "pane layout --pane p2"]);
}

#[test]
fn a_tab_without_panes_has_no_layout() {
    let mut h = herdr(&[LISTED]);
    assert_eq!(
        h.pane_rects("t9").unwrap_err().message(),
        "tab t9 has no live panes"
    );
    assert_eq!(h.runner.lines, ["pane list"]);
}

#[test]
fn panes_are_alive_while_they_are_listed() {
    let mut h = herdr(&[LISTED, LISTED]);
    assert_eq!(h.pane_alive("p3"), Ok(true));
    assert_eq!(h.pane_alive("t1"), Ok(false));
}

#[test]
fn texts_are_taken_out_of_replies() {
    let mut h = herdr(&[
        r#"{"result":{"pane":{"tab_id":"t1"}}}"#,
        r#"{"result":{"tab":{"tab_id":"t9"},"root_pane":{"pane_id":"p9"}}}"#,
        r#"{"result":{"pane":{"pane_id":"p8"}}}"#,
        r#"{"result":{"plugin_pane":{"pane":{"pane_id":"p7"}}}}"#,
        r#"{"result":{"pane":{"foreground_cwd":"/repo"}}}"#,
        r#"{"result":{"pane":{"foreground_cwd":"/repo"}}}"#,
    ]);
    assert_eq!(h.tab_of_pane("p1"), Ok("t1".to_owned()));
    assert_eq!(
        h.create_tab("w1"),
        Ok(("t9".to_owned(), "p9".to_owned()))
    );
    assert_eq!(
        h.split_pane("p1", Dir::Down, "0.5", false),
        Ok("p8".to_owned())
    );
    assert_eq!(
        h.open_sidebar_pane("p1", Dir::Right, "/repo", true),
        Ok("p7".to_owned())
    );
    assert_eq!(h.pane_cwd("p1"), Ok("/repo".to_owned()));
    assert_eq!(h.pane_snapshot("p1").unwrap().cwd, "/repo");
    assert_eq!(
        h.runner.lines,
        [
            "pane get p1",
            "tab create --workspace w1 --no-focus",
            "pane split p1 --direction down --ratio 0.5 --no-focus",
            "plugin pane open --plugin chmarax.herdr-nvim --entrypoint sidebar --placement split \
             --target-pane p1 --direction right --cwd /repo --focus",
            "pane get p1",
            "pane get p1",
        ]
    );
}

#[test]
fn moves_name_only_what_is_given() {
    let mut h = herdr(&["{}", "{}"]);
    h.move_pane("p1", "t1", Dir::Right, Some("p2"), Some("0.4"), false)
        .unwrap();
    h.move_pane("p1", "t1", Dir::Down, None, None, true).unwrap();
    assert_eq!(
        h.runner.lines,
        [
            "pane move p1 --tab t1 --split right --target-pane p2 --ratio 0.4 --no-focus",
            "pane move p1 --tab t1 --split down --focus",
        ]
    );
}

#[test]
fn a_command_in_a_pane_may_answer_nothing() {
    let mut h = herdr(&["", ""]);
    h.run_in_pane("p1", "ls -l").unwrap();
    assert_eq!(
        h.close_pane("p1").unwrap_err().message(),
        "failed to parse JSON from herdr pane close p1: \
         EOF while parsing a value at line 1 column 0"
    );
}

#[test]
fn screens_are_read_as_text() {
    let outputs = VecDeque::from([shown(b"see \xff src/main.rs\n")]);
    let mut h = CliHerdr::new(MockRunner::new(outputs));
    assert_eq!(
        h.read_pane("p1", 73),
        Ok("see \u{fffd} src/main.rs\n".to_owned())
    );
    assert_eq!(
        h.runner.lines,
        ["pane read p1 --source recent-unwrapped --lines 73 --format text"]
    );
}

#[test]
fn lists_are_taken_out_of_replies() {
    let mut h = herdr(&[
        r#"{"result":{"snapshot":{"tabs":[{"tab_id":"t1"},{"tab_id":"t2"}]}}}"#,
        r#"{"result":{"agents":[{"agent":"pi","workspace_id":"w1","pane_id":"p1"}]}}"#,
    ]);
    assert_eq!(h.list_tabs().unwrap(), ["t1", "t2"]);
    assert_eq!(h.agents("w1").unwrap()[0].pane_id, "p1");
    assert_eq!(h.runner.lines, ["api snapshot", "agent list"]);
}

#[test]
fn runs_that_fail_say_why() {
    let mut h = herdr(&[]);
    assert_eq!(
        h.pane_alive("p1").unwrap_err().message(),
        "failed to run herdr pane list: not found"
    );
    let args = vec!["pane".to_owned(), "list".to_owned()];
    let failed = Output::Finished {
        success: false,
        stdout: vec![],
        stderr: b"\n pane_not_found \n".to_vec(),
    };
    assert_eq!(
        check_output(&args, failed),
        Err(Failure::CommandFailed {
            command: "herdr pane list".to_owned(),
            stderr: "pane_not_found".to_owned(),
        })
    );
    let failed = Output::Finished {
        success: false,
        stdout: vec![],
        stderr: b"no \xff".to_vec(),
    };
    assert_eq!(
        check_output(&args, failed).unwrap_err().message(),
        "herdr pane list failed: no \u{fffd}"
    );
    assert_eq!(check_output(&args, shown(b"x")), Ok(b"x".to_vec()));
}
