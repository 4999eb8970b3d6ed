use herdr_nvim::herdr::PaneScroll;
use herdr_nvim::pick::{effective_scan_lines, finish_handoff_path, handoff_name};

#[test]
fn effective_scan_lines_clamps_to_viewport_for_alt_screen_panes() {
    let scroll = PaneScroll {
        viewport_rows: 73,
        max_offset_from_bottom: 0,
    };
    assert_eq!(effective_scan_lines(300, Some(scroll)), 73);
}

#[test]
fn effective_scan_lines_allows_host_scrollback_when_present() {
    let scroll = PaneScroll {
        viewport_rows: 34,
        max_offset_from_bottom: 3459,
    };
    assert_eq!(effective_scan_lines(300, Some(scroll)), 300);
}

#[test]
fn effective_scan_lines_keeps_configured_value_without_scroll_info() {
    assert_eq!(effective_scan_lines(300, None), 300);
}

#[test]
fn effective_scan_lines_never_raises_a_small_configured_value() {
    let scroll = PaneScroll {
        viewport_rows: 73,
        max_offset_from_bottom: 500,
    };
    assert_eq!(effective_scan_lines(50, Some(scroll)), 50);
}

fn args(list: &[&str]) -> Vec<String> {
    list.iter().map(|arg| arg.to_string()).collect()
}

#[test]
fn parses_finish_handoff_argument() {
    let args = args(&["herdr-nvim", "pick-file", "--finish", "/tmp/h.json"]);
    assert_eq!(finish_handoff_path(&args).as_deref(), Some("/tmp/h.json"));
}

#[test]
fn no_finish_argument_is_phase_one() {
    let args = args(&["herdr-nvim", "pick-file"]);
    assert!(finish_handoff_path(&args).is_none());
}

#[test]
fn a_finish_argument_without_a_path_is_phase_one() {
    assert!(finish_handoff_path(&args(&["herdr-nvim", "--finish"])).is_none());
    assert_eq!(
        finish_handoff_path(&args(&["--finish", "--finish"])).as_deref(),
        Some("--finish")
    );
}

#[test]
fn handoffs_are_named_by_process_and_time() {
    assert_eq!(
        handoff_name(17, 1_700_000_000_000_000_005),
        "herdr-nvim-handoff-17-1700000000000000005.json"
    );
    assert_eq!(handoff_name(0, 0), "herdr-nvim-handoff-0-0.json");
}
