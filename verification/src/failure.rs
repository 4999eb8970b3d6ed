//! What can go wrong, and how it is reported.

use vstd::prelude::*;

use crate::text::{self, concat, decimal_text};

verus! {

/// Why a command could not be carried out.
#[derive(Clone, Debug, PartialEq, Eq)]
pub enum Failure {
    /// An environment variable that herdr sets for its plugins is missing.
    NotSet { variable: String, reason: String },
    /// The plugin context is not JSON.
    InvalidContext { reason: String },
    /// The plugin context names no tab.
    NoContextTab,
    /// A pane layout is not JSON.
    InvalidLayout { reason: String },
    /// A reply holds no string where one is required.
    NoString { pointer: String },
    /// A reply holds no unsigned integer where one is required.
    NoInteger { pointer: String },
    /// An integer of a reply is too large for 32 bits.
    IntegerTooLarge { pointer: String },
    /// A pane layout reply has no layout.
    NoLayout,
    /// A pane layout reply has no array of panes.
    NoLayoutPanes,
    /// A pane starts left of the area that it is laid out in.
    LeftOfArea,
    /// A pane starts above the area that it is laid out in.
    AboveArea,
    /// A pane list reply has no array of panes.
    NoPanes,
    /// A snapshot reply has no array of tabs.
    NoTabs,
    /// An agent list reply has no array of agents.
    NoAgentList,
    /// No live pane belongs to the tab.
    EmptyTab { tab: String },
    /// The workspace has no agent pane.
    NoAgents { workspace: String },
    /// A command could not be started.
    NotStarted { command: String, reason: String },
    /// A command ran and reported failure.
    CommandFailed { command: String, stderr: String },
    /// A herdr command answered with something that is not JSON.
    InvalidReply { arguments: String, reason: String },
    /// No state was recorded for a tab whose sidebar was just opened.
    NoStateAfterOpening,
    /// The state of a tab whose sidebar was just opened names no sidebar.
    NoSidebarAfterOpening,
    /// The picker chose a candidate that the handoff does not have.
    ChosenOutOfRange { chosen: usize },
    /// No path to open is given.
    NoPath,
    /// The line to jump to is not a number.
    NotALine { argument: String },
    /// The path to open is not a file.
    NotAFile { path: String },
    /// nvim refused to open a file.
    NvimOpen { path: String },
    /// nvim refused to jump to a line.
    NvimJump { line: u32, path: String },
    /// herdr refused to open the picker.
    PickerFailed { status: String },
    /// A rehearsed conversation has no answer left for an operation.
    Unscripted { operation: String },
    /// A part of the plugin around this one failed.
    Other { reason: String },
}

/// The report of a failure, in one line.
pub open spec fn report(failure: Failure) -> Seq<char> {
    match failure {
        Failure::NotSet { variable, reason } => variable@ + " is not set: "@ + reason@,
        Failure::InvalidContext { reason } => "invalid HERDR_PLUGIN_CONTEXT_JSON: "@ + reason@,
        Failure::NoContextTab => "plugin context is missing pane tab_id"@,
        Failure::InvalidLayout { reason } => "invalid pane layout JSON: "@ + reason@,
        Failure::NoString { pointer } => "JSON response missing string at "@ + pointer@,
        Failure::NoInteger { pointer } => "JSON response missing unsigned integer at "@ + pointer@,
        Failure::IntegerTooLarge { pointer } => "integer at "@ + pointer@
            + " does not fit in u32: out of range integral type conversion attempted"@,
        Failure::NoLayout => "pane layout response missing result.layout"@,
        Failure::NoLayoutPanes => "pane layout response missing result.layout.panes array"@,
        Failure::LeftOfArea => "pane rect x is outside the layout area"@,
        Failure::AboveArea => "pane rect y is outside the layout area"@,
        Failure::NoPanes => "herdr pane list response missing result.panes array"@,
        Failure::NoTabs => "herdr api snapshot response missing result.snapshot.tabs array"@,
        Failure::NoAgentList => "herdr agent list response missing result.agents array"@,
        Failure::EmptyTab { tab } => "tab "@ + tab@ + " has no live panes"@,
        Failure::NoAgents { workspace } => "no agent panes found in workspace "@ + workspace@,
        Failure::NotStarted { command, reason } => "failed to run "@ + command@ + ": "@ + reason@,
        Failure::CommandFailed { command, stderr } => command@ + " failed: "@ + stderr@,
        Failure::InvalidReply { arguments, reason } => "failed to parse JSON from herdr "@
            + arguments@ + ": "@ + reason@,
        Failure::NoStateAfterOpening => "sidebar state missing after opening"@,
        Failure::NoSidebarAfterOpening => "sidebar pane id missing after opening"@,
        Failure::ChosenOutOfRange { chosen } => "handoff chosen index "@ + text::decimal(
            chosen as nat,
        ) + " out of range"@,
        Failure::NoPath => "no path is given"@,
        Failure::NotALine { argument } => "not a line number: "@ + argument@,
        Failure::NotAFile { path } => "not a file: "@ + path@,
        Failure::NvimOpen { path } => "nvim --remote failed to open "@ + path@,
        Failure::NvimJump { line, path } => "nvim --remote-expr failed to jump to line "@
            + text::decimal(line as nat) + " in "@ + path@,
        Failure::PickerFailed { status } => "herdr plugin pane open failed (exit "@ + status@
            + ")"@,
        Failure::Unscripted { operation } => "no scripted response for "@ + operation@,
        Failure::Other { reason } => reason@,
    }
}

/// Whether a text is the one that was told, or a failure reports what kept it from being told.
pub open spec fn told_text(
    answer: Result<String, Failure>,
    told: Result<Seq<char>, Seq<char>>,
) -> bool {
    match answer {
        Ok(text) => told == Ok::<Seq<char>, Seq<char>>(text@),
        Err(failure) => told == Err::<Seq<char>, Seq<char>>(report(failure)),
    }
}

/// Whether success or a failure is what was told.
pub open spec fn told_done<T>(answer: Result<(), Failure>, told: Result<T, Seq<char>>) -> bool {
    match answer {
        Ok(_) => told is Ok,
        Err(failure) => told is Err && told->Err_0 == report(failure),
    }
}

impl Failure {
    /// Say in one line what went wrong.
    pub fn message(&self) -> (text: String)
        ensures
            text@ == report(*self),
    {
        match self {
            Failure::NotSet { variable, reason } => concat(
                &concat(variable, " is not set: "),
                reason,
            ),
            Failure::InvalidContext { reason } => concat(
                "invalid HERDR_PLUGIN_CONTEXT_JSON: ",
                reason,
            ),
            Failure::NoContextTab => "plugin context is missing pane tab_id".to_owned(),
            Failure::InvalidLayout { reason } => concat("invalid pane layout JSON: ", reason),
            Failure::NoString { pointer } => concat("JSON response missing string at ", pointer),
            Failure::NoInteger { pointer } => concat(
                "JSON response missing unsigned integer at ",
                pointer,
            ),
            Failure::IntegerTooLarge { pointer } => concat(
                &concat("integer at ", pointer),
                " does not fit in u32: out of range integral type conversion attempted",
            ),
            Failure::NoLayout => "pane layout response missing result.layout".to_owned(),
            Failure::NoLayoutPanes =>
                "pane layout response missing result.layout.panes array".to_owned(),
            Failure::LeftOfArea => "pane rect x is outside the layout area".to_owned(),
            Failure::AboveArea => "pane rect y is outside the layout area".to_owned(),
            Failure::NoPanes => "herdr pane list response missing result.panes array".to_owned(),
            Failure::NoTabs =>
                "herdr api snapshot response missing result.snapshot.tabs array".to_owned(),
            Failure::NoAgentList =>
                "herdr agent list response missing result.agents array".to_owned(),
            Failure::EmptyTab { tab } => concat(&concat("tab ", tab), " has no live panes"),
            Failure::NoAgents { workspace } => concat(
                "no agent panes found in workspace ",
                workspace,
            ),
            Failure::NotStarted { command, reason } => concat(
                &concat(&concat("failed to run ", command), ": "),
                reason,
            ),
            Failure::CommandFailed { command, stderr } => concat(
                &concat(command, " failed: "),
                stderr,
            ),
            Failure::InvalidReply { arguments, reason } => concat(
                &concat(&concat("failed to parse JSON from herdr ", arguments), ": "),
                reason,
            ),
            Failure::NoStateAfterOpening => "sidebar state missing after opening".to_owned(),
            Failure::NoSidebarAfterOpening => "sidebar pane id missing after opening".to_owned(),
            Failure::ChosenOutOfRange { chosen } => concat(
                &concat("handoff chosen index ", &decimal_text(*chosen as u128)),
                " out of range",
            ),
            Failure::NoPath => "no path is given".to_owned(),
            Failure::NotALine { argument } => concat("not a line number: ", argument),
            Failure::NotAFile { path } => concat("not a file: ", path),
            Failure::NvimOpen { path } => concat("nvim --remote failed to open ", path),
            Failure::NvimJump { line, path } => concat(
                &concat(
                    &concat(
                        "nvim --remote-expr failed to jump to line ",
                        &decimal_text(*line as u128),
                    ),
                    " in ",
                ),
                path,
            ),
            Failure::PickerFailed { status } => concat(
                &concat("herdr plugin pane open failed (exit ", status),
                ")",
            ),
            Failure::Unscripted { operation } => concat("no scripted response for ", operation),
            Failure::Other { reason } => reason.clone(),
        }
    }
}

} // verus!
