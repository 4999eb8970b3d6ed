//! Where a command was invoked.

use serde_json::Value;
use vstd::prelude::*;

use crate::failure::{self, Failure};
use crate::herdr::{self, Herdr};
use crate::json::{self, find_text, parse_text, Document};
use crate::log::{self, Answer, Call, Entry};

verus! {

/// What a command is invoked for.
#[derive(Clone, Debug, PartialEq, Eq)]
pub struct Ctx {
    pub workspace: String,
    pub tab: String,
    pub focused_pane: String,
    /// The working directory of the workspace, in which the editor is started.
    pub cwd: String,
}

/// A context, as characters.
pub struct CtxView {
    pub workspace: Seq<char>,
    pub tab: Seq<char>,
    pub focused_pane: Seq<char>,
    pub cwd: Seq<char>,
}

impl View for Ctx {
    type V = CtxView;

    open spec fn view(&self) -> CtxView {
        CtxView {
            workspace: self.workspace@,
            tab: self.tab@,
            focused_pane: self.focused_pane@,
            cwd: self.cwd@,
        }
    }
}

/// The environment variables that a command is run with, as far as they are read here. For one
/// that cannot be read there is the reason why.
#[derive(Debug, PartialEq, Eq)]
pub struct Environment {
    /// `HERDR_WORKSPACE_ID`.
    pub workspace: Result<String, String>,
    /// `HERDR_PANE_ID`.
    pub pane: Result<String, String>,
    /// `HERDR_TAB_ID`.
    pub tab: Result<String, String>,
    /// `HERDR_PLUGIN_CONTEXT_JSON`.
    pub plugin_context: Result<String, String>,
    /// `HERDR_PLUGIN_CLICKED_URL`.
    pub clicked_url: Result<String, String>,
    /// `HOME`, if it can be read.
    pub home: Option<String>,
}

/// The report that a variable is missing.
pub open spec fn not_set(variable: Seq<char>, reason: String) -> Seq<char> {
    variable + " is not set: "@ + reason@
}

/// Read a variable that has to be there.
pub fn required<'a>(variable: &str, value: &'a Result<String, String>) -> (found: Result<
    &'a String,
    Failure,
>)
    ensures
        match *value {
            Ok(value) => found == Ok::<&String, Failure>(&value),
            Err(reason) => found is Err && failure::report(found->Err_0) == not_set(
                variable@,
                reason,
            ),
        },
{
    match value {
        Ok(value) => Ok(value),
        Err(reason) => Err(
            Failure::NotSet { variable: variable.to_owned(), reason: reason.clone() },
        ),
    }
}

/// The tab that a plugin context names.
pub open spec fn tab_in(context: Document) -> Option<Seq<char>> {
    match json::text_at(context, "/tab_id"@) {
        Some(tab) => Some(tab),
        None => match json::text_at(context, "/pane/tab_id"@) {
            Some(tab) => Some(tab),
            None => json::text_at(context, "/focused_pane/tab_id"@),
        },
    }
}

/// The working directory that a plugin context names: that of the workspace, or else that of the
/// focused pane.
pub open spec fn cwd_in(context: Document) -> Option<Seq<char>> {
    match json::text_at(context, "/workspace_cwd"@) {
        Some(cwd) => Some(cwd),
        None => json::text_at(context, "/focused_pane_cwd"@),
    }
}

/// What the environment tells without asking herdr: workspace, tab, pane and, where the context
/// names it, working directory. Or else the report of what is missing.
pub open spec fn told_by(environment: Environment) -> Result<
    (Seq<char>, Seq<char>, Seq<char>, Option<Seq<char>>),
    Seq<char>,
> {
    match (environment.workspace, environment.pane, environment.plugin_context) {
        (Err(reason), _, _) => Err(not_set("HERDR_WORKSPACE_ID"@, reason)),
        (Ok(_), Err(reason), _) => Err(not_set("HERDR_PANE_ID"@, reason)),
        (Ok(_), Ok(_), Err(reason)) => Err(not_set("HERDR_PLUGIN_CONTEXT_JSON"@, reason)),
        (Ok(workspace), Ok(pane), Ok(context)) => match json::parsed_text(context@) {
            Err(reason) => Err("invalid HERDR_PLUGIN_CONTEXT_JSON: "@ + reason),
            Ok(context) => match tab_in(context) {
                None => Err("plugin context is missing pane tab_id"@),
                Some(tab) => Ok((workspace@, tab, pane@, cwd_in(context))),
            },
        },
    }
}

/// The conversation of reading an environment. herdr is asked only for a working directory that the
/// context does not name.
pub open spec fn read_ran(
    environment: Environment,
    talk: Seq<Entry>,
    outcome: Result<Ctx, Failure>,
) -> bool {
    match told_by(environment) {
        Err(fault) => {
            &&& talk.len() == 0
            &&& outcome is Err
            &&& failure::report(outcome->Err_0) == fault
        },
        Ok((workspace, tab, focused_pane, told)) => match told {
            Some(cwd) => {
                &&& talk.len() == 0
                &&& outcome is Ok
                &&& outcome->Ok_0@ == CtxView { workspace, tab, focused_pane, cwd }
            },
            None => log::asks(talk, Call::PaneCwd { pane: focused_pane })
                && match talk[0].answer {
                Answer::Text(cwd) => {
                    &&& talk.len() == 1
                    &&& outcome is Ok
                    &&& outcome->Ok_0@ == CtxView { workspace, tab, focused_pane, cwd: cwd@ }
                },
                _ => log::stops(talk, outcome),
            },
        },
    }
}

/// Find the tab that a plugin context names.
pub fn tab_id<'a>(context: &'a Value) -> (tab: Option<&'a str>)
    ensures
        herdr::slice_of(tab) == tab_in(json::nodes(*context)),
{
    match find_text(context, "/tab_id") {
        Some(tab) => Some(tab),
        None => match find_text(context, "/pane/tab_id") {
            Some(tab) => Some(tab),
            None => find_text(context, "/focused_pane/tab_id"),
        },
    }
}

/// Find the working directory that a plugin context names.
pub fn cwd_from_context<'a>(context: &'a Value) -> (cwd: Option<&'a str>)
    ensures
        herdr::slice_of(cwd) == cwd_in(json::nodes(*context)),
{
    match find_text(context, "/workspace_cwd") {
        Some(cwd) => Some(cwd),
        None => find_text(context, "/focused_pane_cwd"),
    }
}

/// Read where a command was invoked.
pub fn read_ctx<H: Herdr>(h: &mut H, environment: &Environment) -> (outcome: Result<Ctx, Failure>)
    ensures
        log::extends(old(h).log(), final(h).log()),
        read_ran(*environment, log::since(old(h).log(), final(h).log()), outcome),
{
    let ghost before = h.log();
    proof {
        log::lemma_nothing(before);
    }
    let workspace: &String = match required("HERDR_WORKSPACE_ID", &environment.workspace) {
        Ok(workspace) => workspace,
        Err(failure) => return Err(failure),
    };
    let pane: &String = match required("HERDR_PANE_ID", &environment.pane) {
        Ok(pane) => pane,
        Err(failure) => return Err(failure),
    };
    let context: &String = match required(
        "HERDR_PLUGIN_CONTEXT_JSON",
        &environment.plugin_context,
    ) {
        Ok(context) => context,
        Err(failure) => return Err(failure),
    };
    let context: Value = match parse_text(context.as_str()) {
        Ok(context) => context,
        Err(reason) => return Err(Failure::InvalidContext { reason }),
    };
    let tab: String = match tab_id(&context) {
        Some(tab) => tab.to_owned(),
        None => return Err(Failure::NoContextTab),
    };
    let cwd: String = match cwd_from_context(&context) {
        Some(cwd) => cwd.to_owned(),
        None => {
            let answer: Result<String, Failure> = h.pane_cwd(pane.as_str());
            proof {
                log::lemma_one(before, h.log().last());
            }
            match answer {
                Ok(cwd) => cwd,
                Err(failure) => return Err(failure),
            }
        },
    };
    Ok(Ctx { workspace: workspace.clone(), tab, focused_pane: pane.clone(), cwd })
}

/// Whether the first `length` exchanges are those of reading an environment as `ctx`.
pub open spec fn read_in(
    environment: Environment,
    talk: Seq<Entry>,
    length: int,
    ctx: Ctx,
) -> bool {
    &&& 0 <= length <= talk.len()
    &&& read_ran(environment, talk.take(length), Ok::<Ctx, Failure>(ctx))
}

} // verus!
