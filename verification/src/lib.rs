//! The file sidebar of the herdr terminal multiplexer, with nvim in it.
//!
//! A tab of herdr can have a sidebar that shows an editor. This library decides everything about
//! it: how the panes of a tab make room for it and come back, how a tab is repaired whose opening
//! was cut short, which files a picker offers, and which file a click points at.
//!
//! It talks to herdr and to the machine through the traits [`herdr::Herdr`] and [`host::Host`].
//! Each operation is one exchange that is noted in a log, and nothing is promised of an answer. A
//! function that uses them says which exchanges it has, in which order, and what comes of every
//! answer. [`workbench::Workbench`] puts both together from a [`herdr::Herdr`] and a
//! [`host::Machine`].
//!
//! The modules whose names end in `_laws` state what follows for an operation as a whole, from what
//! it is told and what it is answered: which file is opened, where a sidebar stands, which panes
//! come back.
//!
//! Whoever uses the library provides a [`cli::Runner`] for [`cli::CliHerdr`] and a
//! [`host::Machine`]. For rehearsals there are a [`mock::MockHerdr`], a [`mock::MockRunner`] and a
//! [`mock_machine::MockMachine`].

// Text, paths, JSON and failures.
pub mod text;
pub mod text_laws;
pub mod path;
pub mod path_laws;
pub mod utf8;
pub mod failure;
pub mod json;
pub mod extract;

// What is told of herdr, tabs, settings and files.
pub mod herdr;
pub mod reply_laws;
pub mod config;
pub mod state;
pub mod candidates;
pub mod context;

// Who is asked, and what was said.
pub mod log;
pub mod host;
pub mod cli;
pub mod argument_laws;
pub mod mock;
pub mod mock_machine;
pub mod workbench;

// Opening, repairing and toggling the sidebar.
pub mod sidebar_lock;
pub mod action;
pub mod opening;
pub mod opening_laws;
pub mod placement_laws;
pub mod recovery;
pub mod recovery_laws;
pub mod resumption_laws;
pub mod restoring_laws;
pub mod order_laws;
pub mod maneuver;
pub mod toggle_laws;

// Showing files in it.
pub mod bridge;
pub mod showing_laws;
pub mod failing_laws;
pub mod gather;
pub mod gather_laws;
pub mod pick;
pub mod pick_laws;
pub mod openlink;
pub mod address_laws;
pub mod token_laws;
pub mod click_laws;
pub mod command;
pub mod report_laws;
pub mod mock_laws;
