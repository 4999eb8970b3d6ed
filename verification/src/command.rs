//! The command line of the plugin.

use vstd::prelude::*;

use crate::context::Environment;
use crate::failure::{self, Failure};
use crate::host::Host;
use crate::log::{self, Call, Entry, Part};
use crate::maneuver::{self, toggle_cmd};
use crate::openlink::{self, open_file_cmd, open_link_cmd};
use crate::pick::{self, pick_file_cmd};
use crate::text::{self, concat, same};

verus! {

/// What the plugin can be told to do.
#[derive(Clone, Copy, Debug, PartialEq, Eq, Structural)]
pub enum Mode {
    Toggle,
    PickFile,
    OpenLink,
    OpenFile,
    Other(Part),
}

/// The mode of this name.
pub open spec fn mode_named(name: Seq<char>) -> Option<Mode> {
    if name == "toggle"@ {
        Some(Mode::Toggle)
    } else if name == "sidebar"@ {
        Some(Mode::Other(Part::Sidebar))
    } else if name == "daemon-gc"@ {
        Some(Mode::Other(Part::DaemonGc))
    } else if name == "doctor"@ {
        Some(Mode::Other(Part::Doctor))
    } else if name == "pick-file"@ {
        Some(Mode::PickFile)
    } else if name == "picker"@ {
        Some(Mode::Other(Part::Picker))
    } else if name == "open-link"@ {
        Some(Mode::OpenLink)
    } else if name == "open-file"@ {
        Some(Mode::OpenFile)
    } else {
        None
    }
}

/// The mode that a command line names, behind the name of the program.
pub open spec fn mode_in(args: Seq<Seq<char>>) -> Option<Mode> {
    if args.len() > 1 {
        mode_named(args[1])
    } else {
        mode_named(""@)
    }
}

/// Find the mode that a command line names.
pub fn parse_mode(args: &Vec<String>) -> (mode: Option<Mode>)
    ensures
        mode == mode_in(text::texts(args@)),
{
    let name: &str = if args.len() > 1 {
        assert(text::texts(args@)[1] == args@[1]@);
        args[1].as_str()
    } else {
        ""
    };
    if same(name, "toggle") {
        Some(Mode::Toggle)
    } else if same(name, "sidebar") {
        Some(Mode::Other(Part::Sidebar))
    } else if same(name, "daemon-gc") {
        Some(Mode::Other(Part::DaemonGc))
    } else if same(name, "doctor") {
        Some(Mode::Other(Part::Doctor))
    } else if same(name, "pick-file") {
        Some(Mode::PickFile)
    } else if same(name, "picker") {
        Some(Mode::Other(Part::Picker))
    } else if same(name, "open-link") {
        Some(Mode::OpenLink)
    } else if same(name, "open-file") {
        Some(Mode::OpenFile)
    } else {
        None
    }
}

/// How the plugin is used.
pub const USAGE: &'static str =
    "usage: herdr-nvim <toggle|sidebar|daemon-gc|doctor|pick-file|picker|open-link|open-file>";

/// The conversation of a mode.
pub open spec fn mode_ran(
    mode: Mode,
    args: Seq<Seq<char>>,
    environment: Environment,
    talk: Seq<Entry>,
    outcome: Result<(), Failure>,
) -> bool {
    match mode {
        Mode::Toggle => maneuver::toggle_cmd_ran(environment, talk, outcome),
        Mode::PickFile => pick::pick_ran(args, environment, talk, outcome),
        Mode::OpenLink => openlink::link_ran(environment, talk, outcome),
        Mode::OpenFile => openlink::file_ran(args, environment, talk, outcome),
        Mode::Other(part) => log::follows(talk, seq![Call::RunPart { part }], outcome),
    }
}

/// The conversation of a command line, and the exit code that it ends with: 0 for success, 1 for a
/// failure, which is reported, and 2 for a command line that names no mode.
pub open spec fn run_ran(
    args: Seq<Seq<char>>,
    environment: Environment,
    talk: Seq<Entry>,
    code: i32,
) -> bool {
    match mode_in(args) {
        Some(mode) => {
            ||| code == 0 && mode_ran(mode, args, environment, talk, Ok::<(), Failure>(()))
            ||| code == 1 && exists|failure: Failure|
                {
                    &&& talk.len() > 0
                    &&& #[trigger] reported(failure, talk.last())
                    &&& mode_ran(
                        mode,
                        args,
                        environment,
                        talk.drop_last(),
                        Err::<(), Failure>(failure),
                    )
                }
        },
        None => {
            &&& code == 2
            &&& talk.len() == 1
            &&& talk[0].call == (Call::Warn { text: USAGE@ })
        },
    }
}

/// Whether an exchange is the report of a failure.
pub open spec fn reported(failure: Failure, entry: Entry) -> bool {
    entry.call == (Call::Warn { text: "herdr-nvim: "@ + failure::report(failure) })
}

fn run_mode<H: Host>(
    h: &mut H,
    mode: Mode,
    args: &Vec<String>,
    environment: &Environment,
) -> (outcome: Result<(), Failure>)
    ensures
        log::extends(old(h).log(), final(h).log()),
        mode_ran(
            mode,
            text::texts(args@),
            *environment,
            log::since(old(h).log(), final(h).log()),
            outcome,
        ),
{
    match mode {
        Mode::Toggle => toggle_cmd(h, environment),
        Mode::PickFile => pick_file_cmd(h, args, environment),
        Mode::OpenLink => open_link_cmd(h, environment),
        Mode::OpenFile => open_file_cmd(h, args, environment),
        Mode::Other(part) => {
            let ghost before = h.log();
            let outcome: Result<(), Failure> = h.run_part(part);
            proof {
                log::lemma_one(before, h.log().last());
            }
            outcome
        },
    }
}

/// Carry out a command line, and give the exit code.
pub fn run<H: Host>(h: &mut H, args: &Vec<String>, environment: &Environment) -> (code: i32)
    ensures
        log::extends(old(h).log(), final(h).log()),
        run_ran(
            text::texts(args@),
            *environment,
            log::since(old(h).log(), final(h).log()),
            code,
        ),
{
    let ghost before = h.log();
    let mode: Mode = match parse_mode(args) {
        Some(mode) => mode,
        None => {
            h.warn(USAGE);
            proof {
                log::lemma_one(before, h.log().last());
            }
            return 2;
        },
    };
    match run_mode(h, mode, args, environment) {
        Ok(done) => {
            assert(done == ());
            0
        },
        Err(failure) => {
            let ghost middle = h.log();
            h.warn(concat("herdr-nvim: ", &failure.message()).as_str());
            proof {
                log::lemma_since_push(before, middle, h.log().last());
                let talk = log::since(before, h.log());
                assert(talk.drop_last() =~= log::since(before, middle));
                assert(reported(failure, talk.last()));
            }
            1
        },
    }
}

/// Each mode has one name, and each name one mode: the plugin does what it is told, and nothing
/// where it is told anything else.
pub proof fn names_tell_modes(name: Seq<char>)
    ensures
        mode_named(name) == Some(Mode::Toggle) <==> name == "toggle"@,
        mode_named(name) == Some(Mode::PickFile) <==> name == "pick-file"@,
        mode_named(name) == Some(Mode::OpenLink) <==> name == "open-link"@,
        mode_named(name) == Some(Mode::OpenFile) <==> name == "open-file"@,
        mode_named(name) == Some(Mode::Other(Part::Sidebar)) <==> name == "sidebar"@,
        mode_named(name) == Some(Mode::Other(Part::DaemonGc)) <==> name == "daemon-gc"@,
        mode_named(name) == Some(Mode::Other(Part::Doctor)) <==> name == "doctor"@,
        mode_named(name) == Some(Mode::Other(Part::Picker)) <==> name == "picker"@,
{
    reveal_strlit("toggle");
    reveal_strlit("sidebar");
    reveal_strlit("daemon-gc");
    reveal_strlit("doctor");
    reveal_strlit("pick-file");
    reveal_strlit("picker");
    reveal_strlit("open-link");
    reveal_strlit("open-file");
    assert("toggle"@[0] == 't' && "sidebar"@[0] == 's');
    assert("daemon-gc"@.len() != "doctor"@.len());
    assert("pick-file"@.len() != "picker"@.len());
    assert("open-link"@[5] == 'l' && "open-file"@[5] == 'f');
    assert("daemon-gc"@[0] == 'd' && "doctor"@[0] == 'd');
    assert("pick-file"@[0] == 'p' && "picker"@[0] == 'p');
    assert("open-link"@[0] == 'o' && "open-file"@[0] == 'o');
}

/// A command line ends with one of three exit codes. It is 2 exactly if the first argument names no
/// mode, and then nothing happens but that the usage is shown. A failure ends with 1 and is
/// reported at the very end, behind the name of the plugin, and a success with 0 reports none.
pub proof fn exit_codes_tell_what_happened(
    args: Seq<Seq<char>>,
    environment: Environment,
    talk: Seq<Entry>,
    code: i32,
)
    requires
        run_ran(args, environment, talk, code),
    ensures
        0 <= code <= 2,
        code == 2 <==> args.len() < 2 || mode_named(args[1]) is None,
        code == 2 ==> talk.len() == 1 && talk[0].call is Warn,
        code == 1 ==> talk.len() > 0 && talk.last().call is Warn && "herdr-nvim: "@.is_prefix_of(
            talk.last().call->Warn_text,
        ),
{
    if args.len() < 2 {
        names_tell_modes(""@);
        reveal_strlit("");
        reveal_strlit("toggle");
        reveal_strlit("sidebar");
        reveal_strlit("daemon-gc");
        reveal_strlit("doctor");
        reveal_strlit("pick-file");
        reveal_strlit("picker");
        reveal_strlit("open-link");
        reveal_strlit("open-file");
        assert(""@.len() == 0);
        assert("toggle"@.len() > 0 && "sidebar"@.len() > 0 && "daemon-gc"@.len() > 0);
        assert("doctor"@.len() > 0 && "pick-file"@.len() > 0 && "picker"@.len() > 0);
        assert("open-link"@.len() > 0 && "open-file"@.len() > 0);
        assert(mode_named(""@) is None);
    }
    if code == 1 {
        let failure = choose|failure: Failure| #[trigger] reported(failure, talk.last());
        let text = "herdr-nvim: "@ + failure::report(failure);
        assert(text.subrange(0, "herdr-nvim: "@.len() as int) =~= "herdr-nvim: "@);
    }
}

/// A part of the plugin that stands on its own is run once where it is named, and nothing else
/// happens.
pub proof fn named_parts_are_run(
    part: Part,
    args: Seq<Seq<char>>,
    environment: Environment,
    talk: Seq<Entry>,
    outcome: Result<(), Failure>,
)
    requires
        mode_ran(Mode::Other(part), args, environment, talk, outcome),
    ensures
        talk.len() == 1,
        talk[0].call == (Call::RunPart { part }),
        outcome is Ok <==> talk[0].answer is Done,
{
    let calls = seq![Call::RunPart { part }];
    assert(talk[0].call == calls[0]);
}

} // verus!
