# herdr-nvim

A sidebar with nvim in it for the tabs of the herdr terminal multiplexer.

The library decides; the program around it carries out.

* `src/` is the library. All of it is verified with Verus. Functions that talk to herdr or to the
  machine are stated over a log of exchanges: what is asked, in which order, and what comes of every
  answer. `opening_laws.rs`, `recovery_laws.rs`, `resumption_laws.rs`, `address_laws.rs` and the
  proof functions at the end of other modules state what holds of whole runs: no pane is stranded
  by an opening, none is forgotten by a recovery, an open sidebar is left alone, and so on.
* `tests/` runs the library against a rehearsed herdr (`mock.rs`) and a machine that lives in memory
  (`mock_machine.rs`).
* `app/` is the program: processes, files, the clock and the environment. The layout planner, the
  editor daemons, the reading of agent sessions, the git scan and the ranking of candidates are
  built apart and linked in through `app/parts.rs`.

Some things are believed without proof.

* What `serde_json` makes of a document (`json.rs`), and what `String::from_utf8_lossy` makes of
  bytes (`utf8.rs`).
* What the program around the library does for the two traits at its edge. `cli::Runner` runs herdr:
  each run counts once, with the arguments that it was given and the output that came of it.
  `host::Machine` stands for everything else: each operation counts once, with what it was asked
  and what it answered. `CliHerdr` and `Workbench` are proved to ask exactly what they are asked
  for, so that this is all there is to believe of `app/programs.rs` and `app/machine.rs`.
  `mock::MockRunner` and `mock_machine::MockMachine` are verified implementations of both.
