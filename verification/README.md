# lttp_autotimer

A verified library for an automatic timer of *The Legend of Zelda: A Link to the Past*
randomizer runs. The game's RAM is read from a SNES (through a QUsb2Snes or SNI server) at a
fixed interval; each read is compared with the previous ones to find location checks, item
pickups, events, actions, commands and transitions between tiles, which are logged with their
times. In segment mode, a recorded list of objectives is timed run after run.

Layout:

- `src/`: the library, verified with Verus. `session.rs` holds what one read does to the
  timer's state (`Session::process_read`); `parse_ram.rs`, `condition.rs` and `tile.rs`
  evaluate checks, conditions and tiles against a read; `event.rs` is the event log;
  `time.rs` the run statistics; `qusb.rs`, `sni.rs` and `request.rs` build the requests to the
  SNES server and the metadata header; `serde_lttp.rs` parses the hexadecimal and coordinate
  notations of the data files.
- `app/`: the program around it: command line, websocket connection, the read loop, data
  files, CSV output and printing.
- `tests/`: tests of the library.
