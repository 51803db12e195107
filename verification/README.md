# neothesia

The core of a piano practice player, verified with Verus, and a thin host around it.

- `src/` decides: which notes the user has to play, how far playback may run, which guide
  lights go on, how a byte stream falls apart into messages. Contracts state what each function
  returns; the functions whose names start with `law_` state what holds across calls.
- `app/` does what was decided: it holds the playback engine, the output, the sockets and the
  helper process.
- `tests/` run the library on concrete values.

`src/wire.rs` is the border to the `midly` crate, which reads and writes MIDI bytes;
`src/times.rs` borrows the sort of the standard library. Their contracts are trusted.
