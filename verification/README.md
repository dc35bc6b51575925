# pty_event_loop

The decisions of an event loop between a pseudoterminal and a terminal emulator, verified with
Verus.

- `src/` is the library. It performs no I/O on the pseudoterminal: each part takes in what happened
  and says what to do next.
  - `turn` decides when to poll, drain messages, read, write, redraw and stop.
  - `read` runs one pass of reading; `recent` recognises bytes that were read twice; `collapse`
    removes `\r\r\n` runs.
  - `state` keeps what is still to be written, and the parser.
  - `message`, `queue` and `channel` carry messages to the event loop.
  - `event_loop` holds the state of the event loop and ties the parts together.
  - `clock` and `parser` are what the library has from outside; `failure` tells I/O failures apart.
- `tests/` exercises the library on concrete values.
- `app/` is the thread that performs the I/O.
