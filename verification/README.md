# serial_monitor

A desktop serial-port monitor whose core is verified with Verus.

`src/` is the verified library:

- `tx_parse` — the HEX and binary transmit-line parsers, specified token by
  token, with the laws that a displayed HEX or binary translation reads back
  as the same bytes.
- `terminal_buffer`, `render` — the line buffer (line splitting at line
  feeds, the 4096-byte flush, the line limit, where 0 keeps every line, the
  incrementally updated rendering cache) and the exact text of each line.
- `ports` — port classification ("Filter MS/Low-Info"), display names and
  the choice of the selected port.
- `worker`, `device_info` — the decisions of the connection worker and the
  assembly of a port's device details.
- `session` — what worker events and user actions change in the session.
- `timestamp`, `text`, `serial_types` — shared values and string helpers;
  calendar formatting is chrono's, behind small trusted wrappers. The
  library never reads the clock: the application reads it and passes the
  instant in.

`app/` holds the egui window, the worker thread with its loop, file dialogs
and the JSON settings file. It performs the I/O and calls the library for
the decisions named above (what a command asks for, when a batch is due,
when the loop ends and whether the port is closed, what an event or a send
outcome changes); the loop's own shape (blocking or polling, by whether a
port is open) stays there. `tests/` runs the library on concrete values.
