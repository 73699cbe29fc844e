# Serial commander

A window for a device on a serial line that runs at a frequency the user enters.

- `src/` is the library, verified with Verus: the checksum (`crc`), frames on the wire (`frame`,
  `stream`), the period for a frequency (`frequency`), texts (`text`), the messages between panel
  and link (`message`), the link as a state machine (`link`), the panel (`panel`), and what holds
  of them together (`laws`).
- `app/` is the program around it: the window, the channels, the thread that holds the port.
- `tests/` runs the library.
