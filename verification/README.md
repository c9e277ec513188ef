# ReInk

Inspection and explicit EEPROM operations for Epson printers: the IEEE 1284.4
("D4") packet protocol, the Epson commands on its control channel, a database of
models, and a command line and a window around them.

`src/` is the library. What its functions promise stands in their contracts, and
Verus proves the code against them. The calls into other crates and the standard
library that are trusted instead are named at the end.

- `packet`, `transaction`, `channel`, `link`, `driver`, `conversation`: packets,
  transaction messages, credit, and the conversation with a printer over a byte
  transport, from its first call to its end.
- `command`, `controller`, `epson`, `database`, `builtin`, `identity`: Epson
  commands, the settings of the models, and device identifiers.
- `session`, `d4_session`, `operation`, `selected`: sessions with a printer, and
  what is done in them only after the printer has told its model.
- `arguments`, `commands`, `report`, `native`, `offline`, `discovery`, `json`: the
  command line, from its arguments to what it prints.
- `reassembly`, `summary`, `traffic`: the record of the traffic with a printer.
- `gui`, `view`, `filter`, `items`, `screen`, `dialog`, `pages`: the window, as
  state and as items to draw.
- `text`, `scan`, `fields`, `text_map`, `paths`: texts, maps by text, and paths.
- `platform`: the systems that there are, and what a transport and a control
  channel have to do.

`app/` is the program: argument handling, files, mDNS, device files and drawing.
`reink gui` opens the window; everything else is a command. `tests/` runs the
library.

What is trusted and not proved stands in three places: `text` (two calls into the
standard library and a specification of `String::push`), `json` (serde_json values
and their text) and `filter` (regular expressions). What is proved of a printer
holds for every transport and control channel that keeps the contracts in
`platform`.
