# openlogi-hid

Transport rules for Logitech HID++ devices, verified with Verus.

- `src/` is the library. `collection` names the HID++ vendor collections,
  `device` and `enumerate` pick the nodes to open, `text` and `path` reduce a
  Windows interface path to its grouping key, `index` and `pairing` pair long
  and short collections by that key, `opening` steps through the handles of a
  pair, and `channel` says which reports a channel carries and which handle each
  goes through.
- `tests/` runs it on concrete enumerations, paths and reports.
- `app/` is the part that talks to the operating system, through `async-hid`
  and `hidpp`.

Two facts are taken on trust: the value of `hidpp::channel::SHORT_REPORT_ID`,
and that `String::push` appends a character.
