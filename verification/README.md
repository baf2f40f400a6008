# slipbridge

A command-line bridge to ESC/POS thermal receipt printers, with its logic verified by Verus.

- `src/` is the verified library: rendering images to a 1-bit raster (`render`), framing
  the raster as ESC/POS commands (`escpos`), printer selectors, discovered-printer
  listings and their ordering (`transport`), the chunked-write state machine used for
  sending (`send`), input kinds, paper profiles, the doctor's checks, the reports and
  the text shown to people (`input`, `profiles`, `diagnostics`, `output`, `commands`).
- `app/` is the program around it: argument parsing, file reading and image decoding,
  USB and Bonjour discovery, sockets and USB transfers, and JSON output.
- `tests/` runs the library on concrete values.
