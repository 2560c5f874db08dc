# snipe

The verified core of Snipe, a screenshot tool: screen geometry in three
coordinate spaces, captured pixel frames, redaction filters (mosaic and box
blur), the colour-picker magnifier, long-screenshot scroll estimation and
stitching, the annotation undo/redo history, image encoding and file naming,
the vision-service request rules, credential checks, hotkey parsing, the
tray window's message routing and the single-instance pipe protocol.

- `src/` is the library, checked by Verus. Each public function states its
  result in `ensures`; the laws that tie several functions together (undo
  restores what an edit changed and redo what the undo took back, a request
  line is read back as its command, a crop keeps every pixel, stitched images
  are tightly packed, ...)
  are public proof functions beside them.
- `tests/` runs the library on concrete values.
- `app/` is the program around it: command line, logging, settings files
  (TOML), the pipe client, HTTP calls to the vision service, the clipboard,
  file saving, and the drawing of vector annotations, which uses floating
  point.
