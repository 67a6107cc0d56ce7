# siggy

A terminal Signal client whose core is verified with Verus.

- `src/` is the verified library: command-line parsing (`cli`), input-line
  commands (`input`), vim-style key handling of the input line (`editor`,
  `keys`), list-overlay navigation (`list_overlay`), typing indicators
  (`typing`), redaction and formatting of debug-log lines (`debug_log`),
  and the decisions behind terminal images: protocol choice, cell size,
  Kitty placeholders, vertical crops, halfblock colours (`image_render`)
  and Sixel band slicing (`sixel`).  Calls into `base64`, `image` and
  `ratatui` go through the trusted wrappers of `codec` and `ui`.
- `app/` is the binary around it: terminal set-up, the event loop, the
  log file, environment lookups and image scaling (floating point).
- `tests/` exercises the library on concrete values.
