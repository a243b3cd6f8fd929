# loki

Desktop app automation for QA testing on macOS: list windows, read and search
the accessibility tree, click, drag, scroll, type, press keys and menu items,
take screenshots, and wait for things to appear.

## Layout

- `src/` — the verified library (Verus). Element queries and window filters,
  tree search and flattening, click-target selection, the text output formats,
  the explanations printed when a search comes back empty or a wait runs out,
  the targeting hint and target resolution, input plans (click, drag and wheel
  events, key combos and their AppleScript), parsing of the system tools'
  output, and the conversion of captured pixels to PNG. `src/laws.rs` states
  the properties that hold across operations.
- `tests/` — tests of the library.
- `app/` — the `loki` command line and the macOS glue: the Accessibility and
  Core Graphics calls, running system tools, the JSON output, and the
  configuration file. It fetches what the library needs, calls it, and performs
  what it decides.
