# gwae

The verified core of gwae, a terminal multiplexer for driving coding agents:
the decisions and geometry behind its event loop, each with a contract that
Verus proves.

- `src/` is the library, verified whole. The few calls into `std` and
  `unicode-width` whose results the contracts name or state, unproved,
  are documented where they stand.
  - keys, mouse and jump chords, the Alt hold, and the keys of open
    overlays: `keys`, `jump`, `hold`, `modal`
  - the one-line notes the loop shows, and when they go: `note`
  - the layout model, focus and smart jumps: `grid`, `view`
  - frames: `cell`, `screen`, `frame` (the merged hairline canvas),
    `render` (the skeleton and pane rows), `compose` (a whole frame),
    `paint` (the diff painted to the host)
  - overlays: `dashboard`, `panels`, `cheatsheet`, `pickers`,
    `placeholder`, `ticks`, `hud`, `chrome`
  - sessions and processes: `session`, `activity`, `procs`, `shell`,
    `escape`, `agent`
- `tests/` runs the library on concrete values.
- `app/` is the unverified shell: pseudo-terminals and their processes,
  the host terminal's modes and painting, input conversion, and the color
  arithmetic done in floating point.
