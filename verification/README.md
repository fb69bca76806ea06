# herdr_chrome

The chrome of a terminal multiplexer, as a verified library: the status strip at
the right edge of the tab bar, the tab bar itself, and the command palette, on
both sides of the wire.

`src/` holds the library.

- `format`, `strip`, `clock`: the `status_right` format string, the cache behind
  its clock and command tokens, and the clock text.
- `app`: the endpoint. `slots` is the push lane behind `#{slot:NAME}`,
  `status_strip` resolves the strip and schedules its commands, `api` answers
  `status.set` and `status.clear`, `command_palette` assembles the catalog.
- `client`: one attached client. `tabs` lays the bar out, `status_strip` fits the
  strip to the client's own width and theme, `command_palette` and
  `command_palette_overlay` are the palette's state and picture.
- `ui`: the single-process interface.
- `palette`: fuzzy scores, ranking and the catalog that both palettes share.
- `canvas`, `width`, `text`, `time`, `table`, `lists`: what the rest is made of.
  Rendering yields drawing steps; nothing in the library touches a terminal.

Display widths come from `unicode-width` and the local time from `jiff`. What the
library takes from them stands in the doc comments of the functions that call
them.

`app/` is the terminal around it: painting with `ratatui`, keys from `crossterm`,
the JSON wire format, and the processes behind `#(command)` tokens.

Public functions named `law_*` state what holds of the library as a whole.
