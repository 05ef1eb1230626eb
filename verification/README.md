# hop

An Alt+Tab window switcher for X11: a popup with one tile per window, each with an icon or a
thumbnail and the window's title. Holding the modifier and pressing the key again moves on;
releasing the modifier switches to the selected window.

- `src/` is the library, verified with Verus: the configuration, the grid layout, what is drawn
  where, the key and mouse handling, the EWMH properties, icons, thumbnails and their cache, and
  the state of the popup. Its functions take plain values and say what is to be done; they do no
  input or output.
- `tests/` runs the library on concrete values.
- `app/` is the program around it: the X connection, Xft text, the configuration file and the
  event loop.

The configuration is read from `$XDG_CONFIG_HOME/hop/config.toml`, or from
`~/.config/hop/config.toml`. Set `HOP_DEBUG` to trace what the popup does.
