# trixie

The logic of a tiling Wayland compositor as a verified library: what a
configuration means, where windows go, what keys and clients do, and what is
drawn. Every function of the library carries its contract, and Verus proves it.

- `src/config` reads configuration files, and serves editors that write them.
- `src/twm` tiles panes on workspaces and moves them between their places.
- `src/input.rs` and `src/shell.rs` act on keys, the pointer and windows.
- `src/desk` is a desktop of client windows: places, focus, requests, buffers, scripts
  and a control socket.
- `src/chrome` and `src/render` say what is drawn: bars, borders, frames and
  characters.
- `src/backend.rs`, `src/cursor.rs` and `src/portal.rs` choose modes, read
  cursors and name screenshots.
- `src/number.rs`, `src/single.rs`, `src/integer.rs`, `src/text.rs` and
  `src/json.rs` hold what the rest is built on. Floating point is computed in
  integers, bit for bit.

Files, sockets, clocks and the graphics card are the business of `app`, which
hands the library plain values. What the library takes on trust are the calls
into `serde_json` and `chrono` and a few functions of std that Verus has no
specification of; each stands in a function of its own, with a comment that
says what is claimed of it.
