# mail_app

The decisions behind a mail client's window, as a verified library: what the reader may
fetch and draw, what the list and its menus offer, how an op moves a row, what the keys
sheet and the signature seals say, how a printout is laid out and what the receipt bar
asks. Every function in `src/` carries a contract that Verus proves; the laws the window
relies on (consent before any fetch, one answer per press, nothing lost by grouping, and
the rest) are public proof functions beside the code they speak of.

- `src/` — the library, one module per concern (`consent`, `net`, `remote`, `reader`,
  `found`, `blocks`, `source`, `page`, `motion`, `move_to`, `menus`, `receipt`, `sheet`,
  `said`, `paint`, `paper`, `print`, `looks`, `image`), with `text` and `json` for the string work
  they share.
- `tests/` — tests of the library on concrete values.
- `app/` — the window's edges: dates and clocks (chrono), the web (reqwest on tokio), the
  shared state a window holds, timers and print windows.

Verify with Verus on `src/lib.rs`; the outside crates the library calls (`url`,
`serde_json`, `base64`, `chrono`) are reached only through the trusted items that name them.

Three maps of the window are held as vectors with map-shaped views, keyed by strings: the bands
of a grouped page (`page`), a message's marks by leaf key (`found`), and the reader's pictures
by URL (`remote`). With a string key a map proves nothing more than a vector searched in
order, so each is a `Vec` whose contract says what the map would hold.
