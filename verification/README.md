# ncspot

The parts of a terminal music player that decide: what a screen shows, what a click or a key
does, what is remembered and what is dropped. They are written in Rust and verified with Verus.

- `src/` is the library. Nothing in it touches the terminal, the sound, the network or the
  clock: a view fills a sheet of text runs, an event comes back as an order, times are numbers
  that are passed in. Every function has a contract over mathematical models, and the `law_`
  functions state what holds of the library as a whole.
- `app/` is ordinary Rust around it: it prints the sheets, carries the orders out, does the
  floating point work (colours in between, spectra, the motion of bars) and reads and writes
  the files.
- `tests/` runs the library on concrete values.

The library calls `unicode-width` for the columns a text takes, `cursive` for alignment and
`image` for decoding a cover and shrinking it. Each call stands behind one small function whose contract says
what is relied on.
