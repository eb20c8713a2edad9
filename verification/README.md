# kiro_relay

The protocol core of a relay that serves the Anthropic Messages API from a Kiro upstream, written
and proved in Verus.

- `src/` is the library. It turns the upstream's events into the client's event stream or into a
  whole message, runs the search loop between rounds, settles requests before they go out, and
  plans what is recorded of them. Its functions have contracts over a mathematical model, and the
  files whose names end in `_laws` prove what holds of whole streams: that they are in order, that
  the answer arrives in full, that thinking, disclosed or marked by tags, arrives as thinking, and
  that it is signed.
- `tests/` runs the library with the crates that it calls.
- `app/` is the relay around the library: HTTP, clocks, locks, and floating point.

What is believed without proof stands behind a few small functions, each with a doc comment that
says what it claims: reading and writing JSON with `serde_json`, random ids with `uuid`, dates
with `chrono`, and lower case from the standard library.
