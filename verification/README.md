# textrollup

Roll-up captions from timestamped words, verified with Verus.

One buffer in, one or more words. One buffer out, the whole visible window.
Completed lines freeze; only the bottom line grows. Nothing already on screen
moves, and a state goes out the moment its input commits.

## Layout

- `src/text.rs`: white space, trimming, splitting and joining.
- `src/clock.rs`: media time.
- `src/event.rs`: what reaches an element from the pipeline.
- `src/rollup/window.rs`: the roll-up window; `src/rollup/window_laws.rs`: what
  holds of it over any run of words and changes of geometry.
- `src/rollup/element.rs`: the state machine of the `textrollup` element;
  `src/rollup/laws.rs`: what holds of it over buffers, gaps and events.
- `src/gapkeeper/`: the state machine of the `gapkeeper` element, which keeps a
  sparse pad covered with gaps, and its laws.
- `app/`: the GStreamer elements around the library: pads, threads, locks and
  property plumbing.
- `tests/`: scenarios on concrete values.

## What is trusted

- `unicode_width::UnicodeWidthStr::width`: that the display width of a line is
  a function of its characters, and that printable ASCII text is as many
  columns wide as it has characters. Where lines break is proved for every such
  function.
- `core::str::from_utf8`: that it accepts exactly the valid UTF-8 strings and
  gives the characters that they encode.

## Times

Media time is in nanoseconds. A function that adds times asks that the sum is
in range. `ClockTime::checked_add` and the functions whose names end in `_fits`
say whether it is.
