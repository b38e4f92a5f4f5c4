# InqJet

Logging for latency-critical Rust applications, verified with Verus.

A log call claims space in a ring buffer and encodes its message there. A
background thread, the archiver, takes records from the ring, formats their
lines and writes them.

## Layout

- `src/` is the library. Everything in it is verified against its contracts;
  what it has from other crates and from std stands behind items whose doc
  comments say what is believed of them.
  - Producers: `logger`, `pod`, `stash`, `record`, `ring`, `archive`
  - The archiver: `consumer` (its schedule), `format`, `calendar`, `text`
  - The logging macros: `placeholder`
  - Settings: `builder`, `level`
  - Channels and buffers: `channel`, `rb`, `queue`, `order`, `notifier`, `wake`,
    `pool`, `writer`
- `app/` is the logger as a process runs it: global state, threads, writers, the
  bridge from the `log` crate, and the token streams of the macros.
- `tests/` are the library's tests.

## What is proved

Each function's contract says what it returns or changes, as far as that does not
rest on other threads, the clock or the machine. Properties that span
several functions are public proof functions whose names begin with `law_`: that
what is committed to a ring comes out of it unchanged and in order, that a line
shows what was logged, that values and texts come back from their encodings,
that the archiver drains and flushes every stream before it stops, and others.
