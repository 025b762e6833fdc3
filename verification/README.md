# loguna

Reading and writing RoboCup SSL log files, with the parts that decide
something verified by Verus.

## Layout

- `src/` — the verified library.
  - `bytes.rs`: big-endian integers as byte sequences, and the byteorder and
    std calls that read and write them.
  - `format.rs`: what the bytes of a log file are (header, messages, index)
    and what a reader makes of them, with the round-trip laws.
  - `reader.rs`: `LogReader`, over the bytes of a plain or gzip-compressed
    log file. A compressed file that is damaged part of the way reads up to
    the damage, then reports the decoding error.
  - `writer.rs`: `LogWriter`, which produces the bytes of a log file.
  - `gzip.rs`: whole-file gzip compression through flate2.
  - `message.rs`, `error.rs`: message types, messages, errors.
  - `viewer.rs`: the viewer's state: loaded entries, type filter, selection,
    panels, cached detail.
  - `explore.rs`: the command-line explorer's decisions: type filters, dump
    offsets and limits, referee state changes, statistics.
- `app/` — the terminal viewer and command-line explorer: file access,
  terminal drawing, argument parsing, and formatting with floating point.
- `tests/` — tests of the library.
