# serial_monitor

A serial-port monitor with a Bemfa cloud bridge. The logic is a Verus-verified
library; the window, the port, the network and the files are a thin program
around it.

## Library (`src/`, verified)

- `text`: trimming, splitting, matching and number parsing over `Seq<char>`.
- `utils`: recognising UTF-8, GBK detection, the mixed-encoding decoder, the
  receive encodings, hex and binary dumps, hex input, and the send encodings.
  Legacy encodings go through `encoding_rs`.
- `cloud`: connection settings, topic lists and their rules, the Bemfa command
  lines and the reading of `cmd=2&...` messages.
- `dataflow`: what serial text is published and what a cloud message becomes on
  the serial port, per connection mode.
- `config`: reading the settings file into the settings and writing it back.
- `serial`: the port list, CH340 marking and the selection after a rescan.
- `update`: version numbers, release tags, the newest release, release and asset
  lookup, the repository URLs and the restart script.
- `monitor`: what a send or a shortcut sends, saving shortcuts, notice windows,
  and the periodic work of the window.

## Program (`app/`)

The egui window, the serial port threads, the TCP stream, the HTTP requests and
the settings file on disk. It hands plain values to the library and performs
what the library decides.

The window is drawn with `eframe`, and the firmware folder dialog uses `rfd`;
neither is listed in `Cargo.toml`, so building the program needs both added
there. The library and its tests do not use them.

Release downloads send the access token for the repository host from the
`SERIAL_MONITOR_GITEE_TOKEN` environment variable, where it is set.

## Tests (`tests/`)

Concrete cases for each module, run against the compiled library.
