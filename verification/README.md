# minivna

Frequency scans with a miniVNA Tiny over its serial port: acquisition with
retries, calibration, export to CSV and JSON, a background process that keeps
the port, and a live graph.

`src/` is the library, written in Verus and proved against its contracts. It
holds the decisions and formats that need no floating-point arithmetic:

| Module | Subject |
| --- | --- |
| `model` | scans, samples, result rows |
| `protocol`, `scan` | the wire protocol and one scan as a state machine |
| `acquisition` | attempts, retries, recovery of the port |
| `device` | finding the serial port |
| `calibration`, `recipe` | calibration files, their grids, the guided calibration |
| `config`, `edit`, `frequency`, `json` | the configuration file and its edits |
| `session` | loading and changing that file, step by step |
| `export` | CSV and number formats |
| `daemon`, `service`, `paths` | clients, the background process, paths and names |
| `terminal`, `graph` | what is shown |
| `text`, `binary64` | strings, and floating-point numbers by their bits |

What holds across several functions is stated by the proof functions whose
names begin with `law_`.

`app/` is the program around the library: the command line, files, sockets, the
serial port and the clock. Floating-point arithmetic is there too, with the
decisions that rest on it: error terms and calibrated values
(`app/arithmetic.rs`), axis scales and decimal places of a graph
(`app/axes.rs`), rates and percentages. `app/window.rs` needs the `gpui` crate
and is not part of the default build.

`tests/` runs the library on concrete values.
