# bambu-serve

The decisions behind a dashboard server for Bambu Lab printers, verified with
[Verus](https://github.com/verus-lang/verus).

`src/` is the library. It decides which requests are let through and which are
refused, when a print may start, what a slice has to prove, how files are relayed to
the printer, which frames are shown, and what each of them is answered. Its contracts
are proved; what the parts promise together is stated in proof functions under the
heading *Laws* of each module.

Where a decision needs something of the outside in its middle, it is given a *port*: a
trait of plain values, of which nothing is assumed. A *tap* around the port keeps the
log of all that went through it, and the contracts are over that log: they say what was
done, in which order, and what was answered.

`app/` is the server itself: axum routes, sockets, processes and the disk.
`tests/` runs the library.

| module | what it decides |
| --- | --- |
| `ids`, `paths` | names of printers, runs and files that stay where they belong |
| `auth`, `reply` | the password, refusals and their order |
| `control`, `machine` | moving, heating and calibrating a machine |
| `job`, `upload`, `start`, `hook` | starting a print, with its guards |
| `slice`, `slice_slot`, `slicer`, `slicer_run` | slicing a model and printing the result |
| `files`, `printer_files` | what is read off the printer and kept |
| `camera`, `timelapse`, `captures`, `park`, `stream_record` | cameras and recordings |
| `ftpd`, `ftp_lines`, `ftp_control` | the file server of the emulated printer |
| `emulate`, `camerad`, `detect`, `live`, `doom` | its other clients |
| `net`, `serve`, `emulator_start` | what is served, and where |
| `fake`, `synthetic` | printers that are not there |
| `text`, `number`, `json`, `trace`, `assets` | what the rest is written with |
