# g6_control

Control of a Creative Sound BlasterX G6 on Linux: its features, its profiles, the mixer popup
and the tray item. The library under `src/` is written in Verus and proved; it opens no file,
starts no program and talks to no device. The program under `app/` does that. It asks the
library what to do, and decides for itself only what hangs on files and threads: that a
saved profile is not overwritten, and that of several waiting volumes the latest is set.

| Modules | What they hold |
| --- | --- |
| `value`, `arith`, `display` | feature values as single-precision bit patterns, their rounded arithmetic, and how they print |
| `feature`, `lookup`, `packet` | the features, their names and ranges, and the reports that set and ask for them |
| `profile`, `paths`, `apply`, `table`, `status` | profiles: where they lie, how they are applied, which one is active, how the state is shown |
| `session`, `invocation`, `setup` | what the main window knows and says, and the commands that it and the command line run |
| `instance` | how one instance of the main window is kept |
| `tray`, `popup`, `scale`, `letters`, `canvas`, `render` | the tray item and the mixer popup, down to its pixels |
| `pulse`, `meter`, `equalizer` | what the sound server prints, the level meters, the equalizer's curve |
| `text` | strings and numbers in decimal |

Two calls leave the library and are believed, not proved: `serde_json` reads a quoted feature
name, and `eframe` decodes a PNG icon. Their wrappers say what is claimed of them.

`app/` expects the texts of the built-in profiles, the icons and the device rule under
`/usr/share/sound-blasterx-g6-control`. It is one program; called as `g6-gui` it opens the
window, called otherwise it is the command line. `g6-gui --no-window` starts in the tray alone.
