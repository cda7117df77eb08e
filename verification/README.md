# ime_lock

The decision logic of a Windows tray tool that pins the input method to one mode: Chinese input
methods stay in their Chinese sub-mode, or the keyboard stays on the English layout.

- `src/` is the verified library. Every procedure is a machine that names the next platform call,
  takes its answer and goes on. A ghost `Script` says which dialogue a machine holds; each machine
  is proved to follow its script.
  - `script.rs`: scripts, their runs, and the `Procedure` trait.
  - `call.rs`, `mode.rs`: calls and answers, modes, settings and conversion modes.
  - `clock.rs`: clock, debouncing, throttled warnings. `pace.rs`: how often events are handled and
    warnings written, over many runs.
  - `defime.rs`, `detect.rs`: reading conversion modes, and whether a window matches.
  - `shift.rs`, `convert.rs`: writing conversion modes, with a Shift tap as the last resort.
  - `layout.rs`, `enforce.rs`: choosing and activating layouts, the whole enforcement.
  - `watch.rs`, `hotkey.rs`: foreground events, the timer and the hot keys.
  - `text.rs`: descriptions and messages. `resources.rs`: building the icon resource.
  - `laws.rs`: what holds of every run.
- `app/` makes the calls: Win32, the clock, the log and the settings. Its `hooks`, `tray` and
  `win32` modules need Windows; the others do not.
- `tests/` runs the machines against a desktop made of plain values.
