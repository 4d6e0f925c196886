# matalu

Local, real-time dictation. Hold a hotkey, speak, release: the words are
recognized on the machine, cleaned of fillers and false starts, and typed into
whatever app has the focus.

The library under `src/` holds the decisions, each with a contract that Verus
proves:

- `text`: words, trimming, numbers.
- `cleaner`: the guards that a cleaned-up text has to pass, and the supervision of
  the model that proposes it.
- `injector`: the edits that turn what has been typed into what is to be typed.
- `session`: the state machine from key presses and transcript events to actions.
- `hotkey`, `fnkey`, `settings`, `tray`, `commands`: keys, settings and the menu.
- `audio`: where the resampler reads, and which device capture should be on.
- `pipeline`, `gate`, `queue`: the audio gate, the drain burst, the meeting recorder,
  and the queues between them.
- `sidecar`, `corrector`, `events`, `config`, `json`: the recognizer's two pipes.
- `diarize`, `meeting_detect`: speakers of a meeting, and noticing one.
- `server`: the stream of events to one client.

Samples are floating-point numbers, so the library never computes with them: it
says which samples to combine, and `app/` combines them.

`app/` is the program around the library: processes, threads, devices, windows.
`matalu` serves transcripts over a WebSocket; `matalu desktop` is the menu-bar app
for macOS. Capture and the desktop are built on macOS only, and the desktop also
needs the crates `tauri` and `tauri-plugin-global-shortcut` next to those in
`Cargo.toml`.
