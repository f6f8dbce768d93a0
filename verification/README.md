# parlyx-streamer

Core of a desktop client that captures audio from a chosen input device,
streams it in three-second chunks to a parlyx server, and follows the live
diarized transcript over server-sent events.

- `src/` is the verified library. Its contracts are checked by
  [Verus](https://github.com/verus-lang/verus).
  - `audio`: input devices, sample formats, the capture handle, downmixing
  - `capture`: the sample buffer and the capture loop
  - `wav`: the WAV container of a chunk
  - `parlyx`: the requests of the streaming API, and its refusals
  - `sse`: the event-stream parser
  - `session`, `commands`: the session state machine and the UI's commands
  - `settings`: settings and their defaults
  - `text`: characters, numerals, white space
- `app/` is the Tauri application around it: devices, sockets, files, windows,
  and the floating-point arithmetic on samples.
- `tests/` runs the library.
