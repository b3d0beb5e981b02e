# steptrace

A screen-step recorder: while recording, each click and each Enter captures
a screenshot and becomes a numbered, captioned step of a session; background
captures are kept for a minute in a buffer, from which one can be promoted to
a step. Steps can be recaptioned, deleted and reordered, and are renumbered
1, 2, 3, ... each time.

The logic is a Verus library, verified against its contracts:

- `src/model.rs`: sessions, steps, buffer entries, captions.
- `src/manager.rs`: the recording state machine and the buffer's pruning.
- `src/commands.rs`: the operations the front end invokes (listing, editing,
  reordering, parsing capture-mode requests).
- `src/capture.rs`: choosing what to grab, cropping a region, PNG encoding,
  filtering the window list.
- `src/markers.rs`: annotations drawn on screenshots.
- `src/input.rs`: key mapping and the decisions of the recording loop.
- `src/text.rs`, `src/clock.rs`, `src/ids.rs`: decimal text, integer
  parsing, timestamps, identifiers and base64.

`app/` holds the desktop application around it (Tauri commands, the global
input listener, screen grabbing and the loop that carries out the library's
decisions).
