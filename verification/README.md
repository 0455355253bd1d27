# ncspot_core

The verified core of a Spotify client for the terminal. The library decides; it performs no
input or output of its own. What it decides is stated in the contracts of its functions and
proved with Verus.

- `src/config.rs`, `src/paths.rs`: the configuration, the icons, and where files are kept.
- `src/lyrics/`: LRC files, the answers of the lyrics services, and the order in which they are
  asked.
- `src/friends.rs`: the activity of friends.
- `src/worker.rs`: what the task that drives the player makes of commands and of the player's
  messages.
- `src/audio/`: the ring buffer between decoder and sound server, and the sink around it.
- `src/ui/`: the views. A view is a state that answers events and commands with actions, and
  that draws itself as a frame of strokes.
- `src/text.rs`, `src/text_map.rs`, `src/sort.rs`, `src/geometry.rs`: what all of them use.

`app/` connects the library to the terminal, the network, the disk and the sound server. `tests/`
runs the library on concrete values.

Calls into other crates stand behind small functions marked `external_body`, whose contracts are
believed. Each says in its comment what it claims of the function it calls.
