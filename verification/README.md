# Pipsqueak

A desktop pet that sits on top of everything and says what a coding agent is
doing right now. What it says has to be true: a card that reads "Done" over work
that is still running, or "Needs you" over a prompt that was answered an hour
ago, is worse than no card.

So the judgement is a library of its own, verified with Verus, and everything
that touches the machine is a thin program around it.

## Layout

- `src/` is the library.
  - `hook`: what one hook event does to the card of its session, and
    `hook_laws`: what holds of every such event.
  - `narration`: what a transcript says, and what it says is still running.
  - `codex`, `codex_index`, `codex_live`, `codex_stream`: Codex's session files,
    their titles, and its live task stream.
  - `state`: sessions, the sweep that retires them, the lock, the settings.
  - `install` and `install_laws`: registering the hooks without harming the rest
    of the settings.
  - `doctor`: what may be wrong, in one sentence each.
  - `risk`: which commands cannot be taken back.
  - `project`, `chats`, `process`, `desktop`, `hotkey`, `attention`, `overlay`,
    `control`, `cli`, `log`: the rules of each corner.
  - `text`, `strings`, `json`, `names`, `table`, `agent`: what the others are
    made of.
- `tests/` runs the library on concrete values.
- `app/` is the program: files, processes, sockets, the window and the tray.

## What is trusted

`json` reads and writes through `serde_json`, and `codex` reads timestamps
through `chrono`. A handful of functions of the standard library (lower case, the
alphanumeric characters, lossy decoding, characters from their numbers) are
stated as their documentation has them. Each such item carries a comment that
says what it claims.
