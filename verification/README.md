# Agent Deck

Agent Deck shows the sessions of several AI agent hosts (ZCode, Codex,
WorkBuddy) on a row of keys. A key tells by its colour, brightness and effect
what its session is doing and how urgently it needs the user. From a key the
user jumps to the session, binds another one to the key, or stops it.

## Layout

- `src/` is the library, verified with Verus. A function states what it
  returns; one that asks the backends states which of them it asks for what, and
  what it makes of answers that their observers may give; one that goes by the
  clock states its result for the time it read. What holds of the deck as a
  whole stands in public proof functions named `lemma_..`. Calls into
  `serde_json` and a few of the standard library stand behind items whose
  contracts are trusted; their doc comments say what is claimed.
- `app/` is the program around it: databases, session logs, the Codex app
  server, files, the window.
- `tests/` runs the library, in part against real SQLite databases.

## What is stated

- Pinned keys show their session and nothing else; the other sessions fill the
  free keys, the most urgent first, and none is dropped while there is room.
- The LED frame and the board state always describe the same keys.
- A pinned session stays on its key when its backend falls silent, and pins
  survive a restart.
- A tick files what each backend reports under that backend, and asks the same
  backend for the pinned sessions, all at once and only if there are any. One
  that fails leaves the board as it was and blocks no other.
- A key action is handed to the first observer of the backend of the session on
  its key, together with the session's id; what that observer makes of it is the
  answer, and all other observers are left as they were.
- A session that is bound to a key is looked for in the catalogs only if the
  board does not know it, and in none after the first that lists it.
- Finished WorkBuddy sessions fade: soon after they were opened from the deck,
  late if they never were.
- Frames of the Codex channel are received as they were sent, however they are
  cut into chunks, and the beginning of a frame waits for the rest of it.
- Stop-all stops every Codex thread that works or waits.
- The bind picker lists what the last poll of WorkBuddy showed, as long as the
  times of the sessions stay the same.
- Events of unknown kinds change nothing of what is read from a WorkBuddy log.
- A workspace path is read back from its link, whatever characters it holds.

Urgency is a whole number, the milliseconds of waiting that it stands for, from
nothing to two minutes; colours and brightness are blended from it exactly and
rounded to the nearest step.
