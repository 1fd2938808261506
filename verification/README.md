# minetrace

MineTrace reconstructs Minecraft play sessions from the logs that launchers
leave on disk, and builds a dashboard and a player profile from them.

- `src/` is the library, written in Verus: the log reader and parser, event
  recognition, session reconstruction, scan budgets and decisions, payload
  staging, discovery and inventory decisions, the dashboard and the profile.
  Each public function states what it returns in its contract, and the laws
  that span functions (for instance, that a parse does not depend on where
  the reader's buffer ends) are proof functions.
- `app/` is the part that touches the operating system: reading files and
  directories, time zones, and JSON decoding into the library's types.
- `tests/` exercises the library on concrete inputs.
