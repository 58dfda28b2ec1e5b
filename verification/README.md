# cirula

An application launcher for Wayland layer shells, whose logic is verified with
Verus.

- `src/` is the library, verified: reading desktop entries and the
  configuration, fuzzy ranking and ordering of applications, the launch
  history, the command lines that start an application, the icon search
  paths, and the launcher's state machine (from state and event to the next
  state and an action).
- `tests/` runs the library on concrete values.
- `app/` is the program around it: the window, reading and writing files,
  the environment, and starting processes.

Verify with `verus` on `src/lib.rs`; the outside crates the library calls
(fuzzy matching, regular expressions, collation, desktop-entry parsing,
shell-word splitting) are reached through trusted wrappers, each with a doc
comment that says what its contract claims.
