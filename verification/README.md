# easytier_gui

The logic of the fangame launcher shipped with the EasyTier GUI, verified with
Verus: recognising an RPG Maker fangame folder, reading `Game.ini` titles and
RGSSAD archives, checking a game against the embedded registry and planning
the plugin install, and the peer-to-peer chat, game IPC and FGL_Link relay
(who a packet goes to, what is learned from one, what is dropped as an echo).

Layout:

- `src/` — the verified library. `text` (character-level string handling),
  `net` (addresses and the peer-port table), `link`, `chat`, `ipc`,
  `rgssad`, `fangame`, `peer_files`, `registry`. Public proof functions named
  `lemma_*` state the laws that hold across operations.
- `tests/` — tests on concrete values, one file per area.
- `app/` — the Tauri shell: sockets, files, processes, dialogs, JSON, and the
  commands the GUI calls, each handing plain values to the library.
