# imlag-core

ImLag answers a Counter-Strike 2 death with a chat message picked from a
corpus ("lag", "my mouse", ...). This crate is its core, written in Verus:
the rules are stated as `requires` / `ensures` contracts and proved.

- `src/` — the verified library: text operations (`text`), configuration
  normalisation (`config`), the corpus (`chat`), the CFG-mode files
  (`cfg_manager`), key sequences and key specs (`platform`), chat-mode
  typing (`sender`), localisation (`i18n`), UI events (`events`) and the
  engine's decisions (`engine`).
- `app/` — the desktop program around it: file and network I/O, the GSI
  listener, keyboard injection, clipboard, the Tauri command surface.
- `tests/` — tests of the library on concrete values.
