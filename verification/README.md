# TTS Read

Select text anywhere, press **Alt+R**, hear it read aloud; press again to stop.

- `src/` — the verified library (Verus): the hotkey grammar and key
  tracking (`hotkey`), sentence chunking and the engine state machines
  (`tts::edge`, `tts::native`), the worker's decisions (`worker`), the tray
  menu model (`tray`), settings defaults and file location (`config`),
  selection clean-up (`capture`), login registration (`autostart`) and
  Unicode-whitespace text utilities (`text`).
- `app/` — the program around it: threads, the keyboard hook, clipboard and
  UI Automation, audio playback, the Edge network client, the tray widgets,
  the settings file and the icon drawing.
- `tests/` — tests of the library on concrete values.

Speeds are held in thousandths of normal speed (1000 = 1.0x); the settings
file keeps the usual multiplier.

Two crates that `app/` uses on some platforms are not listed in
`Cargo.toml`, to keep the dependency set small: `tao` (the macOS event loop
of the tray) and `tts` (the offline system synthesiser on Windows and
Linux). Add them to build those parts of the program.
