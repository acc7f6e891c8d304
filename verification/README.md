# kmrebind

A kernel-level keyboard remapper for Linux that turns chosen keys (by default
`.` and `/`) into presses of the left mouse button, for rhythm games.

## Layout

- `src/` — the verified library:
  - `key_mapper.rs`: the reference-counted state machine over bitsets of key
    codes; the mouse button is held exactly while some mapped key is held.
    The proof functions there state the laws of the machine.
  - `config.rs`: key names to Linux key codes (trimming, optional `KEY_`
    prefixes, case-insensitive lookup) and the default keys.
  - `event_loop.rs`: what each keyboard event turns into (button press or
    release, pass-through, nothing) and what is left to do at shutdown.
  - `device_discovery.rs`: keyboard detection from the supported keys, and
    the choice of the first keyboard by path.
  - `error.rs`, `options.rs`, `cli.rs`, `util.rs`: the error type with its
    messages, run options, command-line arguments, the shutdown flag.
- `app/` — the program around it: argument parsing, evdev and uinput I/O,
  logging and signal handlers.
- `tests/` — tests of the library, run against the real `evdev` key codes.
