# oblong

Window management for Sway: snapping with size cycles, most-recently-used
window switching, and a settings editor that writes sway config snippets
under `~/.config/sway/oblong/`.

The library in `src/` is verified with Verus:

- `text` — the string operations the parsers and generators are built from
  (trimming, line splitting, number reading and printing), each specified
  over `Seq<char>`.
- `config` — parsing `bindsym` lines, categories and labels of commands,
  grouping, the managed `shortcuts.conf`, the include line and conflict
  handling in the main config.
- `snap`, `switcher` — what a snap or a switch does given the saved state
  and the clock, and the state files.
- `appearance`, `defaults`, `outputs` — the data of the settings pages and
  the config files generated from them; output placement inference and
  resolution.
- `editor` — the settings editor as a state machine: what each action does
  to the state, which outside work it asks for, and how outcomes are
  reported.

`app/` is the program around it: the command line, files, processes,
JSON, and the iced window.
