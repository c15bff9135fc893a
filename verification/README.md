# whitman

`whitman` keeps several `AGENTS.md` profiles for a project and links the one
you pick to `./AGENTS.md`. In the picker, type to search, move with the
arrow keys or `j`/`k`, press Enter and then confirm; `+` asks for the name
and the description of a new profile, writes `AGENTS.<name>.md` and its
`descriptions.toml` entry, and selects it.

- `src/` is the library, written in Verus: profile names and file names,
  the `descriptions.toml` format (parse and render), listing and filtering
  profiles, the picker's state machine, and the decisions taken while a
  profile is applied (what to convert, overwrite, refuse or ask about).
  Every function there carries a contract that Verus proves.
- `app/` is the program around it: argument handling, the file system, the
  terminal picker drawn with `ratatui`, and the prompts.
- `tests/` runs the library on concrete inputs.
