# bwrap_run

A launcher for Bubblewrap sandboxes, with one persistent data directory per
sandbox (`~/.sandbox_data/<id>`) mounted as the user's home inside it.

The library in `src/` decides everything the launcher does, with contracts
proved by Verus:

- `path`: Unix paths as bytes with std's `Path` meaning (components, prefix
  tests, join, parent, file name, prefix stripping), and laws about joining.
- `decimal`: decimal numerals, `u32` parsing, and the user id taken from
  `/proc/self` or `XDG_RUNTIME_DIR`.
- `cli`: the command line, the sandbox identifier chosen at the prompt, the
  data directories and the list of existing sandboxes.
- `command`: where a command is looked for, which candidate is taken, how it is
  named inside the sandbox and which directory it needs in the sandbox home.
- `mounts`: the mounts of a sandbox from what is present on the host, in order,
  with laws on their shape.
- `bwrap`: the bubblewrap argument list, with the command and its arguments
  passed through unchanged.

`app/main.rs` is the program: it reads the environment and the file system,
asks the user, prints, and executes `bwrap`.
