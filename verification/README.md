# AList + Bore

A portable file server: a desktop tool that runs AList and makes it reachable
from outside through a bore tunnel. It shows the administrator password that
AList makes up on its first run, and keeps it for later runs.

## Layout

- `src/`: the verified library. It decides everything the tool decides, and
  touches no file, process or network. Verus proves it against the contracts on
  its functions.
- `app/`: the Tauri application around it. It looks at files, runs processes and
  reads their output, and hands what it finds to the library. Building it needs
  Tauri 1.5 with the `shell-open` feature, besides the crates in `Cargo.toml`.
- `tests/`: tests of the library.

## Behaviour

- An executable is taken from the data directory, else from the working
  directory, else from the resources; from the latter two it is first copied to
  the data directory.
- A service has fifteen seconds to come up, and its reader five more.
- The password is kept in Base64, which only keeps it from being read at a
  glance. Files from old versions that hold it plain are still read.
- Closing the window hides it; quitting stops both services.
