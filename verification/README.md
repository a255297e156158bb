# nullmagnet

An entropy harvesting engine. Noise from many sources is health-tested, estimated, conditioned and
mixed into a pool, from which post-quantum key bundles are minted and kept in an encrypted vault.

- `src/` is the library: every rule and every computation that decides what the engine does, with
  its contract and its proof.
- `app/` is the program around it: devices, files, the network, threads, the window, and the
  floating-point formulas whose results the library compares and keeps.
- `tests/` runs the library.
