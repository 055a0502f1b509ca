# random-pickfile

Moves the files of chosen types out of a workspace directory, at random,
into numbered folders of a fixed size, several folders at a time, and packs
each folder into a zip archive.

- `src/` is the library, verified with Verus: Base64 (`base64`), the scan
  of the workspace (`scan`), random choices and the shuffle (`random`), the
  planning of folders and moves (`plan`), archive naming and compression
  choice (`archive`), the lock file (`lock`), paths compared component by
  component, Windows prefixes included (`path`), the single-threaded
  variant that draws one file at a time (`sequential`), the settings
  (`settings`) and character-level text helpers (`text`).
- `app/` is the program around it: it reads the `settings` file and the
  disk, runs the folders concurrently with tokio, moves files and writes
  archives.
- `tests/` runs the library on concrete values.
