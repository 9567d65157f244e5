# generator-native

The header generator of `sfexec`: it reads a command line and a set of input
files and writes a C++ header holding the files' bytes, lengths, SHA-256 hashes
and names, and the post-extraction hook.

- `src/` is the verified library: the option set (`opt`), the command-line grammar
  (`arg`), C string escaping (`sanitise`), SHA-256 hashing through `sha2` and
  `copy_slice` (`hash`), the one-byte and buffered stream readers as state machines
  (`iter`), the renderers of every part of the header (`header`), the whole header
  from the files' paths and contents (`generate`), and the settings,
  file-name, version and usage logic (`program`).
- `app/main.rs` is the program: it reads the arguments and the files, drives the
  readers over real streams, and writes what the library renders.
- `tests/` runs the library on concrete inputs.
