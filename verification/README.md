# pass_tomb

A `pass` extension for macOS that keeps the password store inside an
AES-256 encrypted disk image (a "tomb") managed with `hdiutil`, whose password
is kept GPG-encrypted in a key file.

The crate is written in Verus:

- `src/` is the verified library. `text` holds the character-sequence
  primitives (search, lines, words, trimming, number parsing); `plist` scans the
  XML property lists that `hdiutil` prints; `tomb` reads mounted images out of
  them and decides what to detach; `timer` reads durations such as `30m`;
  `gpg` reads key IDs and trust levels out of `gpg`'s output, decides whether
  a set of GPG IDs may protect a tomb, and draws tomb passwords; `store` holds the decisions of the commands (paths, checks,
  command lines, file contents); `crypto` encrypts with `age`.
- `app/` is the program around it: command-line parsing, running `hdiutil`,
  `gpg`, `git` and `pass`, files, prompts and the environment. The four
  programs (`pass-tomb`, `pass-open`, `pass-close`, `pass-timer`) are one
  binary that picks its role by the name it runs under; installing links the
  missing names to it.
- `tests/` runs the library on concrete values.
