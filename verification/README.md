# toolkit_logic

The verified core of a desktop and browser toolkit for game asset formats:
the DZip, PAK and BNK archive workspaces and the Crypt-Data, Compiled-Text,
NEWTON, Particle and PAM document editors. The library decides what the
workspaces show and do: names and paths, browser listings and their order,
search and paging, edit plans, undo and redo, the checks made before an
archive is built or a PAM edit is kept, and the ZIP packing of downloads.

- `src/` is the library, written in Verus. Its functions carry contracts
  that Verus proves, and the public `lemma_*` proof functions state the laws
  that hold across calls. The few calls into the `zip` crate and the standard
  library that Verus cannot read (writing ZIP entries, error texts, Unicode
  lower-casing) sit in small wrappers marked `#[verifier::external_body]`:
  their contracts are trusted, not proved, and each one's doc comment says
  what it claims of the call.
- `tests/` runs the library on concrete inputs.
- `app/` is ordinary Rust around the library: the serde copies of the viewer
  preferences and the floating-point helpers (size formatting, transform
  matrices, PAM canvas and change limits).
