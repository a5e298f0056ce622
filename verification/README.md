# ctrmml_lang_core

Editor-neutral language support for ctrmml music macro language (MML)
documents, written in Verus: every function under `src/` carries a
contract that Verus proves.

Layout:

- `src/` — the verified library: text scanning, track selectors, key
  signatures, octave and brace tracking, instrument block lookup, PSG
  envelope parsing, chord and arpeggio rendering, hover, code lens,
  instrument preview, note preview, transposition, rest filling and
  completion (including chord and arpeggio completion).
- `tests/` — ordinary Rust tests of the compiled library.
- `app/` — the unverified WebAssembly / LSP glue that calls the library.
