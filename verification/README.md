# truce

The verified core of an audio-plugin framework: events and MIDI, sample-accurate
block splitting, plugin state, presets, background tasks, and the logic behind the
CLAP, AU, AAX and LV2 wrappers.

- `src/` is the library. Floats travel through it as bit patterns. Verus proves the
  contract of every function but those at its edge: twelve wrappers, marked
  `#[verifier::external_body]`, and one `assume_specification` say of calls into
  `base64`, `crossbeam-queue`, `png`, `toml` and the standard library what those do.
  Their contracts, and the names that they give to results, are believed, not proved.
- `tests/` runs it on concrete values.
- `app/` is ordinary Rust around it: files, threads, windows, host structures and
  floating-point numbers.
