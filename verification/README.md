# audiowaveform

Waveform data generation, serialization and rendering for audio, written in
Verus: the library's functions carry `requires`/`ensures` contracts that
Verus proves.

- `src/` is the verified library: PCM audio and waveform generation
  (`audio`, `raw`, `scale`), waveform values and their `.dat`, JSON and text
  encodings (`waveform`, `bytes`, `text`), rendering onto an RGBA canvas
  (`canvas`, `font`, `render`) whose pixels an `image` crate buffer holds
  (`pixels`), PNG and WAV encoding through the `png` and `hound` crates
  (`codecs`, `encode`), the decisions of stream decoding
  (`decode`) and of the command-line tool (`cli`), and the properties that
  hold across operations (`laws`).
- `app/` is the command-line program around the library: argument parsing
  with `clap`, files and standard streams, the `symphonia` decoding loop,
  JSON parsing with `serde`, and the floating-point parts (start and end
  times, amplitude multipliers, floating-point raw samples).
- `tests/` exercises the library.
