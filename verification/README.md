# songcompare

Compares versions of the same song by playing them back after level
normalization and time alignment.

- `src/` is the verified library:
  - `correlation`: the correlator types, `apply_shift` (delay or advance by
    whole frames), the frame arithmetic of the correlators (compared frames,
    overlap of two sources at a lag, FFT size, the correction for a measured
    lag) and the proof that the correction undoes the lag.
  - `processor`: the processor type, channel (de)interleaving with its
    round-trip proofs, and the sample rate rule.
  - `player`: playback status, the decisions of the playback loop (ticks,
    seeking, pausing) with its progress proof, and the key handling.
  - `options`: the command line grammar and its proof that only arguments
    without a leading `-` become files; the file patterns handed to the
    search.
  - `tracks`: the shuffled track order of anonymous mode, switching between
    tracks and the crossfade window of a switch.
- `app/` is the program: decoding (symphonia), the float arithmetic of
  levels and correlation (rustfft), resampling (rubato), playback (rodio)
  and the terminal (crossterm).
- `tests/` runs the library on concrete values.
