# srs_inference

The logic of native inference for a small speech restoration model, verified with Verus.

- `src/audio.rs`: which decoder is asked for what, what becomes of its answer, the walk of the
  high-pass filter over a waveform, the search for the peak.
- `src/spectral.rs`: the geometry of the centred short-time Fourier transform and its inverse.
- `src/checkpoint.rs`: tensors that a model takes out of a checkpoint by name and shape.
- `src/streaming.rs`: how a long spectrum is cut into windows and put together again.
- `src/error.rs`, `src/text.rs`, `src/names.rs`: errors, their messages, the order of names.
- `app/`: files, the `ffmpeg` process, Babycat, hound and MLX around the library.
- `tests/`: the library on concrete values.

Samples are 32-bit IEEE floats. The library holds them by their bit patterns, compares and
limits them, and takes their arithmetic as closures from its caller. Arrays are planned from
their shapes; whoever holds them moves and multiplies them.

Public proof functions whose names begin with `law_` state what holds of several functions
together, for example that a stream emits every frame once. The transform and its inverse are
treated in exact arithmetic, and without the Fourier transform between them: where frames come
back from it as they were cut out, the inverse gives back the waveform.
