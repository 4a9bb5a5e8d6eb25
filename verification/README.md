# dsp

Sample handling for a small real-time audio correction pipeline (capture,
convolution with a correction kernel, playback), written in Verus.

- `src/` is the verified library: the shared sample buffer (`communication`),
  its sizing constants (`constants`), sample selection (`samples`) and the
  rules by which the interactive set-up picks a host, a device and a stream
  configuration (`listen`).
- `app/` is the program around it: the capture and trimming threads, the
  audio devices (cpal), the WAV and JSON input, and the floating-point
  convolution (rustfft).
- `tests/` runs the library on concrete values.
