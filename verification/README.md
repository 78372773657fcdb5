# sdr-file

File-backed software-defined-radio sources: recorded IQ files are decoded, cut
into packets of 262 144 samples, tagged with centre frequency and sample rate,
and handed to a consumer. The library is written in Verus and verified.

| Source | Files | Centre frequency |
|---|---|---|
| `RawIqFileSource` | `.bin`: interleaved 16-bit integers, scaled by `1/32768`; any other extension: interleaved single-precision floats | from the caller |
| `SigmfFileSource` | SigMF pairs `.sigmf-meta` and `.sigmf-data`, datatypes `cf32_le` and `ci16_le` | from the metadata, zero hertz if it has none |

## Layout

- `src/sample.rs`, `src/datatype.rs`: samples and their decoding. Floating-point
  numbers are IEEE-754 bit patterns; the scaling of integers is proved exact.
- `src/narrow.rs`: narrowing of double to single precision, on bit patterns.
- `src/packet.rs`: cutting a sample stream into batches.
- `src/stream.rs`: stitching reads of any size together.
- `src/playback.rs`: the state machine that plays a list of paths.
- `src/laws.rs`: what holds of a playback as a whole.
- `src/path.rs`: extensions of paths.
- `src/sigmf.rs`, `src/source.rs`: metadata and the two sources.
- `src/pool.rs`: recycling of sample buffers over a channel.
- `app/`: file access, the capture thread, and the `SdrSource` trait.
- `tests/`: the library on concrete values.

What is trusted, not proved: the wrappers in `src/pool.rs` around the channel of
`crossbeam`, those in `src/path.rs` around `Path::extension` and
`Path::with_extension`, and the outside types that are only carried.
