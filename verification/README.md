# matroska_remux

A Matroska (MKV/WebM) demuxer and fragmented-MP4 remuxer whose logic is proved with
Verus: EBML element reading, the seek index, track metadata and codec strings, block
parsing and unlacing, sample timelines, the fMP4 box writer, a minimal Matroska writer,
WebVTT and JSON output, and the arithmetic of a block cache for remote files.

- `src/` — the verified library. `ebml` reads elements, `index` the SeekHead and Cues,
  `track` the track entries, `remux` blocks and sample timelines, `fmp4` writes
  init/media segments, `mkv_write` writes Matroska, `player` holds the demuxer state
  and its decisions, `range_cache` the block-cache arithmetic, `schema` reads the EBML
  schema document (its XML events come from quick-xml) and writes its ID constants,
  and `bytes`, `text`, `scan` the byte and text helpers.
- `tests/` — tests of the library on concrete values.
- `app/` — what the library leaves to its callers: byte sources over HTTP streams,
  HTTP ranges and files, the asynchronous driver that reads through them, the
  floating-point values, and the wasm-bindgen facade.
