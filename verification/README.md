# ovax

A video-library engine: scanning folders for `.mp4` files, sampled content
hashing, keyframe sprite sheets with their manifest, middle-frame
thumbnails and short WebM previews.

- `src/` is the verified library. Its contracts pin down the keyframe sprite
  manifest and the sheet layout (`sprite`, `layout`), clock-style time text
  (`clock`, `text`), the sampled byte ranges and hex SHA-256 digests
  (`checksum`), batch result bookkeeping (`string_map`, `results`, `thumb`),
  which walked entries count as videos (`scan`), the hash request document
  (`request`) and the preview encoder's decisions (`preview`).
- `app/` is the command-line program: argument parsing, file and directory
  access, FFmpeg decoding and encoding, image files, parallelism and JSON
  output.
- `tests/` exercises the library on concrete inputs.
