# lri-rs

Tooling for Light L16 `.lri` captures, written in Verus: every function in
`src/` carries a contract that the verifier proves.

## Layout

- `src/` — the verified library (crate `lri_rs`).
  - `unpack` — packed 10-bit sensor samples to `u16`.
  - `render` — in-place 180° turn of interleaved pixel buffers.
  - `types`, `api` — module identifiers, capture modes and their labels,
    per-module summaries.
  - `thumbnail` — module names, preview step and subsampling, PNG and
    `data:` URL encoding.
  - `image` — grey, RGB and RGBA pixel buffers with their well-formedness.
  - `grid` — the labelled contact sheet of module previews (one row per
    module group), down to the pixel font.
  - `raster`, `validate` — integer overlap tallies, blend accumulation and
    normalisation, difference and side-by-side images used by pose checks.
  - `fusion` — IMU and distortion summaries of a capture.
  - `gather` — grouping a folder's `.jpg`/`.lri`/`.lris` files into shots.
  - `state` — the per-path session cache.
  - `codec` — the calls into the `png` and `base64` crates, each behind a
    small wrapper whose contract is stated over named results.
- `tests/` — ordinary Rust tests against the library.
- `app/` — unverified Rust around it: floating-point geometry (lens
  distortion, bilinear warps, correlation scores), file I/O and serde types.

Laws of the library (a half turn done twice, name round trips, overlap
symmetry, the preview step bound, blend and difference identities, the cell
layout of the contact sheet, session reuse, base64 length) are public proof
functions next to the code they speak of.
