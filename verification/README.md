# imageproof

Image authenticity verification: an engine that classifies an image as
authentic, suspicious (edited), synthetic or indeterminate, with reason codes
per analysis layer.

`src/` is the verified library (Verus):

- `model` — verdicts, execution modes, reason codes, latencies, requests, errors.
- `config` — the integer limits (payload size, image dimensions, block sizes).
- `decode` — the input gates: payload size, format sniffing (JPEG, PNG, WebP
  only), decoding to 8-bit luma through the `image` crate, dimension limit.
- `raster` — grayscale rasters and the exact integer scans the layers build on:
  residual map, noise/edge/block-boundary sums, block moments, hybrid tiles,
  physical-layer block pairs, gradient field.
- `fusion` — verdict precedence and reason-code rules.
- `dataset`, `stress`, `text` — the stress-test tool's dataset handling,
  tallies and command-line arguments.
- `laws` — properties of the library as a whole, proved.

`app/` is ordinary Rust around it: the floating-point layer scores and fusion
weights, calibration loading (TOML), timing, the file-system walk and the
report printing of the command line tool.
