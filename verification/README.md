# pathsmith_core

Raster-to-SVG conversion pipelines and multicrop, as a Verus-verified library.

A named pipeline (a *preset*) runs pre-processing (upscaling, bilateral
smoothing, painting the dark mask black, colour quantization), tracing, and
post-processing of the SVG (dropping tiny paths, sealing hairline gaps with a
stroke). Multicrop cuts clamped rectangles out of an image and PNG-encodes them.

Layout:

- `src/` — the verified library.
  - `presets.rs`, `config.rs`: the presets and their settings; fractional
    settings are whole thousandths (`Thousandths`).
  - `postprocess.rs`: path stripping and sealing, with the colour parsing of
    `#rgb` / `#rrggbb` fills, and showing an upscaled trace at the input size;
    `xml.rs` holds the calls into `quick-xml`.
  - `multicrop.rs`: box clamping, pixel cropping, label sanitizing, crop names.
  - `preprocess.rs`: upscaled size, dark mask, quantized colours, and the order
    of the passes; `mediancut.rs`: median-cut quantization, used unless
    k-means is asked for.
  - `stages.rs`: the `RasterStages` trait for the stages that compute in
    floating point (bilateral filter, k-means clustering, vtracer), which the
    application supplies, and the resolution of the tracer's mode strings.
    The contracts state what each stage is handed and what is done with what
    it returns; they claim nothing of the stages themselves.
  - `imaging.rs`, `encode.rs`: calls into `image`, `imageproc` and `base64`.
  - `zipped.rs`: zip archives of batch results through the `zip` crate.
  - `requests.rs`, `compare.rs`, `text.rs`: request parsing, image comparison
    counts, and character/number text helpers.
- `app/` — the command-line program (convert, presets, bench, serve) and the
  floating-point stages.
- `tests/` — tests of the library, run with the real outside crates.
