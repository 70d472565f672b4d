# Kineto

Cinematic composition of screen recordings, with its logic verified by Verus.

A recording is laid on a padded canvas with a coloured background, a drop shadow and
rounded corners, followed by a camera that zooms and pans, blurred where the camera is
fast, and encoded to H.264 or HEVC.

## Layout

- `src/` is the verified library.
  - `color` parses hexadecimal colours.
  - `raster` holds pixel rasters, and the calls into the `image` crate.
  - `corners` says how much of a pixel a rounded corner covers.
  - `assets` makes the canvas with its shadow, the corner frame and the corner mask.
  - `blend` and `sprite` draw the cursor; `cursor` plans its path.
  - `zoom` decides what the camera does and what it crops.
  - `motion_blur` and `yuv` work on whole frames, the latter with `rayon`.
  - `compose` puts a frame together and finishes it for the encoder.
  - `pipeline` holds the decisions of the stages that decode, compose and encode.
  - `export` holds the settings and the layout of a recording on its canvas.
  - `scalar` orders doubles by their bit patterns.
- `tests/` runs the library.
- `app/` is the command line: arguments, files, threads, libav*, and all arithmetic in
  floating point.

Quantities that are computed in floating point enter the library as a `Scalar`, which
keeps their order; the library decides on them and hands them back.
