# render_rs

The scene-handling core of a RenderMan RIB renderer, verified with Verus, and a program
around it.

`src/` is the library. It holds numbers by the bits of their doubles and singles; where it
computes with them, the caller supplies the operations (`arith`), and contracts speak of
their results. `double` says what bits mean, `near` how far apart numbers are.

- `parser`: RIB text and binary, USD stages, and the interpreter that turns requests into a
  scene description. `round_trip`, `comes_back` and `told` say what reads back of what is written,
  `block_laws` what blocks restore, `scene_laws` what a scene may refer to; `placement`
  turns transforms into matrices.
- `math`, `geometry`: transforms; quadrics and triangles, meshes, patches, splines,
  subdivision, polygons with holes, curves, displacement, how they are diced, placed and met
  by rays.
- `accel`: the bounding volume hierarchy and how it is divided; `tree_laws` says what holds of
  its nodes and boxes.
- `raytracer`: the random numbers, samples and course of a path; media; what the GPU backend
  is handed, how its work is cut up, and what is read back.
- `output`: films, tone mapping, PPM, the channels of multilayer images, merging of
  accumulations, denoising.
- `texture`, `preview`, `cli`: which files a texture is in, what the preview does next, and
  what a command line asks for.

`tests/` runs the library with real arithmetic. `app/` is the program: files, windows,
threads, and shading in floating point.
