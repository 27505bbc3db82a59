# rnpt

A path tracer that renders on the CPU, with a small neural radiance cache that is
trained while a picture is rendered. The library is written in Verus: what each
function returns or changes is stated in its contract and proved.

- `src/accel` builds a tree of eight-wide nodes over triangles and searches it.
  `accel/exhaustive.rs` holds the laws that tie a search to a look at every
  triangle.
- `src/flatten.rs`, `src/import.rs`, `src/scene.rs`, `src/setup.rs`: scenes, from
  a document to what a renderer reads.
- `src/material.rs`, `src/brdf.rs`, `src/glass.rs`, `src/microfacet.rs`,
  `src/texture.rs`: surfaces.
- `src/light.rs`, `src/emitters.rs`, `src/distribution.rs`, `src/reservoir.rs`,
  `src/panorama.rs`: light sources and how they are sampled.
- `src/tracer`, `src/camera.rs`, `src/ray.rs`, `src/pcg32.rs`: paths, and the
  random numbers that they draw.
- `src/nirc`, `src/nrc.rs`: the radiance caches.
- `src/schedule.rs`, `src/full_pass.rs`, `src/gui.rs`, `src/viewport.rs`, `src/camera_nav.rs`,
  `src/tonemap.rs`, `src/stats.rs`: what worker threads and the window do next.
- `src/bench_report.rs`, `src/assets.rs`, `src/oxyde.rs`: reports and files.

Floating-point values are known to the library by their place in the numeric
order (`src/scalar.rs`, `src/double.rs`). Comparisons are exact. Rounded
arithmetic is handed in by the caller (`src/arith.rs`), and contracts hold for
every set of rules that describes it.

`app/` is the program around the library: arithmetic on machine numbers, files,
threads and the window. `tests/` runs the library on concrete values.
