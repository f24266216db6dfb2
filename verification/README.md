# Vanrijn

Vanrijn is a physically based ray tracer.

- `src/` is the library, verified with Verus: intervals and axis-aligned
  boxes over totally ordered scalars, the bounding volume hierarchy built over
  such boxes, row-major two-dimensional arrays, eight-bit RGB images, the
  tiling of an image for rendering in parallel, Morton codes, the fan
  triangulation of polygons, and the growable look-up table of sampled
  materials. Every public function states its behaviour in `requires` /
  `ensures`, and the laws that relate the functions are proof functions.
- `tests/` exercises the library on concrete values.
- `app/` is the renderer program: the floating-point geometry, colour science
  and light transport, random sampling, file and window I/O, and the command
  line. It builds on the library's arrays, images, tiles and tables.
