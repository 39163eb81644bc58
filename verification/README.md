# rasterizer

A small software renderer that draws a rotating mesh into a window.

`src/` is the verified library (Verus):

- `rasterizer` — the colour buffer: creation, clearing, pixel addressing and
  writes, and the pixels of a filled screen-space triangle with their edge
  weights, in row-major order.
- `triangle` — edge functions and the geometry behind triangle filling:
  the weights sum to twice the area, every filled pixel lies in the bounding
  box, the fill ignores winding, and corners are filled.
- `clip` — the plan for clipping a triangle against the near plane.
- `obj` — the Wavefront OBJ reader (vertex and face lines, quads, 1-based
  indices), specified over the text's characters.
- `mesh` — the mesh type and the unit cube's corners and triangles.

`app/` is the program around it: the window (minifb), file reading, and all
floating-point work (vectors, rotations, projection, depth buffer, clipping
interpolation, the ray tracer).
