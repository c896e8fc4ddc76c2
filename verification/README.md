# shape_nesting

Places polygons into a strip of fixed width, always at the lowest (then
leftmost) corner of the outline built so far.

- `src/` is the verified library. `shape` holds the polygons, `corner` the
  chain of outline corners and the ways it is relinked, `order` the scans
  that pick the next corner and the order in which shapes are tried, and
  `crossing` the inside/outside decision of the ray-casting test. Values
  that are floating-point in the program reach the library either as the
  coordinate type parameter (carried, never computed on) or as integer
  order keys.
- `app/` is the program: the `f32` geometry (bounding boxes, segment and
  point tests, the gap rectangle) and the placement loop that drives the
  library.
- `tests/` exercises the library on concrete values.
