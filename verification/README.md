# navmesh

Navigation meshes over triangulated maps, verified with Verus.

- `src/` is the verified library. Points hold the bits of their
  coordinates and compare them as doubles do, so everything that only
  compares points lives here: edges (`edge`, `shape_math`), triangles and
  their adjacency graphs (`nav_mesh`, `triangle_stuff`), shortest routes
  through a mesh (`NavMesh::path`, which runs `pathfinding`'s A* search),
  and the splitting of the `.fnav` map text format (`fnav`).
- `app/` is the program around it: reading map files, the floating-point
  geometry (triangulation with `delaunator`, centers, distances,
  orientations, segment intersections with `geo`) and the `macroquad`
  window.
- `tests/` runs the library on concrete meshes, maps and lines.
