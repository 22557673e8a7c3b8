# osmviz

A 3D viewer of OpenStreetMap data on terrain, drawn with vulkano.

- `src/` is the verified library: tile indices and world positions, the
  clipmap of terrain tiles around the viewer, the LRU tile cache, the terrain
  update protocol and frame layout, the decoding of vector tiles and the tag
  and color logic of their buildings and trees,
  the corner order of patch, wall and roof meshes, and the camera's key state.
- `app/` is the program around it: windowing, Vulkan setup and rendering,
  downloading tiles, and the floating-point geometry of buildings and the camera.
- `tests/` exercises the library.

An update of the terrain goes `begin_update` (rebuild the clipmap, list the
tiles that are not cached), `insert_tile` for each downloaded tile, `assemble`
(lay out the frame), and `finish_update` once the frame is on the GPU.
