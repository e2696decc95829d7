# chora

A small renderer on `wgpu` whose decisions are verified with Verus.

`src/` is the verified library:

- `linked_list`, `list_order`: an arena-backed doubly linked list with stable
  node handles, and its element-wise copy, equality and lexicographic order.
- `text`, `str_map`, `pattern`: character-level text operations, an
  insertion-ordered map from names, and the regular-expression calls.
- `shader_parser`, `shader_rewriter`, `shader_merger`: WGSL parsing into
  declarations, the rewrite of a shader for a pipeline's flags and atlases,
  and the merge of shader variants into one dispatching shader.
- `render_pipeline`: pipeline flags, bind group layout, vertex attributes and
  the shader code of a pipeline.
- `render_queue`: how meshes are grouped into independent and instanced
  draws, the draw plan of a frame and the frame slots.
- `instancing`: shader variant ids, when an instanced render rebuilds its
  pipeline, instance buffer growth, atlas and texture numbering, and the
  merged shader of a set of variants.
- `texture`, `camera`, `coordination`, `model`: texel formats, pixel
  conversion, atlas packing and sprite placement, camera formats, rectangles,
  and when a model's matrix is uploaded.

`app/` holds the GPU side: devices, surfaces, buffers, textures and the frame
loop, which carry out what the library decides. `tests/` exercises the
library.
