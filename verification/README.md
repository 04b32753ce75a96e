# malx

A small 3-D sculpting viewer: it loads Wavefront OBJ and glTF models, shows
them with an orbit camera and an HDR pipeline, and draws a brush cursor on the
model.

The decisions of the viewer are a library verified with Verus; the GPU work,
the window and the real-number math are ordinary Rust around it.

## Layout

- `src/` — the verified library (`malx`):
  - `text` — white space, words, decimal integers, ASCII case.
  - `error` — `LoadError`, shared by the loaders.
  - `loader` — which loader a file extension selects.
  - `obj` — the OBJ line grammar, faces and fan triangulation, objects and
    groups, and the merging of identical face corners into shared vertices.
  - `gltf` — reading index data from binary buffers, and choosing the
    triangle primitives.
  - `geometry` — index lists of the UV sphere and the brush rings and disks,
    and the vertex buffer layouts.
  - `controls` — what each key, button, wheel and cursor event does.
  - `frame` — surface size and format, swapchain status, and the passes of a
    frame.
- `app/` — the viewer: window and event loop, wgpu pipelines and shaders,
  camera and brush math, and reading model files.
- `tests/` — tests of the library.

Each public function of `src/` states its result in its `ensures`; the
properties that span functions are public proof functions named `lemma_*`.
