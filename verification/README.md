# voxer

A voxel viewer whose core logic is verified with Verus.

`src/` is the verified library:

- `vox/text.rs`: reading the integers that `.vox` scene attributes hold as text.
- `vox/matrix.rs`: 4x4 integer matrices, exact products with overflow detection,
  and grid transforms (signed axis permutations plus a translation).
- `vox/scene.rs`: the `.vox` scene graph, its `_t`/`_r` attributes, and the walk
  that places every model in the world.
- `vox/model.rs`: the voxel grid built from the placed models.
- `vox/file.rs`: the bytes of a `.vox` file, parsed by `dot_vox` behind one
  trusted wrapper (with three small trusted helpers that convert its result
  field for field), and the grid built from them.
- `vox/palette.rs`: the 256 slots of the world's palette and the material look
  of each.
- `input.rs`: the keyboard and the cursor-capture state machine for window events.
- `harness.rs`: the start-up sequence (created, initialising, ready).
- `timing.rs`: the slots of GPU timestamp queries within a frame.
- `pool.rs`: a last-in, first-out pool of reusable values.
- `render.rs`: surface and compute-dispatch sizes.
- `config.rs`: start-up settings.

`app/` is the program around it: the window and event loop (winit), the GPU
(wgpu), the GUI (egui), reading a file's bytes from disk, and the floating-point
parts: camera math (nalgebra) and the palette's colours and optics.

`tests/` runs the library on concrete inputs.
