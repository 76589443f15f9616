# engine_core

The verified core of a voxel game engine, written in Verus.

`src/` holds the logic, each function with a contract that Verus proves:

- `texture`, `volumetric`, `viewport`: texture descriptors, the textures and
  compute dispatches of volumetric rendering, and framebuffer layouts.
- `bytes`, `packing`, `packer`, `loader`, `layout`: the packed resource
  formats (with their round trips), the packer's log and naming, the loader's
  paths and cache, and the check of resource layouts.
- `convert`: the conversions before packing: images made 32 bit RGBA (with
  the `image` crate) and the structure of mdl3d model text.
- `chunk`, `lifecycle`, `table`, `counting`, `memory`, `settings`, `terrain`:
  terrain chunks and their states, the table of chunks and octree nodes that
  every operation keeps consistent, the memory split of the meshes and the
  sizes of the terrain, and the terrain settings.
- `maps`: the `ahash` maps of the terrain and the mesher, with what each
  holds named for the contracts.
- `squares`, `cubes`: marching squares skirts and marching cubes topology,
  with vertex merging.
- `systems`: systems of the entity component system and their entities.
- `storage`: the handle counts of a storage, which keep an element while a
  handle to it lives and remove it at the end of the frame once none does.

`app/` is ordinary Rust around the core: file and process I/O of the packer
and loader, the floats of mdl3d models and of chunk priorities, and error
types with `thiserror` derives. `tests/` runs the core on concrete values.
