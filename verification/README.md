# smithay

Building blocks of a Wayland compositor, written in Verus: every function of the library carries
a contract, and Verus proves that it keeps it.

- `src/wayland` — blockers and transactions of surface commits, barriers across surfaces, and the
  color management protocol.
- `src/backend/drm` — color pipelines of planes: how they are read, and how a color transform is
  programmed into them.
- `src/backend/renderer` — a Vulkan renderer: formats, imports, uploads, copies, blits and frames
  as commands, the bookkeeping of submissions and resources, and the choice of devices.
- `tests` — tests of the library.
- `app` — ordinary Rust that performs what the library decides: calls into the kernel, the
  graphics driver and the Wayland clients, and floating point.

Proof functions whose names begin with `law_` state what holds across functions.
