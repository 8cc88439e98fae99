# reco

The decisions of a two-camera sports recorder, written in Verus: executable Rust
whose behaviour is stated in contracts and proved.

- `src/` is the library. Every function in it is verified, but for two that hand a call
  on to another crate.
  - `binary/`: single- and double-precision arithmetic on bits, proved to round
    correctly.
  - `crop`, `tiling`, `remapping`, `letterbox`, `fitting`: image regions, and how they
    lie in a model's input.
  - `recovery`, `search`, `search_run`, `search_laws`, `inference`, `gpu_buffers`,
    `ort_gpu`: the detector on frames in device memory, and its search for a lost
    ball.
  - `roi`, `recovery_filter`, `validated`: which ball candidates are trusted.
  - `ball_recovery`, `replay`, `recovery_engine`, `session`: the reasoner that is
    asked as a last resort.
  - `autocam`, `stride`, `stride_laws`, `labels`: setting up automatic camera control.
  - `vulkan`, `interop`, `image_import`: memory that CUDA and Vulkan share.
  - `decode`: what a decode thread does next.
  - `cylindrical`, `panorama`: what the cylindrical renderer hands to its shader, and
    that its two mappings undo each other.
- `app/` runs the hardware: sessions, threads, graphics memory, JSON.
- `tests/` runs the library, and holds its arithmetic against the machine's.

Work on a device is done outside, step by step: the library says what is to be done
next, and is told what came of it. Plain functions that the library does not hold
(powers, tangents, the hypotenuse, whether a point lies in a polygon, whether a path
leads anywhere) are handed in. Nothing is assumed of either in the functions that use
them: a contract says what holds for every answer. The laws that need more of such a
function say so.

What the proofs rest on besides: the standard library's comparison of texts without
regard to case (`text`), the row alignment that wgpu sets (`vulkan`), and the bytes
that bytemuck sees words as (`cylindrical`).
