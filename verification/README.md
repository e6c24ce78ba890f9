# nanotracer

The core of a Gaussian-splat path tracer, trainer and viewer, written in Verus.

`src/` is the verified library. It holds scenes and their flattening into device
buffers, the splat store and its PLY format, prefix scan, radix sort and tile
binning, the bookkeeping of the Adam optimiser, pruning and densifying, the
frame plan of the path tracer, and the viewer's input and snapshot handling.
The library moves and compares floats but never computes with them: a `u32`
bit pattern stands for each single-precision value (`src/float_bits.rs`).

Public proof functions named `law_*` state what holds of the library as a whole,
such as that a written PLY file reads back, that the radix sort is the stable
sort, or that pruning keeps every other splat with its moments.

Verus takes on trust five calls out of the library: `String::from_utf8`
(`src/text.rs`), two casts of `bytemuck` (`src/staging.rs`) and two flag tests
of `ash` (`src/vk_runtime.rs`). Each stands in a function of its own whose
contract says what is claimed of it.

`tests/` runs the library on concrete values.

`app/` is ordinary Rust around it: files, floating-point arithmetic, the Vulkan
and wgpu devices, the training loop and the window. Its WGSL kernels are read
from a directory at run time, and the path tracer's GLSL is compiled with
`shaderc`, which needs its native library.
