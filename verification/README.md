# kryst_wgpu

The host side of a portable WebGPU solver for sparse linear systems: resident BiCGSTAB with no
preconditioner, right Jacobi scaling or a preconditioner that the caller brings.

`src/` is the verified library. It validates what goes to the device, decides what the device is
to do, records that as plain values, and turns what the device reports into a report or an error.
Floating-point numbers appear in it as bit patterns; `src/rounding.rs` and `src/portable.rs` say
what rounding to single and double precision means and compute it.

- `command.rs`, `hazard.rs`: recorded device work, and which of it a device accepts
- `shader.rs`: the text of the shaders
- `device.rs`: what the kernels compute and what a device does with recorded work, over numbers of
  any kind
- `sums.rs`: what a reduction sums up in exact arithmetic
- `runtime.rs`, `vector.rs`, `operator.rs`, `preconditioner.rs`: what stays on the device
- `solver.rs`: the context and its preparation
- `solver/encode.rs`: the device work of an iteration
- `solver/session.rs`: a solve, step by step
- `solver/laws.rs`: what the commands of a solve have in common: that a device accepts them, what
  they write, what is read back
- `solver/meaning.rs`: what those commands make of the buffers of a solve
- `solver/exact.rs`: an iteration and the residual of a solve in exact arithmetic
- `solver/rename.rs`, `solver/repeat.rs`: what a solve does not depend on: the names of its buffers
  and what they held before

`tests/` runs the library against a device that works on the host. `app/` holds the real device:
it carries recorded commands out, waits for what is read back and judges convergence in floating
point.
