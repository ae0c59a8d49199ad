//! Host side of a portable WebGPU linear solver.
//!
//! Matrix and Krylov vectors stay on the device during a solve; only scalar reductions and the
//! compact solver state cross to the host. This library decides what the device is to do and
//! records it as plain values; whoever holds the device carries the commands out, in the order in
//! which they were recorded, and hands back what was read. Numbers are held as the bit patterns of
//! IEEE doubles (`u64`) and singles (`u32`).
pub mod bytes;
pub mod command;
pub mod convergence;
pub mod device;
pub mod error;
pub mod hazard;
pub mod operator;
pub mod portable;
pub mod preconditioner;
pub mod rounding;
pub mod runtime;
pub mod shader;
pub mod solver;
pub mod sums;
pub mod text;
pub mod vector;

pub use operator::WgpuCsrOp;
pub use preconditioner::WgpuPreconditioner;
pub use runtime::WgpuRuntime;
pub use solver::WgpuKspContext;
pub use vector::WgpuVector;
