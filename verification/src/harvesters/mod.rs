//! The harvesters: what is made of the readings of each device, which of it passes, and what is
//! reported of it.

pub mod gpu;
pub mod machines;
pub mod paths;
pub mod payload;
pub mod reports;
pub mod screen;

pub use gpu::{detect_gpu_cuda, detect_gpu_opencl, enumerate_opencl_devices, is_available};
