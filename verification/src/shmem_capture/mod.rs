//! Capturing through shared memory: the buffers, their order and the parameters that
//! the instrumented application is told.

pub mod arg_capture;
pub mod arg_stream;
pub mod buffers;
pub mod capture_loop;
pub mod hooklib_commons;
pub mod infra;
pub mod metadata;
pub mod resources;
