//! Verified core of the capture-and-test server: the wire formats, the capture
//! state machines, the test planning and the result reporting.

pub mod bytes;
pub mod error;
pub mod libc_wrappers;
pub mod log;
pub mod modmap;
pub mod ordering;
pub mod phase;
pub mod results;
pub mod shmem_capture;
pub mod sizetype_handlers;
pub mod stages;
pub mod text;
