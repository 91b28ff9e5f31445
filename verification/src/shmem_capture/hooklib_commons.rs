//! What the server and the hook library agree on. Both sides are built with the same values.

use vstd::prelude::*;

verus! {

/// name of the shared memory that the parameters are published in
pub const META_MEM_NAME: &'static str = "/llcap-meta-mem\0";

/// name of the shared memory that holds the size of the parameters
pub const META_MEM_SIZE_NAME: &'static str = "/llcap-meta-mem-size\0";

/// name of the semaphore that says that parameters are ready
pub const META_SEM_DATA: &'static str = "/llcap-meta-sem-data\0";

/// name of the semaphore that says that parameters were read
pub const META_SEM_ACK: &'static str = "/llcap-meta-sem-ack\0";

/// path of the socket that tests connect to
pub const TEST_SERVER_SOCKET_NAME: &'static str = "/tmp/llcap-test-server\0";

/// tag of a test client's message: a test starts
pub const TAG_START: u16 = 1;

/// tag of a test client's message: a packet is requested
pub const TAG_PKT: u16 = 2;

/// tag of a test client's message: a test has ended
pub const TAG_TEST_END: u16 = 3;

/// tag of a test client's message: the test session has ended
pub const TAG_TEST_FINISH: u16 = 4;

/// tag of a status: the test timed out
pub const TAG_TIMEOUT: u16 = 10;

/// tag of a status: the test exited
pub const TAG_EXIT: u16 = 11;

/// tag of a status: the test was ended by a signal
pub const TAG_SGNL: u16 = 12;

/// tag of a status: the test passed
pub const TAG_PASS: u16 = 13;

/// tag of a status: the tested function threw an exception
pub const TAG_EXC: u16 = 14;

/// tag of a status: the test coordinator failed
pub const TAG_FATAL: u16 = 15;

/// size of a message of a test client: 2 bytes of tag, 8 bytes of packet index, 8
/// bytes of thread and 6 bytes of status
pub const CLI_MSG_SIZE: u32 = 24;

/// tracing of calls
pub const MODE_CALL_TRACING: u32 = 0;

/// capturing of arguments
pub const MODE_ARG_CAPTURE: u32 = 1;

/// testing
pub const MODE_TESTING: u32 = 2;

/// testing with support for threads
pub const MODE_MT_TESTING: u32 = 3;

/// running up to a checkpoint and making it
pub const MODE_CHECKPOINT_TESTING_DO_CHECKPOINT: u32 = 4;

/// running from a checkpoint
pub const MODE_CHECKPOINT_TESTING_NOCHECKPOINT: u32 = 5;

/// room for the path to the checkpoints, with its terminating zero
pub const CRIU_CHECKPOINT_DIR_PATH_MAXLEN_WZERO: u32 = 512;

/// The parameters that are published to the hook library.
pub struct ShmMeta {
    pub buff_count: u32,
    pub buff_len: u32,
    pub total_len: u32,
    pub mode: u32,
    pub target_fnid: u32,
    pub target_modid: u32,
    pub forked: u32,
    pub test_count: u32,
    pub target_call_number: u32,
    pub test_timeout_seconds: u16,
    pub thread_count: u32,
    pub target_thread_lid: u32,
    pub checkpoint_dump_dir: [i8; 512],
    pub checkpoint_id: u64,
    pub shell_job: u8,
}

/// How many logical buffers there are and how long each is.
#[derive(Debug, Clone, Copy, PartialEq, Eq, Structural)]
pub struct InfraParams {
    pub buff_count: u32,
    pub buff_len: u32,
}

} // verus!
