//! The parameters that are published to the hook library, and the channel for them.

use crate::error::Error;
use crate::shmem_capture::hooklib_commons::InfraParams;
use crate::shmem_capture::hooklib_commons::ShmMeta;
use crate::shmem_capture::hooklib_commons::CRIU_CHECKPOINT_DIR_PATH_MAXLEN_WZERO;
use crate::shmem_capture::hooklib_commons::MODE_ARG_CAPTURE;
use crate::shmem_capture::hooklib_commons::MODE_CALL_TRACING;
use crate::shmem_capture::hooklib_commons::MODE_CHECKPOINT_TESTING_DO_CHECKPOINT;
use crate::shmem_capture::hooklib_commons::MODE_CHECKPOINT_TESTING_NOCHECKPOINT;
use crate::shmem_capture::hooklib_commons::MODE_MT_TESTING;
use crate::shmem_capture::hooklib_commons::MODE_TESTING;
use crate::modmap::IntegralFnId;
use crate::modmap::IntegralModId;
use crate::modmap::NumFunUid;
use crate::stages::test_coordinator::session;
use crate::stages::test_jobs::result_of;
use crate::stages::test_protocol::CallIndexT;
use crate::stages::test_protocol::ClientState;
use crate::stages::test_protocol::MessageModel;
use crate::stages::test_protocol::ResultModel;
use crate::stages::test_protocol::StatusModel;
use crate::stages::test_registry::TestRegisryItem;
use crate::stages::test_registry::TestingMode;
use vstd::prelude::*;
use vstd::utf8::encode_utf8;

verus! {

/// Parameters for a stage without tests.
pub open spec fn stage_meta(meta: ShmMeta, infra: InfraParams, mode: u32) -> bool {
    &&& meta.buff_count == infra.buff_count
    &&& meta.buff_len == infra.buff_len
    &&& meta.total_len == infra.buff_count * infra.buff_len
    &&& meta.mode == mode
    &&& meta.target_fnid == 0
    &&& meta.target_modid == 0
    &&& meta.forked == 0
    &&& meta.test_count == 0
    &&& meta.target_call_number == 0
    &&& meta.test_timeout_seconds == 0
    &&& meta.thread_count == 0
    &&& meta.target_thread_lid == 0
    &&& forall|i: int| 0 <= i < 512 ==> #[trigger] meta.checkpoint_dump_dir@[i] == 0
    &&& meta.checkpoint_id == 0
    &&& meta.shell_job == 0
}

fn plain_metadata(infra: InfraParams, mode: u32) -> (meta: ShmMeta)
    requires
        infra.buff_count * infra.buff_len <= u32::MAX,
    ensures
        stage_meta(meta, infra, mode),
{
    ShmMeta {
        buff_count: infra.buff_count,
        buff_len: infra.buff_len,
        total_len: infra.buff_count * infra.buff_len,
        mode,
        target_fnid: 0,
        target_modid: 0,
        forked: 0,
        test_count: 0,
        target_call_number: 0,
        test_timeout_seconds: 0,
        thread_count: 0,
        target_thread_lid: 0,
        checkpoint_dump_dir: [0i8; 512],
        checkpoint_id: 0,
        shell_job: 0,
    }
}

/// What is published for the tracing of calls.
pub fn send_call_tracing_metadata(infra: InfraParams) -> (meta: ShmMeta)
    requires
        infra.buff_count * infra.buff_len <= u32::MAX,
    ensures
        stage_meta(meta, infra, MODE_CALL_TRACING),
{
    plain_metadata(infra, MODE_CALL_TRACING)
}

/// What is published for the capturing of arguments.
pub fn send_arg_capture_metadata(infra: InfraParams) -> (meta: ShmMeta)
    requires
        infra.buff_count * infra.buff_len <= u32::MAX,
    ensures
        stage_meta(meta, infra, MODE_ARG_CAPTURE),
{
    plain_metadata(infra, MODE_ARG_CAPTURE)
}

/// A value that the hook library knows by a number.
pub trait ToLlcapRaw {
    /// The number.
    spec fn raw(&self) -> u32;

    /// The number.
    fn to_raw(&self) -> (n: u32)
        ensures
            n == self.raw(),
    ;
}

impl ToLlcapRaw for TestingMode {
    open spec fn raw(&self) -> u32 {
        match *self {
            TestingMode::Testing => MODE_TESTING,
            TestingMode::MTCompatTesting => MODE_MT_TESTING,
            TestingMode::CheckpointedTesting(on) => if on {
                MODE_CHECKPOINT_TESTING_DO_CHECKPOINT
            } else {
                MODE_CHECKPOINT_TESTING_NOCHECKPOINT
            },
        }
    }

    fn to_raw(&self) -> (n: u32) {
        match self {
            TestingMode::Testing => MODE_TESTING,
            TestingMode::MTCompatTesting => MODE_MT_TESTING,
            TestingMode::CheckpointedTesting(on) => {
                if *on {
                    MODE_CHECKPOINT_TESTING_DO_CHECKPOINT
                } else {
                    MODE_CHECKPOINT_TESTING_NOCHECKPOINT
                }
            },
        }
    }
}

/// The number of a test's checkpoint: call, packet and call number in different decimal
/// places.
pub open spec fn checkpoint_number(test: TestRegisryItem) -> int {
    test.call_index.0 * 1_000_000_000 + test.packet_index.0 * 1_000_000 + (test.call_index.0 + 1)
}

/// Whether the call of a test and its checkpoint have numbers.
pub fn has_numbers(test: &TestRegisryItem) -> (b: bool)
    ensures
        b == (test.call_index.0 < u32::MAX && checkpoint_number(*test) <= u64::MAX),
{
    let call = test.call_index.0 as u128;
    let packet = test.packet_index.0 as u128;
    call < u32::MAX as u128 && call * 1_000_000_000 + packet * 1_000_000 + (call + 1)
        <= u64::MAX as u128
}

/// The signed number with the bit pattern of the byte.
pub open spec fn as_signed_8(byte: u8) -> int {
    if byte < 128 {
        byte as int
    } else {
        byte - 256
    }
}

/// The room for a path, with the bytes of the path in front and zeros behind.
pub open spec fn dump_dir_of(dir: Seq<i8>, path: Seq<u8>) -> bool {
    &&& dir.len() == 512
    &&& forall|i: int|
        0 <= i < 512 ==> #[trigger] dir[i] == if i < path.len() {
            as_signed_8(path[i])
        } else {
            0
        }
}

/// The path's bytes, or none if there is no path.
pub open spec fn path_bytes(path: Option<&str>) -> Seq<u8> {
    match path {
        Some(p) => encode_utf8(p@),
        None => Seq::empty(),
    }
}

/// Parameters for a test.
pub open spec fn test_meta(
    meta: ShmMeta,
    infra: InfraParams,
    test: TestRegisryItem,
    path: Seq<u8>,
) -> bool {
    &&& meta.buff_count == infra.buff_count
    &&& meta.buff_len == infra.buff_len
    &&& meta.total_len == infra.buff_count * infra.buff_len
    &&& meta.mode == test.mode.raw()
    &&& meta.target_fnid == test.uid.function_id.0
    &&& meta.target_modid == test.uid.module_id.0
    &&& meta.forked == 0
    &&& meta.test_count == match test.mode {
        TestingMode::Testing => test.test_count as nat,
        // in compat testing, testcount is always 1 and is re-used
        // for the packet index
        _ => test.packet_index.0 as nat % 0x1_0000_0000,
    }
    &&& meta.target_call_number == test.call_index.0 + 1
    &&& meta.test_timeout_seconds == test.timeout_test.secs % 65536
    &&& meta.thread_count == test.thread_count
    &&& meta.target_thread_lid == test.thread_lid.0 % 0x1_0000_0000
    &&& dump_dir_of(meta.checkpoint_dump_dir@, path)
    &&& meta.checkpoint_id == checkpoint_number(test)
    &&& meta.shell_job == 1
}

fn signed_byte(byte: u8) -> (r: i8)
    ensures
        r == as_signed_8(byte),
{
    if byte < 128 {
        byte as i8
    } else {
        (byte as i16 - 256) as i8
    }
}

/// What is published for a test. The path to the checkpoints has to leave room for its
/// terminating zero.
pub fn send_test_metadata(
    infra: InfraParams,
    test: &TestRegisryItem,
    checkpoint_path: Option<&str>,
) -> (r: Result<ShmMeta, Error>)
    requires
        infra.buff_count * infra.buff_len <= u32::MAX,
        test.call_index.0 < u32::MAX,
        checkpoint_number(*test) <= u64::MAX,
    ensures
        r is Ok <==> path_bytes(checkpoint_path).len() <= 511,
        r matches Ok(meta) ==> test_meta(meta, infra, *test, path_bytes(checkpoint_path)),
        r matches Err(e) ==> e == Error::CheckpointPathTooLong,
{
    let checkpoint_id = test.call_index.0 as u64 * 1_000_000_000 + test.packet_index.0 * 1_000_000
        + test.target_call_number() as u64;
    let mut dump_dir = [0i8; 512];
    if let Some(path) = checkpoint_path {
        let max_chars = (CRIU_CHECKPOINT_DIR_PATH_MAXLEN_WZERO - 1) as usize;
        let bytes = path.as_bytes();
        if bytes.len() > max_chars {
            return Err(Error::CheckpointPathTooLong);
        }
        let mut i: usize = 0;
        while i < bytes.len()
            invariant
                i <= bytes@.len() <= 511,
                forall|j: int|
                    0 <= j < 512 ==> #[trigger] dump_dir@[j] == if j < i {
                        as_signed_8(bytes@[j])
                    } else {
                        0
                    },
            decreases bytes@.len() - i,
        {
            dump_dir[i] = signed_byte(bytes[i]);
            i += 1;
        }
    }
    Ok(
        ShmMeta {
            buff_count: infra.buff_count,
            buff_len: infra.buff_len,
            total_len: infra.buff_count * infra.buff_len,
            mode: test.mode.to_raw(),
            target_fnid: test.uid.function_id.0,
            target_modid: test.uid.module_id.0,
            forked: 0,
            test_count: match test.mode {
                TestingMode::Testing => test.test_count,
                // in compat testing, testcount is always 1 and is re-used
                // for the packet index
                _ => (test.packet_index.0 % 0x1_0000_0000) as u32,
            },
            target_call_number: test.target_call_number(),
            test_timeout_seconds: test.test_timeout_s(),
            thread_count: test.thread_count,
            target_thread_lid: (test.thread_lid.0 % 0x1_0000_0000) as u32,
            checkpoint_dump_dir: dump_dir,
            checkpoint_id,
            shell_job: 1,
        },
    )
}

/// What is published for a test names the test: a client that takes module, function and call from
/// there for its first message reports results of the same module, function and call as those that
/// are made for the test without it.
pub proof fn law_client_reports_on_the_published_test(
    meta: ShmMeta,
    infra: InfraParams,
    test: TestRegisryItem,
    path: Seq<u8>,
    reported: MessageModel,
    status: StatusModel,
)
    requires
        test_meta(meta, infra, test, path),
        test.call_index.0 < u32::MAX,
        reported is TestEnd,
    ensures
        ({
            let uid = NumFunUid {
                module_id: IntegralModId(meta.target_modid),
                function_id: IntegralFnId(meta.target_fnid),
            };
            let start = MessageModel::Start(uid, CallIndexT(meta.target_call_number));
            let results = session(ClientState::Init, seq![start, reported])->Some_0.1;
            &&& session(ClientState::Init, seq![start, reported]) is Some
            &&& results.len() == 1
            &&& results[0].uid == test.uid
            &&& results[0].uid == result_of(test, status).uid
            &&& results[0].call == result_of(test, status).call
        }),
{
    let uid = NumFunUid {
        module_id: IntegralModId(meta.target_modid),
        function_id: IntegralFnId(meta.target_fnid),
    };
    let start = MessageModel::Start(uid, CallIndexT(meta.target_call_number));
    let msgs = seq![start, reported];
    let none = Seq::<MessageModel>::empty();
    assert(msgs.drop_last() =~= seq![start]);
    assert(seq![start].drop_last() =~= none);
    assert(session(ClientState::Init, none) == Some(
        (ClientState::Init, Seq::<ResultModel>::empty()),
    ));
    assert(session(ClientState::Init, seq![start]) == Some(
        (
            ClientState::Started(uid, CallIndexT(meta.target_call_number)),
            Seq::<ResultModel>::empty(),
        ),
    ));
}

/// What is published for a test says which function is tested, at which call of which thread, with
/// which packet or with how many, and for how long, as far as the numbers fit. Where a test goes
/// through all packets itself it is told how many there are, else the one to take.
pub proof fn law_published_parameters_are_those_of_the_test(
    meta: ShmMeta,
    infra: InfraParams,
    test: TestRegisryItem,
    path: Seq<u8>,
)
    requires
        test_meta(meta, infra, test, path),
    ensures
        meta.target_modid == test.uid.module_id.0,
        meta.target_fnid == test.uid.function_id.0,
        meta.target_call_number - 1 == test.call_index.0,
        test.thread_lid.0 <= u32::MAX ==> meta.target_thread_lid == test.thread_lid.0,
        meta.thread_count == test.thread_count,
        test.mode is Testing ==> meta.test_count == test.test_count,
        !(test.mode is Testing) && test.packet_index.0 <= u32::MAX ==> meta.test_count
            == test.packet_index.0,
        test.timeout_test.secs <= u16::MAX ==> meta.test_timeout_seconds == test.timeout_test.secs,
        meta.buff_count == infra.buff_count && meta.buff_len == infra.buff_len,
        meta.buff_count * meta.buff_len == meta.total_len,
{
}

/// The ways of running are told apart by their numbers: those of testing from each other, and all
/// of them from the tracing of calls and the capturing of arguments.
pub proof fn law_modes_have_their_own_numbers(a: TestingMode, b: TestingMode)
    ensures
        a.raw() == b.raw() ==> a == b,
        a.raw() != MODE_CALL_TRACING,
        a.raw() != MODE_ARG_CAPTURE,
        MODE_CALL_TRACING != MODE_ARG_CAPTURE,
{
}

/// Without a test, nothing is said of one, and the buffers are described as they are.
pub proof fn law_stages_without_tests_name_none(meta: ShmMeta, infra: InfraParams, mode: u32)
    requires
        stage_meta(meta, infra, mode),
    ensures
        meta.mode == mode,
        meta.buff_count == infra.buff_count && meta.buff_len == infra.buff_len,
        meta.buff_count * meta.buff_len == meta.total_len,
        meta.target_modid == 0 && meta.target_fnid == 0 && meta.target_call_number == 0,
        meta.test_count == 0 && meta.thread_count == 0,
{
}

/// A path that is published can be read back: its bytes stand in front, as numbers with a sign, and
/// the first zero stands behind them.
pub proof fn law_published_path_is_read_back(dir: Seq<i8>, path: Seq<u8>)
    requires
        dump_dir_of(dir, path),
        path.len() <= 511,
        forall|i: int| 0 <= i < path.len() ==> #[trigger] path[i] != 0,
    ensures
        dir[path.len() as int] == 0,
        forall|i: int|
            0 <= i < path.len() ==> dir[i] != 0 && #[trigger] path[i] == if dir[i] < 0 {
                dir[i] + 256
            } else {
                dir[i] as int
            },
{
    assert(dir[path.len() as int] == 0);
    assert forall|i: int| 0 <= i < path.len() implies dir[i] != 0 && #[trigger] path[i] == if dir[i]
        < 0 {
        dir[i] + 256
    } else {
        dir[i] as int
    } by {
        assert(dir[i] == as_signed_8(path[i]));
    }
}

/// Checkpoints of different calls, or for different packets, have different numbers, as long as
/// there are fewer than a thousand packets and a million calls.
pub proof fn law_checkpoints_have_their_own_numbers(a: TestRegisryItem, b: TestRegisryItem)
    requires
        a.packet_index.0 < 1_000 && b.packet_index.0 < 1_000,
        a.call_index.0 < 999_999 && b.call_index.0 < 999_999,
        checkpoint_number(a) == checkpoint_number(b),
    ensures
        a.call_index.0 == b.call_index.0,
        a.packet_index.0 == b.packet_index.0,
{
}

/// The number of a checkpoint grows by a million with each packet and by a milliard and one with
/// each call, whatever the test.
pub proof fn law_checkpoint_numbers_grow_with_calls_and_packets(
    a: TestRegisryItem,
    b: TestRegisryItem,
)
    ensures
        a.call_index.0 == 0 && a.packet_index.0 == 0 ==> checkpoint_number(a) == 1,
        a.call_index.0 == b.call_index.0 && a.packet_index.0 + 1 == b.packet_index.0
            ==> checkpoint_number(b) == checkpoint_number(a) + 1_000_000,
        a.packet_index.0 == b.packet_index.0 && a.call_index.0 + 1 == b.call_index.0
            ==> checkpoint_number(b) == checkpoint_number(a) + 1_000_000_001,
{
}

/// no data is ready
pub const RDY_SEM_INITIAL: u32 = 0;

/// this will be waited on in the first call of publish
pub const ACK_SEM_INITIAL: u32 = 1;

/// how many seconds the acknowledgement of the last parameters is waited for
pub const PUBLISH_TIMEOUT_SECONDS: u32 = 5;

/// Something to be done to the resources of the channel. The first failure ends a list of
/// these.
#[derive(Debug)]
pub enum ChannelStep {
    /// create a semaphore that is not there yet
    OpenSemaphore { name: String, initial: u32 },
    /// get rid of a semaphore
    DestroySemaphore { name: String },
    /// map shared memory
    MapMemory { name: String, size: u32 },
    /// store a number at the start of mapped memory
    StoreNumber { name: String, value: u32 },
    /// unmap shared memory
    UnmapMemory { name: String },
}

/// The contents of a [`ChannelStep`].
#[verifier::ext_equal]
pub enum StepModel {
    OpenSemaphore { name: Seq<char>, initial: u32 },
    DestroySemaphore { name: Seq<char> },
    MapMemory { name: Seq<char>, size: u32 },
    StoreNumber { name: Seq<char>, value: u32 },
    UnmapMemory { name: Seq<char> },
}

impl View for ChannelStep {
    type V = StepModel;

    open spec fn view(&self) -> StepModel {
        match *self {
            ChannelStep::OpenSemaphore { name, initial } => StepModel::OpenSemaphore {
                name: name@,
                initial,
            },
            ChannelStep::DestroySemaphore { name } => StepModel::DestroySemaphore { name: name@ },
            ChannelStep::MapMemory { name, size } => StepModel::MapMemory { name: name@, size },
            ChannelStep::StoreNumber { name, value } => StepModel::StoreNumber {
                name: name@,
                value,
            },
            ChannelStep::UnmapMemory { name } => StepModel::UnmapMemory { name: name@ },
        }
    }
}

/// The contents of some steps.
pub open spec fn steps_model(steps: Seq<ChannelStep>) -> Seq<StepModel> {
    steps.map_values(|s: ChannelStep| s@)
}

/// The contents of steps are those of each of them, in order, and leave nothing out.
pub proof fn law_contents_of_steps_are_complete(steps: Seq<ChannelStep>)
    ensures
        steps_model(steps).len() == steps.len(),
        forall|i: int|
            0 <= i < steps.len() ==> match (#[trigger] steps[i]) {
                ChannelStep::OpenSemaphore { name, initial } => steps_model(steps)[i]
                    == (StepModel::OpenSemaphore { name: name@, initial }),
                ChannelStep::DestroySemaphore { name } => steps_model(steps)[i]
                    == (StepModel::DestroySemaphore { name: name@ }),
                ChannelStep::MapMemory { name, size } => steps_model(steps)[i]
                    == (StepModel::MapMemory { name: name@, size }),
                ChannelStep::StoreNumber { name, value } => steps_model(steps)[i]
                    == (StepModel::StoreNumber { name: name@, value }),
                ChannelStep::UnmapMemory { name } => steps_model(steps)[i]
                    == (StepModel::UnmapMemory { name: name@ }),
            },
{
}

/// Creating the two semaphores of the channel.
pub open spec fn semaphore_steps(rdy: Seq<char>, ack: Seq<char>) -> Seq<StepModel> {
    seq![
        StepModel::OpenSemaphore { name: rdy, initial: RDY_SEM_INITIAL },
        StepModel::OpenSemaphore { name: ack, initial: ACK_SEM_INITIAL },
    ]
}

/// The names of the resources of a channel.
#[verifier::ext_equal]
pub struct ChannelNames {
    pub mem: Seq<char>,
    pub size_mem: Seq<char>,
    pub rdy: Seq<char>,
    pub ack: Seq<char>,
}

/// What is done before a channel can be used.
pub open spec fn opening(names: ChannelNames, to_alloc: u32) -> Seq<StepModel> {
    semaphore_steps(names.rdy, names.ack) + seq![
        StepModel::MapMemory { name: names.size_mem, size: 4 },
        StepModel::StoreNumber { name: names.size_mem, value: to_alloc },
        StepModel::MapMemory { name: names.mem, size: to_alloc },
    ]
}

/// What makes the semaphores of a channel anew.
pub open spec fn renewing(names: ChannelNames) -> Seq<StepModel> {
    seq![
        StepModel::DestroySemaphore { name: names.rdy },
        StepModel::DestroySemaphore { name: names.ack },
    ] + semaphore_steps(names.rdy, names.ack)
}

/// What is done when a channel is no longer used.
pub open spec fn closing(names: ChannelNames) -> Seq<StepModel> {
    seq![
        StepModel::UnmapMemory { name: names.size_mem },
        StepModel::UnmapMemory { name: names.mem },
        StepModel::DestroySemaphore { name: names.ack },
        StepModel::DestroySemaphore { name: names.rdy },
    ]
}

/// The resources that there are: semaphores with their values, and memories with their sizes and
/// the number at their start, if one was stored.
#[verifier::ext_equal]
pub struct ResourceState {
    pub semaphores: Map<Seq<char>, nat>,
    pub memories: Map<Seq<char>, (nat, Option<nat>)>,
}

/// What a step makes of the resources. None if it fails: what is there is not created again, and
/// only what is there can be used or got rid of.
pub open spec fn step_done(state: ResourceState, step: StepModel) -> Option<ResourceState> {
    match step {
        StepModel::OpenSemaphore { name, initial } => if state.semaphores.contains_key(name) {
            None
        } else {
            Some(
                ResourceState {
                    semaphores: state.semaphores.insert(name, initial as nat),
                    ..state
                },
            )
        },
        StepModel::DestroySemaphore { name } => if state.semaphores.contains_key(name) {
            Some(ResourceState { semaphores: state.semaphores.remove(name), ..state })
        } else {
            None
        },
        StepModel::MapMemory { name, size } => Some(
            ResourceState { memories: state.memories.insert(name, (size as nat, None)), ..state },
        ),
        StepModel::StoreNumber { name, value } => if state.memories.contains_key(name) {
            Some(
                ResourceState {
                    memories: state.memories.insert(
                        name,
                        (state.memories[name].0, Some(value as nat)),
                    ),
                    ..state
                },
            )
        } else {
            None
        },
        StepModel::UnmapMemory { name } => if state.memories.contains_key(name) {
            Some(ResourceState { memories: state.memories.remove(name), ..state })
        } else {
            None
        },
    }
}

/// What steps make of the resources, one after the other.
pub open spec fn steps_done(state: ResourceState, steps: Seq<StepModel>) -> Option<ResourceState>
    decreases steps.len(),
{
    if steps.len() == 0 {
        Some(state)
    } else {
        match steps_done(state, steps.drop_last()) {
            None => None,
            Some(before) => step_done(before, steps.last()),
        }
    }
}

/// The resources of a channel that can be used: the semaphores as the channel starts with them, the
/// memory for the parameters, and the one that holds its size.
pub open spec fn channel_resources(names: ChannelNames, to_alloc: u32) -> ResourceState {
    ResourceState {
        semaphores: map![names.rdy => channel_start().rdy, names.ack => channel_start().ack],
        memories: map![
            names.size_mem => (4nat, Some(to_alloc as nat)),
            names.mem => (to_alloc as nat, None::<nat>),
        ],
    }
}

/// No resources.
pub open spec fn no_resources() -> ResourceState {
    ResourceState { semaphores: Map::empty(), memories: Map::empty() }
}

proof fn lemma_step_done(state: ResourceState, steps: Seq<StepModel>, step: StepModel)
    ensures
        steps_done(state, steps.push(step)) == match steps_done(state, steps) {
            None => None,
            Some(before) => step_done(before, step),
        },
{
    assert(steps.push(step).drop_last() =~= steps);
}

/// A channel is opened into the state in which it starts, is brought back to it from whatever its
/// semaphores have become, and leaves nothing behind when it is closed.
pub proof fn law_channel_resources_come_and_go(
    names: ChannelNames,
    to_alloc: u32,
    rdy: nat,
    ack: nat,
)
    requires
        names.rdy != names.ack,
        names.mem != names.size_mem,
    ensures
        ({
            let open = channel_resources(names, to_alloc);
            let used = ResourceState {
                semaphores: map![names.rdy => rdy, names.ack => ack],
                ..open
            };
            &&& steps_done(no_resources(), opening(names, to_alloc)) == Some(open)
            &&& steps_done(used, renewing(names)) == Some(open)
            &&& steps_done(used, closing(names)) == Some(no_resources())
        }),
{
    let open = channel_resources(names, to_alloc);
    let used = ResourceState { semaphores: map![names.rdy => rdy, names.ack => ack], ..open };
    let none = Seq::<StepModel>::empty();
    let make_rdy = StepModel::OpenSemaphore { name: names.rdy, initial: RDY_SEM_INITIAL };
    let make_ack = StepModel::OpenSemaphore { name: names.ack, initial: ACK_SEM_INITIAL };
    let map_size = StepModel::MapMemory { name: names.size_mem, size: 4 };
    let store = StepModel::StoreNumber { name: names.size_mem, value: to_alloc };
    let map_mem = StepModel::MapMemory { name: names.mem, size: to_alloc };
    let drop_rdy = StepModel::DestroySemaphore { name: names.rdy };
    let drop_ack = StepModel::DestroySemaphore { name: names.ack };
    let unmap_size = StepModel::UnmapMemory { name: names.size_mem };
    let unmap_mem = StepModel::UnmapMemory { name: names.mem };
    assert(steps_done(no_resources(), opening(names, to_alloc)) == Some(open)) by {
        let all = none.push(make_rdy).push(make_ack).push(map_size).push(store).push(map_mem);
        assert(opening(names, to_alloc) =~= all);
        lemma_step_done(no_resources(), none, make_rdy);
        lemma_step_done(no_resources(), none.push(make_rdy), make_ack);
        lemma_step_done(no_resources(), none.push(make_rdy).push(make_ack), map_size);
        lemma_step_done(
            no_resources(),
            none.push(make_rdy).push(make_ack).push(map_size),
            store,
        );
        lemma_step_done(
            no_resources(),
            none.push(make_rdy).push(make_ack).push(map_size).push(store),
            map_mem,
        );
        let last = steps_done(no_resources(), all);
        assert(last is Some);
        assert(last->Some_0.semaphores =~= open.semaphores);
        assert(last->Some_0.memories =~= open.memories);
    }
    assert(steps_done(used, renewing(names)) == Some(open)) by {
        let all = none.push(drop_rdy).push(drop_ack).push(make_rdy).push(make_ack);
        assert(renewing(names) =~= all);
        lemma_step_done(used, none, drop_rdy);
        lemma_step_done(used, none.push(drop_rdy), drop_ack);
        lemma_step_done(used, none.push(drop_rdy).push(drop_ack), make_rdy);
        lemma_step_done(used, none.push(drop_rdy).push(drop_ack).push(make_rdy), make_ack);
        let last = steps_done(used, all);
        assert(last is Some);
        assert(last->Some_0.semaphores =~= open.semaphores);
    }
    assert(steps_done(used, closing(names)) == Some(no_resources())) by {
        let all = none.push(unmap_size).push(unmap_mem).push(drop_ack).push(drop_rdy);
        assert(closing(names) =~= all);
        lemma_step_done(used, none, unmap_size);
        lemma_step_done(used, none.push(unmap_size), unmap_mem);
        lemma_step_done(used, none.push(unmap_size).push(unmap_mem), drop_ack);
        lemma_step_done(used, none.push(unmap_size).push(unmap_mem).push(drop_ack), drop_rdy);
        let last = steps_done(used, all);
        assert(last is Some);
        assert(last->Some_0.semaphores =~= Map::<Seq<char>, nat>::empty());
        assert(last->Some_0.memories =~= Map::<Seq<char>, (nat, Option<nat>)>::empty());
    }
}

/// Publishes parameters.
///
/// metadata is published via shared memory and 2 semaphores:
/// a "data_rdy" semaphore that signals that the metadata is ready to be read
/// a "data_ack" semaphore that indicates that the data has been read and can be rewritten/discarded
pub struct MetadataPublisher {
    mem: String,
    size_mem: String,
    rdy_sem: String,
    ack_sem: String,
}

impl View for MetadataPublisher {
    type V = ChannelNames;

    closed spec fn view(&self) -> ChannelNames {
        ChannelNames {
            mem: self.mem@,
            size_mem: self.size_mem@,
            rdy: self.rdy_sem@,
            ack: self.ack_sem@,
        }
    }
}

impl MetadataPublisher {
    /// Adds the creation of the two semaphores.
    fn mk_sems(steps: &mut Vec<ChannelStep>, rdy_sem_path: &str, ack_sem_path: &str)
        ensures
            steps_model(final(steps)@) == steps_model(old(steps)@) + semaphore_steps(
                rdy_sem_path@,
                ack_sem_path@,
            ),
    {
        steps.push(
            ChannelStep::OpenSemaphore { name: rdy_sem_path.to_owned(), initial: RDY_SEM_INITIAL },
        );
        steps.push(
            ChannelStep::OpenSemaphore { name: ack_sem_path.to_owned(), initial: ACK_SEM_INITIAL },
        );
        proof {
            assert(steps_model(steps@) =~= steps_model(old(steps)@) + semaphore_steps(
                rdy_sem_path@,
                ack_sem_path@,
            ));
        }
    }

    /// A publisher, and what has to be done before it can be used: parameters take `to_alloc`
    /// bytes.
    pub fn new(
        mem_path: &str,
        size_mem_path: &str,
        rdy_sem_path: &str,
        ack_sem_path: &str,
        to_alloc: u32,
    ) -> (r: (Self, Vec<ChannelStep>))
        ensures
            r.0@ == (ChannelNames {
                mem: mem_path@,
                size_mem: size_mem_path@,
                rdy: rdy_sem_path@,
                ack: ack_sem_path@,
            }),
            steps_model(r.1@) == semaphore_steps(rdy_sem_path@, ack_sem_path@) + seq![
                StepModel::MapMemory { name: size_mem_path@, size: 4 },
                StepModel::StoreNumber { name: size_mem_path@, value: to_alloc },
                StepModel::MapMemory { name: mem_path@, size: to_alloc },
            ],
            steps_model(r.1@) == opening(r.0@, to_alloc),
    {
        let mut steps: Vec<ChannelStep> = Vec::new();
        Self::mk_sems(&mut steps, rdy_sem_path, ack_sem_path);
        // share the size-to-be allocated
        steps.push(ChannelStep::MapMemory { name: size_mem_path.to_owned(), size: 4 });
        steps.push(ChannelStep::StoreNumber { name: size_mem_path.to_owned(), value: to_alloc });
        steps.push(ChannelStep::MapMemory { name: mem_path.to_owned(), size: to_alloc });
        proof {
            assert(steps_model(steps@) =~= semaphore_steps(rdy_sem_path@, ack_sem_path@) + seq![
                StepModel::MapMemory { name: size_mem_path@, size: 4 },
                StepModel::StoreNumber { name: size_mem_path@, value: to_alloc },
                StepModel::MapMemory { name: mem_path@, size: to_alloc },
            ]);
        }
        (
            MetadataPublisher {
                mem: mem_path.to_owned(),
                size_mem: size_mem_path.to_owned(),
                rdy_sem: rdy_sem_path.to_owned(),
                ack_sem: ack_sem_path.to_owned(),
            },
            steps,
        )
    }

    /// refreshes internals of the publisher so as to properly handle cases when
    /// a faulty test case times out or terminates: both semaphores are made anew
    ///
    /// Note that this especially applies in the MT compat mode
    pub fn re_new(&self) -> (steps: Vec<ChannelStep>)
        ensures
            steps_model(steps@) == seq![
                StepModel::DestroySemaphore { name: self@.rdy },
                StepModel::DestroySemaphore { name: self@.ack },
            ] + semaphore_steps(self@.rdy, self@.ack),
            steps_model(steps@) == renewing(self@),
    {
        let mut steps: Vec<ChannelStep> = Vec::new();
        steps.push(ChannelStep::DestroySemaphore { name: self.rdy_sem.clone() });
        steps.push(ChannelStep::DestroySemaphore { name: self.ack_sem.clone() });
        proof {
            assert(steps_model(steps@) =~= seq![
                StepModel::DestroySemaphore { name: self@.rdy },
                StepModel::DestroySemaphore { name: self@.ack },
            ]);
        }
        Self::mk_sems(&mut steps, self.rdy_sem.as_str(), self.ack_sem.as_str());
        steps
    }

    /// The parameters to be written to the memory, after which the "data_rdy" semaphore is
    /// posted. `acked` says whether the "data_ack" semaphore was waited for in time.
    pub fn publish(&self, meta: ShmMeta, acked: Result<bool, String>) -> (r: Result<
        ShmMeta,
        String,
    >)
        ensures
            match acked {
                Ok(true) => r == Ok::<ShmMeta, String>(meta),
                Ok(false) => r is Err && r->Err_0@ == "Publish timed out"@,
                Err(e) => r == Err::<ShmMeta, String>(e),
            },
    {
        match acked {
            Ok(true) => Ok(meta),
            Ok(false) => Err("Publish timed out".to_owned()),
            Err(e) => Err(e),
        }
    }

    /// The name of the memory that parameters are written to.
    pub fn memory_name(&self) -> (name: &str)
        ensures
            name@ == self@.mem,
    {
        self.mem.as_str()
    }

    /// The name of the semaphore that says that parameters are ready.
    pub fn ready_name(&self) -> (name: &str)
        ensures
            name@ == self@.rdy,
    {
        self.rdy_sem.as_str()
    }

    /// The name of the semaphore that says that parameters were read.
    pub fn acknowledged_name(&self) -> (name: &str)
        ensures
            name@ == self@.ack,
    {
        self.ack_sem.as_str()
    }

    /// What has to be done when nothing more is published.
    pub fn deinit(self) -> (steps: Vec<ChannelStep>)
        ensures
            steps_model(steps@) == seq![
                StepModel::UnmapMemory { name: self@.size_mem },
                StepModel::UnmapMemory { name: self@.mem },
                StepModel::DestroySemaphore { name: self@.ack },
                StepModel::DestroySemaphore { name: self@.rdy },
            ],
            steps_model(steps@) == closing(self@),
    {
        let mut steps: Vec<ChannelStep> = Vec::new();
        steps.push(ChannelStep::UnmapMemory { name: self.size_mem.clone() });
        steps.push(ChannelStep::UnmapMemory { name: self.mem.clone() });
        steps.push(ChannelStep::DestroySemaphore { name: self.ack_sem.clone() });
        steps.push(ChannelStep::DestroySemaphore { name: self.rdy_sem.clone() });
        proof {
            assert(steps_model(steps@) =~= seq![
                StepModel::UnmapMemory { name: self@.size_mem },
                StepModel::UnmapMemory { name: self@.mem },
                StepModel::DestroySemaphore { name: self@.ack },
                StepModel::DestroySemaphore { name: self@.rdy },
            ]);
        }
        steps
    }
}

/// What is published is what was to be published, and it is published exactly if what was published
/// before has been read.
pub proof fn law_parameters_are_published_unchanged(
    publisher: &MetadataPublisher,
    meta: ShmMeta,
    acked: Result<bool, String>,
    r: Result<ShmMeta, String>,
)
    requires
        call_ensures(MetadataPublisher::publish, (publisher, meta, acked), r),
    ensures
        r is Ok <==> acked == Ok::<bool, String>(true),
        r is Ok ==> r->Ok_0 == meta,
{
}

/// What happens on the channel.
pub enum ChannelEvent {
    /// the server got the acknowledgement, writes parameters and says that they are ready
    Publish,
    /// the application learns that parameters are ready and starts to read them
    StartReading,
    /// the application has read the parameters and acknowledges them
    Acknowledge,
}

/// The two semaphores, whether the application is reading, and whether what was published
/// last has not been read.
pub struct ChannelState {
    pub rdy: nat,
    pub ack: nat,
    pub reading: bool,
    pub unread: bool,
}

/// The channel after its semaphores were made.
pub open spec fn channel_start() -> ChannelState {
    ChannelState {
        rdy: RDY_SEM_INITIAL as nat,
        ack: ACK_SEM_INITIAL as nat,
        reading: false,
        unread: false,
    }
}

/// What an event makes of the channel. None if the event cannot come: nobody gets past a
/// semaphore that is zero.
pub open spec fn channel_step(state: ChannelState, event: ChannelEvent) -> Option<ChannelState> {
    match event {
        ChannelEvent::Publish => if state.ack > 0 {
            Some(
                ChannelState {
                    ack: (state.ack - 1) as nat,
                    rdy: state.rdy + 1,
                    unread: true,
                    ..state
                },
            )
        } else {
            None
        },
        ChannelEvent::StartReading => if state.rdy > 0 {
            Some(ChannelState { rdy: (state.rdy - 1) as nat, reading: true, ..state })
        } else {
            None
        },
        ChannelEvent::Acknowledge => if state.reading {
            Some(ChannelState { ack: state.ack + 1, reading: false, unread: false, ..state })
        } else {
            None
        },
    }
}

/// What events make of the channel, one after the other.
pub open spec fn channel_run(events: Seq<ChannelEvent>) -> Option<ChannelState>
    decreases events.len(),
{
    if events.len() == 0 {
        Some(channel_start())
    } else {
        match channel_run(events.drop_last()) {
            None => None,
            Some(state) => channel_step(state, events.last()),
        }
    }
}

/// Parameters are never overwritten before they were read, nor while they are being read:
/// whenever something can be published, everything published before was acknowledged.
pub proof fn law_unread_parameters_stay(events: Seq<ChannelEvent>)
    requires
        channel_run(events) is Some,
    ensures
        ({
            let state = channel_run(events)->Some_0;
            &&& state.rdy + state.ack + state.reading as nat == 1
            &&& channel_step(state, ChannelEvent::Publish) is Some ==> !state.unread
                && !state.reading
        }),
{
    lemma_channel(events);
}

proof fn lemma_channel(events: Seq<ChannelEvent>)
    requires
        channel_run(events) is Some,
    ensures
        ({
            let state = channel_run(events)->Some_0;
            &&& state.rdy + state.ack + state.reading as nat == 1
            &&& state.unread == (state.ack == 0)
        }),
    decreases events.len(),
{
    if events.len() > 0 {
        lemma_channel(events.drop_last());
    }
}

} // verus!
