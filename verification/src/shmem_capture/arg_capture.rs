//! Capturing of arguments: the bytes of the buffers become argument packets.

use crate::bytes::le_value;
use crate::error::Error;
use crate::modmap::ExtModuleMap;
use crate::modmap::IntegralFnId;
use crate::modmap::IntegralModId;
use crate::modmap::NumFunUid;
use crate::shmem_capture::buffers::ReadOnlyBufferPtr;
use crate::shmem_capture::buffers::BorrowedReadBuffer;
use crate::shmem_capture::capture_loop::CaptureLoopCounter;
use crate::shmem_capture::capture_loop::CaptureLoopState;
use crate::shmem_capture::capture_loop::loop_step;
use crate::shmem_capture::capture_loop::LoopDecision;
use crate::sizetype_handlers::read_model;
use crate::sizetype_handlers::CustomTypeReader;
use crate::sizetype_handlers::ProgressModel;
use crate::sizetype_handlers::ReadProgress;
use crate::sizetype_handlers::ReaderModel;
use crate::sizetype_handlers::SizeTypeReader;
use std::collections::HashMap;
use vstd::prelude::*;

verus! {

/// The readers of arguments.
pub struct SizeTypeReaders {
    custom: CustomTypeReader,
}

impl View for SizeTypeReaders {
    type V = ReaderModel;

    closed spec fn view(&self) -> ReaderModel {
        self.custom@
    }
}

/// the readers returned by this function are reused for every argument
/// (by .read_reset()ing the reader)
pub fn get_sizetype_readers() -> (r: SizeTypeReaders)
    ensures
        r.wf(),
        r@ == ReaderModel::Start,
{
    SizeTypeReaders { custom: CustomTypeReader::new() }
}

impl SizeTypeReaders {
    /// The readers are in a state that reading can go on from.
    pub closed spec fn wf(&self) -> bool {
        self.custom.wf()
    }

    /// The reader for the next argument.
    pub fn get_reader(&mut self) -> (r: &mut CustomTypeReader)
        ensures
            r@ == old(self)@,
            r.wf() == old(self).wf(),
            final(self)@ == final(r)@,
            final(self).wf() == final(r).wf(),
    {
        &mut self.custom
    }
}

/// represents various argument capturing stages
#[derive(Debug)]
pub enum PartialCaptureState {
    Empty,
    GotModuleId { module_id: IntegralModId },
    GotFnUId { id: NumFunUid },
    // parses each argument according to the
    // index (via SizeTypeReaders)
    CapturingArgs { id: NumFunUid, thread_id: u64, arg_idx: usize, buff: Vec<u8> },
    // buff contains the argument packet
    Done { id: NumFunUid, thread_id: u64, buff: Vec<u8> },
}

/// The contents of a [`PartialCaptureState`].
#[verifier::ext_equal]
pub enum CaptureModel {
    Empty,
    GotModuleId { module_id: IntegralModId },
    GotFnUId { id: NumFunUid },
    CapturingArgs { id: NumFunUid, thread_id: u64, arg_idx: nat, buff: Seq<u8> },
    Done { id: NumFunUid, thread_id: u64, buff: Seq<u8> },
}

impl View for PartialCaptureState {
    type V = CaptureModel;

    open spec fn view(&self) -> CaptureModel {
        match *self {
            PartialCaptureState::Empty => CaptureModel::Empty,
            PartialCaptureState::GotModuleId { module_id } => CaptureModel::GotModuleId {
                module_id,
            },
            PartialCaptureState::GotFnUId { id } => CaptureModel::GotFnUId { id },
            PartialCaptureState::CapturingArgs { id, thread_id, arg_idx, buff } =>
            CaptureModel::CapturingArgs { id, thread_id, arg_idx: arg_idx as nat, buff: buff@ },
            PartialCaptureState::Done { id, thread_id, buff } => CaptureModel::Done {
                id,
                thread_id,
                buff: buff@,
            },
        }
    }
}

/// Where capturing stands: its stage, the bytes that are left of the buffer, and the reader
/// of the argument at hand.
#[verifier::ext_equal]
pub struct CapturePoint {
    pub state: CaptureModel,
    pub rest: Seq<u8>,
    pub reader: ReaderModel,
}

/// The bytes from `n` on.
pub open spec fn past(bytes: Seq<u8>, n: nat) -> Seq<u8> {
    if n <= bytes.len() {
        bytes.subrange(n as int, bytes.len() as int)
    } else {
        Seq::empty()
    }
}

/// The number in the first `n` bytes.
pub open spec fn number_at_start(bytes: Seq<u8>, n: nat) -> nat {
    le_value(bytes.subrange(0, n as int))
}

/// Reads a module's number, which must be that of a known module.
pub open spec fn read_mod_id(mods: ExtModuleMap, at: CapturePoint) -> Result<CapturePoint, Error> {
    let module_id = IntegralModId(number_at_start(at.rest, 4) as u32);
    if at.rest.len() < 4 {
        Err(Error::NotEnoughBytes)
    } else if !mods.knows_module(module_id) {
        Err(Error::UnknownModule(module_id))
    } else {
        Ok(
            CapturePoint {
                state: CaptureModel::GotModuleId { module_id },
                rest: past(at.rest, 4),
                ..at
            },
        )
    }
}

/// Reads a function's number, which must be that of a known function of the module.
pub open spec fn read_fn_id(mods: ExtModuleMap, at: CapturePoint, module_id: IntegralModId) -> Result<
    CapturePoint,
    Error,
> {
    let id = NumFunUid {
        function_id: IntegralFnId(number_at_start(at.rest, 4) as u32),
        module_id,
    };
    if at.rest.len() < 4 {
        Err(Error::NotEnoughBytes)
    } else if !mods.knows_function(id) {
        Err(Error::UnknownFunction(id))
    } else {
        Ok(CapturePoint { state: CaptureModel::GotFnUId { id }, rest: past(at.rest, 4), ..at })
    }
}

/// Reads a thread's number.
pub open spec fn read_thread_id(at: CapturePoint, id: NumFunUid) -> Result<CapturePoint, Error> {
    if at.rest.len() < 8 {
        Err(Error::NotEnoughBytes)
    } else {
        Ok(
            CapturePoint {
                state: CaptureModel::CapturingArgs {
                    id,
                    thread_id: number_at_start(at.rest, 8) as u64,
                    arg_idx: 0,
                    buff: Seq::empty(),
                },
                rest: past(at.rest, 8),
                ..at
            },
        )
    }
}

/// Reads the arguments from `arg_idx` to `count` as far as the buffer goes.
pub open spec fn read_args(
    count: nat,
    id: NumFunUid,
    thread_id: u64,
    arg_idx: nat,
    buff: Seq<u8>,
    rest: Seq<u8>,
    reader: ReaderModel,
) -> Result<CapturePoint, Error>
    decreases count - arg_idx,
{
    let here = CaptureModel::CapturingArgs { id, thread_id, arg_idx, buff };
    if arg_idx >= count {
        Ok(CapturePoint { state: CaptureModel::Done { id, thread_id, buff }, rest, reader })
    } else if rest.len() == 0 {
        Ok(CapturePoint { state: here, rest, reader })
    } else {
        let (next, progress) = read_model(reader, rest);
        match progress {
            ProgressModel::Done { payload, consumed } => read_args(
                count,
                id,
                thread_id,
                arg_idx + 1,
                buff + payload,
                past(rest, consumed),
                ReaderModel::Start,
            ),
            ProgressModel::NotYet => Ok(
                CapturePoint { state: here, rest: Seq::empty(), reader: next },
            ),
            ProgressModel::Nop => Err(Error::ReaderStuck(rest.len() as usize)),
        }
    }
}

/// One step of capturing.
pub open spec fn progress_model(mods: ExtModuleMap, at: CapturePoint) -> Result<
    CapturePoint,
    Error,
> {
    match at.state {
        CaptureModel::Empty => read_mod_id(mods, at),
        CaptureModel::GotModuleId { module_id } => read_fn_id(mods, at, module_id),
        CaptureModel::GotFnUId { id } => read_thread_id(at, id),
        CaptureModel::CapturingArgs { id, thread_id, arg_idx, buff } => if mods.knows_function(
            id,
        ) {
            read_args(
                mods.function(id).args.len(),
                id,
                thread_id,
                arg_idx,
                buff,
                at.rest,
                at.reader,
            )
        } else {
            Err(Error::UnknownFunction(id))
        },
        CaptureModel::Done { id, thread_id, buff } => Ok(at),
    }
}

/// An executable step did what the model says.
pub open spec fn step_agrees(
    model: Result<CapturePoint, Error>,
    r: Result<PartialCaptureState, Error>,
    rest: Seq<u8>,
    reader: ReaderModel,
) -> bool {
    match model {
        Ok(point) => r is Ok && r->Ok_0@ == point.state && rest == point.rest && reader
            == point.reader,
        Err(e) => r == Err::<PartialCaptureState, Error>(e),
    }
}

impl PartialCaptureState {
    /// reads module ID and shifts `raw_buff` by the size of module ID
    pub fn progress_read_mod_id(raw_buff: &mut ReadOnlyBufferPtr, mods: &ExtModuleMap) -> (r:
        Result<Self, Error>)
        requires
            mods.wf(),
        ensures
            forall|reader: ReaderModel|
                step_agrees(
                    #[trigger] read_mod_id(
                        *mods,
                        CapturePoint { state: CaptureModel::Empty, rest: old(raw_buff)@, reader },
                    ),
                    r,
                    final(raw_buff)@,
                    reader,
                ),
    {
        match raw_buff.unaligned_shift_num_read::<u32>() {
            Err(e) => Err(e),
            Ok(id) => {
                let module_id = IntegralModId(id);
                if mods.get_module_string_id(module_id).is_none() {
                    Err(Error::UnknownModule(module_id))
                } else {
                    Ok(PartialCaptureState::GotModuleId { module_id })
                }
            },
        }
    }

    /// reads function ID and shifts `raw_buff` by the size of function ID
    pub fn progress_read_fn_id(
        raw_buff: &mut ReadOnlyBufferPtr,
        mods: &ExtModuleMap,
        module_id: IntegralModId,
    ) -> (r: Result<Self, Error>)
        requires
            mods.wf(),
        ensures
            forall|at: CapturePoint|
                at.rest == old(raw_buff)@ ==> step_agrees(
                    #[trigger] read_fn_id(*mods, at, module_id),
                    r,
                    final(raw_buff)@,
                    at.reader,
                ),
    {
        match raw_buff.unaligned_shift_num_read::<u32>() {
            Err(e) => Err(e),
            Ok(number) => {
                let id = NumFunUid::from((module_id, IntegralFnId(number)));
                if mods.get_function_name(id).is_none() {
                    Err(Error::UnknownFunction(id))
                } else {
                    Ok(PartialCaptureState::GotFnUId { id })
                }
            },
        }
    }

    /// reads thread ID and shifts `raw_buff` by the size of thread ID
    pub fn progress_read_thread_id(raw_buff: &mut ReadOnlyBufferPtr, id: NumFunUid) -> (r: Result<
        Self,
        Error,
    >)
        ensures
            forall|at: CapturePoint|
                at.rest == old(raw_buff)@ ==> step_agrees(
                    #[trigger] read_thread_id(at, id),
                    r,
                    final(raw_buff)@,
                    at.reader,
                ),
    {
        match raw_buff.unaligned_shift_num_read::<u64>() {
            Err(e) => Err(e),
            Ok(thread_id) => Ok(
                PartialCaptureState::CapturingArgs { id, thread_id, arg_idx: 0, buff: Vec::new() },
            ),
        }
    }

    /// reads all arguments necessary/available and shifts `raw_buff`
    /// according to the argument types (could be determined dynamically)
    #[verifier::loop_isolation(false)]
    pub fn progress_read_args(
        raw_buff: &mut ReadOnlyBufferPtr,
        mods: &ExtModuleMap,
        readers: &mut SizeTypeReaders,
        id: NumFunUid,
        thread_id: u64,
        arg_idx: usize,
        buff: Vec<u8>,
    ) -> (r: Result<Self, Error>)
        requires
            mods.wf(),
            old(readers).wf(),
        ensures
            final(readers).wf(),
            step_agrees(
                progress_model(
                    *mods,
                    CapturePoint {
                        state: CaptureModel::CapturingArgs {
                            id,
                            thread_id,
                            arg_idx: arg_idx as nat,
                            buff: buff@,
                        },
                        rest: old(raw_buff)@,
                        reader: old(readers)@,
                    },
                ),
                r,
                final(raw_buff)@,
                final(readers)@,
            ),
            r is Err ==> final(readers)@ == old(readers)@,
    {
        let size_refs = match mods.get_function_arg_size_descriptors(id) {
            Some(size_refs) => size_refs,
            None => {
                return Err(Error::UnknownFunction(id));
            },
        };
        let ghost goal = progress_model(
            *mods,
            CapturePoint {
                state: CaptureModel::CapturingArgs {
                    id,
                    thread_id,
                    arg_idx: arg_idx as nat,
                    buff: buff@,
                },
                rest: raw_buff@,
                reader: readers@,
            },
        );
        let mut i = arg_idx;
        let mut buff = buff;
        // for each argument description, parse the argument from the buffer
        while i < size_refs.len()
            invariant
                arg_idx <= i,
                i <= size_refs@.len() || i == arg_idx,
                readers.wf(),
                i == arg_idx ==> readers@ == old(readers)@,
                i > arg_idx ==> readers@ == ReaderModel::Start,
                goal == read_args(
                    size_refs@.len(),
                    id,
                    thread_id,
                    i as nat,
                    buff@,
                    raw_buff@,
                    readers@,
                ),
            decreases size_refs@.len() - i,
        {
            if raw_buff.empty() {
                return Ok(
                    PartialCaptureState::CapturingArgs { id, thread_id, arg_idx: i, buff },
                );
            }
            let slice = raw_buff.as_slice();
            // obtain an argument reader that will read the packet
            let reader = readers.get_reader();
            match reader.read(slice) {
                Err(e) => {
                    return Err(e);
                },
                // reader is done, argument is ready
                Ok(ReadProgress::Done { payload, consumed_bytes }) => {
                    let mut payload = payload;
                    // append the argument data to the packet
                    buff.append(&mut payload);
                    raw_buff.shift(consumed_bytes);
                    // continues the loop onto the next argument
                },
                // the reader is done with the buffer
                // and the arugment is not ready yet
                Ok(ReadProgress::NotYet) => {
                    // skip all the bytes
                    raw_buff.shift(slice.len());
                    proof {
                        assert(raw_buff@ =~= Seq::<u8>::empty());
                    }
                    return Ok(
                        PartialCaptureState::CapturingArgs { id, thread_id, arg_idx: i, buff },
                    );
                },
                // the reader did not read anything although there is something to read
                Ok(ReadProgress::Nop) => {
                    return Err(Error::ReaderStuck(slice.len()));
                },
            }
            let _ = reader.read_reset();
            i += 1;
        }
        Ok(PartialCaptureState::Done { id, thread_id, buff })
    }

    /// tries to parse an argument packet using the data from `raw_buff`
    /// This function mutates (shifts) the `raw_buff`
    pub fn progress(
        self,
        raw_buff: &mut ReadOnlyBufferPtr,
        mods: &ExtModuleMap,
        readers: &mut SizeTypeReaders,
    ) -> (r: Result<Self, Error>)
        requires
            mods.wf(),
            old(readers).wf(),
        ensures
            final(readers).wf(),
            step_agrees(
                progress_model(
                    *mods,
                    CapturePoint { state: self@, rest: old(raw_buff)@, reader: old(readers)@ },
                ),
                r,
                final(raw_buff)@,
                final(readers)@,
            ),
            r is Err ==> final(readers)@ == old(readers)@,
    {
        match self {
            PartialCaptureState::Empty => Self::progress_read_mod_id(raw_buff, mods),
            PartialCaptureState::GotModuleId { module_id } => Self::progress_read_fn_id(
                raw_buff,
                mods,
                module_id,
            ),
            PartialCaptureState::GotFnUId { id } => Self::progress_read_thread_id(raw_buff, id),
            PartialCaptureState::CapturingArgs { id, thread_id, arg_idx, buff } =>
            Self::progress_read_args(raw_buff, mods, readers, id, thread_id, arg_idx, buff),
            PartialCaptureState::Done { id, thread_id, buff } => Ok(
                PartialCaptureState::Done { id, thread_id, buff },
            ),
        }
    }
}

/// An argument packet: the arguments of one call.
pub struct ArgPacket {
    pub id: NumFunUid,
    pub thread_id: u64,
    pub bytes: Vec<u8>,
}

/// The contents of an [`ArgPacket`].
#[verifier::ext_equal]
pub struct PacketModel {
    pub id: NumFunUid,
    pub thread_id: u64,
    pub bytes: Seq<u8>,
}

impl View for ArgPacket {
    type V = PacketModel;

    open spec fn view(&self) -> PacketModel {
        PacketModel { id: self.id, thread_id: self.thread_id, bytes: self.bytes@ }
    }
}

/// The contents of some packets.
pub open spec fn packets_model(packets: Seq<ArgPacket>) -> Seq<PacketModel> {
    packets.map_values(|p: ArgPacket| p@)
}

/// The contents of packets are those of each packet, in order, and leave nothing out.
pub proof fn law_contents_of_packets_are_complete(packets: Seq<ArgPacket>)
    ensures
        packets_model(packets).len() == packets.len(),
        forall|i: int|
            0 <= i < packets.len() ==> {
                let model = #[trigger] packets_model(packets)[i];
                &&& model.id == packets[i].id
                &&& model.thread_id == packets[i].thread_id
                &&& model.bytes == packets[i].bytes@
            },
{
}

/// What comes out of a buffer: packets, and the point at which capturing stands then, or
/// the error that ended it.
#[verifier::ext_equal]
pub struct CaptureOutcome {
    pub packets: Seq<PacketModel>,
    pub result: Result<CaptureModel, Error>,
    pub reader: ReaderModel,
}

/// A stage that can complete a packet without taking further bytes.
pub open spec fn may_complete(state: CaptureModel) -> bool {
    state is CapturingArgs || state is Done
}

pub proof fn lemma_read_args_shrinks(
    count: nat,
    id: NumFunUid,
    thread_id: u64,
    arg_idx: nat,
    buff: Seq<u8>,
    rest: Seq<u8>,
    reader: ReaderModel,
)
    ensures
        read_args(count, id, thread_id, arg_idx, buff, rest, reader) matches Ok(next) ==> {
            &&& next.rest.len() <= rest.len()
            &&& next.state is CapturingArgs || next.state is Done
            &&& next.state is CapturingArgs ==> next.rest.len() == 0
        },
    decreases count - arg_idx,
{
    if arg_idx < count && rest.len() > 0 {
        let (next, progress) = read_model(reader, rest);
        if let ProgressModel::Done { payload, consumed } = progress {
            lemma_read_args_shrinks(
                count,
                id,
                thread_id,
                arg_idx + 1,
                buff + payload,
                past(rest, consumed),
                ReaderModel::Start,
            );
        }
    }
}

/// Every step that does not complete a packet takes bytes.
pub proof fn lemma_progress_shrinks(mods: ExtModuleMap, at: CapturePoint)
    requires
        at.rest.len() > 0,
    ensures
        progress_model(mods, at) matches Ok(next) ==> {
            &&& next.rest.len() <= at.rest.len()
            &&& next.rest.len() < at.rest.len() || (may_complete(at.state) && next.state is Done)
        },
{
    if let CaptureModel::CapturingArgs { id, thread_id, arg_idx, buff } = at.state {
        lemma_read_args_shrinks(
            mods.function(id).args.len(),
            id,
            thread_id,
            arg_idx,
            buff,
            at.rest,
            at.reader,
        );
    }
}

/// Takes a buffer apart until nothing is left of it.
pub open spec fn capture_run(mods: ExtModuleMap, at: CapturePoint) -> CaptureOutcome
    decreases at.rest.len(), may_complete(at.state) as int,
{
    if at.rest.len() == 0 {
        CaptureOutcome { packets: Seq::empty(), result: Ok(at.state), reader: at.reader }
    } else {
        proof {
            lemma_progress_shrinks(mods, at);
        }
        match progress_model(mods, at) {
            Err(e) => CaptureOutcome { packets: Seq::empty(), result: Err(e), reader: at.reader },
            Ok(next) => match next.state {
                CaptureModel::Done { id, thread_id, buff } => {
                    let after = capture_run(
                        mods,
                        CapturePoint { state: CaptureModel::Empty, ..next },
                    );
                    CaptureOutcome {
                        packets: seq![PacketModel { id, thread_id, bytes: buff }] + after.packets,
                        ..after
                    }
                },
                _ => capture_run(mods, next),
            },
        }
    }
}

/// What comes out of a buffer, which cannot be empty within a packet.
pub open spec fn update_outcome(mods: ExtModuleMap, at: CapturePoint) -> CaptureOutcome {
    if at.rest.len() == 0 && at.state != CaptureModel::Empty {
        CaptureOutcome {
            packets: Seq::empty(),
            result: Err(Error::EmptyBufferWithinPacket),
            reader: at.reader,
        }
    } else {
        capture_run(mods, at)
    }
}

/// The state of a capture between two buffers.
#[derive(Debug)]
pub struct ArgCaptureState {
    // the state of the packet capture
    pub partial_state: PartialCaptureState,
    pub endmsg_counter: usize,
}

impl Default for ArgCaptureState {
    fn default() -> (r: Self)
        ensures
            r.partial_state@ == CaptureModel::Empty,
            r.endmsg_counter == 0,
    {
        ArgCaptureState { partial_state: PartialCaptureState::Empty, endmsg_counter: 0 }
    }
}

impl CaptureLoopState for ArgCaptureState {
    type Capture = CaptureModel;

    open spec fn capture(&self) -> CaptureModel {
        self.partial_state@
    }

    open spec fn end_messages(&self) -> nat {
        self.endmsg_counter as nat
    }

    fn get_end_message_count(&self) -> (count: usize) {
        self.endmsg_counter
    }

    fn reset_end_message_count(&mut self) {
        self.endmsg_counter = 0;
    }
}

/// The threads that made calls, in the order in which they first came up, and the number of
/// calls of each.
#[verifier::ext_equal]
pub struct ThreadModel {
    pub ids: Seq<u64>,
    pub counts: Seq<nat>,
}

/// No thread yet.
pub open spec fn no_threads() -> ThreadModel {
    ThreadModel { ids: Seq::empty(), counts: Seq::empty() }
}

/// Registers a call in a thread.
pub open spec fn register_call(threads: ThreadModel, thread_id: u64) -> ThreadModel {
    if threads.ids.contains(thread_id) {
        let i = threads.ids.index_of(thread_id);
        ThreadModel { counts: threads.counts.update(i, threads.counts[i] + 1), ..threads }
    } else {
        ThreadModel { ids: threads.ids.push(thread_id), counts: threads.counts.push(1) }
    }
}

/// Registers the call of each packet in the packet's thread.
pub open spec fn register_packets(threads: ThreadModel, packets: Seq<PacketModel>) -> ThreadModel
    decreases packets.len(),
{
    if packets.len() == 0 {
        threads
    } else {
        register_call(register_packets(threads, packets.drop_last()), packets.last().thread_id)
    }
}

/// Captures argument packets.
pub struct ArgCapture {
    readers: SizeTypeReaders,
    // complete packets that were not taken yet
    captured: Vec<ArgPacket>,
    // local auto-increment id
    thread_logic_id: u64,
    // local map TID -> logical ID (0-based)
    thread_logical_ids: HashMap<u64, u64>,
    // thread logical ID -> call count
    thread_logical_counts: Vec<u64>,
    // the keys of the map, by their logical IDs
    thread_ids: Ghost<Seq<u64>>,
}

impl ArgCapture {
    /// The logical IDs are those of the threads in the order in which they came up.
    pub closed spec fn wf(&self) -> bool {
        &&& self.readers.wf()
        &&& self.thread_logic_id == self.thread_ids@.len()
        &&& self.thread_logical_counts@.len() == self.thread_ids@.len()
        &&& self.thread_ids@.no_duplicates()
        &&& forall|t: u64| #[trigger]
            self.thread_logical_ids@.contains_key(t) <==> self.thread_ids@.contains(t)
        &&& forall|i: int|
            0 <= i < self.thread_ids@.len()
                ==> self.thread_logical_ids@[#[trigger] self.thread_ids@[i]] == i
    }

    /// The state of the reader of arguments.
    pub closed spec fn reader(&self) -> ReaderModel {
        self.readers@
    }

    /// The packets that are complete and were not taken yet.
    pub closed spec fn captured(&self) -> Seq<PacketModel> {
        packets_model(self.captured@)
    }

    /// The threads and the number of their calls.
    pub closed spec fn threads(&self) -> ThreadModel {
        ThreadModel {
            ids: self.thread_ids@,
            counts: self.thread_logical_counts@.map_values(|c: u64| c as nat),
        }
    }

    /// A capture before the first buffer.
    pub fn new() -> (r: Self)
        ensures
            r.wf(),
            r.reader() == ReaderModel::Start,
            r.captured() == Seq::<PacketModel>::empty(),
            r.threads() == no_threads(),
    {
        broadcast use vstd::std_specs::hash::group_hash_axioms;

        let r = ArgCapture {
            readers: get_sizetype_readers(),
            captured: Vec::new(),
            thread_logic_id: 0,
            thread_logical_ids: HashMap::new(),
            thread_logical_counts: Vec::new(),
            thread_ids: Ghost(Seq::empty()),
        };
        proof {
            assert(r.captured() =~= Seq::<PacketModel>::empty());
            assert(r.threads() =~= no_threads());
        }
        r
    }

    /// register the call in the thread
    fn register_call(&mut self, thread_id: u64)
        requires
            old(self).wf(),
            forall|i: int|
                0 <= i < old(self).threads().counts.len() ==> #[trigger] old(
                    self,
                ).threads().counts[i] < u64::MAX,
        ensures
            final(self).wf(),
            final(self).reader() == old(self).reader(),
            final(self).captured() == old(self).captured(),
            final(self).threads() == register_call(old(self).threads(), thread_id),
    {
        broadcast use vstd::std_specs::hash::group_hash_axioms;

        let ghost before = self.threads();
        let known: Option<u64> = match self.thread_logical_ids.get(&thread_id) {
            Some(id) => Some(*id),
            None => None,
        };
        match known {
            Some(id) => {
                proof {
                    assert(self.thread_ids@.contains(thread_id));
                    let i = self.thread_ids@.index_of(thread_id);
                    assert(self.thread_ids@[i] == thread_id);
                    assert(id == i);
                    assert(before.counts[i] < u64::MAX);
                    assert(before.counts[i] == self.thread_logical_counts@[id as int]);
                    assert(id < self.thread_logical_counts.len());
                }
                let index = id as usize;
                let count = self.thread_logical_counts[index];
                self.thread_logical_counts.set(index, count + 1);
            },
            None => {
                self.thread_logical_ids.insert(thread_id, self.thread_logic_id);
                self.thread_logical_counts.push(1);
                self.thread_logic_id = self.thread_logical_counts.len() as u64;
                proof {
                    let ids = self.thread_ids@;
                    self.thread_ids@ = ids.push(thread_id);
                    assert(self.thread_ids@[ids.len() as int] == thread_id);
                    assert forall|t: u64| ids.contains(t) implies #[trigger] ids.push(
                        thread_id,
                    ).contains(t) by {
                        let i = ids.index_of(t);
                        assert(ids.push(thread_id)[i] == t);
                    }
                    assert(forall|i: int| 0 <= i < ids.len() ==> ids.contains(#[trigger] ids[i]));
                }
            },
        }
        proof {
            assert(self.threads() =~= register_call(before, thread_id));
        }
    }

    /// Whether the calls of a buffer of `buffer_len` bytes can be counted.
    pub fn can_count(&self, buffer_len: usize) -> (b: bool)
        ensures
            b == room_for(self.threads(), buffer_len as nat + 1),
    {
        if buffer_len as u64 == u64::MAX {
            return false;
        }
        let most = u64::MAX - buffer_len as u64 - 1;
        let mut i: usize = 0;
        while i < self.thread_logical_counts.len()
            invariant
                i <= self.thread_logical_counts@.len(),
                most == u64::MAX - buffer_len - 1,
                forall|j: int|
                    0 <= j < i ==> #[trigger] self.threads().counts[j] + buffer_len as nat + 1
                        <= u64::MAX,
            decreases self.thread_logical_counts@.len() - i,
        {
            if self.thread_logical_counts[i] > most {
                proof {
                    assert(self.threads().counts[i as int] + buffer_len + 1 > u64::MAX);
                }
                return false;
            }
            i += 1;
        }
        true
    }

    /// updates the incoming state according to the buffer contents, consumes all the buffer contents
    ///
    /// An empty buffer is counted; it cannot stand within a packet. Completed packets are
    /// added to the captured ones, also if an error comes up later in the buffer.
    #[verifier::loop_isolation(false)]
    pub fn update_from_buffer(
        &mut self,
        state: ArgCaptureState,
        buffer: BorrowedReadBuffer<'_>,
        modules: &ExtModuleMap,
    ) -> (r: Result<ArgCaptureState, Error>)
        requires
            old(self).wf(),
            modules.wf(),
            state.endmsg_counter < usize::MAX,
            room_for(old(self).threads(), buffer.buffer@.len() + 1),
        ensures
            final(self).wf(),
            ({
                let outcome = update_outcome(
                    *modules,
                    CapturePoint {
                        state: state.partial_state@,
                        rest: buffer.buffer@,
                        reader: old(self).reader(),
                    },
                );
                &&& final(self).captured() == old(self).captured() + outcome.packets
                &&& final(self).threads() == register_packets(old(self).threads(), outcome.packets)
                &&& final(self).reader() == outcome.reader
                &&& match r {
                    Ok(next) => outcome.result == Ok::<CaptureModel, Error>(next.partial_state@)
                        && next.endmsg_counter == state.endmsg_counter + (buffer.buffer@.len()
                        == 0) as int,
                    Err(e) => outcome.result == Err::<CaptureModel, Error>(e),
                }
            }),
    {
        let mut state = state;
        let mut buff = buffer.buffer;
        if buff.empty() {
            proof {
                assert(old(self).captured() + Seq::<PacketModel>::empty() =~= old(self).captured());
            }
            if !matches!(state.partial_state, PartialCaptureState::Empty) {
                return Err(Error::EmptyBufferWithinPacket);
            }
            state.endmsg_counter += 1;
            return Ok(state);
        }
        let ghost run = capture_run(
            *modules,
            CapturePoint {
                state: state.partial_state@,
                rest: buff@,
                reader: self.reader(),
            },
        );
        let counter = state.endmsg_counter;
        let mut partial_state = state.partial_state;
        let ghost mut packets: Seq<PacketModel> = Seq::empty();
        proof {
            assert(packets + run.packets =~= run.packets);
            assert(old(self).captured() + packets =~= old(self).captured());
        }
        while !buff.empty()
            invariant
                self.wf(),
                modules.wf(),
                room_for(
                    self.threads(),
                    (buff@.len() + may_complete(partial_state@) as int) as nat,
                ),
                self.captured() == old(self).captured() + packets,
                self.threads() == register_packets(old(self).threads(), packets),
                ({
                    let left = capture_run(
                        *modules,
                        CapturePoint {
                            state: partial_state@,
                            rest: buff@,
                            reader: self.reader(),
                        },
                    );
                    &&& run.packets == packets + left.packets
                    &&& run.result == left.result
                    &&& run.reader == left.reader
                }),
            decreases buff@.len(), may_complete(partial_state@) as int,
        {
            let ghost here = CapturePoint {
                state: partial_state@,
                rest: buff@,
                reader: self.reader(),
            };
            proof {
                lemma_progress_shrinks(*modules, here);
            }
            match partial_state.progress(&mut buff, modules, &mut self.readers) {
                Err(e) => {
                    proof {
                        assert(run.packets =~= packets);
                    }
                    return Err(e);
                },
                Ok(PartialCaptureState::Done { id, thread_id, buff: bytes }) => {
                    // save the received packet
                    let ghost packet = PacketModel { id, thread_id, bytes: bytes@ };
                    let ghost captured = self.captured();
                    self.captured.push(ArgPacket { id, thread_id, bytes });
                    proof {
                        assert(self.captured() =~= captured.push(packet));
                    }
                    self.register_call(thread_id);
                    proof {
                        let before = packets;
                        packets = packets.push(packet);
                        assert(packets.drop_last() =~= before);
                        assert(self.captured() =~= old(self).captured() + packets);
                        let left = capture_run(
                            *modules,
                            CapturePoint {
                                state: CaptureModel::Empty,
                                rest: buff@,
                                reader: self.reader(),
                            },
                        );
                        assert(before + (seq![packet] + left.packets) =~= packets + left.packets);
                    }
                    // restart from an empty state
                    partial_state = PartialCaptureState::Empty;
                },
                // continue from the non-Done state
                Ok(next) => {
                    partial_state = next;
                },
            }
        }
        proof {
            assert(run.packets =~= packets);
        }
        Ok(ArgCaptureState { partial_state, endmsg_counter: counter })
    }

    /// performs data processing on intermediate data that may be present in the current state
    pub fn process_state(&mut self, state: ArgCaptureState) -> (r: ArgCaptureState)
        ensures
            r == state,
            *final(self) == *old(self),
    {
        state
    }

    /// Hands out the packets that were captured since the last call.
    pub fn take_captured(&mut self) -> (packets: Vec<ArgPacket>)
        requires
            old(self).wf(),
        ensures
            packets_model(packets@) == old(self).captured(),
            final(self).wf(),
            final(self).captured() == Seq::<PacketModel>::empty(),
            final(self).reader() == old(self).reader(),
            final(self).threads() == old(self).threads(),
    {
        let mut packets: Vec<ArgPacket> = Vec::new();
        std::mem::swap(&mut packets, &mut self.captured);
        proof {
            assert(self.captured() =~= Seq::<PacketModel>::empty());
        }
        packets
    }

    /// The number of calls of each thread, by logical ID.
    pub fn thread_logical_counts(&self) -> (counts: &Vec<u64>)
        ensures
            counts@.map_values(|c: u64| c as nat) == self.threads().counts,
    {
        &self.thread_logical_counts
    }
}

/// Each thread can count `more` further calls.
pub open spec fn room_for(threads: ThreadModel, more: nat) -> bool {
    &&& more <= u64::MAX
    &&& forall|i: int|
        0 <= i < threads.counts.len() ==> #[trigger] threads.counts[i] + more <= u64::MAX
}

/// A capture, from the first buffer to the last.
pub struct ArgCaptureRun {
    capture: ArgCapture,
    // none when the capture is over
    state: Option<ArgCaptureState>,
    counter: CaptureLoopCounter,
    buffer_count: usize,
}

impl ArgCaptureRun {
    /// While the capture goes on, fewer buffers in a row were empty than there are buffers.
    pub closed spec fn wf(&self) -> bool {
        &&& self.capture.wf()
        &&& self.state matches Some(state) ==> state.endmsg_counter == self.counter@
            && self.counter@ < self.buffer_count
    }

    /// The capture goes on.
    pub closed spec fn active(&self) -> bool {
        self.state is Some
    }

    /// The packet capture, while the capture goes on.
    pub closed spec fn state(&self) -> CaptureModel {
        self.state->Some_0.partial_state@
    }

    /// The number of empty buffers in a row, while the capture goes on.
    pub closed spec fn end_messages(&self) -> nat {
        self.counter@
    }

    /// The number of buffers.
    pub closed spec fn buffers(&self) -> nat {
        self.buffer_count as nat
    }

    /// What was captured.
    pub closed spec fn capture(&self) -> ArgCapture {
        self.capture
    }

    /// A capture from an application with this many buffers.
    pub fn new(buffer_count: usize) -> (r: Self)
        requires
            buffer_count >= 1,
        ensures
            r.wf(),
            r.active(),
            r.state() == CaptureModel::Empty,
            r.end_messages() == 0,
            r.buffers() == buffer_count,
            r.capture().wf(),
            r.capture().reader() == ReaderModel::Start,
            r.capture().captured() == Seq::<PacketModel>::empty(),
            r.capture().threads() == no_threads(),
    {
        ArgCaptureRun {
            capture: ArgCapture::new(),
            state: Some(ArgCaptureState::default()),
            counter: CaptureLoopCounter::new(),
            buffer_count,
        }
    }

    /// Whether the capture goes on.
    pub fn is_active(&self) -> (b: bool)
        ensures
            b == self.active(),
    {
        self.state.is_some()
    }

    /// Whether the calls of a buffer of `buffer_len` bytes can be counted.
    pub fn can_count(&self, buffer_len: usize) -> (b: bool)
        ensures
            b == room_for(self.capture().threads(), buffer_len as nat + 1),
    {
        self.capture.can_count(buffer_len)
    }

    /// Hands out the packets that were captured since the last call.
    pub fn take_captured(&mut self) -> (packets: Vec<ArgPacket>)
        requires
            old(self).wf(),
        ensures
            final(self).wf(),
            packets_model(packets@) == old(self).capture().captured(),
            final(self).capture().captured() == Seq::<PacketModel>::empty(),
            final(self).capture().reader() == old(self).capture().reader(),
            final(self).capture().threads() == old(self).capture().threads(),
            final(self).active() == old(self).active(),
            final(self).state() == old(self).state(),
            final(self).end_messages() == old(self).end_messages(),
            final(self).buffers() == old(self).buffers(),
            handed_out(*old(self), *final(self), packets_model(packets@)),
    {
        self.capture.take_captured()
    }

    /// The number of calls of each thread, by logical ID.
    pub fn thread_logical_counts(&self) -> (counts: &Vec<u64>)
        ensures
            counts@.map_values(|c: u64| c as nat) == self.capture().threads().counts,
    {
        self.capture.thread_logical_counts()
    }
}

/// The packets that were captured have been handed out, and the capture is as it was otherwise.
pub open spec fn handed_out(
    before: ArgCaptureRun,
    after: ArgCaptureRun,
    packets: Seq<PacketModel>,
) -> bool {
    &&& packets == before.capture().captured()
    &&& after.capture().captured() == Seq::<PacketModel>::empty()
    &&& after.capture().reader() == before.capture().reader()
    &&& after.capture().threads() == before.capture().threads()
    &&& after.active() == before.active()
    &&& after.state() == before.state()
    &&& after.end_messages() == before.end_messages()
    &&& after.buffers() == before.buffers()
}

/// A buffer was taken in.
pub open spec fn buffer_taken(
    before: ArgCaptureRun,
    after: ArgCaptureRun,
    mods: ExtModuleMap,
    buffer: Seq<u8>,
    r: Result<LoopDecision, Error>,
) -> bool {
    let outcome = update_outcome(
        mods,
        CapturePoint { state: before.state(), rest: buffer, reader: before.capture().reader() },
    );
    let next = loop_step(
        before.end_messages(),
        before.end_messages() + if buffer.len() == 0 {
            1nat
        } else {
            0nat
        },
        before.buffers(),
    );
    &&& after.buffers() == before.buffers()
    &&& after.capture().captured() == before.capture().captured() + outcome.packets
    &&& after.capture().threads() == register_packets(
        before.capture().threads(),
        outcome.packets,
    )
    &&& after.capture().reader() == outcome.reader
    &&& match outcome.result {
        Err(e) => r == Err::<LoopDecision, Error>(e) && !after.active(),
        Ok(state) => {
            &&& r == Ok::<LoopDecision, Error>(next.decision)
            &&& after.active() == (next.decision is Continue)
            &&& next.decision is Continue ==> after.state() == state
            &&& next.decision is Continue ==> after.end_messages() == next.last
        },
    }
}

/// Takes in the next buffer of a capture. The capture is over with an error or with the
/// empty buffer that completes a row of as many as there are buffers.
pub fn perform_arg_capture(
    run: &mut ArgCaptureRun,
    buffer: BorrowedReadBuffer<'_>,
    modules: &ExtModuleMap,
) -> (r: Result<LoopDecision, Error>)
    requires
        old(run).wf(),
        old(run).active(),
        modules.wf(),
        room_for(old(run).capture().threads(), buffer.buffer@.len() + 1),
    ensures
        final(run).wf(),
        final(run).buffers() == old(run).buffers(),
        buffer_taken(*old(run), *final(run), *modules, buffer.buffer@, r),
        ({
            let before = old(run).capture();
            let after = final(run).capture();
            let outcome = update_outcome(
                *modules,
                CapturePoint {
                    state: old(run).state(),
                    rest: buffer.buffer@,
                    reader: before.reader(),
                },
            );
            let next = loop_step(
                old(run).end_messages(),
                old(run).end_messages() + if buffer.buffer@.len() == 0 {
                    1nat
                } else {
                    0nat
                },
                old(run).buffers(),
            );
            &&& after.captured() == before.captured() + outcome.packets
            &&& after.threads() == register_packets(before.threads(), outcome.packets)
            &&& after.reader() == outcome.reader
            &&& match outcome.result {
                Err(e) => r == Err::<LoopDecision, Error>(e) && !final(run).active(),
                Ok(state) => {
                    &&& r == Ok::<LoopDecision, Error>(next.decision)
                    &&& final(run).active() == (next.decision is Continue)
                    &&& next.decision is Continue ==> final(run).state() == state
                    &&& next.decision is Continue ==> final(run).end_messages() == next.last
                },
            }
        }),
{
    let mut taken: Option<ArgCaptureState> = None;
    std::mem::swap(&mut taken, &mut run.state);
    let state = match taken {
        Some(state) => state,
        None => ArgCaptureState::default(),
    };
    match run.capture.update_from_buffer(state, buffer, modules) {
        Err(e) => Err(e),
        Ok(st) => {
            let mut st = run.capture.process_state(st);
            let decision = run.counter.after_buffer(&mut st, run.buffer_count);
            if let LoopDecision::Continue = decision {
                run.state = Some(st);
            }
            Ok(decision)
        },
    }
}

} // verus!
