//! The ring of logical buffers in shared memory. Waiting for and posting semaphores, and
//! mapping the memory, are left to the caller, who hands in what came of them.

use crate::bytes::law_le_read_after_write;
use crate::bytes::le_bytes;
use crate::bytes::lemma_byte_ranges;
use crate::bytes::lemma_le_bytes_len;
use crate::error::Error;
use crate::shmem_capture::buffers::law_written_message_is_taken_out;
use crate::shmem_capture::buffers::payload_fits;
use crate::shmem_capture::buffers::payload_of;
use crate::shmem_capture::buffers::BorrowedOneshotWritePtr;
use crate::shmem_capture::buffers::BorrowedReadBuffer;
use crate::shmem_capture::buffers::BufferStartPtr;
use crate::shmem_capture::hooklib_commons::InfraParams;
use crate::shmem_capture::resources::init_shmem;
use crate::shmem_capture::resources::ring_semaphores;
use crate::shmem_capture::resources::sem_name;
use crate::shmem_capture::resources::FreeFullSemNames;
use vstd::prelude::*;

verus! {

/// a handle to all shared memory infrastructure necessary for function tracing
/// (call tracing and argument capture)
pub struct TracingInfra {
    logical_buffer_size: usize,
    logical_buffer_count: usize,
    current_index: usize,
    got_buff_flag: bool,
}

/// The ring of buffers: how long each is, how many there are, whose turn it is, and
/// whether it was handed out.
#[verifier::ext_equal]
pub struct InfraModel {
    pub size: nat,
    pub count: nat,
    pub index: nat,
    pub got_buffer: bool,
}

impl InfraModel {
    /// The turn is that of an existing buffer, and all buffers together can be mapped.
    pub open spec fn wf(self) -> bool {
        &&& self.index < self.count || (self.count == 0 && self.index == 0)
        &&& self.count <= u32::MAX
        &&& self.size <= u32::MAX
        &&& self.count * self.size <= u32::MAX
    }

    /// Where the buffer whose turn it is starts.
    pub open spec fn offset(self) -> nat {
        self.index * self.size
    }

    /// The buffer whose turn it is.
    pub open spec fn current(self, mem: Seq<u8>) -> Seq<u8> {
        mem.subrange(self.offset() as int, (self.offset() + self.size) as int)
    }

    /// The memory once the buffer whose turn it is was cleared.
    pub open spec fn cleared(self, mem: Seq<u8>) -> Seq<u8> {
        mem.subrange(0, self.offset() as int) + le_bytes(0, 4) + mem.subrange(
            self.offset() as int + 4,
            mem.len() as int,
        )
    }

    /// The ring once the turn was passed on.
    pub open spec fn after_turn(self) -> InfraModel {
        InfraModel { index: (self.index + 1) % self.count, got_buffer: false, ..self }
    }

    /// The ring once the turn was passed on this often.
    pub open spec fn after_turns(self, turns: nat) -> InfraModel
        decreases turns,
    {
        if turns == 0 {
            self
        } else {
            self.after_turns((turns - 1) as nat).after_turn()
        }
    }

    /// Why the buffer whose turn it is cannot be read from a memory of `len` bytes.
    pub open spec fn read_obstacle(self, len: nat) -> Option<Error> {
        if self.index >= self.count {
            Some(Error::InvalidBufferIndex(self.index as usize))
        } else if self.offset() >= len {
            Some(Error::OffsetTooLarge { offset: self.offset() as usize, len: len as usize })
        } else if self.offset() + self.size > len {
            Some(Error::BufferOutOfBounds { offset: self.offset() as usize, len: len as usize })
        } else if self.size <= 4 {
            Some(Error::NoSpaceForLength)
        } else {
            None
        }
    }

    /// Why the size field of the buffer whose turn it is cannot be cleared in a memory of
    /// `len` bytes.
    pub open spec fn clear_obstacle(self, len: nat) -> Option<Error> {
        if self.index >= self.count {
            Some(Error::InvalidBufferIndex(self.index as usize))
        } else if self.offset() >= len {
            Some(Error::OffsetTooLarge { offset: self.offset() as usize, len: len as usize })
        } else if self.offset() + 4 >= len {
            Some(Error::BufferOutOfBounds { offset: self.offset() as usize, len: len as usize })
        } else if self.offset() % 4 != 0 {
            Some(Error::UnalignedOffset)
        } else {
            None
        }
    }
}

impl View for TracingInfra {
    type V = InfraModel;

    closed spec fn view(&self) -> InfraModel {
        InfraModel {
            size: self.logical_buffer_size as nat,
            count: self.logical_buffer_count as nat,
            index: self.current_index as nat,
            got_buffer: self.got_buff_flag,
        }
    }
}

proof fn lemma_offset_fits(m: InfraModel)
    requires
        m.wf(),
    ensures
        m.offset() <= u32::MAX,
        m.offset() + m.size <= m.count * m.size || m.count == 0,
{
    if m.count > 0 {
        assert((m.index + 1) * m.size <= m.count * m.size) by (nonlinear_arith)
            requires
                m.index + 1 <= m.count,
        ;
        assert((m.index + 1) * m.size == m.index * m.size + m.size) by (nonlinear_arith);
    } else {
        assert(m.index * m.size == 0) by (nonlinear_arith)
            requires
                m.index == 0,
        ;
    }
}

impl TracingInfra {
    /// takes over the buffer that the instrumented application has filled, once waiting for
    /// one has ended with `waited`
    pub fn wait_for_full_buffer<'a>(
        &mut self,
        waited: Result<(), String>,
        mem: &'a [u8],
    ) -> (r: Result<BorrowedReadBuffer<'a>, Error>)
        requires
            old(self)@.wf(),
            waited is Ok && old(self)@.read_obstacle(mem@.len()) is None ==> payload_fits(
                old(self)@.current(mem@),
            ),
        ensures
            final(self)@ == (InfraModel {
                got_buffer: old(self)@.got_buffer || waited is Ok,
                ..old(self)@
            }),
            match (waited, old(self)@.read_obstacle(mem@.len())) {
                (Err(reason), _) => r == Err::<BorrowedReadBuffer<'a>, Error>(
                    Error::WaitFull(reason),
                ),
                (Ok(_), Some(obstacle)) => r == Err::<BorrowedReadBuffer<'a>, Error>(obstacle),
                (Ok(_), None) => r is Ok && r->Ok_0.buffer@ == payload_of(
                    old(self)@.current(mem@),
                ),
            },
    {
        match waited {
            Err(reason) => Err(Error::WaitFull(reason)),
            Ok(()) => {
                self.got_buff_flag = true;
                self.get_checked_base_ptr(mem)
            },
        }
    }

    /// Whether the payload of the buffer whose turn it is lies within the buffer, if the
    /// buffer can be read at all: only then may it be taken over.
    pub fn current_payload_fits(&self, mem: &[u8]) -> (b: bool)
        requires
            self@.wf(),
        ensures
            b == (self@.read_obstacle(mem@.len()) is None ==> payload_fits(self@.current(mem@))),
    {
        match self.current_start(mem) {
            Ok(start) => start.payload_fits(),
            Err(_) => true,
        }
    }

    /// clears the buffer whose turn it is, before it is posted as free
    pub fn clear_buffer(&self, mem: &mut [u8]) -> (r: Result<(), Error>)
        requires
            self@.wf(),
        ensures
            match self@.clear_obstacle(old(mem)@.len()) {
                Some(obstacle) => r == Err::<(), Error>(obstacle) && final(mem)@ == old(mem)@,
                None => r is Ok && final(mem)@ == old(mem)@.subrange(0, self@.offset() as int)
                    + le_bytes(0, 4) + old(mem)@.subrange(
                    self@.offset() as int + 4,
                    old(mem)@.len() as int,
                ),
            },
            r is Ok ==> final(mem)@ == self@.cleared(old(mem)@),
    {
        match self.get_checked_base_ptr_mut(mem.len()) {
            Ok(buffer) => {
                buffer.write(mem, 0);
                Ok(())
            },
            Err(e) => Err(e),
        }
    }

    /// passes the turn on, once posting the cleared buffer as free has ended with `posted`
    pub fn finish_buffer(&mut self, posted: Result<(), String>) -> (r: Result<(), Error>)
        requires
            old(self)@.wf(),
            old(self)@.count > 0,
        ensures
            final(self)@.wf(),
            match posted {
                Ok(_) => r is Ok && final(self)@ == (InfraModel {
                    index: (old(self)@.index + 1) % old(self)@.count,
                    got_buffer: false,
                    ..old(self)@
                }),
                Err(reason) => r == Err::<(), Error>(
                    Error::PostFree { index: old(self)@.index as usize, reason },
                ) && final(self)@ == old(self)@,
            },
            r is Ok ==> final(self)@ == old(self)@.after_turn(),
    {
        match posted {
            Err(reason) => Err(Error::PostFree { index: self.current_index, reason }),
            Ok(()) => {
                self.got_buff_flag = false;
                self.current_index = (self.current_index + 1) % self.logical_buffer_count;
                Ok(())
            },
        }
    }

    /// Where the buffer `idx` starts.
    pub fn buffer_offset(&self, idx: usize) -> (r: Result<usize, Error>)
        requires
            self@.wf(),
        ensures
            r == if idx < self@.count {
                Ok::<usize, Error>((idx * self@.size) as usize)
            } else {
                Err(Error::InvalidBufferIndex(idx))
            },
            idx < self@.count ==> idx * self@.size <= u32::MAX,
    {
        if idx < self.logical_buffer_count {
            proof {
                lemma_offset_fits(InfraModel { index: idx as nat, ..self@ });
            }
            Ok(idx * self.logical_buffer_size)
        } else {
            Err(Error::InvalidBufferIndex(idx))
        }
    }

    /// How many buffers there are.
    pub fn buffer_count(&self) -> (n: usize)
        ensures
            n == self@.count,
    {
        self.logical_buffer_count
    }

    /// returns the position of the base of a logical buffer (incl. length field) within a
    /// memory of `backing_mem_len` bytes
    fn get_checked_base_ptr_mut(&self, backing_mem_len: usize) -> (r: Result<
        BorrowedOneshotWritePtr,
        Error,
    >)
        requires
            self@.wf(),
        ensures
            match self@.clear_obstacle(backing_mem_len as nat) {
                Some(obstacle) => r == Err::<BorrowedOneshotWritePtr, Error>(obstacle),
                None => r is Ok && r->Ok_0.position() == self@.offset(),
            },
    {
        let offset = match self.buffer_offset(self.current_index) {
            Ok(offset) => offset,
            Err(e) => {
                return Err(e);
            },
        };
        if offset >= backing_mem_len {
            return Err(Error::OffsetTooLarge { offset, len: backing_mem_len });
        }
        if backing_mem_len - offset <= 4 {
            return Err(Error::BufferOutOfBounds { offset, len: backing_mem_len });
        }
        BorrowedOneshotWritePtr::at(offset)
    }

    fn current_start<'a>(&self, mem: &'a [u8]) -> (r: Result<BufferStartPtr<'a>, Error>)
        requires
            self@.wf(),
        ensures
            match self@.read_obstacle(mem@.len()) {
                Some(obstacle) => r == Err::<BufferStartPtr<'a>, Error>(obstacle),
                None => r is Ok && r->Ok_0@ == self@.current(mem@),
            },
    {
        let offset = match self.buffer_offset(self.current_index) {
            Ok(offset) => offset,
            Err(e) => {
                return Err(e);
            },
        };
        let len = mem.len();
        if offset >= len {
            return Err(Error::OffsetTooLarge { offset, len });
        }
        if self.logical_buffer_size > len - offset {
            return Err(Error::BufferOutOfBounds { offset, len });
        }
        let rest = mem.split_at(offset).1;
        let target_buffer = rest.split_at(self.logical_buffer_size).0;
        proof {
            assert(target_buffer@ =~= self@.current(mem@));
        }
        BufferStartPtr::new(target_buffer)
    }

    /// returns Ok variant if the logical buffer whose turn it is lies within the memory
    fn get_checked_base_ptr<'a>(&self, mem: &'a [u8]) -> (r: Result<BorrowedReadBuffer<'a>, Error>)
        requires
            self@.wf(),
            self@.read_obstacle(mem@.len()) is None ==> payload_fits(self@.current(mem@)),
        ensures
            match self@.read_obstacle(mem@.len()) {
                Some(obstacle) => r == Err::<BorrowedReadBuffer<'a>, Error>(obstacle),
                None => r is Ok && r->Ok_0.buffer@ == payload_of(self@.current(mem@)),
            },
    {
        match self.current_start(mem) {
            Ok(start) => match start.shift_init_data() {
                Ok(buffer) => Ok(BorrowedReadBuffer { buffer }),
                Err(e) => Err(e),
            },
            Err(e) => Err(e),
        }
    }
}

impl TracingInfra {
    /// The ring that was asked for, and what is needed to wake its reader after a crash, once
    /// opening the semaphores and mapping the memory of `buff_count * buff_len` bytes have
    /// ended with `semaphores` and `memory`. Memory is only mapped where the semaphores were
    /// opened.
    pub fn try_new(
        resource_prefix: &str,
        params: InfraParams,
        semaphores: Result<(), String>,
        memory: Result<(), String>,
    ) -> (r: Result<(Self, FinalizerInfraInfo), String>)
        requires
            params.buff_count * params.buff_len <= u32::MAX,
        ensures
            semaphores is Err ==> r == Err::<(Self, FinalizerInfraInfo), String>(
                semaphores->Err_0,
            ),
            semaphores is Ok && memory is Err ==> r == Err::<(Self, FinalizerInfraInfo), String>(
                memory->Err_0,
            ),
            semaphores is Ok && memory is Ok ==> {
                &&& r is Ok
                &&& r->Ok_0.0@.wf()
                &&& r->Ok_0.0@ == (InfraModel {
                    size: params.buff_len as nat,
                    count: params.buff_count as nat,
                    index: 0,
                    got_buffer: false,
                })
                &&& r->Ok_0.1.semaphore() == sem_name(
                    resource_prefix@,
                    "capture"@,
                    "base"@,
                ) + "-semfull"@
                &&& r->Ok_0.1.semaphore() == ring_semaphores(resource_prefix@).1
                &&& r->Ok_0.1.buffers() == params.buff_count
            },
    {
        match semaphores {
            Err(e) => {
                return Err(e);
            },
            Ok(()) => {},
        }
        match memory {
            Err(e) => {
                return Err(e);
            },
            Ok(()) => {},
        }
        let FreeFullSemNames { free, full } = FreeFullSemNames::new(
            resource_prefix,
            "capture",
            "base",
        );
        let logical_buffer_count = params.buff_count as usize;
        let tracing_infra = TracingInfra {
            logical_buffer_size: params.buff_len as usize,
            logical_buffer_count,
            current_index: 0,
            got_buff_flag: false,
        };
        let finalizing_infra = FinalizerInfraInfo { name: full, logical_buffer_count };
        Ok((tracing_infra, finalizing_infra))
    }

    /// Judges how getting rid of the memory and of the semaphores has ended. Both are tried
    /// in any case, and what went wrong is reported in one message.
    pub fn deinit(self, mem_deinit: Result<(), String>, sem_uninit: Result<(), String>) -> (r:
        Result<(), String>)
        ensures
            ({
                let errors = message_of(mem_deinit) + message_of(sem_uninit);
                &&& r is Ok <==> errors.len() == 0
                &&& r matches Err(e) ==> e@ == "Deinit failures: "@ + errors
            }),
    {
        let mut goodbye_errors = String::new();
        let ghost first = message_of(mem_deinit);
        if let Err(e) = mem_deinit {
            goodbye_errors.append(e.as_str());
        }
        proof {
            assert(goodbye_errors@ =~= first);
        }
        let ghost second = message_of(sem_uninit);
        if let Err(e) = sem_uninit {
            goodbye_errors.append(e.as_str());
        }
        proof {
            assert(goodbye_errors@ =~= first + second);
        }
        if goodbye_errors.as_str().is_empty() {
            Ok(())
        } else {
            Err("Deinit failures: ".to_owned().concat(goodbye_errors.as_str()))
        }
    }
}

/// The message of a failure, nothing otherwise.
pub open spec fn message_of(r: Result<(), String>) -> Seq<char> {
    match r {
        Ok(_) => Seq::empty(),
        Err(e) => e@,
    }
}

/// What is needed to wake the reader of the buffers after a crash.
pub struct FinalizerInfraInfo {
    name: String,
    logical_buffer_count: usize,
}

impl FinalizerInfraInfo {
    /// The name of the semaphore that counts the full buffers.
    pub closed spec fn semaphore(&self) -> Seq<char> {
        self.name@
    }

    /// How many buffers there are.
    pub closed spec fn buffers(&self) -> nat {
        self.logical_buffer_count as nat
    }

    /// The name of the semaphore to open.
    pub fn semaphore_name(&self) -> (name: &str)
        ensures
            name@ == self.semaphore(),
    {
        self.name.as_str()
    }

    /// Ready to wake the reader, once opening the semaphore has ended with `opened`.
    pub fn try_open(self, opened: Result<(), String>) -> (r: Result<CrashFinalizerInfra, String>)
        ensures
            opened is Ok ==> r is Ok && r->Ok_0.buffers() == self.buffers(),
            opened is Err ==> r == Err::<CrashFinalizerInfra, String>(opened->Err_0),
    {
        match opened {
            Ok(()) => Ok(CrashFinalizerInfra { logical_buffer_count: self.logical_buffer_count }),
            Err(e) => Err(e),
        }
    }
}

/// Wakes the reader of the buffers after a crash.
pub struct CrashFinalizerInfra {
    logical_buffer_count: usize,
}

/// What is to be done next while the reader is woken.
pub enum FlushStep {
    /// post the semaphore that counts the full buffers
    Post,
    /// nothing, the reader was woken
    Finished,
    /// nothing, posting failed
    Failed(String),
}

impl CrashFinalizerInfra {
    /// How many buffers there are.
    pub closed spec fn buffers(&self) -> nat {
        self.logical_buffer_count as nat
    }

    /// What to do after `posted` posts, of which the last one has ended with `last`: every
    /// buffer is posted twice, and a failure ends it.
    pub fn finalization_flush(&self, posted: u128, last: Result<(), String>) -> (step: FlushStep)
        ensures
            step == match last {
                Err(reason) => FlushStep::Failed(reason),
                Ok(_) => if posted < self.buffers() * 2 {
                    FlushStep::Post
                } else {
                    FlushStep::Finished
                },
            },
    {
        match last {
            Err(reason) => FlushStep::Failed(reason),
            Ok(()) => if posted < self.logical_buffer_count as u128 * 2 {
                FlushStep::Post
            } else {
                FlushStep::Finished
            },
        }
    }
}

/// Different buffers share no byte, and every buffer lies in the memory that is mapped
/// for all of them.
pub proof fn law_buffers_are_disjoint(m: InfraModel, i: nat, j: nat)
    requires
        m.wf(),
        i < j < m.count,
    ensures
        i * m.size + m.size <= j * m.size,
        j * m.size + m.size <= m.count * m.size,
{
    assert((i + 1) * m.size == i * m.size + m.size) by (nonlinear_arith);
    assert((j + 1) * m.size == j * m.size + m.size) by (nonlinear_arith);
    assert((i + 1) * m.size <= j * m.size) by (nonlinear_arith)
        requires
            i + 1 <= j,
    ;
    assert((j + 1) * m.size <= m.count * m.size) by (nonlinear_arith)
        requires
            j + 1 <= m.count,
    ;
}

/// A buffer that was cleared reads as an empty message.
pub proof fn law_cleared_buffer_is_empty(m: InfraModel, before: Seq<u8>, after: Seq<u8>)
    requires
        m.wf(),
        m.read_obstacle(before.len()) is None,
        m.clear_obstacle(before.len()) is None,
        after == before.subrange(0, m.offset() as int) + le_bytes(0, 4) + before.subrange(
            m.offset() as int + 4,
            before.len() as int,
        ),
    ensures
        m.read_obstacle(after.len()) is None,
        payload_fits(m.current(after)),
        payload_of(m.current(after)) == Seq::<u8>::empty(),
{
    lemma_byte_ranges();
    lemma_le_bytes_len(0, 4);
    law_le_read_after_write(0, 4);
    assert(m.current(after).subrange(0, 4) =~= le_bytes(0, 4));
    assert(payload_of(m.current(after)) =~= Seq::<u8>::empty());
}

/// Clearing one buffer leaves every other buffer as it was.
pub proof fn law_clearing_leaves_others(
    m: InfraModel,
    before: Seq<u8>,
    after: Seq<u8>,
    other: InfraModel,
)
    requires
        m.wf(),
        m.clear_obstacle(before.len()) is None,
        m.read_obstacle(before.len()) is None,
        after == before.subrange(0, m.offset() as int) + le_bytes(0, 4) + before.subrange(
            m.offset() as int + 4,
            before.len() as int,
        ),
        other == (InfraModel { index: other.index, ..m }),
        other.index < m.count,
        other.index != m.index,
        other.read_obstacle(before.len()) is None,
    ensures
        other.current(after) == other.current(before),
{
    lemma_le_bytes_len(0, 4);
    if other.index < m.index {
        law_buffers_are_disjoint(m, other.index, m.index);
    } else {
        law_buffers_are_disjoint(m, m.index, other.index);
    }
    assert(other.current(after) =~= other.current(before));
}

/// Whose turn it is after `turns` buffers were finished.
pub open spec fn index_after(index: nat, count: nat, turns: nat) -> nat
    decreases turns,
{
    if turns == 0 {
        index
    } else {
        (index_after(index, count, (turns - 1) as nat) + 1) % count
    }
}

/// The buffers are used in turn, one after the other and then from the first again.
pub proof fn law_turns_go_round(index: nat, count: nat, turns: nat)
    requires
        index < count,
    ensures
        index_after(index, count, turns) == (index + turns) % count,
        index_after(index, count, turns + count) == index_after(index, count, turns),
    decreases turns,
{
    lemma_turns(index, count, turns);
    lemma_turns(index, count, turns + count);
    assert((index + turns + count) % count == (index + turns) % count) by {
        vstd::arithmetic::div_mod::lemma_mod_add_multiples_vanish(
            (index + turns) as int,
            count as int,
        );
    }
}

proof fn lemma_turns(index: nat, count: nat, turns: nat)
    requires
        index < count,
    ensures
        index_after(index, count, turns) == (index + turns) % count,
    decreases turns,
{
    if turns > 0 {
        lemma_turns(index, count, (turns - 1) as nat);
        vstd::arithmetic::div_mod::lemma_add_mod_noop_right(
            1,
            (index + turns - 1) as int,
            count as int,
        );
    } else {
        vstd::arithmetic::div_mod::lemma_small_mod(index, count);
    }
}

/// Where buffers stand: the message that the application has put into the buffer with the index of
/// the turn is what is taken over, all of it and nothing else, and nothing stands in the way of
/// that.
pub proof fn law_message_of_the_buffer_is_taken_over(
    m: InfraModel,
    mem: Seq<u8>,
    message: Seq<u8>,
    left_over: Seq<u8>,
)
    requires
        m.wf(),
        m.index < m.count,
        m.size > 4,
        mem.len() == m.count * m.size,
        mem.subrange((m.index * m.size) as int, (m.index * m.size + m.size) as int) == le_bytes(
            message.len(),
            4,
        ) + message + left_over,
        message.len() < 0x1_0000_0000,
    ensures
        m.read_obstacle(mem.len()) is None,
        payload_fits(m.current(mem)),
        payload_of(m.current(mem)) == message,
{
    lemma_offset_fits(m);
    law_written_message_is_taken_out(message, left_over);
}

/// A buffer whose length is a multiple of four can be cleared, is empty then, and all other buffers
/// are as they were.
pub proof fn law_clearing_empties_one_buffer(m: InfraModel, mem: Seq<u8>, other: nat)
    requires
        m.wf(),
        m.index < m.count,
        m.size > 4,
        m.size % 4 == 0,
        mem.len() == m.count * m.size,
        other < m.count,
        other != m.index,
    ensures
        m.clear_obstacle(mem.len()) is None,
        m.cleared(mem).len() == mem.len(),
        payload_fits(m.current(m.cleared(mem))),
        payload_of(m.current(m.cleared(mem))) == Seq::<u8>::empty(),
        m.cleared(mem).subrange((other * m.size) as int, (other * m.size + m.size) as int)
            == mem.subrange((other * m.size) as int, (other * m.size + m.size) as int),
{
    lemma_offset_fits(m);
    lemma_le_bytes_len(0, 4);
    assert((m.index * m.size) % 4 == 0) by (nonlinear_arith)
        requires
            m.size % 4 == 0,
    {
        let q = m.size / 4;
        assert(m.size == 4 * q);
        assert(m.index * m.size == 4 * (m.index * q));
    }
    law_cleared_buffer_is_empty(m, mem, m.cleared(mem));
    if other < m.index {
        law_buffers_are_disjoint(m, other, m.index);
    } else {
        law_buffers_are_disjoint(m, m.index, other);
    }
    assert(m.cleared(mem).subrange((other * m.size) as int, (other * m.size + m.size) as int)
        =~= mem.subrange((other * m.size) as int, (other * m.size + m.size) as int));
}

/// The turn goes from buffer to buffer: after some turns it is that of the buffer as many places
/// further on, and after as many turns as there are buffers it is the same one's again. How many
/// buffers there are and how long they are stays.
pub proof fn law_turn_goes_round(m: InfraModel, turns: nat)
    requires
        m.index < m.count,
    ensures
        m.after_turns(turns).index == (m.index + turns) % m.count,
        m.after_turns(turns).count == m.count,
        m.after_turns(turns).size == m.size,
        m.after_turns(m.count).index == m.index,
{
    lemma_after_turns(m, turns);
    lemma_after_turns(m, m.count);
    vstd::arithmetic::div_mod::lemma_mod_add_multiples_vanish(m.index as int, m.count as int);
    vstd::arithmetic::div_mod::lemma_small_mod(m.index, m.count);
}

proof fn lemma_after_turns(m: InfraModel, turns: nat)
    requires
        m.index < m.count,
    ensures
        m.after_turns(turns).index == (m.index + turns) % m.count,
        m.after_turns(turns).count == m.count,
        m.after_turns(turns).size == m.size,
    decreases turns,
{
    if turns > 0 {
        lemma_after_turns(m, (turns - 1) as nat);
        vstd::arithmetic::div_mod::lemma_add_mod_noop_right(
            1,
            (m.index + turns - 1) as int,
            m.count as int,
        );
    } else {
        vstd::arithmetic::div_mod::lemma_small_mod(m.index, m.count);
    }
}

/// A semaphore to be created.
#[derive(Debug)]
pub struct NewSemaphore {
    pub name: String,
    pub initial: u32,
}

/// The semaphores that count the free and the full buffers, with which a ring of buffers
/// starts. The first one is created first.
pub fn semaphores_to_open(resource_prefix: &str, params: InfraParams) -> (r: (
    NewSemaphore,
    NewSemaphore,
))
    ensures
        r.0.name@ == sem_name(resource_prefix@, "capture"@, "base"@) + "-semfree"@,
        r.0.initial == ring_start(params.buff_count as nat).free,
        r.1.name@ == sem_name(resource_prefix@, "capture"@, "base"@) + "-semfull"@,
        r.1.initial == ring_start(params.buff_count as nat).full,
        (r.0.name@, r.1.name@) == ring_semaphores(resource_prefix@),
{
    let FreeFullSemNames { free, full } = FreeFullSemNames::new(
        resource_prefix,
        "capture",
        "base",
    );
    (
        NewSemaphore { name: free, initial: params.buff_count },
        NewSemaphore { name: full, initial: 0 },
    )
}

/// The memory that is mapped for the buffers has room for every one of them, and no more.
pub proof fn law_memory_has_room_for_all_buffers(
    prefix: &str,
    count: u32,
    len: u32,
    r: (String, u32),
    i: nat,
)
    requires
        call_ensures(init_shmem, (prefix, count, len), r),
        count * len <= u32::MAX,
        i < count,
    ensures
        i * len + len <= r.1,
        i + 1 == count ==> i * len + len == r.1,
{
    assert((i + 1) * len == i * len + len) by (nonlinear_arith);
    assert((i + 1) * len <= count * len) by (nonlinear_arith)
        requires
            i + 1 <= count,
    ;
}

/// After a crash the reader is woken until it has seen every buffer twice, which is enough for a
/// row of as many empty buffers as there are, whatever came before.
pub proof fn law_reader_is_woken_often_enough(
    finalizer: &CrashFinalizerInfra,
    posted: u128,
    last: Result<(), String>,
    step: FlushStep,
)
    requires
        call_ensures(CrashFinalizerInfra::finalization_flush, (finalizer, posted, last), step),
    ensures
        step is Failed <==> last is Err,
        step is Finished ==> posted >= finalizer.buffers() + finalizer.buffers(),
        step is Post ==> posted < finalizer.buffers() + finalizer.buffers(),
{
}

/// What happens to the buffers.
pub enum RingEvent {
    /// the application takes a free buffer
    StartFilling,
    /// the application posts the buffer as full
    PostFull,
    /// the server takes a full buffer
    StartReading,
    /// the server posts the buffer as free
    PostFree,
}

/// The two semaphores, and how many buffers are being filled and read.
pub struct RingState {
    pub free: nat,
    pub full: nat,
    pub filling: nat,
    pub reading: nat,
}

/// The buffers after the semaphores were opened: all are free.
pub open spec fn ring_start(count: nat) -> RingState {
    RingState { free: count, full: 0, filling: 0, reading: 0 }
}

/// What an event makes of the buffers. None if the event cannot come: nobody gets past a
/// semaphore that is zero, nor posts a buffer that they do not hold.
pub open spec fn ring_step(state: RingState, event: RingEvent) -> Option<RingState> {
    match event {
        RingEvent::StartFilling => if state.free > 0 {
            Some(
                RingState { free: (state.free - 1) as nat, filling: state.filling + 1, ..state },
            )
        } else {
            None
        },
        RingEvent::PostFull => if state.filling > 0 {
            Some(
                RingState { filling: (state.filling - 1) as nat, full: state.full + 1, ..state },
            )
        } else {
            None
        },
        RingEvent::StartReading => if state.full > 0 {
            Some(
                RingState { full: (state.full - 1) as nat, reading: state.reading + 1, ..state },
            )
        } else {
            None
        },
        RingEvent::PostFree => if state.reading > 0 {
            Some(
                RingState { reading: (state.reading - 1) as nat, free: state.free + 1, ..state },
            )
        } else {
            None
        },
    }
}

/// What events make of the buffers, one after the other.
pub open spec fn ring_run(count: nat, events: Seq<RingEvent>) -> Option<RingState>
    decreases events.len(),
{
    if events.len() == 0 {
        Some(ring_start(count))
    } else {
        match ring_run(count, events.drop_last()) {
            None => None,
            Some(state) => ring_step(state, events.last()),
        }
    }
}

/// Every buffer is at any time either free, being filled, full or being read, so that none is
/// filled while it is read.
pub proof fn law_each_buffer_has_one_user(count: nat, events: Seq<RingEvent>)
    requires
        ring_run(count, events) is Some,
    ensures
        ({
            let state = ring_run(count, events)->Some_0;
            state.free + state.filling + state.full + state.reading == count
        }),
    decreases events.len(),
{
    if events.len() > 0 {
        law_each_buffer_has_one_user(count, events.drop_last());
    }
}

} // verus!
