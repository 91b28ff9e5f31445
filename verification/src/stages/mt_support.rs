//! Testing with support for threads: every call of every thread is tested with every packet.

use crate::error::Error;
use crate::shmem_capture::hooklib_commons::InfraParams;
use crate::stages::test_jobs::result_of;
use crate::stages::test_jobs::TestJobFailure;
use crate::stages::test_output::TestOutputPathGen;
use crate::stages::test_protocol::CallIndexT;
use crate::stages::test_protocol::LogResult;
use crate::stages::test_protocol::PacketIndexT;
use crate::stages::test_protocol::ResultModel;
use crate::stages::test_protocol::StatusModel;
use crate::stages::test_protocol::TestStatus;
use crate::stages::test_protocol::ThreadLidT;
use crate::stages::test_registry::RegisteredTest;
use crate::stages::test_registry::TestRegisryItem;
use crate::stages::test_registry::TestingMode;
use crate::stages::testing::CommonTestingPhaseStore;
use crate::stages::testing::JobModel;
use crate::stages::testing::JobRecord;
use crate::stages::testing::PartialRegistryItem;
use crate::stages::testing::new_round;
use crate::stages::testing::RecordModel;
use crate::stages::testing::RoundModel;
use crate::stages::testing::TestingPhase;
use crate::text::texts;
use std::sync::Arc;
use vstd::prelude::*;

verus! {

/// The test of a call of a thread with a packet.
pub open spec fn thread_case(
    partial: PartialRegistryItem,
    command: Seq<Seq<char>>,
    thread: nat,
    call: nat,
    packet: nat,
) -> RegisteredTest {
    RegisteredTest {
        item: TestRegisryItem {
            uid: partial.uid,
            call_index: CallIndexT(call as u32),
            packet_index: PacketIndexT(packet as u64),
            thread_lid: ThreadLidT(thread as u64),
            thread_count: partial.call_counts@.len() as u32,
            test_count: partial.test_count,
            timeout_test: partial.test_case_timeout,
            timeout_process: Some(partial.test_case_timeout),
            mode: TestingMode::MTCompatTesting,
        },
        cmdline: command,
    }
}

/// The tests of a call of a thread with the first packets.
pub open spec fn packet_cases(
    partial: PartialRegistryItem,
    command: Seq<Seq<char>>,
    thread: nat,
    call: nat,
    packets: nat,
) -> Seq<RegisteredTest> {
    Seq::new(packets, |p: int| thread_case(partial, command, thread, call, p as nat))
}

/// The tests of the first calls of a thread.
pub open spec fn call_cases(
    partial: PartialRegistryItem,
    command: Seq<Seq<char>>,
    thread: nat,
    calls: nat,
) -> Seq<RegisteredTest>
    decreases calls,
{
    if calls == 0 {
        Seq::empty()
    } else {
        call_cases(partial, command, thread, (calls - 1) as nat) + packet_cases(
            partial,
            command,
            thread,
            (calls - 1) as nat,
            partial.test_count as nat,
        )
    }
}

/// The tests of the first threads.
pub open spec fn thread_cases(
    partial: PartialRegistryItem,
    command: Seq<Seq<char>>,
    threads: nat,
) -> Seq<RegisteredTest>
    decreases threads,
{
    if threads == 0 {
        Seq::empty()
    } else {
        thread_cases(partial, command, (threads - 1) as nat) + call_cases(
            partial,
            command,
            (threads - 1) as nat,
            partial.call_counts@[threads - 1] as nat,
        )
    }
}

/// The tests of all threads.
pub open spec fn all_cases(partial: PartialRegistryItem, command: Seq<Seq<char>>) -> Seq<
    RegisteredTest,
> {
    thread_cases(partial, command, partial.call_counts@.len())
}

/// A call of the thread has no number.
pub open spec fn uncountable(partial: PartialRegistryItem, thread: int) -> bool {
    partial.test_count > 0 && partial.call_counts@[thread] > 0 && (partial.call_counts@.len()
        > u32::MAX || partial.call_counts@[thread] > 0x1_0000_0000)
}

/// The first thread, from the given one on, of which a call has no number. The number of threads
/// if there is none.
pub open spec fn first_uncountable(partial: PartialRegistryItem, from: nat) -> nat
    decreases partial.call_counts@.len() - from,
{
    if from >= partial.call_counts@.len() {
        partial.call_counts@.len()
    } else if uncountable(partial, from as int) {
        from
    } else {
        first_uncountable(partial, from + 1)
    }
}

/// How many calls of a thread are laid out before one comes that has no number.
pub open spec fn countable_calls(partial: PartialRegistryItem) -> nat {
    if partial.call_counts@.len() > u32::MAX {
        0
    } else {
        0x1_0000_0000
    }
}

proof fn lemma_first_uncountable(partial: PartialRegistryItem, from: nat, at: nat)
    requires
        from <= at <= partial.call_counts@.len(),
        forall|t: int| from <= t < at ==> !#[trigger] uncountable(partial, t),
        at < partial.call_counts@.len() ==> uncountable(partial, at as int),
    ensures
        first_uncountable(partial, from) == at,
    decreases at - from,
{
    if from < at {
        assert(!uncountable(partial, from as int));
        lemma_first_uncountable(partial, from + 1, at);
    }
}

proof fn lemma_calls_grow(
    partial: PartialRegistryItem,
    command: Seq<Seq<char>>,
    thread: nat,
    some: nat,
    more: nat,
)
    requires
        some <= more,
    ensures
        call_cases(partial, command, thread, some).len() <= call_cases(
            partial,
            command,
            thread,
            more,
        ).len(),
    decreases more,
{
    if some < more {
        lemma_calls_grow(partial, command, thread, some, (more - 1) as nat);
    }
}

proof fn lemma_threads_grow(
    partial: PartialRegistryItem,
    command: Seq<Seq<char>>,
    some: nat,
    more: nat,
)
    requires
        some <= more,
    ensures
        thread_cases(partial, command, some).len() <= thread_cases(partial, command, more).len(),
    decreases more,
{
    if some < more {
        lemma_threads_grow(partial, command, some, (more - 1) as nat);
    }
}

/// Tests a function with support for threads.
pub struct MTSupportTesting {
    common: CommonTestingPhaseStore,
}

impl MTSupportTesting {
    /// No test yet, and what tests will be run with.
    pub fn new(infra: InfraParams, out_gen: Arc<Option<TestOutputPathGen>>) -> (r: Self)
        ensures
            r.wf(),
            r.store().batch() == Seq::<RegisteredTest>::empty(),
            r.store().registered() == 0,
            r.store().infra() == infra,
            r.store().outputs() == *out_gen,
    {
        MTSupportTesting { common: CommonTestingPhaseStore::new(infra, out_gen) }
    }
}

impl TestingPhase for MTSupportTesting {
    closed spec fn wf(&self) -> bool {
        self.common.wf()
    }

    closed spec fn store(&self) -> CommonTestingPhaseStore {
        self.common
    }

    open spec fn round(&self, command: Seq<Seq<char>>, partial: PartialRegistryItem) -> RoundModel {
        let t = first_uncountable(partial, 0);
        if t < partial.call_counts@.len() {
            new_round(
                Err(Error::TooManyToCount),
                thread_cases(partial, command, t) + call_cases(
                    partial,
                    command,
                    t,
                    countable_calls(partial),
                ),
            )
        } else {
            new_round(
                Ok(all_cases(partial, command).len() > 0),
                all_cases(partial, command),
            )
        }
    }

    open spec fn can_prepare(&self, partial: PartialRegistryItem) -> bool {
        self.store().registered() + all_cases(partial, Seq::empty()).len() <= u64::MAX
    }

    open spec fn record_of(&self, test: TestRegisryItem, job: JobModel) -> RecordModel {
        match job {
            JobModel::Failure(failure) => RecordModel::Failure(failure),
            // maps GlobalTimeout to just Timeout - in the MT compat testing, we don't distinguish those
            JobModel::Status(StatusModel::GlobalTimeout) => RecordModel::Outcome(
                result_of(test, StatusModel::Timeout),
            ),
            JobModel::Status(status) => RecordModel::Outcome(result_of(test, status)),
        }
    }

    open spec fn has_next(&self) -> bool {
        false
    }

    #[verifier::loop_isolation(false)]
    fn prepare_cases(&mut self, command: &[String], partial: &PartialRegistryItem) -> (r: Result<
        bool,
        Error,
    >) {
        let ghost cmd = texts(command@);
        let ghost base = self.common.registered();
        let ghost total = all_cases(*partial, cmd).len();
        proof {
            lemma_lengths(*partial, Seq::empty(), cmd, partial.call_counts@.len());
        }
        self.common.clear();
        let test_count = partial.test_count;
        let threads = partial.call_counts.len();
        let mut thread_idx: usize = 0;
        proof {
            assert(self.common.batch() =~= thread_cases(*partial, cmd, 0));
        }
        while thread_idx < threads
            invariant
                thread_idx <= threads,
                self.common.wf(),
                self.common.infra() == old(self).common.infra(),
                self.common.outputs() == old(self).common.outputs(),
                self.common.batch() == thread_cases(*partial, cmd, thread_idx as nat),
                self.common.registered() == base + self.common.batch().len(),
                forall|t: int| 0 <= t < thread_idx ==> !#[trigger] uncountable(*partial, t),
            decreases threads - thread_idx,
        {
            let call_count = partial.call_counts[thread_idx];
            let mut call_index: u64 = 0;
            let ghost earlier = thread_cases(*partial, cmd, thread_idx as nat);
            proof {
                assert(self.common.batch() =~= earlier + call_cases(
                    *partial,
                    cmd,
                    thread_idx as nat,
                    0,
                ));
                lemma_threads_grow(*partial, cmd, thread_idx as nat + 1, threads as nat);
            }
            while call_index < call_count
                invariant
                    call_index <= call_count,
                    self.common.wf(),
                    self.common.infra() == old(self).common.infra(),
                    self.common.outputs() == old(self).common.outputs(),
                    self.common.batch() == earlier + call_cases(
                        *partial,
                        cmd,
                        thread_idx as nat,
                        call_index as nat,
                    ),
                    self.common.registered() == base + self.common.batch().len(),
                    test_count > 0 && call_index > 0 ==> threads <= u32::MAX && call_index
                        <= 0x1_0000_0000,
                decreases call_count - call_index,
            {
                let ghost before = self.common.batch();
                let mut packet_index: u32 = 0;
                proof {
                    assert(before =~= before + packet_cases(
                        *partial,
                        cmd,
                        thread_idx as nat,
                        call_index as nat,
                        0,
                    ));
                    lemma_calls_grow(
                        *partial,
                        cmd,
                        thread_idx as nat,
                        call_index as nat + 1,
                        call_count as nat,
                    );
                }
                while packet_index < test_count
                    invariant
                        packet_index <= test_count,
                        self.common.wf(),
                        self.common.infra() == old(self).common.infra(),
                        self.common.outputs() == old(self).common.outputs(),
                        self.common.batch() == before + packet_cases(
                            *partial,
                            cmd,
                            thread_idx as nat,
                            call_index as nat,
                            packet_index as nat,
                        ),
                        self.common.registered() == base + self.common.batch().len(),
                        packet_index > 0 ==> threads <= u32::MAX && call_index <= u32::MAX,
                    decreases test_count - packet_index,
                {
                    if call_index > u32::MAX as u64 || threads as u64 > u32::MAX as u64 {
                        proof {
                            assert(uncountable(*partial, thread_idx as int));
                            lemma_first_uncountable(*partial, 0, thread_idx as nat);
                            assert(self.common.batch() =~= before);
                            assert(call_index == countable_calls(*partial));
                        }
                        return Err(Error::TooManyToCount);
                    }
                    proof {
                        assert(self.common.batch().len() < total);
                    }
                    self.common.add(
                        TestRegisryItem {
                            uid: partial.uid,
                            call_index: CallIndexT(call_index as u32),
                            packet_index: PacketIndexT(packet_index as u64),
                            thread_lid: ThreadLidT(thread_idx as u64),
                            thread_count: threads as u32,
                            test_count,
                            timeout_test: partial.test_case_timeout,
                            timeout_process: Some(partial.test_case_timeout),
                            mode: TestingMode::MTCompatTesting,
                        },
                        command,
                    );
                    proof {
                        assert(self.common.batch() =~= before + packet_cases(
                            *partial,
                            cmd,
                            thread_idx as nat,
                            call_index as nat,
                            packet_index as nat + 1,
                        ));
                    }
                    packet_index += 1;
                }
                call_index += 1;
                proof {
                    assert(self.common.batch() =~= earlier + call_cases(
                        *partial,
                        cmd,
                        thread_idx as nat,
                        call_index as nat,
                    ));
                }
            }
            thread_idx += 1;
        }
        proof {
            lemma_first_uncountable(*partial, 0, threads as nat);
        }
        Ok(self.common.len() > 0)
    }

    fn can_prepare_cases(&self, partial: &PartialRegistryItem) -> (b: bool) {
        let room = u64::MAX - self.common.registered_count();
        let ghost cmd = Seq::<Seq<char>>::empty();
        let threads = partial.call_counts.len();
        let mut total: u64 = 0;
        let mut i: usize = 0;
        while i < threads
            invariant
                i <= threads,
                threads == partial.call_counts@.len(),
                total <= room,
                cmd == Seq::<Seq<char>>::empty(),
                room == u64::MAX - self.common.registered(),
                total == thread_cases(*partial, cmd, i as nat).len(),
            decreases threads - i,
        {
            let count = partial.call_counts[i];
            proof {
                lemma_call_count(*partial, cmd, i as nat, count as nat);
                lemma_threads_grow(*partial, cmd, i as nat + 1, threads as nat);
                assert(count * partial.test_count <= u64::MAX * u32::MAX) by (nonlinear_arith)
                    requires
                        count <= u64::MAX,
                        partial.test_count <= u32::MAX,
                ;
            }
            let more = count as u128 * partial.test_count as u128;
            proof {
                assert(thread_cases(*partial, cmd, i as nat + 1).len() == total + more);
            }
            if more > (room - total) as u128 {
                return false;
            }
            total += more as u64;
            i += 1;
        }
        true
    }

    fn tests(&self) -> (r: &CommonTestingPhaseStore) {
        &self.common
    }

    fn record(&self, test: &TestRegisryItem, outcome: Result<TestStatus, TestJobFailure>) -> (r:
        JobRecord) {
        match outcome {
            Err(e) => JobRecord::Failure(e),
            // maps GlobalTimeout to just Timeout - in the MT compat testing, we don't distinguish those
            Ok(TestStatus::GlobalTimeout) => JobRecord::Outcome(
                LogResult::from_test(test, TestStatus::Timeout),
            ),
            Ok(status) => JobRecord::Outcome(LogResult::from_test(test, status)),
        }
    }

    fn next_batch(&self) -> (r: Option<()>) {
        None
    }
}

/// The end of every job is kept, under the test whose job it was: function, call, packet and
/// thread are those of the test, with the call counted from one. That the time of the process was
/// up is kept as that the time of the test was up, every other status as it is.
pub proof fn law_every_end_is_recorded(
    phase: MTSupportTesting,
    test: TestRegisryItem,
    status: StatusModel,
    failure: ResultModel,
)
    requires
        test.call_index.0 < u32::MAX,
    ensures
        phase.record_of(test, JobModel::Failure(failure)) == RecordModel::Failure(failure),
        match phase.record_of(test, JobModel::Status(status)) {
            RecordModel::Outcome(result) => {
                &&& result.uid == test.uid
                &&& result.call.0 == test.call_index.0 + 1
                &&& result.pkt == test.packet_index
                &&& result.thread_lid == test.thread_lid
                &&& status is GlobalTimeout ==> result.status is Timeout
                &&& !(status is GlobalTimeout) ==> result.status == status
            },
            _ => false,
        },
{
}

proof fn lemma_call_lengths(
    partial: PartialRegistryItem,
    one: Seq<Seq<char>>,
    other: Seq<Seq<char>>,
    thread: nat,
    calls: nat,
)
    ensures
        call_cases(partial, one, thread, calls).len() == call_cases(
            partial,
            other,
            thread,
            calls,
        ).len(),
    decreases calls,
{
    if calls > 0 {
        lemma_call_lengths(partial, one, other, thread, (calls - 1) as nat);
    }
}

proof fn lemma_call_count(
    partial: PartialRegistryItem,
    command: Seq<Seq<char>>,
    thread: nat,
    calls: nat,
)
    ensures
        call_cases(partial, command, thread, calls).len() == calls * partial.test_count,
    decreases calls,
{
    if calls > 0 {
        let before = (calls - 1) as nat;
        lemma_call_count(partial, command, thread, before);
        assert(before * partial.test_count + partial.test_count == calls * partial.test_count)
            by (nonlinear_arith)
            requires
                calls == before + 1,
        ;
    } else {
        assert(0 * partial.test_count == 0) by (nonlinear_arith);
    }
}

/// How many tests there are does not depend on the command.
proof fn lemma_lengths(
    partial: PartialRegistryItem,
    one: Seq<Seq<char>>,
    other: Seq<Seq<char>>,
    threads: nat,
)
    ensures
        thread_cases(partial, one, threads).len() == thread_cases(partial, other, threads).len(),
    decreases threads,
{
    if threads > 0 {
        lemma_lengths(partial, one, other, (threads - 1) as nat);
        lemma_call_lengths(
            partial,
            one,
            other,
            (threads - 1) as nat,
            partial.call_counts@[threads - 1] as nat,
        );
    }
}

/// The calls and packets that a test can be of: a call that the thread made, and a packet that
/// there is.
pub open spec fn is_case(partial: PartialRegistryItem, thread: nat, call: nat, packet: nat) -> bool {
    &&& thread < partial.call_counts@.len()
    &&& call < partial.call_counts@[thread as int]
    &&& packet < partial.test_count
}

/// The threads and calls can be told apart by their numbers.
pub open spec fn countable(partial: PartialRegistryItem) -> bool {
    &&& partial.call_counts@.len() <= u32::MAX
    &&& forall|t: int|
        0 <= t < partial.call_counts@.len() ==> #[trigger] partial.call_counts@[t]
            <= 0x1_0000_0000
}

/// The test is one of a call of this thread before the given call.
spec fn of_thread(test: RegisteredTest, thread: nat, calls: nat) -> bool {
    test.item.thread_lid.0 == thread && test.item.call_index.0 < calls
}

proof fn lemma_call_cases(
    partial: PartialRegistryItem,
    command: Seq<Seq<char>>,
    thread: nat,
    calls: nat,
)
    requires
        countable(partial),
        thread < partial.call_counts@.len(),
        calls <= partial.call_counts@[thread as int],
    ensures
        call_cases(partial, command, thread, calls).no_duplicates(),
        forall|i: int|
            0 <= i < call_cases(partial, command, thread, calls).len() ==> of_thread(
                #[trigger] call_cases(partial, command, thread, calls)[i],
                thread,
                calls,
            ),
        forall|c: nat, p: nat|
            c < calls && p < partial.test_count ==> call_cases(
                partial,
                command,
                thread,
                calls,
            ).contains(#[trigger] thread_case(partial, command, thread, c, p)),
    decreases calls,
{
    if calls > 0 {
        let last = (calls - 1) as nat;
        let earlier = call_cases(partial, command, thread, last);
        let new = packet_cases(partial, command, thread, last, partial.test_count as nat);
        let all = call_cases(partial, command, thread, calls);
        lemma_call_cases(partial, command, thread, last);
        assert(last <= u32::MAX);
        assert forall|i: int, j: int|
            0 <= i < all.len() && 0 <= j < all.len() && i != j implies all[i] != all[j] by {
            if i >= earlier.len() {
                assert(all[i] == new[i - earlier.len()]);
                assert(all[i].item.call_index.0 == last);
                assert(all[i].item.packet_index.0 == i - earlier.len());
            } else {
                assert(of_thread(earlier[i], thread, last));
            }
            if j >= earlier.len() {
                assert(all[j] == new[j - earlier.len()]);
                assert(all[j].item.call_index.0 == last);
                assert(all[j].item.packet_index.0 == j - earlier.len());
            } else {
                assert(of_thread(earlier[j], thread, last));
            }
        }
        assert forall|i: int| 0 <= i < all.len() implies of_thread(
            #[trigger] all[i],
            thread,
            calls,
        ) by {
            if i < earlier.len() {
                assert(of_thread(earlier[i], thread, last));
            } else {
                assert(all[i] == new[i - earlier.len()]);
            }
        }
        assert forall|c: nat, p: nat| c < calls && p < partial.test_count implies all.contains(
            #[trigger] thread_case(partial, command, thread, c, p),
        ) by {
            let case = thread_case(partial, command, thread, c, p);
            if c < last {
                assert(earlier.contains(case));
                let k = earlier.index_of(case);
                assert(all[k] == case);
            } else {
                assert(new[p as int] == case);
                assert(all[(earlier.len() + p) as int] == case);
            }
        }
    }
}

proof fn lemma_thread_cases(
    partial: PartialRegistryItem,
    command: Seq<Seq<char>>,
    threads: nat,
)
    requires
        countable(partial),
        threads <= partial.call_counts@.len(),
    ensures
        thread_cases(partial, command, threads).no_duplicates(),
        forall|i: int|
            0 <= i < thread_cases(partial, command, threads).len() ==> (#[trigger] thread_cases(
                partial,
                command,
                threads,
            )[i]).item.thread_lid.0 < threads,
        forall|t: nat, c: nat, p: nat|
            t < threads && is_case(partial, t, c, p) ==> thread_cases(
                partial,
                command,
                threads,
            ).contains(#[trigger] thread_case(partial, command, t, c, p)),
    decreases threads,
{
    if threads > 0 {
        let last = (threads - 1) as nat;
        let count = partial.call_counts@[last as int] as nat;
        let earlier = thread_cases(partial, command, last);
        let new = call_cases(partial, command, last, count);
        let all = thread_cases(partial, command, threads);
        lemma_thread_cases(partial, command, last);
        lemma_call_cases(partial, command, last, count);
        assert forall|i: int| 0 <= i < all.len() implies (#[trigger] all[i]).item.thread_lid.0
            < threads && (i < earlier.len() <==> all[i].item.thread_lid.0 < last) by {
            if i < earlier.len() {
                assert(all[i] == earlier[i]);
            } else {
                assert(all[i] == new[i - earlier.len()]);
                assert(of_thread(new[i - earlier.len()], last, count));
            }
        }
        assert forall|i: int, j: int|
            0 <= i < all.len() && 0 <= j < all.len() && i != j implies all[i] != all[j] by {
            if i < earlier.len() && j < earlier.len() {
                assert(all[i] == earlier[i] && all[j] == earlier[j]);
            } else if i >= earlier.len() && j >= earlier.len() {
                assert(all[i] == new[i - earlier.len()] && all[j] == new[j - earlier.len()]);
            }
        }
        assert forall|t: nat, c: nat, p: nat|
            t < threads && is_case(partial, t, c, p) implies all.contains(
            #[trigger] thread_case(partial, command, t, c, p),
        ) by {
            let case = thread_case(partial, command, t, c, p);
            if t < last {
                assert(earlier.contains(case));
                let k = earlier.index_of(case);
                assert(all[k] == case);
            } else {
                assert(new.contains(case));
                let k = new.index_of(case);
                assert(all[earlier.len() + k] == case);
            }
        }
    }
}

/// The test is of a call of one of the first threads, or of one of the first calls of the next
/// thread.
spec fn within(
    test: RegisteredTest,
    partial: PartialRegistryItem,
    thread: nat,
    calls: nat,
) -> bool {
    let t = test.item.thread_lid.0 as int;
    let c = test.item.call_index.0 as int;
    &&& t < thread || t == thread && c < calls
    &&& t < partial.call_counts@.len()
    &&& c < partial.call_counts@[t]
    &&& test.item.packet_index.0 < partial.test_count
}

/// The test comes before the other one: by thread, then by call, then by packet.
spec fn comes_before(a: RegisteredTest, b: RegisteredTest) -> bool {
    let (x, y) = (a.item, b.item);
    ||| x.thread_lid.0 < y.thread_lid.0
    ||| x.thread_lid.0 == y.thread_lid.0 && {
        ||| x.call_index.0 < y.call_index.0
        ||| x.call_index.0 == y.call_index.0 && x.packet_index.0 < y.packet_index.0
    }
}

proof fn lemma_calls_in_order(
    partial: PartialRegistryItem,
    command: Seq<Seq<char>>,
    thread: nat,
    calls: nat,
)
    requires
        countable(partial),
        thread < partial.call_counts@.len(),
        calls <= partial.call_counts@[thread as int],
    ensures
        ({
            let tests = call_cases(partial, command, thread, calls);
            &&& forall|i: int|
                0 <= i < tests.len() ==> (#[trigger] tests[i]).item.thread_lid.0 == thread && within(
                    tests[i],
                    partial,
                    thread,
                    calls,
                )
            &&& forall|i: int, j: int|
                0 <= i < j < tests.len() ==> comes_before(#[trigger] tests[i], #[trigger] tests[j])
        }),
    decreases calls,
{
    if calls > 0 {
        let last = (calls - 1) as nat;
        lemma_calls_in_order(partial, command, thread, last);
        let earlier = call_cases(partial, command, thread, last);
        let new = packet_cases(partial, command, thread, last, partial.test_count as nat);
        let tests = call_cases(partial, command, thread, calls);
        assert(last <= u32::MAX);
        assert forall|i: int| 0 <= i < tests.len() implies (#[trigger] tests[i]).item.thread_lid.0
            == thread && within(tests[i], partial, thread, calls) by {
            if i < earlier.len() {
                assert(tests[i] == earlier[i]);
            } else {
                assert(tests[i] == new[i - earlier.len()]);
            }
        }
        assert forall|i: int, j: int| 0 <= i < j < tests.len() implies comes_before(
            #[trigger] tests[i],
            #[trigger] tests[j],
        ) by {
            if j < earlier.len() {
                assert(tests[i] == earlier[i] && tests[j] == earlier[j]);
            } else {
                assert(tests[j] == new[j - earlier.len()]);
                if i < earlier.len() {
                    assert(tests[i] == earlier[i]);
                    assert(within(earlier[i], partial, thread, last));
                } else {
                    assert(tests[i] == new[i - earlier.len()]);
                }
            }
        }
    }
}

proof fn lemma_threads_in_order(
    partial: PartialRegistryItem,
    command: Seq<Seq<char>>,
    threads: nat,
)
    requires
        countable(partial),
        threads <= partial.call_counts@.len(),
    ensures
        ({
            let tests = thread_cases(partial, command, threads);
            &&& forall|i: int|
                0 <= i < tests.len() ==> within(
                    #[trigger] tests[i],
                    partial,
                    threads,
                    0,
                )
            &&& forall|i: int, j: int|
                0 <= i < j < tests.len() ==> comes_before(#[trigger] tests[i], #[trigger] tests[j])
        }),
    decreases threads,
{
    if threads > 0 {
        let last = (threads - 1) as nat;
        let count = partial.call_counts@[last as int] as nat;
        lemma_threads_in_order(partial, command, last);
        lemma_calls_in_order(partial, command, last, count);
        let earlier = thread_cases(partial, command, last);
        let new = call_cases(partial, command, last, count);
        let tests = thread_cases(partial, command, threads);
        assert forall|i: int| 0 <= i < tests.len() implies within(
            #[trigger] tests[i],
            partial,
            threads,
            0,
        ) by {
            if i < earlier.len() {
                assert(tests[i] == earlier[i]);
            } else {
                assert(tests[i] == new[i - earlier.len()]);
            }
        }
        assert forall|i: int, j: int| 0 <= i < j < tests.len() implies comes_before(
            #[trigger] tests[i],
            #[trigger] tests[j],
        ) by {
            if j < earlier.len() {
                assert(tests[i] == earlier[i] && tests[j] == earlier[j]);
            } else {
                assert(tests[j] == new[j - earlier.len()]);
                if i < earlier.len() {
                    assert(tests[i] == earlier[i]);
                    assert(within(earlier[i], partial, last, 0));
                } else {
                    assert(tests[i] == new[i - earlier.len()]);
                }
            }
        }
    }
}

proof fn lemma_call_cases_are_of(
    partial: PartialRegistryItem,
    command: Seq<Seq<char>>,
    thread: nat,
    calls: nat,
    i: int,
)
    requires
        0 <= i < call_cases(partial, command, thread, calls).len(),
    ensures
        exists|c: nat, p: nat|
            call_cases(partial, command, thread, calls)[i] == #[trigger] thread_case(
                partial,
                command,
                thread,
                c,
                p,
            ),
    decreases calls,
{
    let last = (calls - 1) as nat;
    let earlier = call_cases(partial, command, thread, last);
    if i < earlier.len() {
        lemma_call_cases_are_of(partial, command, thread, last, i);
    } else {
        let p = (i - earlier.len()) as nat;
        assert(call_cases(partial, command, thread, calls)[i] == thread_case(
            partial,
            command,
            thread,
            last,
            p,
        ));
    }
}

proof fn lemma_thread_cases_are_of(
    partial: PartialRegistryItem,
    command: Seq<Seq<char>>,
    threads: nat,
    i: int,
)
    requires
        0 <= i < thread_cases(partial, command, threads).len(),
    ensures
        exists|t: nat, c: nat, p: nat|
            thread_cases(partial, command, threads)[i] == #[trigger] thread_case(
                partial,
                command,
                t,
                c,
                p,
            ),
    decreases threads,
{
    let last = (threads - 1) as nat;
    let earlier = thread_cases(partial, command, last);
    if i < earlier.len() {
        lemma_thread_cases_are_of(partial, command, last, i);
    } else {
        lemma_call_cases_are_of(
            partial,
            command,
            last,
            partial.call_counts@[last as int] as nat,
            i - earlier.len(),
        );
    }
}

/// Every test that is laid out for a function is a test of that function, is run by the command
/// that was given, with the given time limits, and is told how many packets there are.
pub proof fn law_tests_are_of_the_function(
    phase: MTSupportTesting,
    partial: PartialRegistryItem,
    command: Seq<Seq<char>>,
    i: int,
)
    requires
        0 <= i < phase.round(command, partial).tests.len(),
    ensures
        ({
            let test = phase.round(command, partial).tests[i];
            &&& test.item.uid.module_id.0 == partial.uid.module_id.0
            &&& test.item.uid.function_id.0 == partial.uid.function_id.0
            &&& test.item.test_count == partial.test_count
            &&& test.item.timeout_test == partial.test_case_timeout
            &&& test.item.timeout_process == Some(partial.test_case_timeout)
            &&& partial.call_counts@.len() <= u32::MAX ==> test.item.thread_count
                == partial.call_counts@.len()
            &&& test.item.mode is MTCompatTesting
            &&& test.cmdline == command
        }),
{
    let t = first_uncountable(partial, 0);
    if t < partial.call_counts@.len() {
        let front = thread_cases(partial, command, t);
        if i < front.len() {
            lemma_thread_cases_are_of(partial, command, t, i);
        } else {
            lemma_call_cases_are_of(partial, command, t, countable_calls(partial), i - front.len());
        }
    } else {
        lemma_thread_cases_are_of(partial, command, partial.call_counts@.len(), i);
    }
}

/// Which tests are laid out: one for each call of each thread and each packet, by thread, then by
/// call, then by packet. There is something to run if there is such a test.
pub proof fn law_tests_go_through_threads_calls_and_packets(
    phase: MTSupportTesting,
    partial: PartialRegistryItem,
    command: Seq<Seq<char>>,
)
    requires
        countable(partial),
    ensures
        ({
            let round = phase.round(command, partial);
            &&& round.result == Ok::<bool, Error>(round.tests.len() > 0)
            &&& round.added == round.tests.len()
            &&& forall|i: int|
                0 <= i < round.tests.len() ==> {
                    let item = (#[trigger] round.tests[i]).item;
                    &&& item.thread_lid.0 < partial.call_counts@.len()
                    &&& item.call_index.0 < partial.call_counts@[item.thread_lid.0 as int]
                    &&& item.packet_index.0 < partial.test_count
                }
            &&& forall|i: int, j: int|
                0 <= i < j < round.tests.len() ==> {
                    let (a, b) = ((#[trigger] round.tests[i]).item, (#[trigger] round.tests[j]).item);
                    ||| a.thread_lid.0 < b.thread_lid.0
                    ||| a.thread_lid.0 == b.thread_lid.0 && {
                        ||| a.call_index.0 < b.call_index.0
                        ||| a.call_index.0 == b.call_index.0 && a.packet_index.0
                            < b.packet_index.0
                    }
                }
            &&& forall|t: int, c: int, p: int|
                #![trigger tested(round.tests, t, c, p)]
                0 <= t < partial.call_counts@.len() && 0 <= c < partial.call_counts@[t] && 0 <= p
                    < partial.test_count ==> tested(round.tests, t, c, p)
        }),
{
    let round = phase.round(command, partial);
    let n = partial.call_counts@.len();
    assert forall|t: int| 0 <= t < n implies !#[trigger] uncountable(partial, t) by {
        assert(partial.call_counts@[t] <= 0x1_0000_0000);
    }
    lemma_first_uncountable(partial, 0, n);
    lemma_threads_in_order(partial, command, n);
    law_every_call_is_tested_once(partial, command);
    assert forall|i: int| 0 <= i < round.tests.len() implies {
        let item = (#[trigger] round.tests[i]).item;
        &&& item.thread_lid.0 < partial.call_counts@.len()
        &&& item.call_index.0 < partial.call_counts@[item.thread_lid.0 as int]
        &&& item.packet_index.0 < partial.test_count
    } by {
        assert(within(round.tests[i], partial, n, 0));
    }
    assert forall|i: int, j: int| 0 <= i < j < round.tests.len() implies {
        let (a, b) = ((#[trigger] round.tests[i]).item, (#[trigger] round.tests[j]).item);
        ||| a.thread_lid.0 < b.thread_lid.0
        ||| a.thread_lid.0 == b.thread_lid.0 && {
            ||| a.call_index.0 < b.call_index.0
            ||| a.call_index.0 == b.call_index.0 && a.packet_index.0 < b.packet_index.0
        }
    } by {
        assert(comes_before(round.tests[i], round.tests[j]));
    }
    assert forall|t: int, c: int, p: int|
        #![trigger tested(round.tests, t, c, p)]
        0 <= t < partial.call_counts@.len() && 0 <= c < partial.call_counts@[t] && 0 <= p
            < partial.test_count implies tested(round.tests, t, c, p) by {
        assert(partial.call_counts@[t] <= 0x1_0000_0000);
        let case = thread_case(partial, command, t as nat, c as nat, p as nat);
        assert(is_case(partial, t as nat, c as nat, p as nat));
        assert(round.tests.contains(case));
        let i = round.tests.index_of(case);
        assert(round.tests[i].item.thread_lid.0 == t);
    }
}

/// One of the tests is of the call of the thread, with the packet.
pub open spec fn tested(tests: Seq<RegisteredTest>, thread: int, call: int, packet: int) -> bool {
    exists|i: int|
        0 <= i < tests.len() && (#[trigger] tests[i]).item.thread_lid.0 == thread
            && tests[i].item.call_index.0 == call && tests[i].item.packet_index.0 == packet
}

/// Every call of every thread is tested with every packet, and no test is laid out twice.
pub proof fn law_every_call_is_tested_once(partial: PartialRegistryItem, command: Seq<Seq<char>>)
    requires
        countable(partial),
    ensures
        all_cases(partial, command).no_duplicates(),
        forall|t: nat, c: nat, p: nat|
            is_case(partial, t, c, p) ==> all_cases(partial, command).contains(
                #[trigger] thread_case(partial, command, t, c, p),
            ),
{
    lemma_thread_cases(partial, command, partial.call_counts@.len());
}

} // verus!
