//! Plain testing: one run for each call, in which the application goes through the packets.

use crate::error::Error;
use crate::shmem_capture::hooklib_commons::InfraParams;
use crate::stages::test_jobs::result_of;
use crate::stages::test_jobs::TestJobFailure;
use crate::stages::test_output::TestOutputPathGen;
use crate::stages::test_protocol::CallIndexT;
use crate::stages::test_protocol::LogResult;
use crate::stages::test_protocol::PacketIndexT;
use crate::stages::test_protocol::ResultModel;
use crate::stages::test_protocol::StatusModel;
use crate::stages::test_protocol::TestStatus;
use crate::stages::test_protocol::ThreadLidT;
use crate::stages::test_registry::RegisteredTest;
use crate::stages::test_registry::TestRegisryItem;
use crate::stages::test_registry::TestingMode;
use crate::stages::testing::CommonTestingPhaseStore;
use crate::stages::testing::JobModel;
use crate::stages::testing::JobRecord;
use crate::stages::testing::PartialRegistryItem;
use crate::stages::testing::new_round;
use crate::stages::testing::RecordModel;
use crate::stages::testing::RoundModel;
use crate::stages::testing::TestingPhase;
use crate::text::texts;
use std::sync::Arc;
use vstd::prelude::*;

verus! {

/// The tests of the first calls.
pub open spec fn basic_cases(
    partial: PartialRegistryItem,
    command: Seq<Seq<char>>,
    calls: nat,
) -> Seq<RegisteredTest> {
    Seq::new(
        calls,
        |i: int|
            RegisteredTest {
                item: TestRegisryItem {
                    uid: partial.uid,
                    call_index: CallIndexT(i as u32),
                    packet_index: PacketIndexT(0),
                    thread_lid: ThreadLidT(0),
                    thread_count: partial.call_counts@.len() as u32,
                    test_count: partial.test_count,
                    timeout_test: partial.test_case_timeout,
                    timeout_process: partial.global_timeout,
                    mode: TestingMode::Testing,
                },
                cmdline: command,
            },
    )
}

/// Tests a function call by call.
pub struct BasicTesting {
    common: CommonTestingPhaseStore,
}

impl BasicTesting {
    /// No test yet, and what tests will be run with.
    pub fn new(infra: InfraParams, out_gen: Arc<Option<TestOutputPathGen>>) -> (r: Self)
        ensures
            r.wf(),
            r.store().batch() == Seq::<RegisteredTest>::empty(),
            r.store().registered() == 0,
            r.store().infra() == infra,
            r.store().outputs() == *out_gen,
    {
        BasicTesting { common: CommonTestingPhaseStore::new(infra, out_gen) }
    }
}

impl TestingPhase for BasicTesting {
    closed spec fn wf(&self) -> bool {
        self.common.wf()
    }

    closed spec fn store(&self) -> CommonTestingPhaseStore {
        self.common
    }

    open spec fn round(&self, command: Seq<Seq<char>>, partial: PartialRegistryItem) -> RoundModel {
        if partial.test_count > 0 && partial.call_counts@.len() > u32::MAX {
            new_round(Err(Error::TooManyToCount), Seq::empty())
        } else {
            new_round(
                Ok(partial.test_count > 0),
                basic_cases(partial, command, partial.test_count as nat),
            )
        }
    }

    open spec fn can_prepare(&self, partial: PartialRegistryItem) -> bool {
        self.store().registered() + partial.test_count <= u64::MAX
    }

    open spec fn record_of(&self, test: TestRegisryItem, job: JobModel) -> RecordModel {
        match job {
            JobModel::Failure(failure) => RecordModel::Failure(failure),
            JobModel::Status(status) => match status {
                StatusModel::GlobalTimeout | StatusModel::Spurious(_) | StatusModel::Fatal(_) =>
                RecordModel::Outcome(result_of(test, status)),
                _ => RecordModel::Skipped,
            },
        }
    }

    open spec fn has_next(&self) -> bool {
        false
    }

    #[verifier::loop_isolation(false)]
    fn prepare_cases(&mut self, command: &[String], partial: &PartialRegistryItem) -> (r: Result<
        bool,
        Error,
    >) {
        let ghost cmd = texts(command@);
        let ghost base = self.common.registered();
        self.common.clear();
        let test_count = partial.test_count;
        let threads = partial.call_counts.len();
        let mut call_idx: u32 = 0;
        proof {
            assert(self.common.batch() =~= basic_cases(*partial, cmd, 0));
        }
        while call_idx < test_count
            invariant
                call_idx <= test_count,
                self.common.wf(),
                self.common.infra() == old(self).common.infra(),
                self.common.outputs() == old(self).common.outputs(),
                self.common.batch() == basic_cases(*partial, cmd, call_idx as nat),
                self.common.registered() == base + call_idx,
                call_idx > 0 ==> threads <= u32::MAX,
            decreases test_count - call_idx,
        {
            if threads as u64 > u32::MAX as u64 {
                return Err(Error::TooManyToCount);
            }
            self.common.add(
                TestRegisryItem {
                    uid: partial.uid,
                    call_index: CallIndexT(call_idx),
                    packet_index: PacketIndexT(0),
                    thread_lid: ThreadLidT(0),
                    thread_count: threads as u32,
                    test_count,
                    timeout_test: partial.test_case_timeout,
                    timeout_process: partial.global_timeout,
                    mode: TestingMode::Testing,
                },
                command,
            );
            proof {
                assert(self.common.batch() =~= basic_cases(*partial, cmd, call_idx as nat + 1));
            }
            call_idx += 1;
        }
        Ok(self.common.len() > 0)
    }

    fn can_prepare_cases(&self, partial: &PartialRegistryItem) -> (b: bool) {
        self.common.registered_count() <= u64::MAX - partial.test_count as u64
    }

    fn tests(&self) -> (r: &CommonTestingPhaseStore) {
        &self.common
    }

    fn record(&self, test: &TestRegisryItem, outcome: Result<TestStatus, TestJobFailure>) -> (r:
        JobRecord) {
        match outcome {
            Err(e) => JobRecord::Failure(e),
            Ok(TestStatus::GlobalTimeout) => JobRecord::Outcome(
                LogResult::from_test(test, TestStatus::GlobalTimeout),
            ),
            Ok(TestStatus::Spurious(m)) => JobRecord::Outcome(
                LogResult::from_test(test, TestStatus::Spurious(m)),
            ),
            Ok(TestStatus::Fatal(m)) => JobRecord::Outcome(
                LogResult::from_test(test, TestStatus::Fatal(m)),
            ),
            Ok(_) => JobRecord::Skipped,
        }
    }

    fn next_batch(&self) -> (r: Option<()>) {
        None
    }
}

/// The tests that are laid out for a function are tests of that function, one for each call, in
/// order, in whose run the application goes through all the packets. Each is run by the command
/// that was given, with the given time limits.
pub proof fn law_tests_are_of_the_function(
    phase: BasicTesting,
    partial: PartialRegistryItem,
    command: Seq<Seq<char>>,
)
    requires
        partial.call_counts@.len() <= u32::MAX,
    ensures
        ({
            let round = phase.round(command, partial);
            &&& round.result == Ok::<bool, Error>(partial.test_count > 0)
            &&& round.tests.len() == partial.test_count
            &&& round.added == partial.test_count
            &&& forall|i: int|
                0 <= i < round.tests.len() ==> {
                    let test = #[trigger] round.tests[i];
                    &&& test.item.uid.module_id.0 == partial.uid.module_id.0
                    &&& test.item.uid.function_id.0 == partial.uid.function_id.0
                    &&& test.item.call_index.0 == i
                    &&& test.item.packet_index.0 == 0
                    &&& test.item.thread_lid.0 == 0
                    &&& test.item.thread_count == partial.call_counts@.len()
                    &&& test.item.test_count == partial.test_count
                    &&& test.item.timeout_test == partial.test_case_timeout
                    &&& test.item.timeout_process == partial.global_timeout
                    &&& test.item.mode is Testing
                    &&& test.cmdline == command
                }
        }),
{
}

/// What a client reports itself is not recorded again, all else is: a result is kept exactly if
/// the test could not be run to its end or the time of its process was up.
pub proof fn law_only_what_no_client_reports_is_recorded(
    phase: BasicTesting,
    test: TestRegisryItem,
    status: StatusModel,
)
    ensures
        match phase.record_of(test, JobModel::Status(status)) {
            RecordModel::Outcome(result) => {
                &&& !(status is Pass || status is Exception || status is Timeout)
                &&& !(status is Exit || status is Signal)
                &&& result.status == status
                &&& result.uid == test.uid
                &&& result.pkt == test.packet_index
                &&& result.thread_lid == test.thread_lid
                &&& test.call_index.0 < u32::MAX ==> result.call.0 == test.call_index.0 + 1
            },
            RecordModel::Skipped => status is Pass || status is Exception || status is Timeout
                || status is Exit || status is Signal,
            RecordModel::Failure(_) => false,
        },
{
}

/// A failure is kept as it is.
pub proof fn law_failures_are_recorded(
    phase: BasicTesting,
    test: TestRegisryItem,
    failure: ResultModel,
)
    ensures
        phase.record_of(test, JobModel::Failure(failure)) == RecordModel::Failure(failure),
{
}

} // verus!
