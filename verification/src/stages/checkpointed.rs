//! Testing with checkpoints: the application is run up to each call once, and the tests of the
//! call start from the checkpoint made there.

use crate::error::Error;
use crate::shmem_capture::hooklib_commons::InfraParams;
use crate::stages::mt_support::packet_cases;
use crate::stages::test_jobs::result_of;
use crate::stages::test_jobs::CheckpointJobMode;
use crate::stages::test_jobs::TestJobFailure;
use crate::stages::test_output::stored_after_checkpoint;
use crate::stages::test_output::CheckpointPaths;
use crate::stages::test_output::StorePlan;
use crate::stages::test_output::TestOutputPathGen;
use crate::stages::test_protocol::CallIndexT;
use crate::stages::test_protocol::LogResult;
use crate::stages::test_protocol::PacketIndexT;
use crate::stages::test_protocol::ResultModel;
use crate::stages::test_protocol::StatusModel;
use crate::stages::test_protocol::TestStatus;
use crate::stages::test_protocol::ThreadLidT;
use crate::stages::test_registry::RegisteredTest;
use crate::stages::test_registry::TestRegisryItem;
use crate::stages::test_registry::TestingMode;
use crate::stages::testing::CommonTestingPhaseStore;
use crate::stages::testing::JobModel;
use crate::stages::testing::JobRecord;
use crate::stages::testing::PartialRegistryItem;
use crate::stages::testing::new_round;
use crate::stages::testing::RecordModel;
use crate::stages::testing::RoundModel;
use crate::stages::testing::TestingPhase;
use crate::text::copy_texts;
use crate::text::texts;
use std::sync::Arc;
use vstd::prelude::*;

verus! {

/// The call at which the next checkpoint is made.
#[derive(Copy, Clone, Debug, PartialEq, Eq, Structural)]
pub enum CheckpointState {
    PureStart,
    Checkpoint(ThreadLidT, CallIndexT),
    End,
}

/// The thread and the call of the next checkpoint. None at the end.
pub open spec fn upcoming_call(state: CheckpointState) -> Option<(nat, nat)> {
    match state {
        CheckpointState::PureStart => Some((0, 0)),
        CheckpointState::Checkpoint(t, c) => Some((t.0 as nat, c.0 as nat)),
        CheckpointState::End => None,
    }
}

/// Where the checkpoint after the next one is made: at the next call of the thread, or at the
/// first one of the next thread.
pub open spec fn following(state: CheckpointState, counts: Seq<u64>) -> CheckpointState {
    match upcoming_call(state) {
        None => CheckpointState::End,
        Some((t, c)) => if c + 1 < counts[t as int] {
            CheckpointState::Checkpoint(ThreadLidT(t as u64), CallIndexT((c + 1) as u32))
        } else if t + 1 < counts.len() {
            CheckpointState::Checkpoint(ThreadLidT((t + 1) as u64), CallIndexT(0))
        } else {
            CheckpointState::End
        },
    }
}

/// The test in whose run the checkpoint is made.
pub open spec fn checkpoint_item(partial: PartialRegistryItem, thread: nat, call: nat) ->
    TestRegisryItem {
    TestRegisryItem {
        uid: partial.uid,
        call_index: CallIndexT(call as u32),
        // "DC" = disregard / "don't care"
        packet_index: PacketIndexT(0),  // DC
        thread_lid: ThreadLidT(thread as u64),
        thread_count: partial.call_counts@.len() as u32,
        test_count: 0,  // DC
        timeout_test: partial.test_case_timeout,  // this should be "DC"
        timeout_process: partial.global_timeout,
        mode: TestingMode::CheckpointedTesting(true),
    }
}

/// Why the run of a round's checkpoint is not good enough to go on with.
#[derive(Debug)]
pub enum CheckpointFailure {
    /// the job failed
    Job(TestJobFailure),
    /// the job ended with a fatal status
    Fatal(String),
    /// the program says that the checkpoint failed, see job output
    Refused,
}

/// the exit code by which a program says that the checkpoint failed
pub const CHECKPOINT_FAILED_EXIT: i32 = 242;

/// Tests a function with checkpoints.
pub struct CheckpointedTesting {
    common: CommonTestingPhaseStore,
    upcoming_checkpoint: CheckpointState,
    last_checkpoint_paths: Option<CheckpointPaths>,
    output_generator: Arc<TestOutputPathGen>,
    // test item & the command line
    checkpointing_testcase: Option<(TestRegisryItem, Vec<String>)>,
}

impl CheckpointedTesting {
    /// Where the next checkpoint is made.
    pub closed spec fn upcoming(&self) -> CheckpointState {
        self.upcoming_checkpoint
    }

    /// The test in whose run the checkpoint of the round is made, and its command line.
    pub closed spec fn checkpoint_case(&self) -> Option<RegisteredTest> {
        match self.checkpointing_testcase {
            Some((item, cmdline)) => Some(RegisteredTest { item, cmdline: texts(cmdline@) }),
            None => None,
        }
    }

    /// Where the outputs of the last checkpoint are.
    pub closed spec fn last_paths(&self) -> Option<CheckpointPaths> {
        self.last_checkpoint_paths
    }

    /// Where the outputs of the tests and of the checkpoints go.
    pub closed spec fn output_paths(&self) -> TestOutputPathGen {
        *self.output_generator
    }

    /// No test yet, and no checkpoint, and what tests will be run with. Outputs go where this
    /// way of testing puts them, not where the tests of a round would put theirs.
    pub fn new(infra: InfraParams, out_gen: Arc<TestOutputPathGen>) -> (r: Self)
        ensures
            r.wf(),
            r.store().batch() == Seq::<RegisteredTest>::empty(),
            r.store().registered() == 0,
            r.store().infra() == infra,
            r.store().outputs() is None,
            r.output_paths() == *out_gen,
            r.upcoming() == CheckpointState::PureStart,
            r.checkpoint_case() is None,
            r.last_paths() is None,
    {
        CheckpointedTesting {
            common: CommonTestingPhaseStore::new(infra, Arc::new(None)),
            upcoming_checkpoint: CheckpointState::PureStart,
            checkpointing_testcase: None,
            last_checkpoint_paths: None,
            output_generator: out_gen,
        }
    }

    /// Lays out the run in which the next checkpoint is made. False at the end.
    fn make_checkpointing_case(&mut self, command: &[String], partial: &PartialRegistryItem) -> (r:
        Result<bool, Error>)
        ensures
            final(self).upcoming() == old(self).upcoming(),
            final(self).store() == old(self).store(),
            final(self).last_paths() == old(self).last_paths(),
            final(self).output_paths() == old(self).output_paths(),
            match upcoming_call(old(self).upcoming()) {
                None => r == Ok::<bool, Error>(false) && final(self).checkpoint_case() is None,
                Some((t, c)) => if partial.call_counts@.len() > u32::MAX {
                    r == Err::<bool, Error>(Error::TooManyToCount) && final(self).checkpoint_case()
                        == old(self).checkpoint_case()
                } else {
                    r == Ok::<bool, Error>(true) && final(self).checkpoint_case() == Some(
                        RegisteredTest {
                            item: checkpoint_item(*partial, t, c),
                            cmdline: texts(command@),
                        },
                    )
                },
            },
    {
        let (lid, call_idx): (u64, u32) = match self.upcoming_checkpoint {
            CheckpointState::PureStart => (0, 0),
            CheckpointState::Checkpoint(ThreadLidT(t), CallIndexT(i)) => (t, i),
            CheckpointState::End => {
                self.checkpointing_testcase = None;
                return Ok(false);
            },
        };
        if partial.call_counts.len() as u64 > u32::MAX as u64 {
            return Err(Error::TooManyToCount);
        }
        let item = TestRegisryItem {
            uid: partial.uid,
            call_index: CallIndexT(call_idx),
            packet_index: PacketIndexT(0),
            thread_lid: ThreadLidT(lid),
            thread_count: partial.call_counts.len() as u32,
            test_count: 0,
            timeout_test: partial.test_case_timeout,
            timeout_process: partial.global_timeout,
            mode: TestingMode::CheckpointedTesting(true),
        };
        self.checkpointing_testcase = Some((item, copy_texts(command)));
        Ok(true)
    }

    /// How the checkpoint of the round is made: the run from the start for the first call of a
    /// thread, else from the checkpoint before. With the test that is run.
    pub fn checkpoint_job(&self) -> (r: Option<(&TestRegisryItem, CheckpointJobMode<'_>)>)
        ensures
            match self.checkpoint_case() {
                None => r is None,
                Some(case) => r matches Some((item, mode)) && *item == case.item && match mode {
                    CheckpointJobMode::New(cmd, idx) => case.item.call_index.0 == 0 && texts(cmd@)
                        == case.cmdline && idx == 0,
                    CheckpointJobMode::Restore(idx) => case.item.call_index.0 > 0 && idx
                        == case.item.call_index.0,
                },
            },
    {
        match &self.checkpointing_testcase {
            None => None,
            Some((tst, cmd)) => {
                let mode = if zero(tst.call_index.0) {
                    CheckpointJobMode::New(cmd.as_slice(), tst.call_index.0 as usize)
                } else {
                    CheckpointJobMode::Restore(tst.call_index.0 as usize)
                };
                Some((tst, mode))
            },
        }
    }

    /// Judges the run in which the checkpoint of the round was made.
    pub fn judge_checkpoint(job_res: Result<TestStatus, TestJobFailure>) -> (r: Result<
        (),
        CheckpointFailure,
    >)
        ensures
            match job_res {
                Err(failure) => r == Err::<(), CheckpointFailure>(CheckpointFailure::Job(failure)),
                Ok(TestStatus::Fatal(m)) => r == Err::<(), CheckpointFailure>(
                    CheckpointFailure::Fatal(m),
                ),
                Ok(TestStatus::Exit(code)) => if code == CHECKPOINT_FAILED_EXIT {
                    r == Err::<(), CheckpointFailure>(CheckpointFailure::Refused)
                } else {
                    r is Ok
                },
                _ => r is Ok,
            },
    {
        match job_res {
            Err(failure) => Err(CheckpointFailure::Job(failure)),
            Ok(TestStatus::Fatal(m)) => Err(CheckpointFailure::Fatal(m)),
            Ok(TestStatus::Exit(code)) => if code == CHECKPOINT_FAILED_EXIT {
                Err(CheckpointFailure::Refused)
            } else {
                Ok(())
            },
            Ok(_) => Ok(()),
        }
    }

    /// What to do to store the outputs after the checkpoint of the round was made.
    pub fn store_checkpoint(&self) -> (r: Option<Result<StorePlan, Error>>)
        ensures
            match self.checkpoint_case() {
                None => r is None,
                Some(case) => r is Some && stored_after_checkpoint(
                    self.output_paths()@,
                    case.item.call_index.0 == 0,
                    case.item,
                    match self.last_paths() {
                        Some(paths) => Some(paths@),
                        None => None,
                    },
                    r->Some_0,
                ),
            },
    {
        match &self.checkpointing_testcase {
            None => None,
            Some((tst, _)) => Some(
                self.output_generator().store_after_checkpoint(
                    zero(tst.call_index.0),
                    tst,
                    self.last_checkpoint_paths(),
                ),
            ),
        }
    }

    /// Takes note of where the outputs of a checkpoint are.
    pub fn commit_paths(&mut self, paths: CheckpointPaths)
        requires
            old(self).wf(),
        ensures
            final(self).wf(),
            final(self).last_paths() == Some(paths),
            final(self).output_paths() == old(self).output_paths(),
            final(self).upcoming() == old(self).upcoming(),
            final(self).store() == old(self).store(),
            final(self).checkpoint_case() == old(self).checkpoint_case(),
    {
        self.last_checkpoint_paths = Some(paths);
    }

    /// Where the outputs of the tests and of the checkpoints go.
    pub fn output_generator(&self) -> (r: &TestOutputPathGen)
        ensures
            *r == self.output_paths(),
    {
        &*self.output_generator
    }

    /// Where the outputs of the last checkpoint are, if there was one.
    pub fn last_checkpoint_paths(&self) -> (r: Option<&CheckpointPaths>)
        ensures
            match r {
                Some(paths) => self.last_paths() == Some(*paths),
                None => self.last_paths() is None,
            },
    {
        match &self.last_checkpoint_paths {
            Some(paths) => Some(paths),
            None => None,
        }
    }
}

/// A checkpoint has the number of its call, is made from the start for the first call of a thread
/// and from an earlier checkpoint for every other one.
pub proof fn law_checkpoints_are_numbered_by_calls<'a>(
    phase: &'a CheckpointedTesting,
    job: Option<(&'a TestRegisryItem, CheckpointJobMode<'a>)>,
)
    requires
        call_ensures(CheckpointedTesting::checkpoint_job, (phase,), job),
    ensures
        job is Some <==> phase.checkpoint_case() is Some,
        job matches Some((test, mode)) ==> {
            &&& *test == phase.checkpoint_case()->Some_0.item
            &&& mode is New <==> test.call_index.0 == 0
            &&& mode matches CheckpointJobMode::Restore(idx) ==> idx == test.call_index.0
            &&& mode matches CheckpointJobMode::New(command, idx) ==> idx == test.call_index.0
                && texts(command@) == phase.checkpoint_case()->Some_0.cmdline
        },
{
}

/// A round goes on after the run of its checkpoint unless that run failed, was fatal, or said that
/// the checkpoint failed: any other end is good enough.
pub proof fn law_only_failed_checkpoints_end_a_round(
    job: Result<TestStatus, TestJobFailure>,
    judged: Result<(), CheckpointFailure>,
)
    requires
        call_ensures(CheckpointedTesting::judge_checkpoint, (job,), judged),
    ensures
        judged is Ok <==> job is Ok && !(job->Ok_0 is Fatal) && job->Ok_0@ != StatusModel::Exit(242),
        job is Err ==> judged == Err::<(), CheckpointFailure>(CheckpointFailure::Job(job->Err_0)),
{
}

/// `num_traits::Zero::is_zero` for `u32`: whether the number is zero.
#[verifier::external_body]
fn zero(n: u32) -> (b: bool)
    ensures
        b == (n == 0),
{
    num_traits::Zero::is_zero(&n)
}

/// The checkpoint that a round makes after the previous one's, if there is one.
pub open spec fn round_case(
    upcoming: CheckpointState,
    before: Option<RegisteredTest>,
    command: Seq<Seq<char>>,
    partial: PartialRegistryItem,
) -> Option<RegisteredTest> {
    match upcoming_call(upcoming) {
        None => None,
        Some((t, c)) => if partial.call_counts@.len() > u32::MAX {
            before
        } else {
            Some(RegisteredTest { item: checkpoint_item(partial, t, c), cmdline: command })
        },
    }
}

impl TestingPhase for CheckpointedTesting {
    closed spec fn wf(&self) -> bool {
        self.common.wf()
    }

    closed spec fn store(&self) -> CommonTestingPhaseStore {
        self.common
    }

    open spec fn round(&self, command: Seq<Seq<char>>, partial: PartialRegistryItem) -> RoundModel {
        match round_case(self.upcoming(), self.checkpoint_case(), command, partial) {
            None => if self.upcoming() is End {
                // what was there stays
                RoundModel { result: Ok(false), tests: self.store().batch(), added: 0 }
            } else {
                RoundModel {
                    result: Err(Error::NoCheckpointCase),
                    tests: self.store().batch(),
                    added: 0,
                }
            },
            Some(case) => {
                let t = case.item.thread_lid.0 as nat;
                let c = case.item.call_index.0 as nat;
                if c >= partial.call_counts@[t as int] {
                    new_round(Ok(false), Seq::empty())
                } else if partial.test_count > 0 && partial.call_counts@.len() > u32::MAX {
                    new_round(Err(Error::TooManyToCount), Seq::empty())
                } else {
                    new_round(
                        Ok(true),
                        packet_cases(partial, command, t, c, partial.test_count as nat),
                    )
                }
            },
        }
    }

    open spec fn can_prepare(&self, partial: PartialRegistryItem) -> bool {
        upcoming_call(self.upcoming()) matches Some((t, c)) ==> {
            &&& t < partial.call_counts@.len()
            &&& c < u32::MAX
            &&& self.store().registered() + partial.test_count <= u64::MAX
            // with so many threads, the checkpoint stays where it was
            &&& partial.call_counts@.len() > u32::MAX ==> (self.checkpoint_case() matches Some(
                case,
            ) ==> case.item.thread_lid.0 < partial.call_counts@.len())
        }
    }

    open spec fn record_of(&self, test: TestRegisryItem, job: JobModel) -> RecordModel {
        match job {
            JobModel::Failure(failure) => RecordModel::Failure(failure),
            JobModel::Status(status) => RecordModel::Outcome(result_of(test, status)),
        }
    }

    open spec fn has_next(&self) -> bool {
        self.upcoming() !is End
    }

    #[verifier::loop_isolation(false)]
    fn prepare_cases(&mut self, command: &[String], partial: &PartialRegistryItem) -> (r: Result<
        bool,
        Error,
    >)
        ensures
            final(self).last_paths() == old(self).last_paths(),
            final(self).output_paths() == old(self).output_paths(),
            round_prepared(*old(self), *final(self), texts(command@), *partial),
    {
        let ghost cmd = texts(command@);
        let ghost base = self.common.registered();
        // prepare the checkpointing case
        if let Ok(false) = self.make_checkpointing_case(command, partial) {
            return Ok(false);
        }
        let (thread_lid, skip) = match &self.checkpointing_testcase {
            Some((item, _)) => (item.thread_lid, item.call_index.0),
            None => {
                return Err(Error::NoCheckpointCase);
            },
        };
        // then continue with normal testcases for that single call number
        self.common.clear();
        let test_count = partial.test_count;
        let threads = partial.call_counts.len();
        // if checkpoint restore takes place, be sure to skip the right amount of calls
        let max_calls_in_lid = partial.call_counts[thread_lid.0 as usize];
        if skip as u64 >= max_calls_in_lid {
            return Ok(false);
        }
        let ghost t = thread_lid.0 as nat;
        let ghost c = skip as nat;
        let mut packet_index: u32 = 0;
        proof {
            assert(self.common.batch() =~= packet_cases(*partial, cmd, t, c, 0));
        }
        while packet_index < test_count
            invariant
                packet_index <= test_count,
                self.common.wf(),
                self.common.batch() == packet_cases(*partial, cmd, t, c, packet_index as nat),
                self.common.registered() == base + packet_index,
                packet_index > 0 ==> threads <= u32::MAX,
                self.upcoming_checkpoint == old(self).upcoming_checkpoint,
                self.last_checkpoint_paths == old(self).last_checkpoint_paths,
                self.output_generator == old(self).output_generator,
                self.common.infra() == old(self).common.infra(),
                self.common.outputs() == old(self).common.outputs(),
                self.checkpoint_case() == round_case(
                    old(self).upcoming(),
                    old(self).checkpoint_case(),
                    cmd,
                    *partial,
                ),
            decreases test_count - packet_index,
        {
            if threads as u64 > u32::MAX as u64 {
                return Err(Error::TooManyToCount);
            }
            self.common.add(
                TestRegisryItem {
                    uid: partial.uid,
                    call_index: CallIndexT(skip),
                    packet_index: PacketIndexT(packet_index as u64),
                    thread_lid,
                    thread_count: threads as u32,
                    test_count,
                    timeout_test: partial.test_case_timeout,
                    timeout_process: Some(partial.test_case_timeout),
                    mode: TestingMode::MTCompatTesting,
                },
                command,
            );
            proof {
                assert(self.common.batch() =~= packet_cases(
                    *partial,
                    cmd,
                    t,
                    c,
                    packet_index as nat + 1,
                ));
            }
            packet_index += 1;
        }
        // prepare for the next round
        let candidate: Option<(u64, u32)> = match self.upcoming_checkpoint {
            CheckpointState::PureStart => Some((0, 1)),
            CheckpointState::Checkpoint(ThreadLidT(t), CallIndexT(i)) => Some((t, i + 1)),
            CheckpointState::End => None,
        };
        self.upcoming_checkpoint = match candidate {
            None => CheckpointState::End,
            Some((t, i)) => {
                if i as u64 >= partial.call_counts[t as usize] {
                    if t as usize + 1 >= threads {
                        CheckpointState::End
                    } else {
                        CheckpointState::Checkpoint(ThreadLidT(t + 1), CallIndexT(0))
                    }
                } else {
                    CheckpointState::Checkpoint(ThreadLidT(t), CallIndexT(i))
                }
            },
        };
        Ok(true)
    }

    fn can_prepare_cases(&self, partial: &PartialRegistryItem) -> (b: bool) {
        let threads = partial.call_counts.len() as u64;
        let upcoming = match self.upcoming_checkpoint {
            CheckpointState::PureStart => threads > 0,
            CheckpointState::Checkpoint(ThreadLidT(t), CallIndexT(i)) => t < threads && i
                < u32::MAX,
            CheckpointState::End => {
                return true;
            },
        };
        let current = match &self.checkpointing_testcase {
            Some((item, _)) => threads <= u32::MAX as u64 || item.thread_lid.0 < threads,
            None => true,
        };
        upcoming && current && self.common.registered_count() <= u64::MAX
            - partial.test_count as u64
    }

    fn tests(&self) -> (r: &CommonTestingPhaseStore) {
        &self.common
    }

    fn record(&self, test: &TestRegisryItem, outcome: Result<TestStatus, TestJobFailure>) -> (r:
        JobRecord) {
        match outcome {
            Err(e) => JobRecord::Failure(e),
            Ok(status) => JobRecord::Outcome(LogResult::from_test(test, status)),
        }
    }

    fn next_batch(&self) -> (r: Option<()>) {
        match self.upcoming_checkpoint {
            CheckpointState::PureStart | CheckpointState::Checkpoint(_, _) => Some(()),
            CheckpointState::End => None,
        }
    }
}

/// Where the next checkpoint is made after some rounds.
pub open spec fn after_rounds(counts: Seq<u64>, rounds: nat) -> CheckpointState
    decreases rounds,
{
    if rounds == 0 {
        CheckpointState::PureStart
    } else {
        following(after_rounds(counts, (rounds - 1) as nat), counts)
    }
}

/// The number of calls of the first threads.
pub open spec fn calls_of_first(counts: Seq<u64>, threads: nat) -> nat
    decreases threads,
{
    if threads == 0 {
        0
    } else {
        calls_of_first(counts, (threads - 1) as nat) + counts[threads - 1] as nat
    }
}

proof fn lemma_calls_grow(counts: Seq<u64>, some: nat, more: nat)
    requires
        some <= more,
    ensures
        calls_of_first(counts, some) <= calls_of_first(counts, more),
    decreases more,
{
    if some < more {
        lemma_calls_grow(counts, some, (more - 1) as nat);
    }
}

/// The rounds go through the calls thread by thread and call by call, leaving none out: the
/// round after `rounds` others is about the call that as many calls come before, and after the
/// last call there is no further round.
///
/// Every thread has to have made a call: a round that comes to a thread without calls is the
/// last one, whatever threads follow.
pub proof fn law_rounds_go_through_all_calls(counts: Seq<u64>, rounds: nat)
    requires
        counts.len() > 0,
        counts.len() <= u64::MAX,
        forall|t: int| 0 <= t < counts.len() ==> 1 <= #[trigger] counts[t] <= u32::MAX,
        rounds <= calls_of_first(counts, counts.len()),
    ensures
        match upcoming_call(after_rounds(counts, rounds)) {
            Some((t, c)) => {
                &&& rounds < calls_of_first(counts, counts.len())
                &&& t < counts.len()
                &&& c < counts[t as int]
                &&& calls_of_first(counts, t) + c == rounds
            },
            None => rounds == calls_of_first(counts, counts.len()),
        },
    decreases rounds,
{
    if rounds == 0 {
        lemma_calls_grow(counts, 1, counts.len());
        assert(calls_of_first(counts, 1) == calls_of_first(counts, 0) + counts[0]);
    } else {
        let before = (rounds - 1) as nat;
        law_rounds_go_through_all_calls(counts, before);
        let (t, c) = upcoming_call(after_rounds(counts, before))->Some_0;
        assert(calls_of_first(counts, t + 1) == calls_of_first(counts, t) + counts[t as int]);
        lemma_calls_grow(counts, t + 1, counts.len());
        if c + 1 >= counts[t as int] && t + 1 < counts.len() {
            lemma_calls_grow(counts, t + 2, counts.len());
            assert(calls_of_first(counts, t + 2) == calls_of_first(counts, t + 1) + counts[(t
                + 1) as int]);
        }
    }
}

/// What preparing a round makes of a phase.
pub open spec fn round_prepared(
    before: CheckpointedTesting,
    after: CheckpointedTesting,
    command: Seq<Seq<char>>,
    partial: PartialRegistryItem,
) -> bool {
    let round = before.round(command, partial);
    &&& after.store().batch() == round.tests
    &&& after.store().registered() == before.store().registered() + round.added
    &&& after.checkpoint_case() == round_case(
        before.upcoming(),
        before.checkpoint_case(),
        command,
        partial,
    )
    &&& after.upcoming() == if round.result == Ok::<bool, Error>(true) {
        following(before.upcoming(), partial.call_counts@)
    } else {
        before.upcoming()
    }
}

/// The function can be tested with checkpoints throughout: every thread has made a call, and
/// machine numbers suffice for threads, calls and tests.
pub open spec fn testable(partial: PartialRegistryItem) -> bool {
    let counts = partial.call_counts@;
    &&& 0 < counts.len() <= u32::MAX
    &&& forall|t: int| 0 <= t < counts.len() ==> 1 <= #[trigger] counts[t] <= u32::MAX
    &&& calls_of_first(counts, counts.len()) * partial.test_count <= u64::MAX
}

/// The phases are those of a function whose rounds are prepared one after the other.
pub open spec fn rounds_of(
    phases: Seq<CheckpointedTesting>,
    command: Seq<Seq<char>>,
    partial: PartialRegistryItem,
) -> bool {
    &&& phases.len() > 0
    &&& phases[0].upcoming() == CheckpointState::PureStart
    &&& phases[0].store().registered() == 0
    &&& forall|i: int|
        0 <= i < phases.len() - 1 ==> round_prepared(
            #[trigger] phases[i],
            phases[i + 1],
            command,
            partial,
        )
}

proof fn lemma_after_rounds(
    phases: Seq<CheckpointedTesting>,
    command: Seq<Seq<char>>,
    partial: PartialRegistryItem,
    k: nat,
)
    requires
        testable(partial),
        rounds_of(phases, command, partial),
        k < phases.len(),
    ensures
        ({
            let counts = partial.call_counts@;
            let calls = calls_of_first(counts, counts.len());
            let phase = phases[k as int];
            &&& k <= calls ==> phase.upcoming() == after_rounds(counts, k)
            &&& k >= calls ==> phase.upcoming() is End
            &&& phase.store().registered() == if k <= calls {
                k * partial.test_count
            } else {
                calls * partial.test_count
            }
        }),
    decreases k,
{
    let counts = partial.call_counts@;
    let calls = calls_of_first(counts, counts.len());
    if k == 0 {
        law_rounds_go_through_all_calls(counts, 0);
        assert(0 * partial.test_count == 0) by (nonlinear_arith);
    } else {
        let before = (k - 1) as nat;
        lemma_after_rounds(phases, command, partial, before);
        assert(round_prepared(phases[before as int], phases[k as int], command, partial));
        if before < calls {
            law_rounds_go_through_all_calls(counts, before);
            law_rounds_go_through_all_calls(counts, k);
            assert(before * partial.test_count + partial.test_count == k * partial.test_count)
                by (nonlinear_arith)
                requires
                    k == before + 1,
            ;
        } else if before == calls {
            law_rounds_go_through_all_calls(counts, before);
        }
    }
}

/// Every round can be prepared. As long as there are calls left, it has one test for each packet,
/// in order, all of the call that as many calls come before as there were rounds. After the last
/// call there is nothing to run, and no further round is announced.
pub proof fn law_every_call_gets_its_round(
    phases: Seq<CheckpointedTesting>,
    command: Seq<Seq<char>>,
    partial: PartialRegistryItem,
    k: nat,
)
    requires
        testable(partial),
        rounds_of(phases, command, partial),
        k < phases.len(),
    ensures
        ({
            let counts = partial.call_counts@;
            let calls = calls_of_first(counts, counts.len());
            let phase = phases[k as int];
            let round = phase.round(command, partial);
            &&& phase.can_prepare(partial)
            &&& phase.has_next() <==> k < calls
            &&& k < calls ==> exists|t: nat, c: nat|
                t < counts.len() && c < counts[t as int] && #[trigger] calls_of_first(counts, t) + c
                    == k && round == new_round(
                    Ok(true),
                    #[trigger] packet_cases(partial, command, t, c, partial.test_count as nat),
                )
            &&& k >= calls ==> round.result == Ok::<bool, Error>(false)
        }),
{
    let counts = partial.call_counts@;
    let calls = calls_of_first(counts, counts.len());
    lemma_after_rounds(phases, command, partial, k);
    if k < calls {
        law_rounds_go_through_all_calls(counts, k);
        let (t, c) = upcoming_call(after_rounds(counts, k))->Some_0;
        assert(k * partial.test_count + partial.test_count <= calls * partial.test_count)
            by (nonlinear_arith)
            requires
                k + 1 <= calls,
        ;
        assert(calls_of_first(counts, t) + c == k);
        assert(phases[k as int].round(command, partial) == new_round(
            Ok(true),
            packet_cases(partial, command, t, c, partial.test_count as nat),
        ));
    }
}

/// The tests of a round are tests of the function, all of the one call that as many calls come
/// before as there were rounds, one for each packet, in order. Each is run by the command that was
/// given, with the given time limits.
pub proof fn law_rounds_test_one_call_with_every_packet(
    phases: Seq<CheckpointedTesting>,
    command: Seq<Seq<char>>,
    partial: PartialRegistryItem,
    k: nat,
)
    requires
        testable(partial),
        rounds_of(phases, command, partial),
        k < phases.len(),
        k < calls_of_first(partial.call_counts@, partial.call_counts@.len()),
    ensures
        ({
            let counts = partial.call_counts@;
            let round = phases[k as int].round(command, partial);
            &&& round.result == Ok::<bool, Error>(true)
            &&& round.tests.len() == partial.test_count
            &&& round.added == partial.test_count
            &&& forall|i: int|
                0 <= i < round.tests.len() ==> {
                    let test = #[trigger] round.tests[i];
                    &&& test.item.uid.module_id.0 == partial.uid.module_id.0
                    &&& test.item.uid.function_id.0 == partial.uid.function_id.0
                    &&& test.item.thread_lid.0 < counts.len()
                    &&& test.item.call_index.0 < counts[test.item.thread_lid.0 as int]
                    &&& calls_of_first(counts, test.item.thread_lid.0 as nat)
                        + test.item.call_index.0 == k
                    &&& test.item.packet_index.0 == i
                    &&& test.item.thread_count == counts.len()
                    &&& test.item.test_count == partial.test_count
                    &&& test.item.timeout_test == partial.test_case_timeout
                    &&& test.item.timeout_process == Some(partial.test_case_timeout)
                    &&& test.item.mode is MTCompatTesting
                    &&& test.cmdline == command
                }
        }),
{
    let counts = partial.call_counts@;
    law_every_call_gets_its_round(phases, command, partial, k);
    let (t, c) = choose|t: nat, c: nat|
        t < counts.len() && c < counts[t as int] && #[trigger] calls_of_first(counts, t) + c == k
            && phases[k as int].round(command, partial) == new_round(
            Ok(true),
            #[trigger] packet_cases(partial, command, t, c, partial.test_count as nat),
        );
    assert(counts[t as int] <= u32::MAX);
}

/// The run in which the checkpoint of a round is made is one of the function, up to the call that
/// the tests of the round are of. It is told to make a checkpoint, runs the command that was given
/// and has the time that a whole run of the application has.
pub proof fn law_checkpoint_is_made_at_the_tested_call(
    phases: Seq<CheckpointedTesting>,
    command: Seq<Seq<char>>,
    partial: PartialRegistryItem,
    k: nat,
)
    requires
        testable(partial),
        rounds_of(phases, command, partial),
        k + 1 < phases.len(),
        k < calls_of_first(partial.call_counts@, partial.call_counts@.len()),
    ensures
        ({
            let tests = phases[k as int].round(command, partial).tests;
            &&& phases[k as int + 1].checkpoint_case() is Some
            &&& {
                let case = phases[k as int + 1].checkpoint_case()->Some_0;
                &&& case.item.uid.module_id.0 == partial.uid.module_id.0
                &&& case.item.uid.function_id.0 == partial.uid.function_id.0
                &&& case.item.mode == TestingMode::CheckpointedTesting(true)
                &&& case.item.timeout_process == partial.global_timeout
                &&& case.item.thread_count == partial.call_counts@.len()
                &&& case.cmdline == command
                &&& forall|i: int|
                    0 <= i < tests.len() ==> (#[trigger] tests[i]).item.thread_lid
                        == case.item.thread_lid && tests[i].item.call_index == case.item.call_index
            }
        }),
{
    let counts = partial.call_counts@;
    lemma_after_rounds(phases, command, partial, k);
    law_rounds_go_through_all_calls(counts, k);
    let (t, c) = upcoming_call(after_rounds(counts, k))->Some_0;
    assert(counts[t as int] <= u32::MAX);
    assert(round_prepared(phases[k as int], phases[k as int + 1], command, partial));
}

/// The end of every job is kept as it is, under the test whose job it was: function, call, packet
/// and thread are those of the test, with the call counted from one.
pub proof fn law_every_end_is_recorded(
    phase: CheckpointedTesting,
    test: TestRegisryItem,
    status: StatusModel,
    failure: ResultModel,
)
    requires
        test.call_index.0 < u32::MAX,
    ensures
        phase.record_of(test, JobModel::Failure(failure)) == RecordModel::Failure(failure),
        match phase.record_of(test, JobModel::Status(status)) {
            RecordModel::Outcome(result) => {
                &&& result.uid == test.uid
                &&& result.call.0 == test.call_index.0 + 1
                &&& result.pkt == test.packet_index
                &&& result.thread_lid == test.thread_lid
                &&& result.status == status
            },
            _ => false,
        },
{
}

} // verus!
