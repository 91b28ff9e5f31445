//! The ways of testing a function: which tests are run, in which order, and which of their
//! results count.

use crate::error::Error;
use crate::modmap::NumFunUid;
use crate::shmem_capture::hooklib_commons::InfraParams;
use crate::stages::test_jobs::TestJobFailure;
use crate::stages::test_output::TestOutputPathGen;
use crate::stages::test_protocol::LogResult;
use crate::stages::test_protocol::ResultModel;
use crate::stages::test_protocol::StatusModel;
use crate::stages::test_protocol::TestStatus;
use crate::stages::test_registry::RegisteredTest;
use crate::stages::test_registry::TestID;
use crate::stages::test_registry::TestRegisryItem;
use crate::stages::test_registry::TestRegistry;
use crate::stages::test_registry::TimeLimit;
use crate::text::texts;
use std::sync::Arc;
use vstd::prelude::*;

verus! {

/// What is known of the tests of a function before they are laid out.
#[derive(Debug)]
pub struct PartialRegistryItem {
    pub uid: NumFunUid,
    pub test_count: u32,
    pub test_case_timeout: TimeLimit,
    pub global_timeout: Option<TimeLimit>,
    /// the number of calls of each thread
    pub call_counts: Vec<u64>,
}

/// The tests that are run in a round, and what they are run with.
pub struct CommonTestingPhaseStore {
    test_registry: TestRegistry,
    tests: Vec<TestID>,
    infra: InfraParams,
    output_generator: Arc<Option<TestOutputPathGen>>,
}

impl CommonTestingPhaseStore {
    /// Every test of the round is registered.
    pub closed spec fn wf(&self) -> bool {
        &&& self.test_registry.wf()
        &&& forall|i: int|
            0 <= i < self.tests@.len() ==> self.test_registry@.tests.contains_key(
                (#[trigger] self.tests@[i])@,
            ) && self.tests@[i]@ <= self.test_registry@.last
    }

    /// The tests of the round, in the order in which they are run.
    pub closed spec fn batch(&self) -> Seq<RegisteredTest> {
        self.tests@.map_values(|id: TestID| self.test_registry@.tests[id@])
    }

    /// How many tests were registered so far, in all rounds.
    pub closed spec fn registered(&self) -> nat {
        self.test_registry@.last as nat
    }

    /// The buffers that the tests are told of.
    pub closed spec fn infra(&self) -> InfraParams {
        self.infra
    }

    /// Where the outputs of the tests go, if they are kept.
    pub closed spec fn outputs(&self) -> Option<TestOutputPathGen> {
        *self.output_generator
    }

    /// No test, and what tests will be run with.
    pub fn new(infra: InfraParams, out_gen: Arc<Option<TestOutputPathGen>>) -> (r: Self)
        ensures
            r.wf(),
            r.batch() == Seq::<RegisteredTest>::empty(),
            r.registered() == 0,
            r.infra() == infra,
            r.outputs() == *out_gen,
    {
        let r = CommonTestingPhaseStore {
            test_registry: TestRegistry::new(),
            tests: Vec::new(),
            infra,
            output_generator: out_gen,
        };
        proof {
            assert(r.batch() =~= Seq::<RegisteredTest>::empty());
        }
        r
    }

    /// Starts a new round.
    pub(crate) fn clear(&mut self)
        requires
            old(self).wf(),
        ensures
            final(self).wf(),
            final(self).batch() == Seq::<RegisteredTest>::empty(),
            final(self).registered() == old(self).registered(),
            final(self).infra() == old(self).infra(),
            final(self).outputs() == old(self).outputs(),
    {
        self.test_registry.clear();
        self.tests.clear();
        proof {
            assert(self.batch() =~= Seq::<RegisteredTest>::empty());
        }
    }

    /// Adds a test to the round.
    pub(crate) fn add(&mut self, item: TestRegisryItem, command: &[String])
        requires
            old(self).wf(),
            old(self).registered() < u64::MAX,
        ensures
            final(self).wf(),
            final(self).registered() == old(self).registered() + 1,
            final(self).infra() == old(self).infra(),
            final(self).outputs() == old(self).outputs(),
            final(self).batch() == old(self).batch().push(
                RegisteredTest { item, cmdline: texts(command@) },
            ),
    {
        let ghost before = *self;
        let id = self.test_registry.add_new_test(item, command);
        self.tests.push(id);
        proof {
            assert forall|i: int| 0 <= i < self.tests@.len() implies
                self.test_registry@.tests.contains_key((#[trigger] self.tests@[i])@)
                && self.tests@[i]@ <= self.test_registry@.last by {
                if i < before.tests@.len() {
                    assert(before.tests@[i] == self.tests@[i]);
                }
            }
            assert(self.batch() =~= before.batch().push(
                RegisteredTest { item, cmdline: texts(command@) },
            )) by {
                assert forall|i: int| 0 <= i < before.batch().len() implies self.batch()[i]
                    == before.batch()[i] by {
                    assert(before.tests@[i] == self.tests@[i]);
                }
            }
        }
    }

    /// The buffers that the tests are told of.
    pub fn infra_params(&self) -> (r: InfraParams)
        ensures
            r == self.infra(),
    {
        self.infra
    }

    /// Where the outputs of the tests go, if they are kept.
    pub fn output_generator(&self) -> (r: &Option<TestOutputPathGen>)
        ensures
            *r == self.outputs(),
    {
        &*self.output_generator
    }

    /// How many tests were registered so far, in all rounds.
    pub fn registered_count(&self) -> (n: u64)
        ensures
            n == self.registered(),
    {
        self.test_registry.last_number()
    }

    /// How many tests the round has.
    pub fn len(&self) -> (n: usize)
        ensures
            n == self.batch().len(),
    {
        self.tests.len()
    }

    /// A test of the round and the command line that runs it.
    pub fn get(&self, i: usize) -> (r: Option<(&TestRegisryItem, &[String])>)
        requires
            self.wf(),
        ensures
            r is Some <==> i < self.batch().len(),
            r matches Some((item, cmdline)) ==> (RegisteredTest {
                item: *item,
                cmdline: texts(cmdline@),
            }) == self.batch()[i as int],
    {
        if i < self.tests.len() {
            self.test_registry.get_test_params(self.tests[i])
        } else {
            None
        }
    }
}

/// What a finished test job leaves behind.
#[derive(Debug)]
pub enum JobRecord {
    /// a failure
    Failure(TestJobFailure),
    /// a result
    Outcome(LogResult),
    /// nothing
    Skipped,
}

/// The contents of a [`JobRecord`].
#[verifier::ext_equal]
pub enum RecordModel {
    Failure(ResultModel),
    Outcome(ResultModel),
    Skipped,
}

impl View for JobRecord {
    type V = RecordModel;

    open spec fn view(&self) -> RecordModel {
        match *self {
            JobRecord::Failure(f) => RecordModel::Failure(f@),
            JobRecord::Outcome(r) => RecordModel::Outcome(r@),
            JobRecord::Skipped => RecordModel::Skipped,
        }
    }
}

/// The contents of a record leave nothing out.
pub proof fn law_contents_of_records_are_complete(record: JobRecord)
    ensures
        match record {
            JobRecord::Failure(f) => record@ == RecordModel::Failure(f.log_res@),
            JobRecord::Outcome(r) => record@ == RecordModel::Outcome(r@),
            JobRecord::Skipped => record@ is Skipped,
        },
{
}

/// How the job of a test has ended.
#[verifier::ext_equal]
pub enum JobModel {
    Status(StatusModel),
    Failure(ResultModel),
}

/// The contents of a job's outcome.
pub open spec fn job_model(outcome: Result<TestStatus, TestJobFailure>) -> JobModel {
    match outcome {
        Ok(status) => JobModel::Status(status@),
        Err(failure) => JobModel::Failure(failure@),
    }
}

/// The results among some records, in order.
pub open spec fn outcomes(records: Seq<RecordModel>) -> Seq<ResultModel>
    decreases records.len(),
{
    if records.len() == 0 {
        Seq::empty()
    } else {
        match records.last() {
            RecordModel::Outcome(r) => outcomes(records.drop_last()).push(r),
            _ => outcomes(records.drop_last()),
        }
    }
}

/// The failures among some records, in order.
pub open spec fn failures(records: Seq<RecordModel>) -> Seq<ResultModel>
    decreases records.len(),
{
    if records.len() == 0 {
        Seq::empty()
    } else {
        match records.last() {
            RecordModel::Failure(f) => failures(records.drop_last()).push(f),
            _ => failures(records.drop_last()),
        }
    }
}

/// How many of the records are of nothing.
pub open spec fn skipped(records: Seq<RecordModel>) -> nat
    decreases records.len(),
{
    if records.len() == 0 {
        0
    } else {
        skipped(records.drop_last()) + if records.last() is Skipped {
            1nat
        } else {
            0nat
        }
    }
}

/// The end of every job is a result, a failure or skipped: none is lost and none counted twice.
pub proof fn law_every_job_is_accounted_for(records: Seq<RecordModel>)
    ensures
        outcomes(records).len() + failures(records).len() + skipped(records) == records.len(),
    decreases records.len(),
{
    if records.len() > 0 {
        law_every_job_is_accounted_for(records.drop_last());
    }
}

/// The results come in the order of their tests, and so do the failures: what the end of a job
/// leaves behind stands behind what those before it have left.
pub proof fn law_results_keep_the_order_of_the_tests(records: Seq<RecordModel>, i: int)
    requires
        0 <= i < records.len(),
    ensures
        match records[i] {
            RecordModel::Outcome(result) => {
                let at = outcomes(records.take(i)).len() as int;
                at < outcomes(records).len() && outcomes(records)[at] == result
            },
            RecordModel::Failure(failure) => {
                let at = failures(records.take(i)).len() as int;
                at < failures(records).len() && failures(records)[at] == failure
            },
            RecordModel::Skipped => true,
        },
    decreases records.len(),
{
    let front = records.drop_last();
    if i < front.len() {
        law_results_keep_the_order_of_the_tests(front, i);
        assert(front.take(i) =~= records.take(i));
    } else {
        assert(records.take(i) =~= front);
    }
}

/// What comes of preparing a round: whether there is something to run or why the round cannot be
/// prepared, the tests that the round then has, and how many of them were registered for it.
#[verifier::ext_equal]
pub struct RoundModel {
    pub result: Result<bool, Error>,
    pub tests: Seq<RegisteredTest>,
    pub added: nat,
}

/// A round with these tests, all of them new.
pub open spec fn new_round(result: Result<bool, Error>, tests: Seq<RegisteredTest>) -> RoundModel {
    RoundModel { result, tests, added: tests.len() }
}

/// A way of testing a function in rounds.
pub trait TestingPhase: Sized {
    /// The tests are in order.
    spec fn wf(&self) -> bool;

    /// The tests of the round.
    spec fn store(&self) -> CommonTestingPhaseStore;

    /// The round that would be prepared now.
    spec fn round(&self, command: Seq<Seq<char>>, partial: PartialRegistryItem) -> RoundModel;

    /// The round can be laid out: machine numbers suffice for it, and the counts are of the
    /// threads that it is about.
    spec fn can_prepare(&self, partial: PartialRegistryItem) -> bool;

    /// What the end of a test's job leaves behind.
    spec fn record_of(&self, test: TestRegisryItem, job: JobModel) -> RecordModel;

    /// Another round follows the one at hand.
    spec fn has_next(&self) -> bool;

    /// prepares test cases (allows post-processing)
    fn prepare_cases(&mut self, command: &[String], partial: &PartialRegistryItem) -> (r: Result<
        bool,
        Error,
    >)
        requires
            old(self).wf(),
            old(self).can_prepare(*partial),
        ensures
            final(self).wf(),
            final(self).store().infra() == old(self).store().infra(),
            final(self).store().outputs() == old(self).store().outputs(),
            ({
                let round = old(self).round(texts(command@), *partial);
                &&& r == round.result
                &&& final(self).store().batch() == round.tests
                &&& final(self).store().registered() == old(self).store().registered()
                    + round.added
            }),
    ;

    /// Whether the round can be laid out.
    fn can_prepare_cases(&self, partial: &PartialRegistryItem) -> (b: bool)
        requires
            self.wf(),
        ensures
            b == self.can_prepare(*partial),
    ;

    /// The tests of the round.
    fn tests(&self) -> (r: &CommonTestingPhaseStore)
        requires
            self.wf(),
        ensures
            *r == self.store(),
            r.wf(),
    ;

    /// What the end of a test's job leaves behind.
    fn record(&self, test: &TestRegisryItem, outcome: Result<TestStatus, TestJobFailure>) -> (r:
        JobRecord)
        requires
            test.call_index.0 < u32::MAX,
        ensures
            r@ == self.record_of(*test, job_model(outcome)),
    ;

    /// The results and failures of a round whose jobs have ended as given, one for each of its
    /// tests.
    fn run_tests(
        &self,
        jobs: Vec<Result<TestStatus, TestJobFailure>>,
    ) -> (r: (Vec<LogResult>, Vec<TestJobFailure>))
        requires
            self.wf(),
            jobs@.len() == self.store().batch().len(),
            forall|i: int|
                0 <= i < jobs@.len() ==> (#[trigger] self.store().batch()[i]).item.call_index.0
                    < u32::MAX,
        ensures
            results_model(r.0@) == outcomes(
                records_of(
                    self.store().batch(),
                    jobs_model(jobs@),
                    |t: TestRegisryItem, j: JobModel| self.record_of(t, j),
                ),
            ),
            failures_model(r.1@) == failures(
                records_of(
                    self.store().batch(),
                    jobs_model(jobs@),
                    |t: TestRegisryItem, j: JobModel| self.record_of(t, j),
                ),
            ),
    {
        let ghost all = jobs@;
        let ghost judge = |t: TestRegisryItem, j: JobModel| self.record_of(t, j);
        let ghost records = records_of(self.store().batch(), jobs_model(all), judge);
        let mut jobs = jobs;
        let mut results: Vec<LogResult> = Vec::new();
        let mut errors: Vec<TestJobFailure> = Vec::new();
        let store = self.tests();
        let n = jobs.len();
        let mut i: usize = 0;
        proof {
            assert(results_model(results@) =~= outcomes(records.subrange(0, 0)));
            assert(failures_model(errors@) =~= failures(records.subrange(0, 0)));
            assert(jobs@ =~= all.subrange(0, all.len() as int));
        }
        while i < n
            invariant
                i <= n,
                n == all.len(),
                jobs@ == all.subrange(i as int, n as int),
                self.wf(),
                *store == self.store(),
                store.wf(),
                all.len() == store.batch().len(),
                forall|j: int|
                    0 <= j < all.len() ==> (#[trigger] store.batch()[j]).item.call_index.0 < u32::MAX,
                judge == (|t: TestRegisryItem, j: JobModel| self.record_of(t, j)),
                records == records_of(store.batch(), jobs_model(all), judge),
                results_model(results@) == outcomes(records.subrange(0, i as int)),
                failures_model(errors@) == failures(records.subrange(0, i as int)),
            decreases n - i,
        {
            let outcome = jobs.remove(0);
            proof {
                assert(outcome == all[i as int]);
                assert(jobs@ =~= all.subrange(i + 1, n as int));
                let upto = records.subrange(0, i + 1);
                assert(upto.drop_last() =~= records.subrange(0, i as int));
                assert(upto.last() == self.record_of(
                    store.batch()[i as int].item,
                    job_model(all[i as int]),
                ));
            }
            if let Some((test, _)) = store.get(i) {
                let ghost before = (results@, errors@);
                match self.record(test, outcome) {
                    JobRecord::Failure(failure) => {
                        errors.push(failure);
                        proof {
                            assert(failures_model(errors@) =~= failures_model(before.1).push(failure@));
                        }
                    },
                    JobRecord::Outcome(result) => {
                        results.push(result);
                        proof {
                            assert(results_model(results@) =~= results_model(before.0).push(result@));
                        }
                    },
                    JobRecord::Skipped => {},
                }
            }
            i += 1;
        }
        proof {
            assert(records.subrange(0, n as int) =~= records);
        }
        (results, errors)
    }

    /// indicates whether a next batch of prepare-run is needed
    fn next_batch(&self) -> (r: Option<()>)
        ensures
            r is Some <==> self.has_next(),
    ;
}

/// What the ends of the jobs of some tests leave behind, in order.
pub open spec fn records_of(
    tests: Seq<RegisteredTest>,
    jobs: Seq<JobModel>,
    record: spec_fn(TestRegisryItem, JobModel) -> RecordModel,
) -> Seq<RecordModel> {
    Seq::new(jobs.len(), |i: int| record(tests[i].item, jobs[i]))
}

/// Each end of a job is judged with the test whose job it was: where every end leaves a result, the
/// results are those of the tests, one for each, in the order of the tests.
pub proof fn law_every_test_gets_its_result(
    tests: Seq<RegisteredTest>,
    jobs: Seq<JobModel>,
    record: spec_fn(TestRegisryItem, JobModel) -> RecordModel,
)
    requires
        tests.len() == jobs.len(),
        forall|i: int| 0 <= i < jobs.len() ==> #[trigger] record(tests[i].item, jobs[i]) is Outcome,
    ensures
        outcomes(records_of(tests, jobs, record)).len() == tests.len(),
        failures(records_of(tests, jobs, record)).len() == 0,
        forall|i: int|
            0 <= i < tests.len() ==> RecordModel::Outcome(
                #[trigger] outcomes(records_of(tests, jobs, record))[i],
            ) == record(tests[i].item, jobs[i]),
    decreases jobs.len(),
{
    let records = records_of(tests, jobs, record);
    if jobs.len() > 0 {
        let (ts, js) = (tests.drop_last(), jobs.drop_last());
        assert forall|i: int| 0 <= i < js.len() implies #[trigger] record(ts[i].item, js[i]) is
            Outcome by {
            assert(record(tests[i].item, jobs[i]) is Outcome);
        }
        law_every_test_gets_its_result(ts, js, record);
        assert(records.drop_last() =~= records_of(ts, js, record));
        assert(records.last() == record(tests[jobs.len() - 1].item, jobs[jobs.len() - 1]));
        let results = outcomes(records);
        assert forall|i: int| 0 <= i < tests.len() implies RecordModel::Outcome(
            #[trigger] results[i],
        ) == record(tests[i].item, jobs[i]) by {
            if i < ts.len() {
                assert(RecordModel::Outcome(outcomes(records_of(ts, js, record))[i]) == record(
                    ts[i].item,
                    js[i],
                ));
            }
        }
    }
}

/// The contents of the outcomes of some jobs.
pub open spec fn jobs_model(jobs: Seq<Result<TestStatus, TestJobFailure>>) -> Seq<JobModel> {
    jobs.map_values(|o: Result<TestStatus, TestJobFailure>| job_model(o))
}

/// The contents of some results.
pub open spec fn results_model(results: Seq<LogResult>) -> Seq<ResultModel> {
    results.map_values(|r: LogResult| r@)
}

/// The contents of results, failures and ends of jobs are those of each of them, in order.
pub proof fn law_contents_are_those_of_each(
    results: Seq<LogResult>,
    errors: Seq<TestJobFailure>,
    jobs: Seq<Result<TestStatus, TestJobFailure>>,
)
    ensures
        results_model(results).len() == results.len(),
        forall|i: int|
            0 <= i < results.len() ==> {
                let model = #[trigger] results_model(results)[i];
                &&& model.uid == results[i].uid
                &&& model.call == results[i].call
                &&& model.pkt == results[i].pkt
                &&& model.thread_lid == results[i].thread_lid
                &&& model.status == results[i].status@
            },
        failures_model(errors).len() == errors.len(),
        forall|i: int|
            0 <= i < errors.len() ==> {
                let model = #[trigger] failures_model(errors)[i];
                &&& model.uid == errors[i].log_res.uid
                &&& model.call == errors[i].log_res.call
                &&& model.pkt == errors[i].log_res.pkt
                &&& model.thread_lid == errors[i].log_res.thread_lid
                &&& model.status == errors[i].log_res.status@
            },
        jobs_model(jobs).len() == jobs.len(),
        forall|i: int|
            0 <= i < jobs.len() ==> match (#[trigger] jobs_model(jobs)[i]) {
                JobModel::Status(status) => jobs[i] is Ok && status == jobs[i]->Ok_0@,
                JobModel::Failure(failure) => jobs[i] is Err && failure
                    == jobs[i]->Err_0.log_res@,
            },
{
}

/// The contents of some failures.
pub open spec fn failures_model(errors: Seq<TestJobFailure>) -> Seq<ResultModel> {
    errors.map_values(|f: TestJobFailure| f@)
}

} // verus!
