use llcap_server::error::Error;
use llcap_server::modmap::IntegralFnId;
use llcap_server::modmap::IntegralModId;
use llcap_server::modmap::NumFunUid;
use llcap_server::phase::after_round;
use llcap_server::phase::checkpoint_round;
use llcap_server::phase::run_test_case;
use llcap_server::phase::testing_phase;
use llcap_server::phase::CaseStep;
use llcap_server::phase::FunctionTests;
use llcap_server::shmem_capture::hooklib_commons::InfraParams;
use llcap_server::stages::basic::BasicTesting;
use llcap_server::stages::checkpointed::CheckpointFailure;
use llcap_server::stages::checkpointed::CheckpointedTesting;
use llcap_server::stages::mt_support::MTSupportTesting;
use llcap_server::stages::test_jobs::CheckpointJobMode;
use llcap_server::stages::test_jobs::TestJobFailure;
use llcap_server::stages::test_output::TestOutputPathGen;
use llcap_server::stages::test_protocol::CallIndexT;
use llcap_server::stages::test_protocol::PacketIndexT;
use llcap_server::stages::test_protocol::TestStatus;
use llcap_server::stages::test_protocol::ThreadLidT;
use llcap_server::stages::test_registry::TestRegisryItem;
use llcap_server::stages::test_registry::TestRegistry;
use llcap_server::stages::test_registry::TestingMode;
use llcap_server::stages::test_registry::TimeLimit;
use llcap_server::stages::testing::PartialRegistryItem;
use llcap_server::stages::testing::TestingPhase;
use std::sync::Arc;

fn uid() -> NumFunUid {
    NumFunUid::from((IntegralModId(1), IntegralFnId(2)))
}

fn infra() -> InfraParams {
    InfraParams { buff_count: 10, buff_len: 4096 }
}

fn outputs() -> Arc<TestOutputPathGen> {
    match TestOutputPathGen::make(Some("/o"), true, true) {
        Ok(Some(paths)) => Arc::new(paths),
        _ => panic!("the base is a directory"),
    }
}

fn limit(secs: u64) -> TimeLimit {
    TimeLimit { secs, nanos: 0 }
}

fn item(call: u32, packet: u64) -> TestRegisryItem {
    TestRegisryItem {
        uid: uid(),
        call_index: CallIndexT(call),
        packet_index: PacketIndexT(packet),
        thread_lid: ThreadLidT(0),
        thread_count: 1,
        test_count: 1,
        timeout_test: limit(2),
        timeout_process: None,
        mode: TestingMode::Testing,
    }
}

fn partial(test_count: u32, call_counts: Vec<u64>) -> PartialRegistryItem {
    PartialRegistryItem {
        uid: uid(),
        test_count,
        test_case_timeout: limit(3),
        global_timeout: Some(limit(60)),
        call_counts,
    }
}

fn command() -> Vec<String> {
    vec!["app".to_owned(), "--flag".to_owned()]
}

fn laid_out<P: TestingPhase>(phase: &P) -> Vec<(u64, u32, u64)> {
    let store = phase.tests();
    let mut tests = vec![];
    for i in 0..store.len() {
        match store.get(i) {
            Some((item, cmdline)) => {
                assert_eq!(cmdline, command().as_slice());
                tests.push((item.thread_lid.0, item.call_index.0, item.packet_index.0));
            },
            None => panic!("every test of the round is there"),
        }
    }
    assert!(store.get(store.len()).is_none());
    tests
}

#[test]
fn registered_tests_are_found_by_their_numbers() {
    let mut registry = TestRegistry::new();
    let first = registry.add_new_test(item(0, 0), &command());
    let other = vec!["other".to_owned()];
    let second = registry.add_new_test(item(1, 0), &other);
    let third = registry.add_new_test(item(2, 0), &command());
    assert_ne!(first, second);
    assert_ne!(second, third);
    assert_eq!(registry.get_test_params(first), Some((&item(0, 0), command().as_slice())));
    assert_eq!(registry.get_test_params(second), Some((&item(1, 0), other.as_slice())));
    assert_eq!(registry.get_test_params(third), Some((&item(2, 0), command().as_slice())));
    assert_eq!(registry.get_test_commandline(second), Some(other.as_slice()));
    registry.clear();
    assert_eq!(registry.get_test_params(first), None);
    assert_eq!(registry.get_test_commandline(second), None);
    let fourth = registry.add_new_test(item(3, 0), &command());
    assert_ne!(fourth, first);
    assert_ne!(fourth, third);
}

#[test]
fn properties_of_a_test() {
    let mut test = item(4, 7);
    assert_eq!(test.target_call_number(), 5);
    assert_eq!(test.test_timeout_s(), 2);
    test.timeout_test = limit(65535);
    assert_eq!(test.test_timeout_s(), 65535);
    test.timeout_test = limit(65536);
    assert_eq!(test.test_timeout_s(), 0);
    assert!(test.terminate_child());
    test.mode = TestingMode::CheckpointedTesting(false);
    assert!(test.terminate_child());
    test.mode = TestingMode::MTCompatTesting;
    assert!(!test.terminate_child());
    test.thread_lid = ThreadLidT(12);
    assert_eq!(test.id(), "12-4-7");
}

#[test]
fn every_call_of_every_thread_is_tested_with_every_packet() {
    let mut phase = MTSupportTesting::new(infra(), Arc::new(None));
    assert_eq!(phase.prepare_cases(&command(), &partial(2, vec![2, 0, 1])), Ok(true));
    assert_eq!(
        laid_out(&phase),
        vec![(0, 0, 0), (0, 0, 1), (0, 1, 0), (0, 1, 1), (2, 0, 0), (2, 0, 1)]
    );
    match phase.tests().get(5) {
        Some((test, _)) => {
            assert_eq!(test.mode, TestingMode::MTCompatTesting);
            assert_eq!((test.thread_count, test.test_count), (3, 2));
            assert_eq!(test.timeout_test, limit(3));
            assert_eq!(test.timeout_process, Some(limit(3)));
        },
        None => panic!("there are six tests"),
    }
    assert_eq!(phase.next_batch(), None);
    assert_eq!(phase.prepare_cases(&command(), &partial(0, vec![2, 1])), Ok(false));
    assert!(laid_out(&phase).is_empty());
}

#[test]
fn there_is_nothing_to_test_without_threads() {
    let mut phase = MTSupportTesting::new(infra(), Arc::new(None));
    assert!(phase.can_prepare_cases(&partial(1, vec![])));
    assert_eq!(phase.prepare_cases(&command(), &partial(1, vec![])), Ok(false));
    assert_eq!(phase.prepare_cases(&command(), &partial(1, vec![1])), Ok(true));
}

#[test]
fn plain_testing_goes_through_the_calls() {
    let mut phase = BasicTesting::new(infra(), Arc::new(None));
    assert_eq!(phase.prepare_cases(&command(), &partial(3, vec![9])), Ok(true));
    assert_eq!(laid_out(&phase), vec![(0, 0, 0), (0, 1, 0), (0, 2, 0)]);
    match phase.tests().get(0) {
        Some((test, _)) => {
            assert_eq!(test.mode, TestingMode::Testing);
            assert_eq!(test.timeout_process, Some(limit(60)));
        },
        None => panic!("there are three tests"),
    }
    assert_eq!(phase.prepare_cases(&command(), &partial(0, vec![9])), Ok(false));
    assert_eq!(phase.next_batch(), None);
}

#[test]
fn rounds_go_through_the_calls_thread_by_thread() {
    let mut phase = CheckpointedTesting::new(infra(), outputs());
    let mut rounds = vec![];
    while phase.next_batch().is_some() {
        assert_eq!(phase.prepare_cases(&command(), &partial(1, vec![2, 1, 3])), Ok(true));
        let tests = laid_out(&phase);
        match phase.checkpoint_job() {
            Some((test, CheckpointJobMode::New(cmd, 0))) => {
                assert_eq!(test.call_index, CallIndexT(0));
                assert_eq!(cmd, command().as_slice());
                assert_eq!(test.mode, TestingMode::CheckpointedTesting(true));
            },
            Some((test, CheckpointJobMode::Restore(idx))) => {
                assert_eq!(test.call_index, CallIndexT(idx as u32));
            },
            _ => panic!("every round has a checkpoint"),
        }
        assert_eq!(tests.len(), 1);
        rounds.push((tests[0].0, tests[0].1));
    }
    assert_eq!(rounds, vec![(0, 0), (0, 1), (1, 0), (2, 0), (2, 1), (2, 2)]);
    assert_eq!(phase.prepare_cases(&command(), &partial(1, vec![2, 1, 3])), Ok(false));
    assert!(phase.checkpoint_job().is_none());
}

#[test]
fn a_thread_without_calls_ends_checkpointed_testing() {
    let mut phase = CheckpointedTesting::new(infra(), outputs());
    assert_eq!(phase.prepare_cases(&command(), &partial(1, vec![1, 0, 3])), Ok(true));
    assert!(phase.next_batch().is_some());
    assert_eq!(phase.prepare_cases(&command(), &partial(1, vec![1, 0, 3])), Ok(false));
    assert!(laid_out(&phase).is_empty());
}

#[test]
fn checkpoint_runs_are_judged() {
    assert!(CheckpointedTesting::judge_checkpoint(Ok(TestStatus::Exit(0))).is_ok());
    assert!(CheckpointedTesting::judge_checkpoint(Ok(TestStatus::Signal(9))).is_ok());
    assert!(CheckpointedTesting::judge_checkpoint(Ok(TestStatus::Spurious("s".to_owned()))).is_ok());
    assert!(matches!(
        CheckpointedTesting::judge_checkpoint(Ok(TestStatus::Exit(242))),
        Err(CheckpointFailure::Refused)
    ));
    assert!(matches!(
        CheckpointedTesting::judge_checkpoint(Ok(TestStatus::Fatal("f".to_owned()))),
        Err(CheckpointFailure::Fatal(m)) if m == "f"
    ));
    let failure = TestJobFailure::from_test(&item(0, 0), "x", None);
    assert!(matches!(
        CheckpointedTesting::judge_checkpoint(Err(failure)),
        Err(CheckpointFailure::Job(_))
    ));
}

#[test]
fn results_that_count() {
    let jobs = || {
        vec![
            Ok(TestStatus::Pass),
            Ok(TestStatus::GlobalTimeout),
            Err(TestJobFailure::from_test(&item(2, 0), "broken", None)),
        ]
    };
    let mut mt = MTSupportTesting::new(infra(), Arc::new(None));
    assert_eq!(mt.prepare_cases(&command(), &partial(1, vec![3])), Ok(true));
    let (results, failures) = mt.run_tests(jobs());
    assert_eq!(results.len(), 2);
    assert!(matches!(results[0].status, TestStatus::Pass));
    assert_eq!(results[0].call, CallIndexT(1));
    assert!(matches!(results[1].status, TestStatus::Timeout));
    assert_eq!(results[1].call, CallIndexT(2));
    assert_eq!(failures.len(), 1);

    let mut basic = BasicTesting::new(infra(), Arc::new(None));
    assert_eq!(basic.prepare_cases(&command(), &partial(3, vec![3])), Ok(true));
    let (results, failures) = basic.run_tests(jobs());
    assert_eq!(results.len(), 1);
    assert!(matches!(results[0].status, TestStatus::GlobalTimeout));
    assert_eq!(failures.len(), 1);
    assert!(matches!(&failures[0].log_res.status, TestStatus::Fatal(m) if m == "broken"));

    let mut checkpointed = CheckpointedTesting::new(infra(), outputs());
    assert_eq!(checkpointed.prepare_cases(&command(), &partial(3, vec![1])), Ok(true));
    let (results, failures) = checkpointed.run_tests(jobs());
    assert_eq!(results.len(), 2);
    assert!(matches!(results[1].status, TestStatus::GlobalTimeout));
    assert_eq!(failures.len(), 1);
}

#[test]
fn functions_without_packets_are_skipped() {
    assert_eq!(testing_phase(uid(), None), Err(Error::NoPackets(uid())));
    assert_eq!(testing_phase(uid(), Some(0)), Ok(FunctionTests::Skip));
    assert_eq!(testing_phase(uid(), Some(4)), Ok(FunctionTests::Run(4)));
}

#[test]
fn rounds_are_run_while_there_is_something_to_run() {
    assert_eq!(run_test_case(Ok(true)), CaseStep::Run);
    assert_eq!(run_test_case(Ok(false)), CaseStep::Stop);
    assert_eq!(run_test_case(Err(Error::TooManyToCount)), CaseStep::Stop);
    assert_eq!(checkpoint_round(Ok(true)), Ok(CaseStep::Run));
    assert_eq!(checkpoint_round(Ok(false)), Ok(CaseStep::Stop));
    assert_eq!(checkpoint_round(Err(Error::TooManyToCount)), Err(Error::TooManyToCount));
    assert_eq!(after_round(&BasicTesting::new(infra(), Arc::new(None))), CaseStep::Stop);
    assert_eq!(after_round(&CheckpointedTesting::new(infra(), outputs())), CaseStep::Prepare);
}

#[test]
fn rounds_have_to_be_numbered() {
    let mt = MTSupportTesting::new(infra(), Arc::new(None));
    assert!(mt.can_prepare_cases(&partial(1, vec![u64::MAX])));
    assert!(!mt.can_prepare_cases(&partial(1, vec![u64::MAX, 1])));
    assert!(!mt.can_prepare_cases(&partial(2, vec![1 << 63])));
    assert!(BasicTesting::new(infra(), Arc::new(None)).can_prepare_cases(&partial(u32::MAX, vec![])));
    let checkpointed = CheckpointedTesting::new(infra(), outputs());
    assert!(checkpointed.can_prepare_cases(&partial(1, vec![3])));
    assert!(!checkpointed.can_prepare_cases(&partial(1, vec![])));
}

#[test]
fn phases_keep_what_tests_are_run_with() {
    let kept = |base| match TestOutputPathGen::make(Some(base), true, true) {
        Ok(paths) => Arc::new(paths),
        Err(_) => panic!("the base is a directory"),
    };
    let mut mt = MTSupportTesting::new(infra(), kept("/a"));
    assert_eq!(mt.prepare_cases(&command(), &partial(2, vec![2])), Ok(true));
    assert_eq!(mt.tests().infra_params(), infra());
    assert_eq!(mt.tests().output_generator().as_ref().map(|g| g.tmp_dir()), Some("/a/temp"));
    let mut basic = BasicTesting::new(infra(), kept("/b"));
    assert_eq!(basic.prepare_cases(&command(), &partial(2, vec![2])), Ok(true));
    assert_eq!(basic.tests().infra_params(), infra());
    assert_eq!(basic.tests().output_generator().as_ref().map(|g| g.tmp_dir()), Some("/b/temp"));
    let mut checkpointed = CheckpointedTesting::new(infra(), outputs());
    assert_eq!(checkpointed.prepare_cases(&command(), &partial(2, vec![2])), Ok(true));
    assert_eq!(checkpointed.tests().infra_params(), infra());
    assert!(checkpointed.tests().output_generator().is_none());
    assert_eq!(checkpointed.output_generator().tmp_dir(), "/o/temp");
}

#[test]
fn outputs_are_stored_by_how_the_checkpoint_was_made() {
    let mut phase = CheckpointedTesting::new(infra(), outputs());
    assert!(phase.store_checkpoint().is_none());
    assert_eq!(phase.prepare_cases(&command(), &partial(1, vec![2])), Ok(true));
    let paths = match phase.store_checkpoint() {
        Some(Ok(plan)) => {
            assert_eq!(plan.copies[0].context, "Checkpoint scratch copy, out: ");
            plan.paths
        },
        _ => panic!("the outputs have names"),
    };
    match paths {
        Some(paths) => phase.commit_paths(paths),
        None => panic!("it is known where the outputs are"),
    }
    assert_eq!(phase.prepare_cases(&command(), &partial(1, vec![2])), Ok(true));
    match phase.store_checkpoint() {
        Some(Ok(plan)) => {
            assert_eq!(plan.copies[0].context, "Checkpoint copy, out: ");
            assert!(plan.paths.is_some());
        },
        _ => panic!("the outputs have names"),
    }
}

#[test]
fn nothing_is_run_after_the_last_call() {
    let mut phase = CheckpointedTesting::new(infra(), outputs());
    assert_eq!(phase.prepare_cases(&command(), &partial(2, vec![1])), Ok(true));
    assert_eq!(laid_out(&phase), vec![(0, 0, 0), (0, 0, 1)]);
    assert!(phase.next_batch().is_none());
    // at the end, the threads do not matter
    assert!(phase.can_prepare_cases(&partial(2, vec![])));
    assert_eq!(phase.prepare_cases(&command(), &partial(2, vec![])), Ok(false));
    assert_eq!(laid_out(&phase), vec![(0, 0, 0), (0, 0, 1)]);
}
