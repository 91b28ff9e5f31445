use llcap_server::libc_wrappers::get_child_exit_code_with_timeout;
use llcap_server::libc_wrappers::ChildWait;
use llcap_server::modmap::IntegralFnId;
use llcap_server::modmap::IntegralModId;
use llcap_server::modmap::NumFunUid;
use llcap_server::stages::checkpointed::CheckpointedTesting;
use llcap_server::stages::test_jobs::conclude_job;
use llcap_server::stages::test_jobs::kill_children_command;
use llcap_server::stages::test_jobs::kill_command;
use llcap_server::stages::test_jobs::mk_fail;
use llcap_server::stages::test_jobs::restore_command;
use llcap_server::stages::test_jobs::restored_pid;
use llcap_server::stages::test_jobs::singular_test_job;
use llcap_server::stages::test_jobs::status_or_kill;
use llcap_server::stages::test_jobs::wait_or_terminate;
use llcap_server::stages::test_jobs::wait_restored_test;
use llcap_server::stages::test_jobs::CheckpointJobMode;
use llcap_server::stages::test_jobs::CheckpointPlan;
use llcap_server::stages::test_jobs::JobStage;
use llcap_server::stages::test_jobs::KillOutcome;
use llcap_server::stages::test_jobs::RestoreStage;
use llcap_server::stages::test_jobs::TestJobFailure;
use llcap_server::stages::test_jobs::WaitOutcome;
use llcap_server::stages::test_protocol::CallIndexT;
use llcap_server::stages::test_protocol::LogResult;
use llcap_server::stages::test_protocol::PacketIndexT;
use llcap_server::stages::test_protocol::ProcessExit;
use llcap_server::stages::test_protocol::TestStatus;
use llcap_server::stages::test_protocol::ThreadLidT;
use llcap_server::stages::test_registry::TestRegisryItem;
use llcap_server::stages::test_registry::TestingMode;
use llcap_server::stages::test_registry::TimeLimit;

fn item(mode: TestingMode) -> TestRegisryItem {
    TestRegisryItem {
        uid: NumFunUid::from((IntegralModId(1), IntegralFnId(2))),
        call_index: CallIndexT(3),
        packet_index: PacketIndexT(4),
        thread_lid: ThreadLidT(5),
        thread_count: 6,
        test_count: 7,
        timeout_test: TimeLimit { secs: 1, nanos: 0 },
        timeout_process: None,
        mode,
    }
}

fn test() -> TestRegisryItem {
    item(TestingMode::Testing)
}

fn status_of(failure: TestJobFailure) -> String {
    failure.log_res.status.text()
}

fn exit(code: i32) -> ProcessExit {
    ProcessExit { signal: None, code: Some(code), description: String::new() }
}

#[test]
fn results_count_calls_from_one() {
    let result = LogResult::from_test(&test(), TestStatus::Pass);
    assert_eq!(result.call, CallIndexT(4));
    assert_eq!(result.pkt, PacketIndexT(4));
    assert_eq!(result.thread_lid, ThreadLidT(5));
    assert_eq!(result.uid, test().uid);
}

#[test]
fn failures_have_a_status() {
    assert_eq!(status_of(TestJobFailure::from_test(&test(), "why", None)), "Fatal(\"why\")");
    let timeout = Some(TestStatus::Timeout);
    assert_eq!(status_of(TestJobFailure::from_test(&test(), "why", timeout)), "Timeout");
    assert_eq!(status_of(mk_fail(&test(), "why", TestStatus::Exit(1))), "Exit(1)");
}

#[test]
fn a_job_goes_through_its_stages() {
    let mut stage = JobStage::ReNew;
    let mut seen = vec![stage];
    while stage != JobStage::Wait {
        stage = match singular_test_job(&test(), stage, Ok(()), true) {
            Ok(next) => next,
            Err(_) => panic!("nothing failed"),
        };
        seen.push(stage);
    }
    assert_eq!(
        seen,
        vec![
            JobStage::ReNew,
            JobStage::SendMetadata,
            JobStage::MakeCommand,
            JobStage::CreateStdout,
            JobStage::CreateStderr,
            JobStage::Spawn,
            JobStage::Wait,
        ]
    );
    assert!(matches!(
        singular_test_job(&test(), JobStage::MakeCommand, Ok(()), false),
        Ok(JobStage::Spawn)
    ));
}

#[test]
fn stages_of_a_job_fail_in_their_own_ways() {
    let failed = |stage| match singular_test_job(&test(), stage, Err("e".to_owned()), true) {
        Ok(_) => panic!("the stage failed"),
        Err(failure) => status_of(failure),
    };
    assert_eq!(failed(JobStage::ReNew), "Fatal(\"Failed to re-new semaphores\")");
    assert_eq!(failed(JobStage::SendMetadata), "Timeout");
    assert_eq!(failed(JobStage::MakeCommand), "Fatal(\"Command creation\")");
    assert_eq!(failed(JobStage::CreateStdout), "Fatal(\"Stdout create\")");
    assert_eq!(failed(JobStage::CreateStderr), "Fatal(\"Stderr create\")");
    assert_eq!(failed(JobStage::Spawn), "Fatal(\"Spawn\")");
}

#[test]
fn ends_that_say_nothing_of_the_test_are_failures() {
    assert!(matches!(conclude_job(&test(), TestStatus::Exit(3)), Ok(TestStatus::Exit(3))));
    assert!(matches!(conclude_job(&test(), TestStatus::GlobalTimeout), Ok(TestStatus::GlobalTimeout)));
    match conclude_job(&test(), TestStatus::Fatal("f".to_owned())) {
        Ok(_) => panic!("fatal"),
        Err(failure) => assert_eq!(status_of(failure), "Fatal(\"f\")"),
    }
    match conclude_job(&test(), TestStatus::Spurious("s".to_owned())) {
        Ok(_) => panic!("spurious"),
        Err(failure) => assert_eq!(status_of(failure), "Spurious(\"s\")"),
    }
}

#[test]
fn a_restoration_goes_through_its_stages() {
    let mut stage = RestoreStage::FindPaths;
    let mut count = 0;
    while stage != RestoreStage::Conclude {
        stage = match CheckpointedTesting::singular_restore_job(&test(), stage, Ok(())) {
            Ok(next) => next,
            Err(_) => panic!("nothing failed"),
        };
        count += 1;
    }
    assert_eq!(count, 9);
    let failed = |stage| match CheckpointedTesting::singular_restore_job(&test(), stage, Err("e".to_owned())) {
        Ok(_) => panic!("the stage failed"),
        Err(failure) => status_of(failure),
    };
    assert_eq!(failed(RestoreStage::FindPaths), "Fatal(\"Checkpoint was not done before the test\")");
    assert_eq!(failed(RestoreStage::Reload), "Fatal(\"Failed to restore e\")");
    assert_eq!(failed(RestoreStage::ReNew), "Fatal(\"Failed to re-new semaphores\")");
    assert_eq!(failed(RestoreStage::SendMetadata), "Timeout");
    assert_eq!(failed(RestoreStage::MakeCommand), "Fatal(\"Command creation\")");
    assert_eq!(failed(RestoreStage::Spawn), "Fatal(\"Spawn\")");
    assert_eq!(failed(RestoreStage::WaitRestore), "Fatal(\"Failed to wait for the CRIU restore\")");
    assert_eq!(failed(RestoreStage::Persist), "Fatal(\"Failed to persist e\")");
}

#[test]
fn commands() {
    assert_eq!(
        restore_command("/dumps/3", false),
        vec![
            "criu",
            "restore",
            "--restore-detached",
            "--restore-sibling",
            "--pidfile",
            "/tmp/llcap-criu-pidfile",
            "-D",
            "/dumps/3",
        ]
    );
    assert_eq!(restore_command("d", true).last(), Some(&"-v4".to_owned()));
    assert_eq!(kill_command(123), vec!["kill", "-9", "123"]);
    assert_eq!(
        kill_children_command(&test(), Some(77)),
        Some(vec!["pkill".to_owned(), "-P".to_owned(), "77".to_owned()])
    );
    assert_eq!(kill_children_command(&test(), None), None);
    assert_eq!(kill_children_command(&item(TestingMode::MTCompatTesting), Some(77)), None);
}

#[test]
fn checkpoints_are_made_by_tests_that_ask_for_them() {
    let cmd = vec!["app".to_owned()];
    let asking = item(TestingMode::CheckpointedTesting(true));
    match CheckpointedTesting::singular_checkpointing_job(&asking, CheckpointJobMode::New(&cmd, 0)) {
        Ok(CheckpointPlan::RunNew { command, checkpoint }) => {
            assert_eq!(command, cmd.as_slice());
            assert_eq!(checkpoint, 0);
        },
        _ => panic!("the command is run"),
    }
    assert!(matches!(
        CheckpointedTesting::singular_checkpointing_job(&asking, CheckpointJobMode::Restore(4)),
        Ok(CheckpointPlan::RestoreFrom { previous: 3, checkpoint: 4 })
    ));
    let failed = |mode| match CheckpointedTesting::singular_checkpointing_job(&item(mode), CheckpointJobMode::Restore(4)) {
        Ok(_) => panic!("no checkpoint is asked for"),
        Err(failure) => status_of(failure),
    };
    match CheckpointedTesting::singular_checkpointing_job(&test(), CheckpointJobMode::Restore(0)) {
        Ok(_) => panic!("no checkpoint is asked for"),
        Err(failure) => {
            assert_eq!(status_of(failure), "Fatal(\"invalid test mode for checkpoint\")")
        },
    }
    assert_eq!(failed(TestingMode::Testing), "Fatal(\"invalid test mode for checkpoint\")");
    assert_eq!(failed(TestingMode::MTCompatTesting), "Fatal(\"invalid test mode for checkpoint\")");
    assert_eq!(
        failed(TestingMode::CheckpointedTesting(false)),
        "Fatal(\"invalid test: expected do_checkpoint to be true\")"
    );
}

#[test]
fn pids_are_read_from_the_pidfile() {
    assert!(matches!(restored_pid(&test(), Ok(b"4711".to_vec())), Ok(4711)));
    assert!(matches!(restored_pid(&test(), Ok(b"+12".to_vec())), Ok(12)));
    assert!(matches!(restored_pid(&test(), Ok(b"-2147483648".to_vec())), Ok(i32::MIN)));
    let failed = |pidfile| match restored_pid(&test(), pidfile) {
        Ok(_) => panic!("there is no PID"),
        Err(failure) => status_of(failure),
    };
    assert_eq!(
        failed(Err("gone".to_owned())),
        "Fatal(\"Failed to read CRIU restore pidfile: gone\")"
    );
    assert_eq!(
        failed(Ok(vec![0x31, 0xFF])),
        "Fatal(\"Failed to parse CRIU restore pidfile: invalid utf-8 sequence of 1 bytes from index 1\")"
    );
    assert_eq!(
        failed(Ok(b"12x".to_vec())),
        "Fatal(\"Failed to parse CRIU restore PID: invalid digit found in string\")"
    );
    assert_eq!(
        failed(Ok(b"3000000000".to_vec())),
        "Fatal(\"Failed to parse CRIU restore PID: number too large to fit in target type\")"
    );
}

#[test]
fn restored_tests_are_waited_for() {
    match wait_restored_test(&test(), 5, Ok(Some(exit(1)))) {
        Ok(Some(end)) => assert_eq!(end.code, Some(1)),
        _ => panic!("the test has ended"),
    }
    assert!(matches!(wait_restored_test(&test(), 5, Ok(None)), Ok(None)));
    match wait_restored_test(&test(), -5, Err("no child".to_owned())) {
        Ok(_) => panic!("waiting failed"),
        Err(failure) => assert_eq!(
            status_of(failure),
            "Fatal(\"Failed to wait for CRIU restore PID -5: no child\")"
        ),
    }
}

#[test]
fn tests_that_run_too_long_are_ended() {
    assert_eq!(status_of(status_or_kill(&test(), KillOutcome::Killed)), "Timeout");
    assert_eq!(
        status_of(status_or_kill(&test(), KillOutcome::NotSpawned("e".to_owned()))),
        "Fatal(\"kill\")"
    );
    assert_eq!(
        status_of(status_or_kill(&test(), KillOutcome::NotWaited("e".to_owned()))),
        "Fatal(\"kill-wait\")"
    );
}

#[test]
fn processes_are_waited_for() {
    let mut limited = test();
    limited.timeout_process = Some(TimeLimit { secs: 1, nanos: 0 });
    let failed = || WaitOutcome::Failed { error: "E".to_owned(), debug: "D".to_owned() };
    assert_eq!(wait_or_terminate(&limited, "T", WaitOutcome::Exited(exit(0))).text(), "Exit(0)");
    assert_eq!(wait_or_terminate(&limited, "T", WaitOutcome::TimedOut).text(), "GlobalTimeout");
    assert_eq!(
        wait_or_terminate(&limited, "T", failed()).text(),
        "Spurious(\"I/O error in wait: D\")"
    );
    assert_eq!(
        wait_or_terminate(&test(), "T", failed()).text(),
        "Spurious(\"Test T failed with error E\")"
    );
}

#[test]
fn looks_at_a_process() {
    let at = |secs, nanos| TimeLimit { secs, nanos };
    let look = |res, interrupted, elapsed, timeout| {
        get_child_exit_code_with_timeout(42, res, interrupted, elapsed, timeout)
    };
    assert_eq!(look(42, false, at(9, 0), at(1, 0)), ChildWait::Exited);
    assert_eq!(look(43, false, at(0, 0), at(1, 0)), ChildWait::UnexpectedPid);
    assert_eq!(look(-1, true, at(9, 0), at(1, 0)), ChildWait::Retry);
    assert_eq!(look(-1, false, at(0, 0), at(1, 0)), ChildWait::Failed);
    assert_eq!(look(0, false, at(1, 0), at(1, 0)), ChildWait::TimedOut);
    assert_eq!(look(0, false, at(0, 0), at(1, 0)), ChildWait::SleepFor(50_000_000));
    assert_eq!(look(0, false, at(0, 999_999_990), at(1, 0)), ChildWait::SleepFor(10));
}
