//! Running one test: what is done in which order, and what a failure on the way stands for.

use crate::stages::checkpointed::CheckpointedTesting;
use crate::stages::test_protocol::status_of_exit;
use crate::stages::test_protocol::CallIndexT;
use crate::stages::test_protocol::LogResult;
use crate::stages::test_protocol::ProcessExit;
use crate::stages::test_protocol::ResultModel;
use crate::stages::test_protocol::StatusModel;
use crate::stages::test_protocol::TestStatus;
use crate::stages::test_registry::TestRegisryItem;
use crate::stages::test_registry::TestingMode;
use crate::text::dec;
use crate::text::dec_signed;
use crate::text::decimal;
use crate::text::decimal_signed;
use crate::text::shows;
use crate::text::texts;
use vstd::prelude::*;
use vstd::utf8::decode_utf8;
use vstd::utf8::encode_utf8;
use vstd::utf8::encode_utf8_decode_utf8;
use vstd::utf8::encode_utf8_valid_utf8;
use vstd::utf8::valid_utf8;

verus! {

/// The result of a test with the given status. Results count calls from one.
pub open spec fn result_of(test: TestRegisryItem, status: StatusModel) -> ResultModel {
    ResultModel {
        call: CallIndexT((test.call_index.0 + 1) as u32),
        uid: test.uid,
        pkt: test.packet_index,
        thread_lid: test.thread_lid,
        status,
    }
}

impl LogResult {
    /// The result of a test with the given status.
    pub fn from_test(t: &TestRegisryItem, status: TestStatus) -> (r: Self)
        requires
            t.call_index.0 < u32::MAX,
        ensures
            r@ == result_of(*t, status@),
    {
        LogResult {
            call: CallIndexT(t.call_index.0 + 1),
            uid: t.uid,
            pkt: t.packet_index,
            thread_lid: t.thread_lid,
            status,
        }
    }
}

/// A test that could not be run to its end.
#[derive(Debug)]
pub struct TestJobFailure {
    pub log_res: LogResult,
}

impl View for TestJobFailure {
    type V = ResultModel;

    open spec fn view(&self) -> ResultModel {
        self.log_res@
    }
}

impl Clone for TestJobFailure {
    fn clone(&self) -> (r: Self)
        ensures
            r@ == self@,
    {
        TestJobFailure { log_res: self.log_res.clone() }
    }
}

impl TestJobFailure {
    /// A failure with the status, or a fatal one with the message if there is no status.
    pub fn from_test(t: &TestRegisryItem, message: &str, status: Option<TestStatus>) -> (r: Self)
        requires
            t.call_index.0 < u32::MAX,
        ensures
            r@ == result_of(
                *t,
                match status {
                    Some(s) => s@,
                    None => StatusModel::Fatal(message@),
                },
            ),
    {
        let status = match status {
            Some(status) => status,
            None => TestStatus::Fatal(message.to_owned()),
        };
        TestJobFailure { log_res: LogResult::from_test(t, status) }
    }
}

/// A failure with the status.
pub fn mk_fail(test: &TestRegisryItem, error: &str, status: TestStatus) -> (r: TestJobFailure)
    requires
        test.call_index.0 < u32::MAX,
    ensures
        r@ == result_of(*test, status@),
{
    TestJobFailure::from_test(test, error, Some(status))
}

/// What running a test consists of.
#[derive(Debug, Clone, Copy, PartialEq, Eq, Structural)]
pub enum JobStage {
    /// make the semaphores of the metadata channel anew
    ReNew,
    /// publish the test's parameters
    SendMetadata,
    /// make a command of the command line
    MakeCommand,
    /// create the file for standard output
    CreateStdout,
    /// create the file for standard error
    CreateStderr,
    /// start the command
    Spawn,
    /// wait for the end of the process
    Wait,
}

/// The status that a failure in the stage stands for.
pub open spec fn job_failure(stage: JobStage) -> StatusModel {
    match stage {
        JobStage::ReNew => StatusModel::Fatal("Failed to re-new semaphores"@),
        JobStage::SendMetadata => StatusModel::Timeout,
        JobStage::MakeCommand => StatusModel::Fatal("Command creation"@),
        JobStage::CreateStdout => StatusModel::Fatal("Stdout create"@),
        JobStage::CreateStderr => StatusModel::Fatal("Stderr create"@),
        JobStage::Spawn => StatusModel::Fatal("Spawn"@),
        JobStage::Wait => StatusModel::Fatal(Seq::empty()),
    }
}

/// The stage that follows. Without files for the outputs, they are not created.
pub open spec fn next_stage(stage: JobStage, with_output: bool) -> JobStage {
    match stage {
        JobStage::ReNew => JobStage::SendMetadata,
        JobStage::SendMetadata => JobStage::MakeCommand,
        JobStage::MakeCommand => if with_output {
            JobStage::CreateStdout
        } else {
            JobStage::Spawn
        },
        JobStage::CreateStdout => JobStage::CreateStderr,
        JobStage::CreateStderr => JobStage::Spawn,
        JobStage::Spawn => JobStage::Wait,
        JobStage::Wait => JobStage::Wait,
    }
}

/// What to do after a stage of a test's job: go on with the next one, or give up with what the
/// failure stands for. A job starts with [`JobStage::ReNew`], and ends with [`JobStage::Wait`],
/// which [`conclude_job`] judges.
pub fn singular_test_job(
    test: &TestRegisryItem,
    stage: JobStage,
    outcome: Result<(), String>,
    with_output: bool,
) -> (r: Result<JobStage, TestJobFailure>)
    requires
        test.call_index.0 < u32::MAX,
        stage !is Wait,
    ensures
        match outcome {
            Ok(_) => r == Ok::<JobStage, TestJobFailure>(next_stage(stage, with_output)),
            Err(_) => r is Err && r->Err_0@ == result_of(*test, job_failure(stage)),
        },
{
    match outcome {
        Ok(()) => Ok(
            match stage {
                JobStage::ReNew => JobStage::SendMetadata,
                JobStage::SendMetadata => JobStage::MakeCommand,
                JobStage::MakeCommand => if with_output {
                    JobStage::CreateStdout
                } else {
                    JobStage::Spawn
                },
                JobStage::CreateStdout => JobStage::CreateStderr,
                JobStage::CreateStderr => JobStage::Spawn,
                JobStage::Spawn => JobStage::Wait,
                JobStage::Wait => JobStage::Wait,
            },
        ),
        Err(error) => {
            let status = match stage {
                JobStage::ReNew => TestStatus::Fatal("Failed to re-new semaphores".to_owned()),
                JobStage::SendMetadata => TestStatus::Timeout,
                JobStage::MakeCommand => TestStatus::Fatal("Command creation".to_owned()),
                JobStage::CreateStdout => TestStatus::Fatal("Stdout create".to_owned()),
                JobStage::CreateStderr => TestStatus::Fatal("Stderr create".to_owned()),
                JobStage::Spawn => TestStatus::Fatal("Spawn".to_owned()),
                JobStage::Wait => TestStatus::Fatal(String::new()),
            };
            Err(mk_fail(test, error.as_str(), status))
        },
    }
}

/// Judges the status that a test's process ended with: those that say nothing of the test
/// are failures.
pub fn conclude_job(test: &TestRegisryItem, result: TestStatus) -> (r: Result<
    TestStatus,
    TestJobFailure,
>)
    requires
        test.call_index.0 < u32::MAX,
    ensures
        match result@ {
            StatusModel::Fatal(_) | StatusModel::Spurious(_) => r is Err && r->Err_0@
                == result_of(*test, result@),
            _ => r == Ok::<TestStatus, TestJobFailure>(result),
        },
{
    match result {
        TestStatus::Fatal(m) => {
            let message = m.clone();
            Err(TestJobFailure::from_test(test, message.as_str(), Some(TestStatus::Fatal(m))))
        },
        TestStatus::Spurious(m) => {
            let message = m.clone();
            Err(TestJobFailure::from_test(test, message.as_str(), Some(TestStatus::Spurious(m))))
        },
        other => Ok(other),
    }
}

/// What restoring a checkpoint consists of.
#[derive(Debug, Clone, Copy, PartialEq, Eq, Structural)]
pub enum RestoreStage {
    /// find where the outputs were stored at the checkpoint
    FindPaths,
    /// put the stored outputs back into place
    Reload,
    /// make the semaphores of the metadata channel anew
    ReNew,
    /// publish the test's parameters
    SendMetadata,
    /// make the command that restores, once the pidfile was removed
    MakeCommand,
    /// start the command
    Spawn,
    /// wait for the end of the command
    WaitRestore,
    /// wait for the end of the restored process
    WaitTest,
    /// keep the outputs
    Persist,
    /// nothing more
    Conclude,
}

/// The status that a failure in the stage stands for.
pub open spec fn restore_failure(stage: RestoreStage, error: Seq<char>) -> StatusModel {
    match stage {
        RestoreStage::FindPaths => StatusModel::Fatal("Checkpoint was not done before the test"@),
        RestoreStage::Reload => StatusModel::Fatal("Failed to restore "@ + error),
        RestoreStage::ReNew => StatusModel::Fatal("Failed to re-new semaphores"@),
        RestoreStage::SendMetadata => StatusModel::Timeout,
        RestoreStage::MakeCommand => StatusModel::Fatal("Command creation"@),
        RestoreStage::Spawn => StatusModel::Fatal("Spawn"@),
        RestoreStage::WaitRestore => StatusModel::Fatal("Failed to wait for the CRIU restore"@),
        RestoreStage::Persist => StatusModel::Fatal("Failed to persist "@ + error),
        _ => StatusModel::Fatal(error),
    }
}

/// The stage that follows.
pub open spec fn next_restore_stage(stage: RestoreStage) -> RestoreStage {
    match stage {
        RestoreStage::FindPaths => RestoreStage::Reload,
        RestoreStage::Reload => RestoreStage::ReNew,
        RestoreStage::ReNew => RestoreStage::SendMetadata,
        RestoreStage::SendMetadata => RestoreStage::MakeCommand,
        RestoreStage::MakeCommand => RestoreStage::Spawn,
        RestoreStage::Spawn => RestoreStage::WaitRestore,
        RestoreStage::WaitRestore => RestoreStage::WaitTest,
        RestoreStage::WaitTest => RestoreStage::Persist,
        _ => RestoreStage::Conclude,
    }
}

/// where CRIU writes the PID of a restored process
pub const PIDFILE: &'static str = "/tmp/llcap-criu-pidfile";

/// The command that restores a checkpoint.
pub open spec fn restore_command_texts(dump_path: Seq<char>, debug: bool) -> Seq<Seq<char>> {
    let plain = seq![
        "criu"@,
        "restore"@,
        "--restore-detached"@,
        "--restore-sibling"@,
        "--pidfile"@,
        PIDFILE@,
        "-D"@,
        dump_path,
    ];
    if debug {
        plain.push("-v4"@)
    } else {
        plain
    }
}

/// The command that restores the checkpoint under the path.
pub fn restore_command(dump_path: &str, debug: bool) -> (cmd: Vec<String>)
    ensures
        texts(cmd@) == restore_command_texts(dump_path@, debug),
{
    let mut cmd: Vec<String> = Vec::new();
    cmd.push("criu".to_owned());
    cmd.push("restore".to_owned());
    // the following are required for exit code tracking
    // combining the two options with --pidfile allows child tracking and therefore exit status tracking
    // https://criu.org/Tree_after_restore
    cmd.push("--restore-detached".to_owned());
    cmd.push("--restore-sibling".to_owned());
    cmd.push("--pidfile".to_owned());
    cmd.push(PIDFILE.to_owned());
    // dump path
    cmd.push("-D".to_owned());
    cmd.push(dump_path.to_owned());
    if debug {
        cmd.push("-v4".to_owned());
    }
    proof {
        assert(texts(cmd@) =~= restore_command_texts(dump_path@, debug));
    }
    cmd
}

/// Spawning or restoring a checkpointed program.
#[derive(Debug)]
pub enum CheckpointJobMode<'a> {
    /// spawning a new job from a command line and a start index
    New(&'a [String], usize),
    /// restoring a job from a checkpoint index
    Restore(usize),
}

/// What a checkpointing job is to do.
#[derive(Debug)]
pub enum CheckpointPlan<'a> {
    /// run the command line and make this checkpoint
    RunNew { command: &'a [String], checkpoint: usize },
    /// restore the first checkpoint and make the second one
    RestoreFrom { previous: usize, checkpoint: usize },
}

impl CheckpointedTesting {
    /// What to do after a stage of a restoring job: go on with the next one, or give up with what
    /// the failure stands for. A job starts with [`RestoreStage::FindPaths`]. How
    /// [`RestoreStage::WaitTest`] ends, [`wait_restored_test`] and [`status_or_kill`] judge, and
    /// [`conclude_job`] the status in the end.
    pub fn singular_restore_job(
        test: &TestRegisryItem,
        stage: RestoreStage,
        outcome: Result<(), String>,
    ) -> (r: Result<RestoreStage, TestJobFailure>)
        requires
            test.call_index.0 < u32::MAX,
        ensures
            match outcome {
                Ok(_) => r == Ok::<RestoreStage, TestJobFailure>(next_restore_stage(stage)),
                Err(error) => r is Err && r->Err_0@ == result_of(
                    *test,
                    restore_failure(stage, error@),
                ),
            },
    {
        match outcome {
            Ok(()) => Ok(
                match stage {
                    RestoreStage::FindPaths => RestoreStage::Reload,
                    RestoreStage::Reload => RestoreStage::ReNew,
                    RestoreStage::ReNew => RestoreStage::SendMetadata,
                    RestoreStage::SendMetadata => RestoreStage::MakeCommand,
                    RestoreStage::MakeCommand => RestoreStage::Spawn,
                    RestoreStage::Spawn => RestoreStage::WaitRestore,
                    RestoreStage::WaitRestore => RestoreStage::WaitTest,
                    RestoreStage::WaitTest => RestoreStage::Persist,
                    RestoreStage::Persist => RestoreStage::Conclude,
                    RestoreStage::Conclude => RestoreStage::Conclude,
                },
            ),
            Err(error) => Err(
                match stage {
                    RestoreStage::FindPaths => TestJobFailure::from_test(
                        test,
                        "Checkpoint was not done before the test",
                        None,
                    ),
                    RestoreStage::Reload => TestJobFailure::from_test(
                        test,
                        "Failed to restore ".to_owned().concat(error.as_str()).as_str(),
                        None,
                    ),
                    RestoreStage::ReNew => mk_fail(
                        test,
                        error.as_str(),
                        TestStatus::Fatal("Failed to re-new semaphores".to_owned()),
                    ),
                    RestoreStage::SendMetadata => mk_fail(test, error.as_str(), TestStatus::Timeout),
                    RestoreStage::MakeCommand => mk_fail(
                        test,
                        error.as_str(),
                        TestStatus::Fatal("Command creation".to_owned()),
                    ),
                    RestoreStage::Spawn => mk_fail(
                        test,
                        error.as_str(),
                        TestStatus::Fatal("Spawn".to_owned()),
                    ),
                    RestoreStage::WaitRestore => mk_fail(
                        test,
                        error.as_str(),
                        TestStatus::Fatal("Failed to wait for the CRIU restore".to_owned()),
                    ),
                    RestoreStage::Persist => TestJobFailure::from_test(
                        test,
                        "Failed to persist ".to_owned().concat(error.as_str()).as_str(),
                        None,
                    ),
                    _ => TestJobFailure::from_test(test, error.as_str(), None),
                },
            ),
        }
    }

    /// What a checkpointing job is to do: either we're starting execution or we are restoring and
    /// running up until the next checkpoint. Only a test that asks for a checkpoint can be run
    /// this way.
    pub fn singular_checkpointing_job<'a>(
        test: &TestRegisryItem,
        mode: CheckpointJobMode<'a>,
    ) -> (r: Result<CheckpointPlan<'a>, TestJobFailure>)
        requires
            test.call_index.0 < u32::MAX,
            test.mode == TestingMode::CheckpointedTesting(true) ==> (mode matches
                CheckpointJobMode::Restore(idx) ==> idx > 0),
        ensures
            match test.mode {
                TestingMode::CheckpointedTesting(true) => r == Ok::<CheckpointPlan, TestJobFailure>(
                    match mode {
                        CheckpointJobMode::New(command, idx) => CheckpointPlan::RunNew {
                            command,
                            checkpoint: idx,
                        },
                        CheckpointJobMode::Restore(idx) => CheckpointPlan::RestoreFrom {
                            previous: (idx - 1) as usize,
                            checkpoint: idx,
                        },
                    },
                ),
                TestingMode::CheckpointedTesting(false) => r is Err && r->Err_0@ == result_of(
                    *test,
                    StatusModel::Fatal("invalid test: expected do_checkpoint to be true"@),
                ),
                _ => r is Err && r->Err_0@ == result_of(
                    *test,
                    StatusModel::Fatal("invalid test mode for checkpoint"@),
                ),
            },
    {
        let do_checkpoint = match test.mode {
            TestingMode::Testing | TestingMode::MTCompatTesting => {
                return Err(TestJobFailure::from_test(test, "invalid test mode for checkpoint", None));
            },
            TestingMode::CheckpointedTesting(do_checkpoint) => do_checkpoint,
        };
        if !do_checkpoint {
            return Err(
                TestJobFailure::from_test(
                    test,
                    "invalid test: expected do_checkpoint to be true",
                    None,
                ),
            );
        }
        match mode {
            CheckpointJobMode::New(command, idx) => Ok(
                CheckpointPlan::RunNew { command, checkpoint: idx },
            ),
            // must perform restoration based on the previous index
            CheckpointJobMode::Restore(idx) => Ok(
                CheckpointPlan::RestoreFrom { previous: idx - 1, checkpoint: idx },
            ),
        }
    }
}

/// What is said of bytes that are no UTF-8.
pub uninterp spec fn utf8_error_text(bytes: Seq<u8>) -> Seq<char>;

/// `String::from_utf8`: gives the text if the bytes are valid UTF-8. How the error reads is a
/// function of the bytes, named [`utf8_error_text`].
#[verifier::external_body]
fn text_from_utf8(bytes: Vec<u8>) -> (r: Result<String, String>)
    ensures
        match r {
            Ok(text) => valid_utf8(bytes@) && text@ == decode_utf8(bytes@),
            Err(e) => !valid_utf8(bytes@) && e@ == utf8_error_text(bytes@),
        },
{
    String::from_utf8(bytes).map_err(|e| e.to_string())
}

/// The number that decimal digits spell. None if there are none, or something else among them.
pub open spec fn digits_value(text: Seq<char>) -> Option<nat>
    decreases text.len(),
{
    if text.len() == 0 || !('0' <= text.last() <= '9') {
        None
    } else {
        let digit = (text.last() as int - 48) as nat;
        if text.len() == 1 {
            Some(digit)
        } else {
            match digits_value(text.drop_last()) {
                Some(front) => Some(10 * front + digit),
                None => None,
            }
        }
    }
}

/// The number in a text: decimal digits, with or without a sign in front, as far as 32 bits hold
/// it.
pub open spec fn i32_in_text(text: Seq<char>) -> Option<int> {
    let signed = text.len() > 0 && (text[0] == '+' || text[0] == '-');
    let digits = if signed {
        text.subrange(1, text.len() as int)
    } else {
        text
    };
    match digits_value(digits) {
        Some(n) => {
            let value = if signed && text[0] == '-' {
                -(n as int)
            } else {
                n as int
            };
            if i32::MIN <= value <= i32::MAX {
                Some(value)
            } else {
                None
            }
        },
        None => None,
    }
}

/// What is said of a text that holds no number.
pub uninterp spec fn i32_error_text(text: Seq<char>) -> Seq<char>;

/// `i32::from_str_radix` with base 10: an optional sign followed by digits only is read as the
/// number that it is, if it is in range. How the error reads is a function of the text, named
/// [`i32_error_text`].
#[verifier::external_body]
fn i32_from_text(text: &str) -> (r: Result<i32, String>)
    ensures
        match r {
            Ok(n) => i32_in_text(text@) == Some(n as int),
            Err(e) => i32_in_text(text@) is None && e@ == i32_error_text(text@),
        },
{
    i32::from_str_radix(text, 10).map_err(|e| e.to_string())
}

proof fn lemma_digits_of_dec(n: nat)
    ensures
        digits_value(dec(n)) == Some(n),
        dec(n).len() > 0,
        '0' <= dec(n)[0] <= '9',
    decreases n,
{
    if n < 10 {
        assert(dec(n).last() == (48 + n) as char);
    } else {
        lemma_digits_of_dec(n / 10);
        assert(dec(n).drop_last() =~= dec(n / 10));
        assert(dec(n).last() == (48 + n % 10) as char);
        assert(dec(n)[0] == dec(n / 10)[0]);
    }
}

/// A number that is written in decimal is read back.
pub proof fn law_decimal_numbers_are_read_back(n: i32)
    ensures
        i32_in_text(dec_signed(n as int)) == Some(n as int),
{
    let text = dec_signed(n as int);
    if n < 0 {
        lemma_digits_of_dec((-(n as int)) as nat);
        assert(text.subrange(1, text.len() as int) =~= dec((-(n as int)) as nat));
    } else {
        lemma_digits_of_dec(n as nat);
    }
}

/// A number that is written in decimal is spelled by its digits.
pub proof fn law_decimal_spells_the_number(n: nat)
    ensures
        digits_value(dec(n)) == Some(n),
{
    lemma_digits_of_dec(n);
}

/// The PID that was written to a pidfile is the one that is read from it.
pub proof fn law_pidfile_is_read_back(pid: i32, bytes: Vec<u8>)
    requires
        bytes@ == encode_utf8(dec_signed(pid as int)),
    ensures
        pid_of(Ok(bytes)) == Ok::<i32, StatusModel>(pid),
{
    encode_utf8_valid_utf8(dec_signed(pid as int));
    encode_utf8_decode_utf8(dec_signed(pid as int));
    law_decimal_numbers_are_read_back(pid);
}

/// A process is ended by its own PID: that is what the command spells.
pub proof fn law_the_right_process_is_ended(pid: i32, cmd: Vec<String>)
    requires
        call_ensures(kill_command, (pid,), cmd),
    ensures
        cmd@.len() == 3,
        i32_in_text(cmd@[2]@) == Some(pid as int),
{
    law_decimal_numbers_are_read_back(pid);
    assert(texts(cmd@).len() == cmd@.len());
    assert(texts(cmd@)[2] == cmd@[2]@);
}

/// The children of a process are ended by the PID of that process: that is what the command spells.
pub proof fn law_the_right_children_are_ended(
    test: &TestRegisryItem,
    pid: Option<u32>,
    cmd: Option<Vec<String>>,
)
    requires
        call_ensures(kill_children_command, (test, pid), cmd),
    ensures
        cmd is Some ==> pid is Some && test.mode !is MTCompatTesting && cmd->Some_0@.len() == 3
            && digits_value(cmd->Some_0@[2]@) == Some(pid->Some_0 as nat),
        pid is Some && test.mode !is MTCompatTesting ==> cmd is Some,
{
    if let Some(c) = cmd {
        lemma_digits_of_dec(pid->Some_0 as nat);
        assert(texts(c@).len() == c@.len());
        assert(texts(c@)[2] == c@[2]@);
    }
}

/// The command that restores a checkpoint is given the directory of the checkpoint, and the file
/// for the PID that is read afterwards.
pub proof fn law_the_right_checkpoint_is_restored(dump_path: Seq<char>, debug: bool)
    ensures
        exists|i: int|
            0 <= i < restore_command_texts(dump_path, debug).len() - 1
                && #[trigger] restore_command_texts(dump_path, debug)[i] == "-D"@
                && restore_command_texts(dump_path, debug)[i + 1] == dump_path,
        exists|i: int|
            0 <= i < restore_command_texts(dump_path, debug).len() - 1
                && #[trigger] restore_command_texts(dump_path, debug)[i] == "--pidfile"@
                && restore_command_texts(dump_path, debug)[i + 1] == PIDFILE@,
{
    let cmd = restore_command_texts(dump_path, debug);
    assert(cmd[6] == "-D"@ && cmd[7] == dump_path);
    assert(cmd[4] == "--pidfile"@ && cmd[5] == PIDFILE@);
}

/// A checkpoint after the first one is made from the one before it, and only a test that asks for a
/// checkpoint makes one.
pub proof fn law_checkpoints_follow_each_other(
    test: &TestRegisryItem,
    mode: CheckpointJobMode,
    plan: Result<CheckpointPlan, TestJobFailure>,
)
    requires
        call_ensures(CheckpointedTesting::singular_checkpointing_job, (test, mode), plan),
        mode matches CheckpointJobMode::Restore(idx) ==> idx > 0,
    ensures
        plan is Ok <==> test.mode == TestingMode::CheckpointedTesting(true),
        plan matches Ok(CheckpointPlan::RestoreFrom { previous, checkpoint }) ==> previous + 1
            == checkpoint && mode == CheckpointJobMode::Restore(checkpoint),
        plan matches Ok(CheckpointPlan::RunNew { command, checkpoint }) ==> mode
            == CheckpointJobMode::New(command, checkpoint),
        plan matches Err(failure) ==> failure@.uid == test.uid && failure@.pkt == test.packet_index
            && failure@.thread_lid == test.thread_lid && failure@.status is Fatal,
{
}

/// The stage of a job after some stages that went well.
pub open spec fn stage_after(stages: nat, with_output: bool) -> JobStage
    decreases stages,
{
    if stages == 0 {
        JobStage::ReNew
    } else {
        next_stage(stage_after((stages - 1) as nat, with_output), with_output)
    }
}

/// A job goes through its stages in order: the channel is made anew before the parameters are
/// published, these are published before the command is started, the files for the outputs are
/// created before that, if there are any, and the process is waited for after all else.
pub proof fn law_jobs_go_through_their_stages()
    ensures
        stage_after(0, false) is ReNew,
        stage_after(1, false) is SendMetadata,
        stage_after(2, false) is MakeCommand,
        stage_after(3, false) is Spawn,
        stage_after(4, false) is Wait,
        stage_after(0, true) is ReNew,
        stage_after(1, true) is SendMetadata,
        stage_after(2, true) is MakeCommand,
        stage_after(3, true) is CreateStdout,
        stage_after(4, true) is CreateStderr,
        stage_after(5, true) is Spawn,
        stage_after(6, true) is Wait,
{
    reveal_with_fuel(stage_after, 7);
}

/// The stage of a restoring job after some stages that went well.
pub open spec fn restore_stage_after(stages: nat) -> RestoreStage
    decreases stages,
{
    if stages == 0 {
        RestoreStage::FindPaths
    } else {
        next_restore_stage(restore_stage_after((stages - 1) as nat))
    }
}

/// A restoring job goes through its stages in order: outputs are put back into place and parameters
/// published before the program is restored, and the outputs are kept after it has ended.
pub proof fn law_restoring_jobs_go_through_their_stages()
    ensures
        restore_stage_after(0) is FindPaths,
        restore_stage_after(1) is Reload,
        restore_stage_after(2) is ReNew,
        restore_stage_after(3) is SendMetadata,
        restore_stage_after(4) is MakeCommand,
        restore_stage_after(5) is Spawn,
        restore_stage_after(6) is WaitRestore,
        restore_stage_after(7) is WaitTest,
        restore_stage_after(8) is Persist,
        restore_stage_after(9) is Conclude,
{
    reveal_with_fuel(restore_stage_after, 10);
}

/// Whatever stage of a job fails, the failure is one of the test whose job it is.
pub proof fn law_failures_are_of_the_test(
    test: &TestRegisryItem,
    stage: JobStage,
    outcome: Result<(), String>,
    with_output: bool,
    r: Result<JobStage, TestJobFailure>,
)
    requires
        call_ensures(singular_test_job, (test, stage, outcome, with_output), r),
        test.call_index.0 < u32::MAX,
    ensures
        r is Ok <==> outcome is Ok,
        r matches Err(failure) ==> {
            &&& failure@.uid == test.uid
            &&& failure@.call.0 == test.call_index.0 + 1
            &&& failure@.pkt == test.packet_index
            &&& failure@.thread_lid == test.thread_lid
            &&& failure@.status is Timeout <==> stage is SendMetadata
        },
{
}

/// Whatever stage of a restoring job fails, the failure is one of the test whose job it is.
pub proof fn law_restore_failures_are_of_the_test(
    test: &TestRegisryItem,
    stage: RestoreStage,
    outcome: Result<(), String>,
    r: Result<RestoreStage, TestJobFailure>,
)
    requires
        call_ensures(CheckpointedTesting::singular_restore_job, (test, stage, outcome), r),
        test.call_index.0 < u32::MAX,
    ensures
        r is Ok <==> outcome is Ok,
        r matches Err(failure) ==> {
            &&& failure@.uid == test.uid
            &&& failure@.call.0 == test.call_index.0 + 1
            &&& failure@.pkt == test.packet_index
            &&& failure@.thread_lid == test.thread_lid
            &&& failure@.status is Timeout <==> stage is SendMetadata
        },
{
}

/// How a process has ended is told by its end: a signal by its number, an exit by its code, and the
/// end of the time by neither.
pub proof fn law_ends_of_processes_are_told_apart(
    exit: ProcessExit,
    has_timeout: bool,
    test_text: Seq<char>,
)
    ensures
        ({
            let status = status_of_wait(has_timeout, test_text, WaitOutcome::Exited(exit));
            &&& status is Signal <==> exit.signal is Some
            &&& status is Signal ==> status->Signal_0 == exit.signal->Some_0
            &&& status is Exit <==> exit.signal is None && exit.code is Some
            &&& status is Exit ==> status->Exit_0 == exit.code->Some_0
            &&& status is Spurious <==> exit.signal is None && exit.code is None
        }),
        status_of_wait(has_timeout, test_text, WaitOutcome::TimedOut) is GlobalTimeout,
{
}

/// A status that says something of the test is the job's result as it is, one that does not is its
/// failure, under the test whose job it was.
pub proof fn law_conclusions_keep_the_status(
    test: &TestRegisryItem,
    status: TestStatus,
    r: Result<TestStatus, TestJobFailure>,
)
    requires
        call_ensures(conclude_job, (test, status), r),
        test.call_index.0 < u32::MAX,
    ensures
        match r {
            Ok(result) => result@ == status@ && status !is Fatal && status !is Spurious,
            Err(failure) => {
                &&& status is Fatal || status is Spurious
                &&& failure@.status == status@
                &&& failure@.uid == test.uid
                &&& failure@.call.0 == test.call_index.0 + 1
                &&& failure@.pkt == test.packet_index
                &&& failure@.thread_lid == test.thread_lid
            },
        },
{
}

/// The PID in a pidfile, or what the failure to get it stands for.
pub open spec fn pid_of(pidfile: Result<Vec<u8>, String>) -> Result<i32, StatusModel> {
    match pidfile {
        Err(e) => Err(StatusModel::Fatal("Failed to read CRIU restore pidfile: "@ + e@)),
        Ok(bytes) => if !valid_utf8(bytes@) {
            Err(
                StatusModel::Fatal(
                    "Failed to parse CRIU restore pidfile: "@ + utf8_error_text(bytes@),
                ),
            )
        } else {
            match i32_in_text(decode_utf8(bytes@)) {
                Some(pid) => Ok(pid as i32),
                None => Err(
                    StatusModel::Fatal(
                        "Failed to parse CRIU restore PID: "@ + i32_error_text(
                            decode_utf8(bytes@),
                        ),
                    ),
                ),
            }
        },
    }
}

/// The PID of the restored test, from what was read from the pidfile.
/// Assumes pidfile contains decimal-encoded PID of the process (as created by CRIU)
pub fn restored_pid(test: &TestRegisryItem, pidfile: Result<Vec<u8>, String>) -> (r: Result<
    i32,
    TestJobFailure,
>)
    requires
        test.call_index.0 < u32::MAX,
    ensures
        match pid_of(pidfile) {
            Ok(pid) => r == Ok::<i32, TestJobFailure>(pid),
            Err(status) => r is Err && r->Err_0@ == result_of(*test, status),
        },
{
    let bytes = match pidfile {
        Ok(bytes) => bytes,
        Err(e) => {
            return Err(
                mk_fail(
                    test,
                    "",
                    TestStatus::Fatal(
                        "Failed to read CRIU restore pidfile: ".to_owned().concat(e.as_str()),
                    ),
                ),
            );
        },
    };
    let text = match text_from_utf8(bytes) {
        Ok(text) => text,
        Err(e) => {
            return Err(
                mk_fail(
                    test,
                    "",
                    TestStatus::Fatal(
                        "Failed to parse CRIU restore pidfile: ".to_owned().concat(e.as_str()),
                    ),
                ),
            );
        },
    };
    match i32_from_text(text.as_str()) {
        Ok(pid) => Ok(pid),
        Err(e) => Err(
            mk_fail(
                test,
                "",
                TestStatus::Fatal(
                    "Failed to parse CRIU restore PID: ".to_owned().concat(e.as_str()),
                ),
            ),
        ),
    }
}

/// Judges how waiting for the restored test with the given PID has ended: None if the time
/// was up.
pub fn wait_restored_test(
    test: &TestRegisryItem,
    test_pid: i32,
    waited: Result<Option<ProcessExit>, String>,
) -> (r: Result<Option<ProcessExit>, TestJobFailure>)
    requires
        test.call_index.0 < u32::MAX,
    ensures
        match waited {
            Ok(exit) => r == Ok::<Option<ProcessExit>, TestJobFailure>(exit),
            Err(e) => r is Err && r->Err_0@ == result_of(
                *test,
                StatusModel::Fatal(
                    "Failed to wait for CRIU restore PID "@ + dec_signed(test_pid as int) + ": "@
                        + e@,
                ),
            ),
        },
{
    match waited {
        Ok(exit) => Ok(exit),
        Err(e) => Err(
            mk_fail(
                test,
                "",
                TestStatus::Fatal(
                    "Failed to wait for CRIU restore PID ".to_owned().concat(
                        decimal_signed(test_pid).as_str(),
                    ).concat(": ").concat(e.as_str()),
                ),
            ),
        ),
    }
}

/// How a restored test has ended is passed on as it is, and a failure to wait for it names the PID
/// that was waited for.
pub proof fn law_end_of_a_restored_test_is_passed_on(
    test: &TestRegisryItem,
    test_pid: i32,
    waited: Result<Option<ProcessExit>, String>,
    r: Result<Option<ProcessExit>, TestJobFailure>,
)
    requires
        call_ensures(wait_restored_test, (test, test_pid, waited), r),
        test.call_index.0 < u32::MAX,
    ensures
        r is Ok <==> waited is Ok,
        r is Ok ==> r->Ok_0 == waited->Ok_0,
        r matches Err(failure) ==> {
            &&& failure@.uid == test.uid
            &&& failure@.call.0 == test.call_index.0 + 1
            &&& failure@.pkt == test.packet_index
            &&& failure@.thread_lid == test.thread_lid
            &&& failure@.status is Fatal
            &&& shows(failure@.status->Fatal_0, dec_signed(test_pid as int) + ": "@ + waited->Err_0@)
        },
{
    if let Err(e) = waited {
        let none = Seq::<char>::empty();
        let front = "Failed to wait for CRIU restore PID "@;
        let part = dec_signed(test_pid as int) + ": "@ + e@;
        assert(front + dec_signed(test_pid as int) + ": "@ + e@ =~= front + part + none);
    }
}

/// What ending a restored test by force has ended with.
#[derive(Debug)]
pub enum KillOutcome {
    /// the command could not be started
    NotSpawned(String),
    /// the command could not be waited for
    NotWaited(String),
    /// the test was ended
    Killed,
}

/// The command that ends a process by force.
pub fn kill_command(pid: i32) -> (cmd: Vec<String>)
    ensures
        texts(cmd@) == seq!["kill"@, "-9"@, dec_signed(pid as int)],
{
    let mut cmd: Vec<String> = Vec::new();
    cmd.push("kill".to_owned());
    cmd.push("-9".to_owned());
    cmd.push(decimal_signed(pid));
    proof {
        assert(texts(cmd@) =~= seq!["kill"@, "-9"@, dec_signed(pid as int)]);
    }
    cmd
}

/// What a restored test that was still running and was ended by force has failed with.
pub fn status_or_kill(test: &TestRegisryItem, kill: KillOutcome) -> (r: TestJobFailure)
    requires
        test.call_index.0 < u32::MAX,
    ensures
        r@ == result_of(
            *test,
            match kill {
                KillOutcome::NotSpawned(_) => StatusModel::Fatal("kill"@),
                KillOutcome::NotWaited(_) => StatusModel::Fatal("kill-wait"@),
                KillOutcome::Killed => StatusModel::Timeout,
            },
        ),
{
    match kill {
        KillOutcome::NotSpawned(e) => mk_fail(
            test,
            e.as_str(),
            TestStatus::Fatal("kill".to_owned()),
        ),
        KillOutcome::NotWaited(e) => mk_fail(
            test,
            e.as_str(),
            TestStatus::Fatal("kill-wait".to_owned()),
        ),
        KillOutcome::Killed => TestJobFailure::from_test(test, "", Some(TestStatus::Timeout)),
    }
}

/// A restored test that had to be ended has timed out if it was ended, and else it failed. Either
/// way it is that test which failed.
pub proof fn law_ended_tests_have_timed_out(
    test: &TestRegisryItem,
    kill: KillOutcome,
    r: TestJobFailure,
)
    requires
        call_ensures(status_or_kill, (test, kill), r),
        test.call_index.0 < u32::MAX,
    ensures
        r@.uid == test.uid,
        r@.call.0 == test.call_index.0 + 1,
        r@.pkt == test.packet_index,
        r@.thread_lid == test.thread_lid,
        r@.status is Timeout <==> kill is Killed,
        r@.status is Fatal <==> kill !is Killed,
{
}

/// What waiting for a test's process has ended with.
#[derive(Debug)]
pub enum WaitOutcome {
    /// the process ended
    Exited(ProcessExit),
    /// the process could not be waited for: how the error reads, and its `Debug` form
    Failed { error: String, debug: String },
    /// the time for the process was up
    TimedOut,
}

/// The status that the end of waiting stands for.
pub open spec fn status_of_wait(
    has_timeout: bool,
    test_text: Seq<char>,
    outcome: WaitOutcome,
) -> StatusModel {
    match outcome {
        WaitOutcome::Exited(exit) => status_of_exit(exit),
        WaitOutcome::TimedOut => StatusModel::GlobalTimeout,
        WaitOutcome::Failed { error, debug } => if has_timeout {
            StatusModel::Spurious("I/O error in wait: "@ + debug@)
        } else {
            StatusModel::Spurious("Test "@ + test_text + " failed with error "@ + error@)
        },
    }
}

/// The status of a test whose process (child process representing the entire test process)
/// was waited for. `test_text` is the test's `Debug` form.
pub fn wait_or_terminate(test: &TestRegisryItem, test_text: &str, outcome: WaitOutcome) -> (r:
    TestStatus)
    ensures
        r@ == status_of_wait(test.timeout_process is Some, test_text@, outcome),
{
    match outcome {
        WaitOutcome::Exited(exit) => TestStatus::from_exit(exit),
        WaitOutcome::TimedOut => TestStatus::GlobalTimeout,
        WaitOutcome::Failed { error, debug } => {
            if test.timeout_process.is_some() {
                TestStatus::Spurious("I/O error in wait: ".to_owned().concat(debug.as_str()))
            } else {
                TestStatus::Spurious(
                    "Test ".to_owned().concat(test_text).concat(" failed with error ").concat(
                        error.as_str(),
                    ),
                )
            }
        },
    }
}

/// The command that ends the children of a test's process whose time is up, if they are to be
/// ended and the process is still known. They are ended before the process itself.
pub fn kill_children_command(test: &TestRegisryItem, pid: Option<u32>) -> (cmd: Option<
    Vec<String>,
>)
    ensures
        cmd is Some <==> test.mode != TestingMode::MTCompatTesting && pid is Some,
        cmd matches Some(c) ==> texts(c@) == seq!["pkill"@, "-P"@, dec(pid->Some_0 as nat)],
{
    match pid {
        Some(pid) if test.terminate_child() => {
            let mut cmd: Vec<String> = Vec::new();
            cmd.push("pkill".to_owned());
            cmd.push("-P".to_owned());
            cmd.push(decimal(pid as u64));
            proof {
                assert(texts(cmd@) =~= seq!["pkill"@, "-P"@, dec(pid as nat)]);
            }
            Some(cmd)
        },
        _ => None,
    }
}

} // verus!
