use llcap_server::error::Error;
use llcap_server::modmap::IntegralFnId;
use llcap_server::modmap::IntegralModId;
use llcap_server::modmap::NumFunUid;
use llcap_server::stages::test_output::CheckpointPaths;
use llcap_server::stages::test_output::CopyStep;
use llcap_server::stages::test_output::TestOutputPathGen;
use llcap_server::stages::test_protocol::CallIndexT;
use llcap_server::stages::test_protocol::PacketIndexT;
use llcap_server::stages::test_protocol::ThreadLidT;
use llcap_server::stages::test_registry::TestRegisryItem;
use llcap_server::stages::test_registry::TestingMode;
use llcap_server::stages::test_registry::TimeLimit;

fn test() -> TestRegisryItem {
    TestRegisryItem {
        uid: NumFunUid::from((IntegralModId(0xA), IntegralFnId(0xB))),
        call_index: CallIndexT(3),
        packet_index: PacketIndexT(4),
        thread_lid: ThreadLidT(5),
        thread_count: 6,
        test_count: 7,
        timeout_test: TimeLimit { secs: 1, nanos: 0 },
        timeout_process: None,
        mode: TestingMode::Testing,
    }
}

fn paths(base: &str, is_dir: bool) -> TestOutputPathGen {
    match TestOutputPathGen::make(Some(base), is_dir, is_dir) {
        Ok(Some(paths)) => paths,
        _ => panic!("the base has a directory"),
    }
}

fn copies(steps: &[CopyStep]) -> Vec<(String, String)> {
    steps.iter().map(|s| (s.from.clone(), s.to.clone())).collect()
}

fn pair(from: &str, to: &str) -> (String, String) {
    (from.to_owned(), to.to_owned())
}

const OUT: &str = "/o/M0000000A-F0000000B-5-3-4.out";
const ERR: &str = "/o/M0000000A-F0000000B-5-3-4.err";
const OUT_PER: &str = "/o/M0000000A-F0000000B-5-3-4-per.out";
const ERR_PER: &str = "/o/M0000000A-F0000000B-5-3-4-per.err";
const TMP_OUT: &str = "/o/temp/M0000000A-F0000000B-5-3-4.out";
const TMP_ERR: &str = "/o/temp/M0000000A-F0000000B-5-3-4.err";

#[test]
fn outputs_go_into_the_directory() {
    let paths = paths("/o", true);
    assert_eq!(paths.tmp_dir(), "/o/temp");
    assert_eq!(paths.criu_dumps_dir(), "/o/criu-dumps");
    assert_eq!(paths.get_out_path(&test(), ""), OUT);
    assert_eq!(paths.get_err_path(&test(), "-per"), ERR_PER);
    assert_eq!(paths.get_criu_dump(12), "/o/criu-dumps/12");
}

#[test]
fn outputs_go_into_the_file() {
    let paths = paths("/o/all.txt", false);
    assert_eq!(paths.tmp_dir(), "/o/temp");
    assert_eq!(paths.get_out_path(&test(), ""), "/o/all.txt");
    assert_eq!(paths.get_err_path(&test(), ""), "/o/all.txt");
}

#[test]
fn outputs_need_a_directory() {
    assert!(matches!(TestOutputPathGen::make(None, false, false), Ok(None)));
    assert!(matches!(
        TestOutputPathGen::make(Some("/"), false, false),
        Err(Error::NoParentDirectory)
    ));
}

#[test]
fn the_base_can_become_a_directory() {
    match TestOutputPathGen::working_dirs("/o/temp", false) {
        Ok((tmp_dir, dumps_dir)) => {
            assert_eq!(tmp_dir, "/o/temp");
            assert_eq!(dumps_dir, "/o/criu-dumps");
        },
        Err(_) => panic!("the base has a directory"),
    }
    match TestOutputPathGen::make(Some("/o/temp"), false, true) {
        Ok(Some(paths)) => {
            assert_eq!(paths.tmp_dir(), "/o/temp");
            assert_eq!(paths.get_out_path(&test(), ""), "/o/temp/M0000000A-F0000000B-5-3-4.out");
        },
        _ => panic!("the base has a directory"),
    }
    assert_eq!(TestOutputPathGen::working_dirs("/", false), Err(Error::NoParentDirectory));
}

#[test]
fn names_follow_directories() {
    assert_eq!(paths("/o/", true).tmp_dir(), "/o/temp");
    assert_eq!(paths("", true).tmp_dir(), "temp");
    assert_eq!(paths("o", true).tmp_dir(), "o/temp");
    let paths = paths("/o", true);
    assert_ne!(paths.get_out_path(&test(), "x"), paths.get_err_path(&test(), "x"));
}

#[test]
fn directories_are_created_where_they_are_missing() {
    assert_eq!(TestOutputPathGen::ensure_dir("d", false, false), Ok(true));
    assert_eq!(TestOutputPathGen::ensure_dir("d", true, true), Ok(false));
    assert_eq!(
        TestOutputPathGen::ensure_dir("d", true, false),
        Err(Error::NotADirectory("d".to_owned()))
    );
}

#[test]
fn checkpoint_directories_have_to_be_there() {
    let paths = paths("/o", true);
    assert!(matches!(
        paths.get_criu_path(2, &test(), Ok(())),
        Ok(path) if path == "/o/criu-dumps/2"
    ));
    match paths.get_criu_path(2, &test(), Err("e".to_owned())) {
        Ok(_) => panic!("the directory is not there"),
        Err(failure) => {
            assert_eq!(failure.log_res.status.text(), "Fatal(\"Invalid checkpoint dir path\")")
        },
    }
}

fn stored(from_scratch: bool, before: Option<&CheckpointPaths>) -> (Vec<CopyStep>, Option<CheckpointPaths>) {
    match paths("/o", true).store_after_checkpoint(from_scratch, &test(), before) {
        Ok(plan) => (plan.copies, plan.paths),
        Err(_) => panic!("the outputs have names"),
    }
}

#[test]
fn outputs_are_stored_and_put_back() {
    let (steps, first) = stored(true, None);
    assert_eq!(copies(&steps), vec![pair(OUT, TMP_OUT), pair(ERR, TMP_ERR)]);
    assert_eq!(steps[0].context, "Checkpoint scratch copy, out: ");
    assert_eq!(steps[1].context, "Checkpoint scratch copy, err: ");
    let first = match first {
        Some(first) => first,
        None => panic!("it is known where the outputs are"),
    };
    let paths = paths("/o", true);
    let back = paths.reload_before_restore(&first);
    assert_eq!(copies(&back), vec![pair(TMP_OUT, OUT), pair(TMP_ERR, ERR)]);
    assert_eq!(back[1].context, "Checkpoint restore, out: ");
    match paths.persist_after_restore(&test(), &first) {
        Ok(steps) => {
            assert_eq!(copies(&steps), vec![pair(OUT, OUT_PER), pair(ERR, ERR_PER)]);
            assert_eq!(steps[0].context, "Persist, out: ");
        },
        Err(_) => panic!("the outputs have names"),
    }
    let (steps, second) = stored(false, Some(&first));
    assert_eq!(copies(&steps), vec![pair(OUT_PER, TMP_OUT), pair(ERR_PER, TMP_ERR)]);
    assert_eq!(steps[0].context, "Checkpoint copy, out: ");
    assert_eq!(steps[1].context, "Checkpoint copy, err: ");
    match second {
        Some(second) => assert_eq!(
            copies(&second.restore()),
            vec![pair(TMP_OUT, OUT), pair(TMP_ERR, ERR)]
        ),
        None => panic!("it is known where the outputs are"),
    }
    assert!(stored(false, None).1.is_none());
}

#[test]
fn outputs_without_names_are_refused() {
    let (_, first) = stored(true, None);
    let nameless = match TestOutputPathGen::make(Some("x/.."), false, false) {
        Ok(Some(paths)) => paths,
        _ => panic!("the path has a parent"),
    };
    assert!(matches!(
        nameless.store_after_checkpoint(true, &test(), None),
        Err(Error::NoFileName)
    ));
    match first {
        Some(first) => assert!(matches!(
            nameless.persist_after_restore(&test(), &first),
            Err(Error::NoFileName)
        )),
        None => panic!("it is known where the outputs are"),
    }
}
