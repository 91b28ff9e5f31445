use llcap_server::log::Detail;
use llcap_server::log::IntoLogString;
use llcap_server::log::Log;
use llcap_server::log::LogLevel;
use llcap_server::log::LogStrategy;
use llcap_server::log::Logger;
use llcap_server::modmap::ExtModuleMap;
use llcap_server::modmap::IntegralFnId;
use llcap_server::modmap::IntegralModId;
use llcap_server::modmap::NumFunUid;
use llcap_server::ordering::stable_sort;
use llcap_server::results::merge_results;
use llcap_server::results::most_called_first;
use llcap_server::results::report_results;
use llcap_server::results::skip_tracing_selection;
use llcap_server::results::status_prio;
use llcap_server::stages::test_jobs::TestJobFailure;
use llcap_server::stages::test_protocol::CallIndexT;
use llcap_server::stages::test_protocol::LogResult;
use llcap_server::stages::test_protocol::PacketIndexT;
use llcap_server::stages::test_protocol::TestStatus;
use llcap_server::stages::test_protocol::ThreadLidT;

fn uid(module: u32, function: u32) -> NumFunUid {
    NumFunUid::from((IntegralModId(module), IntegralFnId(function)))
}

fn result(id: NumFunUid, call: u32, pkt: u64, status: TestStatus) -> LogResult {
    LogResult {
        call: CallIndexT(call),
        uid: id,
        pkt: PacketIndexT(pkt),
        thread_lid: ThreadLidT(0),
        status,
    }
}

fn json(first: bool, detail: Detail) -> LogStrategy {
    LogStrategy::Json { first, detail }
}

#[test]
fn levels_and_numbers() {
    for (number, level) in [
        (0u8, LogLevel::Critical),
        (1, LogLevel::Warn),
        (2, LogLevel::Info),
        (3, LogLevel::Trace),
    ] {
        assert_eq!(LogLevel::from(number), level);
        assert_eq!(u8::from(level), number);
    }
    assert_eq!(LogLevel::from(200u8), LogLevel::Trace);
}

#[test]
fn lines_are_written_by_verbosity() {
    let quiet = Logger::new("n", 0);
    assert_eq!(quiet.crit("m"), Some("C | [n] m".to_owned()));
    assert_eq!(quiet.warn("m"), None);
    assert_eq!(quiet.progress("m"), "P | [n] m");
    let some = Logger::new("n", 2);
    assert_eq!(some.warn("m"), Some("W | [n] m".to_owned()));
    assert_eq!(some.info("m"), Some("I | [n] m".to_owned()));
    assert_eq!(some.trace("m"), None);
    let all = Logger::new("n", 9);
    assert_eq!(all.trace("m"), Some("T | [n] m".to_owned()));
    assert_eq!(all.formatted("m"), "[n] m");
}

#[test]
fn verbosity_is_set() {
    let mut log = Log::new();
    assert!(!log.is_debug());
    assert_eq!(log.set_verbosity(1), 0);
    assert_eq!(log.get("x").info("m"), None);
    assert_eq!(log.get("x").warn("m"), Some("W | [x] m".to_owned()));
    assert_eq!(log.set_verbosity(3), 1);
    assert!(log.is_debug());
}

#[test]
fn reports_are_written_by_extension() {
    assert!(matches!(
        LogStrategy::create("r.json", Detail::Normal),
        LogStrategy::Json { first: true, detail: Detail::Normal }
    ));
    for name in ["r.txt", "a.b.out", "dir/r.log"] {
        assert!(matches!(LogStrategy::create(name, Detail::Normal), LogStrategy::PlainText));
    }
    for name in ["r", "r.JSON", ".json", "json"] {
        assert!(matches!(LogStrategy::create(name, Detail::Normal), LogStrategy::StdOut));
    }
}

#[test]
fn results_in_one_line() {
    let r = result(uid(0xAB, 1), 12, 3, TestStatus::Exit(-1));
    let line = "  0  | 000000AB  |  00000001   |   12   |   3    |Exit(-1)";
    assert_eq!(r.get_log_string(&LogStrategy::PlainText, &[]), line);
    assert_eq!(LogStrategy::PlainText.put_loggable(&r, &[]), line);
    assert_eq!(LogStrategy::StdOut.put_loggable(&r, &[]), format!("{line}\n"));
    let formatted = format!(
        "{:^5}|{:^11}|{:^13}|{:^8}|{:^8}|{:?}",
        0, "000000AB", "00000001", 12, 3, r.status
    );
    assert_eq!(formatted, line);
}

#[test]
fn results_in_json() {
    let r = result(uid(0xAB, 1), 12, 3, TestStatus::Pass);
    let object = "\n\t{\n\t\t\"thread_id\":\"0\",\n\t\t\"module_id\":\"000000AB\",\n\t\t\"function_id\":\"00000001\",\n\t\t\"call_n\":12,\n\t\t\"packet_idx\":3,\n\t\t\"status\":\"Pass\"\n\t}";
    assert_eq!(r.get_log_string(&json(true, Detail::Normal), &[1, 2]), object);
    assert_eq!(r.get_log_string(&json(false, Detail::Normal), &[]), format!(",{object}"));
}

#[test]
fn results_in_detail() {
    let mut map = ExtModuleMap::new();
    assert_eq!(map.add_module(IntegralModId(0xAB), "mod".to_owned()), Ok(()));
    let r = result(uid(0xAB, 1), 12, 3, TestStatus::Timeout);
    let object = "\n\t{\n\t\t\"thread_id\":\"0\",\n\t\t\"module_id\":\"mod\",\n\t\t\"function_id\":\"00000001\",\n\t\t\"call_n\":12,\n\t\t\"packet_idx\":3,\n\t\t\"packet_hex\":\"01FF\",\n\t\t\"status\":\"Timeout\"\n\t}";
    assert_eq!(r.get_log_string(&json(true, Detail::Detailed(map)), &[1, 255]), object);
}

#[test]
fn json_report_is_a_list() {
    let results: Vec<LogResult> =
        (0..3).map(|i| result(uid(1, 1), i, 0, TestStatus::Pass)).collect();
    let (mut logger, mut text) = Log::result_logger(json(true, Detail::Normal));
    for r in &results {
        text += &logger.result(r, &[]);
        logger.after_result(true);
    }
    text += &logger.finish();
    let plain = json(true, Detail::Normal);
    let objects: Vec<String> =
        results.iter().map(|r| r.get_log_string(&plain, &[])).collect();
    assert_eq!(text, format!("{{ \"results\":\n[{}]\n}}", objects.join(",")));
}

#[test]
fn a_result_that_was_not_written_sets_off_nothing() {
    let r = result(uid(1, 1), 0, 0, TestStatus::Pass);
    let (mut logger, _) = Log::result_logger(json(true, Detail::Normal));
    let first = logger.result(&r, &[]);
    logger.after_result(false);
    assert_eq!(logger.result(&r, &[]), first);
    logger.after_result(true);
    assert_eq!(logger.result(&r, &[]), format!(",{first}"));
}

#[test]
fn headers_and_footers() {
    let heading = "Module ID | Function ID |  Call  | Packet | Result";
    assert_eq!(LogStrategy::StdOut.put_header(), format!("{heading}\n"));
    assert_eq!(LogStrategy::PlainText.put_header(), heading);
    assert_eq!(json(true, Detail::Normal).put_header(), "{ \"results\":\n[");
    assert_eq!(LogStrategy::StdOut.finish(), "");
    assert_eq!(LogStrategy::PlainText.finish(), "");
    assert_eq!(json(false, Detail::Normal).finish(), "]\n}");
}

#[test]
fn statuses_count_differently() {
    let order = [
        TestStatus::Spurious(String::new()),
        TestStatus::Fatal(String::new()),
        TestStatus::Exit(0),
        TestStatus::GlobalTimeout,
        TestStatus::Timeout,
        TestStatus::Pass,
    ];
    for pair in order.windows(2) {
        assert!(status_prio(&pair[0]) < status_prio(&pair[1]));
    }
    assert_eq!(status_prio(&TestStatus::Pass), status_prio(&TestStatus::Exception));
    assert_eq!(status_prio(&TestStatus::Exit(0)), status_prio(&TestStatus::Signal(1)));
}

#[test]
fn of_exit_and_signal_the_later_counts() {
    let exit = || result(uid(1, 1), 1, 0, TestStatus::Exit(0));
    let signal = || result(uid(1, 1), 1, 0, TestStatus::Signal(9));
    let kept = |results| -> Vec<String> {
        merge_results(results).iter().map(|r| r.status.text()).collect()
    };
    assert_eq!(kept(vec![exit(), signal()]), vec!["Signal(9)".to_owned()]);
    assert_eq!(kept(vec![signal(), exit()]), vec!["Exit(0)".to_owned()]);
    let failed = result(uid(1, 1), 1, 0, TestStatus::Fatal(String::new()));
    assert_eq!(kept(vec![signal(), failed]), vec!["Signal(9)".to_owned()]);
}

#[test]
fn one_result_stays_for_each_test() {
    let merged = merge_results(vec![
        result(uid(1, 1), 1, 0, TestStatus::Fatal("a".to_owned())),
        result(uid(1, 1), 2, 0, TestStatus::Exit(0)),
        result(uid(1, 1), 1, 0, TestStatus::Exception),
        result(uid(1, 1), 2, 0, TestStatus::Exit(7)),
        result(uid(1, 1), 1, 0, TestStatus::Pass),
        result(uid(1, 1), 1, 1, TestStatus::Signal(9)),
        result(uid(1, 1), 1, 0, TestStatus::Timeout),
    ]);
    let seen: Vec<(u32, u64, String)> =
        merged.iter().map(|r| (r.call.0, r.pkt.0, r.status.text())).collect();
    assert_eq!(
        seen,
        vec![
            (1, 0, "Pass".to_owned()),
            (2, 0, "Exit(7)".to_owned()),
            (1, 1, "Signal(9)".to_owned()),
        ]
    );
    assert!(merge_results(vec![]).is_empty());
}

#[test]
fn threads_keep_their_results_apart() {
    let mut other = result(uid(1, 1), 1, 0, TestStatus::Timeout);
    other.thread_lid = ThreadLidT(1);
    let merged = merge_results(vec![result(uid(1, 1), 1, 0, TestStatus::Pass), other]);
    assert_eq!(merged.len(), 2);
}

#[test]
fn reports_are_sorted() {
    let results = vec![
        result(uid(2, 1), 1, 0, TestStatus::Pass),
        result(uid(1, 2), 1, 5, TestStatus::Exit(1)),
        result(uid(1, 2), 1, 0, TestStatus::Pass),
        result(uid(1, 1), 9, 9, TestStatus::Pass),
        result(uid(1, 2), 1, 5, TestStatus::Exit(2)),
        result(uid(1, 2), 0, 8, TestStatus::Pass),
    ];
    let failure = TestJobFailure { log_res: result(uid(0, 0), 0, 0, TestStatus::Timeout) };
    let order: Vec<(u32, u32, u32, u64, String)> = report_results(results, vec![failure])
        .iter()
        .map(|r| {
            (r.uid.module_id.0, r.uid.function_id.0, r.call.0, r.pkt.0, r.status.text())
        })
        .collect();
    assert_eq!(
        order,
        vec![
            (1, 1, 9, 9, "Pass".to_owned()),
            (1, 2, 0, 8, "Pass".to_owned()),
            (1, 2, 1, 0, "Pass".to_owned()),
            (1, 2, 1, 5, "Exit(1)".to_owned()),
            (1, 2, 1, 5, "Exit(2)".to_owned()),
            (2, 1, 1, 0, "Pass".to_owned()),
            (0, 0, 0, 0, "Timeout".to_owned()),
        ]
    );
}

#[test]
fn functions_that_are_called_more_come_first() {
    let freqs = vec![(uid(1, 1), 3), (uid(1, 2), 9), (uid(1, 3), 3), (uid(1, 4), 10)];
    assert_eq!(
        most_called_first(freqs),
        vec![(uid(1, 4), 10), (uid(1, 2), 9), (uid(1, 1), 3), (uid(1, 3), 3)]
    );
    assert_eq!(stable_sort(Vec::<(NumFunUid, u64)>::new()), vec![]);
}

#[test]
fn the_selection_can_be_skipped() {
    assert!(skip_tracing_selection("skip"));
    assert!(!skip_tracing_selection("skip.txt"));
    assert!(!skip_tracing_selection(""));
}
