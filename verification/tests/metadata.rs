use llcap_server::error::Error;
use llcap_server::modmap::IntegralFnId;
use llcap_server::modmap::IntegralModId;
use llcap_server::modmap::NumFunUid;
use llcap_server::shmem_capture::hooklib_commons::InfraParams;
use llcap_server::shmem_capture::metadata::has_numbers;
use llcap_server::shmem_capture::metadata::send_arg_capture_metadata;
use llcap_server::shmem_capture::metadata::send_call_tracing_metadata;
use llcap_server::shmem_capture::metadata::send_test_metadata;
use llcap_server::shmem_capture::metadata::ChannelStep;
use llcap_server::shmem_capture::metadata::MetadataPublisher;
use llcap_server::shmem_capture::metadata::ToLlcapRaw;
use llcap_server::stages::test_protocol::CallIndexT;
use llcap_server::stages::test_protocol::PacketIndexT;
use llcap_server::stages::test_protocol::ThreadLidT;
use llcap_server::stages::test_registry::TestRegisryItem;
use llcap_server::stages::test_registry::TestingMode;
use llcap_server::stages::test_registry::TimeLimit;

fn infra() -> InfraParams {
    InfraParams { buff_count: 10, buff_len: 4096 }
}

fn test_item(mode: TestingMode) -> TestRegisryItem {
    TestRegisryItem {
        uid: NumFunUid::from((IntegralModId(3), IntegralFnId(4))),
        call_index: CallIndexT(2),
        packet_index: PacketIndexT(0x1_0000_0005),
        thread_lid: ThreadLidT(0x2_0000_0001),
        thread_count: 6,
        test_count: 9,
        timeout_test: TimeLimit { secs: 65536 + 7, nanos: 5 },
        timeout_process: None,
        mode,
    }
}

#[test]
fn stages_without_tests_publish_the_buffers() {
    let meta = send_call_tracing_metadata(infra());
    assert_eq!((meta.buff_count, meta.buff_len, meta.total_len), (10, 4096, 40960));
    assert_eq!(meta.mode, 0);
    assert_eq!((meta.test_count, meta.checkpoint_id, meta.shell_job), (0, 0, 0));
    let meta = send_arg_capture_metadata(infra());
    assert_eq!(meta.mode, 1);
    assert_eq!(meta.total_len, 40960);
}

#[test]
fn modes_have_numbers() {
    assert_eq!(TestingMode::Testing.to_raw(), 2);
    assert_eq!(TestingMode::MTCompatTesting.to_raw(), 3);
    assert_eq!(TestingMode::CheckpointedTesting(true).to_raw(), 4);
    assert_eq!(TestingMode::CheckpointedTesting(false).to_raw(), 5);
}

#[test]
fn tests_publish_what_they_are_about() {
    match send_test_metadata(infra(), &test_item(TestingMode::Testing), None) {
        Ok(meta) => {
            assert_eq!((meta.target_modid, meta.target_fnid), (3, 4));
            assert_eq!(meta.test_count, 9);
            assert_eq!(meta.target_call_number, 3);
            assert_eq!(meta.test_timeout_seconds, 7);
            assert_eq!(meta.thread_count, 6);
            assert_eq!(meta.target_thread_lid, 1);
            assert_eq!(meta.checkpoint_id, 2_000_000_000 + 0x1_0000_0005 * 1_000_000 + 3);
            assert_eq!(meta.shell_job, 1);
            assert!(meta.checkpoint_dump_dir.iter().all(|c| *c == 0));
        },
        Err(_) => panic!("there is no path to be too long"),
    }
    match send_test_metadata(infra(), &test_item(TestingMode::MTCompatTesting), None) {
        Ok(meta) => assert_eq!((meta.mode, meta.test_count), (3, 5)),
        Err(_) => panic!("there is no path to be too long"),
    }
}

#[test]
fn tests_have_numbers() {
    let mut item = test_item(TestingMode::Testing);
    assert!(has_numbers(&item));
    item.packet_index = PacketIndexT(u64::MAX / 1_000_000);
    assert!(!has_numbers(&item));
    item.packet_index = PacketIndexT(0);
    item.call_index = CallIndexT(u32::MAX - 1);
    assert!(has_numbers(&item));
    item.call_index = CallIndexT(u32::MAX);
    assert!(!has_numbers(&item));
}

#[test]
fn checkpoint_paths_are_published_as_bytes() {
    let item = test_item(TestingMode::CheckpointedTesting(true));
    match send_test_metadata(infra(), &item, Some("/d\u{e9}")) {
        Ok(meta) => {
            let expected: [i8; 5] = [47, 100, -61, -87, 0];
            assert_eq!(meta.checkpoint_dump_dir[..5], expected);
            assert!(meta.checkpoint_dump_dir[5..].iter().all(|c| *c == 0));
        },
        Err(_) => panic!("the path is short"),
    }
    let longest = "x".repeat(511);
    match send_test_metadata(infra(), &item, Some(&longest)) {
        Ok(meta) => {
            assert_eq!(meta.checkpoint_dump_dir[510], 120);
            assert_eq!(meta.checkpoint_dump_dir[511], 0);
        },
        Err(_) => panic!("the path leaves room for its end"),
    }
    let too_long = "x".repeat(512);
    match send_test_metadata(infra(), &item, Some(&too_long)) {
        Ok(_) => panic!("the path leaves no room for its end"),
        Err(e) => assert_eq!(e, Error::CheckpointPathTooLong),
    }
}

fn shown(steps: &[ChannelStep]) -> Vec<String> {
    steps
        .iter()
        .map(|step| match step {
            ChannelStep::OpenSemaphore { name, initial } => format!("open {name} {initial}"),
            ChannelStep::DestroySemaphore { name } => format!("destroy {name}"),
            ChannelStep::MapMemory { name, size } => format!("map {name} {size}"),
            ChannelStep::StoreNumber { name, value } => format!("store {name} {value}"),
            ChannelStep::UnmapMemory { name } => format!("unmap {name}"),
        })
        .collect()
}

#[test]
fn the_channel_is_set_up_and_taken_down() {
    let (publisher, steps) = MetadataPublisher::new("mem", "size", "rdy", "ack", 600);
    assert_eq!(
        shown(&steps),
        vec!["open rdy 0", "open ack 1", "map size 4", "store size 600", "map mem 600"]
    );
    assert_eq!(
        shown(&publisher.re_new()),
        vec!["destroy rdy", "destroy ack", "open rdy 0", "open ack 1"]
    );
    assert_eq!(
        (publisher.memory_name(), publisher.ready_name(), publisher.acknowledged_name()),
        ("mem", "rdy", "ack")
    );
    assert_eq!(
        shown(&publisher.deinit()),
        vec!["unmap size", "unmap mem", "destroy ack", "destroy rdy"]
    );
}

#[test]
fn nothing_is_published_without_acknowledgement() {
    let (publisher, _) = MetadataPublisher::new("mem", "size", "rdy", "ack", 600);
    match publisher.publish(send_arg_capture_metadata(infra()), Ok(true)) {
        Ok(meta) => assert_eq!(meta.mode, 1),
        Err(_) => panic!("the last parameters were acknowledged"),
    }
    match publisher.publish(send_arg_capture_metadata(infra()), Ok(false)) {
        Ok(_) => panic!("the last parameters were not acknowledged"),
        Err(e) => assert_eq!(e, "Publish timed out"),
    }
    match publisher.publish(send_arg_capture_metadata(infra()), Err("broken".to_owned())) {
        Ok(_) => panic!("waiting failed"),
        Err(e) => assert_eq!(e, "broken"),
    }
}
