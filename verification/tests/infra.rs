use llcap_server::error::Error;
use llcap_server::modmap::ExtModuleMap;
use llcap_server::modmap::IntegralFnId;
use llcap_server::modmap::IntegralModId;
use llcap_server::modmap::NumFunUid;
use llcap_server::phase::arg_capture_phase;
use llcap_server::phase::calltrace_phase;
use llcap_server::phase::checkpoint_output;
use llcap_server::phase::trace_source;
use llcap_server::phase::TraceSource;
use llcap_server::shmem_capture::buffers::BorrowedOneshotWritePtr;
use llcap_server::shmem_capture::buffers::BufferStartPtr;
use llcap_server::shmem_capture::hooklib_commons::InfraParams;
use llcap_server::shmem_capture::infra::semaphores_to_open;
use llcap_server::shmem_capture::infra::FlushStep;
use llcap_server::shmem_capture::infra::TracingInfra;
use llcap_server::shmem_capture::resources::cleanup;
use llcap_server::shmem_capture::resources::deinit_semaphore_single;
use llcap_server::shmem_capture::resources::deinit_semaphores;
use llcap_server::shmem_capture::resources::deinit_shmem;
use llcap_server::shmem_capture::resources::init_semaphores;
use llcap_server::shmem_capture::resources::init_shmem;
use llcap_server::shmem_capture::resources::null_terminated_to_string;
use llcap_server::shmem_capture::resources::test_server_socket;
use llcap_server::stages::inspect::inspect_packet;
use llcap_server::stages::inspect::inspect_step;
use llcap_server::stages::inspect::InspectStep;
use llcap_server::stages::inspect::PacketInspecSpec;
use llcap_server::stages::inspect::PktIdxSpec;
use llcap_server::stages::test_output::TestOutputPathGen;

fn failed(text: &str) -> Result<(), String> {
    Err(text.to_owned())
}

fn ring(count: u32, len: u32) -> TracingInfra {
    let params = InfraParams { buff_count: count, buff_len: len };
    match TracingInfra::try_new("/p", params, Ok(()), Ok(())) {
        Ok((infra, _)) => infra,
        Err(_) => panic!("nothing failed"),
    }
}

#[test]
fn buffers_are_used_in_turn() {
    let mut infra = ring(2, 8);
    let mut memory = vec![2, 0, 0, 0, 7, 8, 0, 0, 1, 0, 0, 0, 9, 0, 0, 0];
    assert_eq!(infra.buffer_count(), 2);
    assert_eq!(infra.buffer_offset(1), Ok(8));
    assert_eq!(infra.buffer_offset(2), Err(Error::InvalidBufferIndex(2)));
    for expected in [vec![7u8, 8], vec![9], vec![]] {
        assert!(infra.current_payload_fits(&memory));
        match infra.wait_for_full_buffer(Ok(()), &memory) {
            Ok(buffer) => assert_eq!(buffer.buffer.as_slice(), expected.as_slice()),
            Err(_) => panic!("the buffer can be read"),
        }
        assert_eq!(infra.clear_buffer(&mut memory), Ok(()));
        assert_eq!(infra.finish_buffer(Ok(())), Ok(()));
    }
    assert_eq!(memory, vec![0, 0, 0, 0, 7, 8, 0, 0, 0, 0, 0, 0, 9, 0, 0, 0]);
}

#[test]
fn failures_leave_the_turn() {
    let mut infra = ring(2, 8);
    let mut memory = vec![0u8; 16];
    match infra.wait_for_full_buffer(failed("sem"), &memory) {
        Ok(_) => panic!("waiting failed"),
        Err(e) => assert_eq!(e, Error::WaitFull("sem".to_owned())),
    }
    assert_eq!(
        infra.finish_buffer(failed("post")),
        Err(Error::PostFree { index: 0, reason: "post".to_owned() })
    );
    memory[12] = 5;
    assert_eq!(infra.finish_buffer(Ok(())), Ok(()));
    assert_eq!(infra.clear_buffer(&mut memory), Ok(()));
    assert_eq!(memory[12], 5);
}

#[test]
fn buffers_out_of_bounds_are_refused() {
    let mut infra = ring(2, 8);
    let mut short = vec![0u8; 12];
    assert_eq!(infra.finish_buffer(Ok(())), Ok(()));
    match infra.wait_for_full_buffer(Ok(()), &short) {
        Ok(_) => panic!("the memory ends within the buffer"),
        Err(e) => assert_eq!(e, Error::BufferOutOfBounds { offset: 8, len: 12 }),
    }
    assert_eq!(
        infra.clear_buffer(&mut short),
        Err(Error::BufferOutOfBounds { offset: 8, len: 12 })
    );
    match infra.wait_for_full_buffer(Ok(()), &short[..8]) {
        Ok(_) => panic!("the memory ends before the buffer"),
        Err(e) => assert_eq!(e, Error::OffsetTooLarge { offset: 8, len: 8 }),
    }
    let mut tiny = ring(1, 4);
    match tiny.wait_for_full_buffer(Ok(()), &[0; 4]) {
        Ok(_) => panic!("there is no room for a payload"),
        Err(e) => assert_eq!(e, Error::NoSpaceForLength),
    }
    let mut odd = ring(2, 6);
    assert_eq!(odd.finish_buffer(Ok(())), Ok(()));
    assert_eq!(odd.clear_buffer(&mut [0; 12]), Err(Error::UnalignedOffset));
}

#[test]
fn payloads_have_to_fit() {
    let infra = ring(1, 8);
    assert!(infra.current_payload_fits(&[4, 0, 0, 0, 1, 2, 3, 4]));
    assert!(!infra.current_payload_fits(&[5, 0, 0, 0, 1, 2, 3, 4]));
    match BufferStartPtr::new(&[0; 4]) {
        Ok(_) => panic!("there is no room for a payload"),
        Err(e) => assert_eq!(e, Error::NoSpaceForLength),
    }
}

#[test]
fn numbers_are_written_where_they_fit() {
    let mut memory = [9u8; 8];
    match BorrowedOneshotWritePtr::at(4) {
        Ok(ptr) => ptr.write(&mut memory, 0x01020304),
        Err(_) => panic!("four is a multiple of four"),
    }
    assert_eq!(memory, [9, 9, 9, 9, 4, 3, 2, 1]);
    assert!(matches!(BorrowedOneshotWritePtr::at(6), Err(Error::UnalignedOffset)));
}

#[test]
fn numbers_are_read_one_after_the_other() {
    let memory = [16, 0, 0, 0, 1, 2, 0, 0, 3, 0, 0, 0, 0, 0, 0, 1, 255, 255, 255, 255];
    let mut buffer = match BufferStartPtr::new(&memory) {
        Ok(start) => match start.shift_init_data() {
            Ok(buffer) => buffer,
            Err(_) => panic!("the payload fits"),
        },
        Err(_) => panic!("there is a payload"),
    };
    assert_eq!(buffer.len(), 16);
    assert_eq!(buffer.unaligned_shift_num_read::<u32>(), Ok(0x0201));
    assert_eq!(buffer.unaligned_shift_num_read::<u64>(), Ok(0x0100_0000_0000_0003));
    assert_eq!(buffer.unaligned_shift_num_read::<u64>(), Err(Error::NotEnoughBytes));
    assert_eq!(buffer.unaligned_shift_num_read::<u32>(), Ok(u32::MAX));
    assert!(buffer.empty());
    assert_eq!(buffer.unaligned_shift_num_read::<u32>(), Err(Error::NotEnoughBytes));
}

#[test]
fn rings_are_set_up() {
    let params = InfraParams { buff_count: 3, buff_len: 16 };
    let (free, full) = semaphores_to_open("/p", params);
    assert_eq!((free.name.as_str(), free.initial), ("/p-capture-base-semfree", 3));
    assert_eq!((full.name.as_str(), full.initial), ("/p-capture-base-semfull", 0));
    assert_eq!(init_shmem("/p", 3, 16), ("/p-capture-base-buffmem\0".to_owned(), 48));
    match TracingInfra::try_new("/p", params, failed("s"), Ok(())) {
        Ok(_) => panic!("the semaphores failed"),
        Err(e) => assert_eq!(e, "s"),
    }
    match TracingInfra::try_new("/p", params, Ok(()), failed("m")) {
        Ok(_) => panic!("the memory failed"),
        Err(e) => assert_eq!(e, "m"),
    }
}

#[test]
fn readers_are_woken_after_a_crash() {
    let params = InfraParams { buff_count: 2, buff_len: 16 };
    let info = match TracingInfra::try_new("/p", params, Ok(()), Ok(())) {
        Ok((_, info)) => info,
        Err(_) => panic!("nothing failed"),
    };
    assert_eq!(info.semaphore_name(), "/p-capture-base-semfull");
    let finalizer = match info.try_open(Ok(())) {
        Ok(finalizer) => finalizer,
        Err(_) => panic!("nothing failed"),
    };
    let mut posts = 0u128;
    while let FlushStep::Post = finalizer.finalization_flush(posts, Ok(())) {
        posts += 1;
    }
    assert_eq!(posts, 4);
    assert!(matches!(
        finalizer.finalization_flush(1, failed("e")),
        FlushStep::Failed(e) if e == "e"
    ));
}

#[test]
fn rings_are_taken_down() {
    assert_eq!(ring(1, 8).deinit(Ok(()), Ok(())), Ok(()));
    assert_eq!(
        ring(1, 8).deinit(failed("mem;"), failed("sem")),
        failed("Deinit failures: mem;sem")
    );
    assert_eq!(ring(1, 8).deinit(Ok(()), failed("sem")), failed("Deinit failures: sem"));
}

#[test]
fn left_overs_are_listed() {
    let plan = cleanup("/p");
    assert_eq!(
        plan.semaphores,
        vec![
            "/p-capture-base-semfree",
            "/p-capture-base-semfull",
            "/llcap-meta-sem-data",
            "/llcap-meta-sem-ack",
        ]
    );
    assert_eq!(
        plan.memories,
        vec!["/llcap-meta-mem\0", "/p-capture-base-buffmem\0", "/llcap-meta-mem-size\0"]
    );
    assert_eq!(plan.socket, test_server_socket());
    assert_eq!(test_server_socket(), "/tmp/llcap-test-server");
    assert_eq!(null_terminated_to_string("a\0b\0"), Some("a".to_owned()));
    assert_eq!(null_terminated_to_string("ab"), None);
}

#[test]
fn semaphores_fail_one_after_the_other() {
    assert_eq!(deinit_semaphore_single(failed("c"), failed("d")), failed("c"));
    assert_eq!(deinit_semaphore_single(Ok(()), failed("d")), failed("d"));
    assert_eq!(deinit_semaphores(Ok(()), Ok(())), Ok(()));
    assert_eq!(
        deinit_semaphores(failed("x"), Ok(())),
        failed("When closing full semaphore: When closing free semaphore: x")
    );
    assert_eq!(deinit_semaphores(Ok(()), failed("x")), failed("When closing full semaphore: x"));
    assert_eq!(deinit_shmem(failed("x")), failed("deinit_shmem failed: x"));
    assert_eq!(init_semaphores(Ok(()), Ok(()), Ok(())), Ok(()));
    assert_eq!(init_semaphores(failed("a"), Ok(()), Ok(())), failed("a"));
    assert_eq!(init_semaphores(Ok(()), failed("b"), Ok(())), failed("b"));
    assert_eq!(
        init_semaphores(Ok(()), failed("b"), failed("c")),
        failed("Failed cleanup after FULL semaphore init failure: c, init failure: b")
    );
}

#[test]
fn phases_report_what_went_wrong_first() {
    assert_eq!(calltrace_phase(Ok(5u8), Ok(()), Ok(())), Ok(5));
    assert_eq!(
        calltrace_phase(Err::<u8, String>("t".to_owned()), failed("i"), failed("m")),
        Err("i".to_owned())
    );
    assert_eq!(
        calltrace_phase(Err::<u8, String>("t".to_owned()), Ok(()), failed("m")),
        Err("m".to_owned())
    );
    assert_eq!(
        calltrace_phase(Err::<u8, String>("t".to_owned()), Ok(()), Ok(())),
        Err("t".to_owned())
    );
    assert_eq!(arg_capture_phase(failed("c"), failed("i"), failed("m")), failed("m"));
    assert_eq!(arg_capture_phase(failed("c"), failed("i"), Ok(())), failed("i"));
    assert_eq!(arg_capture_phase(failed("c"), Ok(()), Ok(())), failed("c"));
    assert_eq!(arg_capture_phase(Ok(()), Ok(()), Ok(())), Ok(()));
}

#[test]
fn checkpoints_need_a_place_for_outputs() {
    assert!(matches!(checkpoint_output(None), Err(Error::NoOutput)));
    match TestOutputPathGen::make(Some("/o"), true, true) {
        Ok(Some(paths)) => match checkpoint_output(Some(&paths)) {
            Ok(same) => assert_eq!(same.tmp_dir(), "/o/temp"),
            Err(_) => panic!("a place is given"),
        },
        _ => panic!("the base is a directory"),
    }
}

#[test]
fn traces_are_imported_or_made() {
    let command = || Some(vec!["app".to_owned()]);
    assert!(matches!(
        trace_source(Some("t".to_owned()), command()),
        Ok(TraceSource::Import(path)) if path == "t"
    ));
    assert!(matches!(
        trace_source(None, command()),
        Ok(TraceSource::Trace(cmd)) if cmd == vec!["app".to_owned()]
    ));
    assert!(matches!(trace_source(None, None), Err(Error::NoCommand)));
}

#[test]
fn packets_are_looked_at() {
    let uid = NumFunUid::from((IntegralModId(1), IntegralFnId(2)));
    let unknown = NumFunUid::from((IntegralModId(1), IntegralFnId(3)));
    let elsewhere = NumFunUid::from((IntegralModId(2), IntegralFnId(2)));
    let mut map = ExtModuleMap::new();
    assert_eq!(map.add_module(IntegralModId(1), "m".to_owned()), Ok(()));
    assert_eq!(map.add_function(uid, "f".to_owned(), vec![]), Ok(()));
    let look = |uid, which, count| {
        let (heading, outcome) = inspect_packet(&PacketInspecSpec(uid, which), &map, count);
        (heading.module, heading.function, heading.described, outcome)
    };
    let m = || Some("m".to_owned());
    let f = || Some("f".to_owned());
    assert_eq!(look(uid, PktIdxSpec::Single(1), Some(2)), (m(), f(), true, Ok(())));
    assert_eq!(look(uid, PktIdxSpec::All, Some(0)), (m(), f(), true, Ok(())));
    assert_eq!(
        look(uid, PktIdxSpec::Single(2), Some(2)),
        (m(), f(), true, Err(Error::PacketIndexTooLarge { index: 2, count: 2 }))
    );
    assert_eq!(
        look(uid, PktIdxSpec::All, None),
        (m(), f(), false, Err(Error::NoPackets(uid)))
    );
    assert_eq!(
        look(unknown, PktIdxSpec::All, Some(1)),
        (m(), None, false, Err(Error::UnknownFunction(unknown)))
    );
    assert_eq!(
        look(elsewhere, PktIdxSpec::All, Some(1)),
        (None, None, false, Err(Error::UnknownModule(IntegralModId(2))))
    );

    let single = PktIdxSpec::Single(1);
    assert!(matches!(inspect_step(single, 0, Some(vec![1])), InspectStep::ReadOn));
    assert!(matches!(
        inspect_step(single, 1, Some(vec![1, 20])),
        InspectStep::ShowAndStop { index: 1, line } if line == "Raw packet: [1, 20]"
    ));
    assert!(matches!(inspect_step(single, 1, None), InspectStep::Failed { index: 1 }));
    assert!(matches!(
        inspect_step(PktIdxSpec::All, 4, Some(vec![])),
        InspectStep::ShowAndReadOn { index: 4, line } if line == "Raw packet: []"
    ));
    assert!(matches!(inspect_step(PktIdxSpec::All, 4, None), InspectStep::Stop));
}
