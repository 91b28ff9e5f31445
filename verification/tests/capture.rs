use llcap_server::error::Error;
use llcap_server::modmap::ExtModuleMap;
use llcap_server::modmap::IntegralFnId;
use llcap_server::modmap::IntegralModId;
use llcap_server::modmap::NumFunUid;
use llcap_server::shmem_capture::arg_capture::perform_arg_capture;
use llcap_server::shmem_capture::arg_capture::ArgCaptureRun;
use llcap_server::shmem_capture::arg_capture::ArgPacket;
use llcap_server::shmem_capture::buffers::BorrowedReadBuffer;
use llcap_server::shmem_capture::buffers::BufferStartPtr;
use llcap_server::shmem_capture::capture_loop::LoopDecision;
use llcap_server::sizetype_handlers::ArgSizeTypeRef;

fn uid(module: u32, function: u32) -> NumFunUid {
    NumFunUid::from((IntegralModId(module), IntegralFnId(function)))
}

fn modules() -> ExtModuleMap {
    let mut map = ExtModuleMap::new();
    assert_eq!(map.add_module(IntegralModId(3), "m".to_owned()), Ok(()));
    let two = vec![ArgSizeTypeRef::Custom, ArgSizeTypeRef::Custom];
    assert_eq!(map.add_function(uid(3, 5), "two".to_owned(), two), Ok(()));
    assert_eq!(map.add_function(uid(3, 6), "none".to_owned(), vec![]), Ok(()));
    map
}

fn header(module: u32, function: u32, thread: u64) -> Vec<u8> {
    let mut bytes = module.to_le_bytes().to_vec();
    bytes.extend_from_slice(&function.to_le_bytes());
    bytes.extend_from_slice(&thread.to_le_bytes());
    bytes
}

fn arg(payload: &[u8]) -> Vec<u8> {
    let mut bytes = (payload.len() as u64).to_le_bytes().to_vec();
    bytes.extend_from_slice(payload);
    bytes
}

fn call(thread: u64, a: &[u8], b: &[u8]) -> Vec<u8> {
    let mut bytes = header(3, 5, thread);
    bytes.extend_from_slice(&arg(a));
    bytes.extend_from_slice(&arg(b));
    bytes
}

fn feed(run: &mut ArgCaptureRun, payload: &[u8], map: &ExtModuleMap) -> Result<LoopDecision, Error> {
    let mut memory = (payload.len() as u32).to_le_bytes().to_vec();
    memory.extend_from_slice(payload);
    memory.push(0);
    let buffer = match BufferStartPtr::new(&memory) {
        Ok(start) => start.shift_init_data(),
        Err(e) => return Err(e),
    };
    let buffer = match buffer {
        Ok(buffer) => buffer,
        Err(e) => return Err(e),
    };
    assert!(run.can_count(payload.len()));
    perform_arg_capture(run, BorrowedReadBuffer { buffer }, map)
}

fn seen(packets: Vec<ArgPacket>) -> Vec<(NumFunUid, u64, Vec<u8>)> {
    packets.into_iter().map(|p| (p.id, p.thread_id, p.bytes)).collect()
}

#[test]
fn calls_in_one_buffer_are_captured() {
    let map = modules();
    let mut run = ArgCaptureRun::new(2);
    let mut bytes = call(70, &[1], &[2, 3]);
    bytes.extend_from_slice(&header(3, 6, 71));
    bytes.extend_from_slice(&call(70, &[], &[4]));
    assert_eq!(feed(&mut run, &bytes, &map), Ok(LoopDecision::Continue));
    assert_eq!(
        seen(run.take_captured()),
        vec![
            (uid(3, 5), 70, vec![1, 2, 3]),
            (uid(3, 6), 71, vec![]),
            (uid(3, 5), 70, vec![4]),
        ]
    );
    assert_eq!(run.thread_logical_counts(), &vec![2u64, 1]);
    assert!(run.take_captured().is_empty());
}

#[test]
fn cuts_between_buffers_do_not_matter() {
    let map = modules();
    let bytes = call(9, &[1, 2], &[3, 4, 5]);
    // anywhere but within the numbers of module, function and thread
    for cut in [4, 8].into_iter().chain(16..bytes.len()) {
        let mut run = ArgCaptureRun::new(2);
        let (a, b) = bytes.split_at(cut);
        assert_eq!(feed(&mut run, a, &map), Ok(LoopDecision::Continue));
        assert!(run.take_captured().is_empty());
        assert_eq!(feed(&mut run, b, &map), Ok(LoopDecision::Continue));
        assert_eq!(seen(run.take_captured()), vec![(uid(3, 5), 9, vec![1, 2, 3, 4, 5])]);
    }
}

#[test]
fn capture_ends_after_a_round_of_empty_buffers() {
    let map = modules();
    let mut run = ArgCaptureRun::new(3);
    assert_eq!(feed(&mut run, &[], &map), Ok(LoopDecision::Continue));
    assert_eq!(feed(&mut run, &[], &map), Ok(LoopDecision::Continue));
    assert_eq!(feed(&mut run, &call(1, &[1], &[1]), &map), Ok(LoopDecision::Continue));
    assert_eq!(feed(&mut run, &[], &map), Ok(LoopDecision::Continue));
    assert_eq!(feed(&mut run, &[], &map), Ok(LoopDecision::Continue));
    assert!(run.is_active());
    assert_eq!(feed(&mut run, &[], &map), Ok(LoopDecision::Finished));
    assert!(!run.is_active());
}

#[test]
fn unknown_numbers_end_a_capture() {
    let map = modules();
    let mut run = ArgCaptureRun::new(2);
    assert_eq!(
        feed(&mut run, &header(4, 5, 0), &map),
        Err(Error::UnknownModule(IntegralModId(4)))
    );
    assert!(!run.is_active());
    let mut run = ArgCaptureRun::new(2);
    assert_eq!(feed(&mut run, &header(3, 7, 0), &map), Err(Error::UnknownFunction(uid(3, 7))));
}

#[test]
fn packets_before_an_error_are_kept() {
    let map = modules();
    let mut run = ArgCaptureRun::new(2);
    let mut bytes = call(1, &[1], &[2]);
    bytes.extend_from_slice(&[3, 0]);
    assert_eq!(feed(&mut run, &bytes, &map), Err(Error::NotEnoughBytes));
    assert_eq!(seen(run.take_captured()), vec![(uid(3, 5), 1, vec![1, 2])]);
}

#[test]
fn empty_buffer_within_a_packet_is_refused() {
    let map = modules();
    let mut run = ArgCaptureRun::new(2);
    let bytes = call(1, &[1], &[2]);
    assert_eq!(feed(&mut run, &bytes[..20], &map), Ok(LoopDecision::Continue));
    assert_eq!(feed(&mut run, &[], &map), Err(Error::EmptyBufferWithinPacket));
}

#[test]
fn threads_are_numbered_as_they_come() {
    let map = modules();
    let mut run = ArgCaptureRun::new(2);
    for thread in [500u64, 7, 500, 500, 9, 7] {
        assert_eq!(feed(&mut run, &call(thread, &[0], &[0]), &map), Ok(LoopDecision::Continue));
    }
    assert_eq!(run.thread_logical_counts(), &vec![3u64, 2, 1]);
}

#[test]
fn empty_last_argument_completes_a_call() {
    let map = modules();
    let mut run = ArgCaptureRun::new(2);
    assert_eq!(feed(&mut run, &call(1, &[5], &[]), &map), Ok(LoopDecision::Continue));
    assert_eq!(seen(run.take_captured()), vec![(uid(3, 5), 1, vec![5])]);
    assert_eq!(feed(&mut run, &[], &map), Ok(LoopDecision::Continue));
}
