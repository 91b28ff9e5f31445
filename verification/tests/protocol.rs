use llcap_server::modmap::IntegralFnId;
use llcap_server::modmap::IntegralModId;
use llcap_server::modmap::NumFunUid;
use llcap_server::stages::test_coordinator::raw_send_to_client;
use llcap_server::stages::test_coordinator::send_protocol_response;
use llcap_server::stages::test_coordinator::test_coordinator_case_handler;
use llcap_server::stages::test_coordinator::test_server_job;
use llcap_server::stages::test_coordinator::ClientRead;
use llcap_server::stages::test_coordinator::CoordinatorError;
use llcap_server::stages::test_coordinator::CoordinatorStep;
use llcap_server::stages::test_coordinator::SendStep;
use llcap_server::stages::test_coordinator::ServerEvent;
use llcap_server::stages::test_coordinator::ServerStep;
use llcap_server::stages::test_coordinator::WriteOutcome;
use llcap_server::stages::test_protocol::consume_to_u32;
use llcap_server::stages::test_protocol::handle_client_msg;
use llcap_server::stages::test_protocol::CallIndexT;
use llcap_server::stages::test_protocol::ClientAction;
use llcap_server::stages::test_protocol::ClientError;
use llcap_server::stages::test_protocol::ClientState;
use llcap_server::stages::test_protocol::PacketIndexT;
use llcap_server::stages::test_protocol::ProcessExit;
use llcap_server::stages::test_protocol::TestMessage;
use llcap_server::stages::test_protocol::TestStatus;
use llcap_server::stages::test_protocol::ThreadLidT;

fn uid() -> NumFunUid {
    NumFunUid::from((IntegralModId(0x0102), IntegralFnId(7)))
}

fn message(tag: u16, payload: &[u8]) -> [u8; 24] {
    let mut bytes = [0u8; 24];
    bytes[..2].copy_from_slice(&tag.to_le_bytes());
    bytes[2..2 + payload.len()].copy_from_slice(payload);
    bytes
}

fn start_bytes() -> [u8; 24] {
    let mut payload = 0x0102u32.to_le_bytes().to_vec();
    payload.extend_from_slice(&7u32.to_le_bytes());
    payload.extend_from_slice(&4u32.to_le_bytes());
    message(1, &payload)
}

fn end_bytes(packet: u64, thread: u64, status: [u8; 6]) -> [u8; 24] {
    let mut payload = packet.to_le_bytes().to_vec();
    payload.extend_from_slice(&thread.to_le_bytes());
    payload.extend_from_slice(&status);
    message(3, &payload)
}

#[test]
fn statuses_are_read() {
    assert!(matches!(TestStatus::try_from(&[13, 0, 9, 9, 9, 9]), Ok(TestStatus::Pass)));
    assert!(matches!(TestStatus::try_from(&[14, 0, 0, 0, 0, 0]), Ok(TestStatus::Exception)));
    assert!(matches!(TestStatus::try_from(&[10, 0, 0, 0, 0, 0]), Ok(TestStatus::Timeout)));
    assert!(matches!(TestStatus::try_from(&[11, 0, 0, 1, 0, 0]), Ok(TestStatus::Exit(256))));
    assert!(matches!(TestStatus::try_from(&[11, 0, 255, 255, 255, 255]), Ok(TestStatus::Exit(-1))));
    assert!(matches!(TestStatus::try_from(&[12, 0, 11, 0, 0, 0]), Ok(TestStatus::Signal(11))));
    assert!(matches!(
        TestStatus::try_from(&[12, 0, 0, 0, 0, 128]),
        Ok(TestStatus::Signal(i32::MIN))
    ));
    match TestStatus::try_from(&[15, 0, 0, 0, 0, 0]) {
        Ok(TestStatus::Fatal(m)) => assert_eq!(m, "test coordinator"),
        other => panic!("unexpected {other:?}"),
    }
}

#[test]
fn unknown_status_is_refused() {
    match TestStatus::try_from(&[1, 2, 3, 4, 5, 255]) {
        Err(e) => assert_eq!(
            e,
            "Invalid status format: [1, 2, 3, 4, 5, 255] [1, 2] [3, 4, 5, 255]"
        ),
        Ok(_) => panic!("no status has this tag"),
    }
}

#[test]
fn statuses_as_they_are_logged() {
    assert_eq!(TestStatus::Pass.text(), "Pass");
    assert_eq!(TestStatus::Exception.text(), "Exception");
    assert_eq!(TestStatus::Timeout.text(), "Timeout");
    assert_eq!(TestStatus::GlobalTimeout.text(), "GlobalTimeout");
    assert_eq!(TestStatus::Exit(-3).text(), "Exit(-3)");
    assert_eq!(TestStatus::Signal(9).text(), "Signal(9)");
    assert_eq!(TestStatus::Fatal("a \"b\"\n".to_owned()).text(), "Fatal(\"a \\\"b\\\"\\n\")");
    assert_eq!(TestStatus::Spurious(String::new()).text(), "Spurious(\"\")");
    for status in [TestStatus::Exit(i32::MIN), TestStatus::Fatal("x\ty".to_owned())] {
        assert_eq!(status.text(), format!("{status:?}"));
    }
}

#[test]
fn process_ends_are_statuses() {
    let exit = |signal, code| ProcessExit { signal, code, description: "odd".to_owned() };
    assert!(matches!(TestStatus::from_exit(exit(Some(6), Some(1))), TestStatus::Signal(6)));
    assert!(matches!(TestStatus::from_exit(exit(None, Some(1))), TestStatus::Exit(1)));
    match TestStatus::from_exit(exit(None, None)) {
        TestStatus::Spurious(m) => assert_eq!(m, "Exit status: odd"),
        other => panic!("unexpected {other:?}"),
    }
}

#[test]
fn numbers_are_taken_from_bytes() {
    assert_eq!(consume_to_u32(&[9, 1, 2, 3, 4], 1), Ok(0x04030201));
    assert_eq!(consume_to_u32(&[9, 1, 2, 3, 4], 2), Err("Invalid data".to_owned()));
    assert_eq!(consume_to_u32(&[], 0), Err("Invalid data".to_owned()));
}

#[test]
fn messages_are_read() {
    match TestMessage::try_from(&start_bytes()) {
        Ok(TestMessage::Start(id, call)) => {
            assert_eq!(id, uid());
            assert_eq!(call, CallIndexT(4));
        },
        other => panic!("unexpected {other:?}"),
    }
    match TestMessage::try_from(&message(2, &300u64.to_le_bytes())) {
        Ok(TestMessage::PacketRequest(index)) => assert_eq!(index, PacketIndexT(300)),
        other => panic!("unexpected {other:?}"),
    }
    match TestMessage::try_from(&end_bytes(5, 6, [11, 0, 2, 0, 0, 0])) {
        Ok(TestMessage::TestEnd(index, thread, TestStatus::Exit(code))) => {
            assert_eq!(index, PacketIndexT(5));
            assert_eq!(thread, ThreadLidT(6));
            assert_eq!(code, 2);
        },
        other => panic!("unexpected {other:?}"),
    }
    assert!(matches!(TestMessage::try_from(&message(4, &[])), Ok(TestMessage::End)));
}

#[test]
fn unknown_messages_are_refused() {
    match TestMessage::try_from(&message(77, &[])) {
        Err(e) => assert_eq!(
            e,
            "Invalid msg format: [77, 0, 0, 0, 0, 0, 0, 0, 0, 0, 0, 0, 0, 0, 0, 0, 0, 0, 0, 0, 0, 0, 0, 0]"
        ),
        Ok(_) => panic!("no message has this tag"),
    }
    match TestMessage::try_from(&end_bytes(0, 0, [0, 0, 1, 0, 0, 0])) {
        Err(e) => assert_eq!(e, "Invalid status format: [0, 0, 1, 0, 0, 0] [0, 0] [1, 0, 0, 0]"),
        Ok(_) => panic!("no status has this tag"),
    }
}

#[test]
fn sessions_go_from_start_to_end() {
    let started = ClientState::Started(uid(), CallIndexT(4));
    match handle_client_msg(ClientState::Init, TestMessage::Start(uid(), CallIndexT(4))) {
        Ok((state, ClientAction::Nothing)) => assert_eq!(state, started),
        other => panic!("unexpected {other:?}"),
    }
    match handle_client_msg(started, TestMessage::PacketRequest(PacketIndexT(3))) {
        Ok((state, ClientAction::SupplyPacket(id, index))) => {
            assert_eq!(state, started);
            assert_eq!(id, uid());
            assert_eq!(index, 3);
        },
        other => panic!("unexpected {other:?}"),
    }
    let end = TestMessage::TestEnd(PacketIndexT(3), ThreadLidT(1), TestStatus::Pass);
    match handle_client_msg(started, end) {
        Ok((state, ClientAction::Record(result))) => {
            assert_eq!(state, started);
            assert_eq!(result.uid, uid());
            assert_eq!(result.call, CallIndexT(4));
            assert_eq!(result.pkt, PacketIndexT(3));
            assert_eq!(result.thread_lid, ThreadLidT(1));
            assert!(matches!(result.status, TestStatus::Pass));
        },
        other => panic!("unexpected {other:?}"),
    }
    for state in [ClientState::Init, started] {
        match handle_client_msg(state, TestMessage::End) {
            Ok((next, ClientAction::Nothing)) => assert_eq!(next, ClientState::Ended),
            other => panic!("unexpected {other:?}"),
        }
    }
}

#[test]
fn messages_out_of_turn_are_refused() {
    let started = ClientState::Started(uid(), CallIndexT(4));
    let refused = |state, msg| match handle_client_msg(state, msg) {
        Err(ClientError::InvalidTransition(at, _)) => assert_eq!(at, state),
        other => panic!("unexpected {other:?}"),
    };
    refused(ClientState::Init, TestMessage::PacketRequest(PacketIndexT(0)));
    refused(
        ClientState::Init,
        TestMessage::TestEnd(PacketIndexT(0), ThreadLidT(0), TestStatus::Pass),
    );
    refused(started, TestMessage::Start(uid(), CallIndexT(4)));
    refused(ClientState::Ended, TestMessage::End);
    refused(ClientState::Ended, TestMessage::Start(uid(), CallIndexT(0)));
}

#[test]
fn clients_are_served_turn_by_turn() {
    let init = ClientState::Init;
    match test_coordinator_case_handler(init, ClientRead::Bytes(24, start_bytes()), true) {
        CoordinatorStep::Continue(state, ClientAction::Nothing) => {
            assert_eq!(state, ClientState::Started(uid(), CallIndexT(4)))
        },
        other => panic!("unexpected {other:?}"),
    }
    assert!(matches!(
        test_coordinator_case_handler(init, ClientRead::Bytes(24, message(4, &[])), false),
        CoordinatorStep::Finished
    ));
    assert!(matches!(
        test_coordinator_case_handler(init, ClientRead::TimedOut, true),
        CoordinatorStep::Finished
    ));
    assert!(matches!(
        test_coordinator_case_handler(init, ClientRead::TimedOut, false),
        CoordinatorStep::Continue(ClientState::Init, ClientAction::Nothing)
    ));
    assert!(matches!(
        test_coordinator_case_handler(init, ClientRead::Bytes(0, [0; 24]), false),
        CoordinatorStep::Failed(CoordinatorError::Closed)
    ));
    assert!(matches!(
        test_coordinator_case_handler(init, ClientRead::Bytes(10, start_bytes()), false),
        CoordinatorStep::Failed(CoordinatorError::WrongLength(10))
    ));
    assert!(matches!(
        test_coordinator_case_handler(init, ClientRead::Failed("gone".to_owned()), false),
        CoordinatorStep::Failed(CoordinatorError::NotReadable(reason)) if reason == "gone"
    ));
    assert!(matches!(
        test_coordinator_case_handler(init, ClientRead::Bytes(24, message(77, &[])), false),
        CoordinatorStep::Failed(CoordinatorError::InvalidMessage(_))
    ));
    assert!(matches!(
        test_coordinator_case_handler(ClientState::Ended, ClientRead::Bytes(24, start_bytes()), false),
        CoordinatorStep::Failed(CoordinatorError::Refused(ClientError::InvalidTransition(
            ClientState::Ended,
            TestMessage::Start(_, _)
        )))
    ));
}

#[test]
fn the_server_looks_for_the_end_first() {
    assert!(matches!(test_server_job(ServerEvent::EndChecked(true)), ServerStep::Finish));
    assert!(matches!(test_server_job(ServerEvent::EndChecked(false)), ServerStep::Accept));
    assert!(matches!(test_server_job(ServerEvent::Connected), ServerStep::Serve));
    assert!(matches!(test_server_job(ServerEvent::AcceptTimedOut), ServerStep::CheckEnd));
    assert!(matches!(
        test_server_job(ServerEvent::AcceptFailed("x".to_owned())),
        ServerStep::Failed(e) if e == "x"
    ));
}

#[test]
fn responses_are_announced_by_their_length() {
    assert_eq!(send_protocol_response(&[]), Some([0, 0, 0, 0]));
    assert_eq!(send_protocol_response(&[1; 258]), Some([2, 1, 0, 0]));
}

#[test]
fn sending_ends_when_all_was_written() {
    let data = [1u8, 2, 3];
    assert!(matches!(
        raw_send_to_client(&data, 0, WriteOutcome::Written(3)),
        SendStep::Finished
    ));
    assert!(matches!(
        raw_send_to_client(&data, 0, WriteOutcome::Written(2)),
        SendStep::WriteFrom(2)
    ));
    assert!(matches!(
        raw_send_to_client(&data, 2, WriteOutcome::Written(1)),
        SendStep::Finished
    ));
    assert!(matches!(
        raw_send_to_client(&[], 0, WriteOutcome::Written(0)),
        SendStep::Finished
    ));
    assert!(matches!(
        raw_send_to_client(&data, 2, WriteOutcome::WouldBlock),
        SendStep::WriteFrom(2)
    ));
    assert!(matches!(
        raw_send_to_client(&data, 2, WriteOutcome::Failed("pipe".to_owned())),
        SendStep::Failed(e) if e == "pipe"
    ));
}
