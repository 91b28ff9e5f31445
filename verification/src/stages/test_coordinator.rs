//! Serving a test client: what is read from it, what is sent to it and when it ends.

use crate::bytes::law_le_read_after_write;
use crate::bytes::law_le_write_after_read;
use crate::bytes::le_bytes;
use crate::bytes::le_value;
use crate::bytes::lemma_byte_ranges;
use crate::bytes::lemma_le_bytes_len;
use crate::bytes::lemma_le_value_bound;
use crate::bytes::u32_to_le;
use crate::modmap::NumFunUid;
use crate::shmem_capture::hooklib_commons::TAG_EXC;
use crate::shmem_capture::hooklib_commons::TAG_EXIT;
use crate::shmem_capture::hooklib_commons::TAG_FATAL;
use crate::shmem_capture::hooklib_commons::TAG_PASS;
use crate::shmem_capture::hooklib_commons::TAG_PKT;
use crate::shmem_capture::hooklib_commons::TAG_SGNL;
use crate::shmem_capture::hooklib_commons::TAG_START;
use crate::shmem_capture::hooklib_commons::TAG_TEST_END;
use crate::shmem_capture::hooklib_commons::TAG_TEST_FINISH;
use crate::shmem_capture::hooklib_commons::TAG_TIMEOUT;
use crate::stages::test_protocol::client_step;
use crate::stages::test_protocol::handle_client_msg;
use crate::stages::test_protocol::parsed_message;
use crate::stages::test_protocol::parsed_status;
use crate::stages::test_protocol::u32_at;
use crate::stages::test_protocol::u64_at;
use crate::stages::test_protocol::ActionModel;
use crate::stages::test_protocol::CallIndexT;
use crate::stages::test_protocol::ClientAction;
use crate::stages::test_protocol::ClientError;
use crate::stages::test_protocol::ClientState;
use crate::stages::test_protocol::MessageModel;
use crate::stages::test_protocol::PacketIndexT;
use crate::stages::test_protocol::ResultModel;
use crate::stages::test_protocol::StatusModel;
use crate::stages::test_protocol::MSG_SIZE;
use crate::stages::test_protocol::TestMessage;
use crate::stages::test_protocol::ThreadLidT;
use vstd::prelude::*;

verus! {

/// What happens to the server that test clients connect to.
#[derive(Debug)]
pub enum ServerEvent {
    /// it was looked up whether the server was told to end
    EndChecked(bool),
    /// a client has connected
    Connected,
    /// no client can connect
    AcceptFailed(String),
    /// no client connected in time
    AcceptTimedOut,
}

/// What the server is to do.
#[derive(Debug)]
pub enum ServerStep {
    /// look up whether the server was told to end
    CheckEnd,
    /// wait for a client
    Accept,
    /// serve the client, then look up whether the server was told to end
    Serve,
    /// tell the handlers of all clients to stop and wait for them
    Finish,
    /// give up for this reason
    Failed(String),
}

/// implements the central "dispatch" server
/// to which all test instances (test coordinators) connect: what to do after an event. The
/// first thing to do is to look up whether to end, and no client is waited for without that.
pub fn test_server_job(event: ServerEvent) -> (step: ServerStep)
    ensures
        step == match event {
            ServerEvent::EndChecked(end) => if end {
                ServerStep::Finish
            } else {
                ServerStep::Accept
            },
            ServerEvent::Connected => ServerStep::Serve,
            ServerEvent::AcceptFailed(reason) => ServerStep::Failed(reason),
            ServerEvent::AcceptTimedOut => ServerStep::CheckEnd,
        },
{
    match event {
        ServerEvent::EndChecked(end) => if end {
            ServerStep::Finish
        } else {
            ServerStep::Accept
        },
        ServerEvent::Connected => ServerStep::Serve,
        ServerEvent::AcceptFailed(reason) => ServerStep::Failed(reason),
        ServerEvent::AcceptTimedOut => ServerStep::CheckEnd,
    }
}

/// What an attempt to read a message from a client has ended with.
#[derive(Debug)]
pub enum ClientRead {
    /// this many bytes were read, into the front of the array
    Bytes(usize, [u8; MSG_SIZE]),
    /// the stream cannot be read
    Failed(String),
    /// nothing came in time
    TimedOut,
}

/// Why a client is no longer served.
#[derive(Debug)]
pub enum CoordinatorError {
    /// the client closed the connection
    Closed,
    /// this many bytes came in place of a message
    WrongLength(usize),
    /// the stream cannot be read
    NotReadable(String),
    /// the bytes are no message
    InvalidMessage(String),
    /// the message was refused
    Refused(ClientError),
}

/// What is to be done after an attempt to read from a client.
#[derive(Debug)]
pub enum CoordinatorStep {
    /// go on in this state, after the action
    Continue(ClientState, ClientAction),
    /// stop serving the client
    Finished,
    /// stop serving the client for this reason
    Failed(CoordinatorError),
}

/// What comes of a complete message.
#[verifier::ext_equal]
pub enum MessageStep {
    /// the session goes on in this state, after the action
    Continue(ClientState, ActionModel),
    /// the session ends
    Finished,
    /// the bytes are no message
    Invalid(Seq<char>),
    /// the message cannot come now
    OutOfTurn(MessageModel),
    /// the index of the requested packet is larger than any index can be
    IndexTooLarge(nat),
}

/// What comes of a complete message in a state.
pub open spec fn message_step(state: ClientState, value: Seq<u8>) -> MessageStep {
    match parsed_message(value) {
        Err(text) => MessageStep::Invalid(text),
        Ok(msg) => match client_step(state, msg) {
            None => MessageStep::OutOfTurn(msg),
            Some((next, action)) => if next is Ended {
                MessageStep::Finished
            } else if action is SupplyPacket && action->SupplyPacket_1 > usize::MAX {
                MessageStep::IndexTooLarge(action->SupplyPacket_1)
            } else {
                MessageStep::Continue(next, action)
            },
        },
    }
}

/// The step is the one that the model describes.
pub open spec fn step_is(step: CoordinatorStep, state: ClientState, model: MessageStep) -> bool {
    match model {
        MessageStep::Continue(next, action) => step matches CoordinatorStep::Continue(s, a) && s
            == next && a@ == action,
        MessageStep::Finished => step is Finished,
        MessageStep::Invalid(text) => step matches CoordinatorStep::Failed(e) && e matches
            CoordinatorError::InvalidMessage(t) && t@ == text,
        MessageStep::OutOfTurn(msg) => step matches CoordinatorStep::Failed(e) && e matches
            CoordinatorError::Refused(refusal) && refusal matches ClientError::InvalidTransition(
            s,
            m,
        ) && s == state && m@ == msg,
        MessageStep::IndexTooLarge(index) => step matches CoordinatorStep::Failed(e) && e matches
            CoordinatorError::Refused(refusal) && refusal matches ClientError::IndexTooLarge(i)
            && i == index,
    }
}

/// One turn of serving a client (a specific function id + call index): judges what was read
/// and says what is to be done. `stop` is set when the server was told to stop; it is looked at
/// only when nothing came in time.
pub fn test_coordinator_case_handler(state: ClientState, read: ClientRead, stop: bool) -> (step:
    CoordinatorStep)
    ensures
        match read {
            ClientRead::TimedOut => if stop {
                step is Finished
            } else {
                step is Continue && step->Continue_0 == state && step->Continue_1 is Nothing
            },
            ClientRead::Failed(reason) => step == CoordinatorStep::Failed(
                CoordinatorError::NotReadable(reason),
            ),
            ClientRead::Bytes(n, data) => if n == 0 {
                step == CoordinatorStep::Failed(CoordinatorError::Closed)
            } else if n != 24 {
                step == CoordinatorStep::Failed(CoordinatorError::WrongLength(n))
            } else {
                step_is(step, state, message_step(state, data@))
            },
        },
{
    let data = match read {
        ClientRead::Bytes(n, data) => {
            if n == 0 {
                return CoordinatorStep::Failed(CoordinatorError::Closed);
            }
            if n != 24 {
                return CoordinatorStep::Failed(CoordinatorError::WrongLength(n));
            }
            data
        },
        ClientRead::Failed(reason) => {
            return CoordinatorStep::Failed(CoordinatorError::NotReadable(reason));
        },
        ClientRead::TimedOut => {
            return if stop {
                CoordinatorStep::Finished
            } else {
                CoordinatorStep::Continue(state, ClientAction::Nothing)
            };
        },
    };
    let msg = match TestMessage::try_from(&data) {
        Ok(msg) => msg,
        Err(text) => {
            return CoordinatorStep::Failed(CoordinatorError::InvalidMessage(text));
        },
    };
    match handle_client_msg(state, msg) {
        Err(e) => CoordinatorStep::Failed(CoordinatorError::Refused(e)),
        Ok((next, action)) => {
            if let ClientState::Ended = next {
                CoordinatorStep::Finished
            } else {
                CoordinatorStep::Continue(next, action)
            }
        },
    }
}

/// What an attempt to write has ended with.
#[derive(Debug)]
pub enum WriteOutcome {
    /// this many bytes were written
    Written(usize),
    /// nothing can be written right now
    WouldBlock,
    /// the stream cannot be written
    Failed(String),
}

/// What is to be done after an attempt to write.
#[derive(Debug)]
pub enum SendStep {
    /// write the bytes from this position on
    WriteFrom(usize),
    /// nothing, all bytes were written
    Finished,
    /// nothing, writing failed
    Failed(String),
}

/// What to do after the bytes of `data` from `idx` on were tried to be written. Sending ends
/// with the attempt that takes the last of them.
pub fn raw_send_to_client(data: &[u8], idx: usize, outcome: WriteOutcome) -> (step: SendStep)
    requires
        idx <= data@.len(),
        outcome matches WriteOutcome::Written(n) ==> n <= data@.len() - idx,
    ensures
        step == match outcome {
            WriteOutcome::Written(n) => if idx + n == data@.len() {
                SendStep::Finished
            } else {
                SendStep::WriteFrom((idx + n) as usize)
            },
            WriteOutcome::WouldBlock => SendStep::WriteFrom(idx),
            WriteOutcome::Failed(reason) => SendStep::Failed(reason),
        },
        step matches SendStep::WriteFrom(next) ==> idx <= next <= data@.len(),
        outcome matches WriteOutcome::Written(n) ==> match send_position(
            data@.len(),
            idx as nat,
            n as nat,
        ) {
            Some(from) => step == SendStep::WriteFrom(from as usize),
            None => step is Finished,
        },
{
    match outcome {
        WriteOutcome::Written(n) => {
            if n == data.len() - idx {
                SendStep::Finished
            } else {
                SendStep::WriteFrom(idx + n)
            }
        },
        WriteOutcome::WouldBlock => SendStep::WriteFrom(idx),
        WriteOutcome::Failed(reason) => SendStep::Failed(reason),
    }
}

/// The bytes that announce a response in accordance with the comms protocol between the test
/// client and this server (length + payload). None if the response is too long for it.
pub fn send_protocol_response(response: &[u8]) -> (r: Option<[u8; 4]>)
    ensures
        r is Some <==> response@.len() <= u32::MAX,
        r matches Some(bytes) ==> bytes@ == le_bytes(response@.len(), 4),
        match r {
            Some(bytes) => announcement(response@) == Some(bytes@),
            None => announcement(response@) is None,
        },
{
    if response.len() as u64 > u32::MAX as u64 {
        None
    } else {
        Some(u32_to_le(response.len() as u32))
    }
}

/// What is sent in front of a response. None if the response is too long for it.
pub open spec fn announcement(response: Seq<u8>) -> Option<Seq<u8>> {
    if response.len() <= u32::MAX {
        Some(le_bytes(response.len(), 4))
    } else {
        None
    }
}

/// A client that reads a response's length finds the length that the response has.
pub proof fn law_response_length_is_read_back(len: nat)
    requires
        len <= u32::MAX,
    ensures
        le_bytes(len, 4).len() == 4,
        le_value(le_bytes(len, 4)) == len,
{
    lemma_byte_ranges();
    lemma_le_bytes_len(len, 4);
    law_le_read_after_write(len, 4);
}

/// A client that reads four bytes, and then as many bytes as they say, has read the whole response
/// and nothing of what follows. A response is refused only if four bytes cannot say its length.
pub proof fn law_response_is_read_back(response: Seq<u8>, after: Seq<u8>)
    ensures
        announcement(response) is None ==> response.len() >= 0x1_0000_0000,
        announcement(response) matches Some(head) ==> {
            let sent = head + response + after;
            &&& head.len() == 4
            &&& sent.subrange(4, 4 + le_value(sent.subrange(0, 4)) as int) == response
        },
{
    if let Some(head) = announcement(response) {
        law_response_length_is_read_back(response.len());
        let sent = head + response + after;
        assert(sent.subrange(0, 4) =~= head);
        assert(sent.subrange(4, 4 + response.len() as int) =~= response);
    }
}

/// Where sending `len` bytes stands after some attempts to write, of which each took this many
/// bytes. None if all were written.
pub open spec fn sending(len: nat, attempts: Seq<nat>) -> Option<nat>
    decreases attempts.len(),
{
    if attempts.len() == 0 {
        Some(0)
    } else {
        match sending(len, attempts.drop_last()) {
            None => None,
            Some(from) => send_position(len, from, attempts.last()),
        }
    }
}

/// From where writing `len` bytes goes on after `n` bytes were written from the position `idx` on.
/// None if nothing is left.
pub open spec fn send_position(len: nat, idx: nat, n: nat) -> Option<nat> {
    if idx + n == len {
        None
    } else {
        Some(idx + n)
    }
}

/// How many bytes the attempts took together.
pub open spec fn written(attempts: Seq<nat>) -> nat
    decreases attempts.len(),
{
    if attempts.len() == 0 {
        0
    } else {
        written(attempts.drop_last()) + attempts.last()
    }
}

/// However few bytes each attempt takes, each byte is written once: writing goes on behind the
/// bytes that were taken, and ends with the attempt that takes the last of them.
pub proof fn law_every_byte_is_sent_once(len: nat, attempts: Seq<nat>)
    requires
        attempts.len() > 0,
        written(attempts.drop_last()) < len,
        written(attempts) <= len,
    ensures
        match sending(len, attempts) {
            Some(from) => from == written(attempts) && from < len,
            None => written(attempts) == len,
        },
    decreases attempts.len(),
{
    let before = attempts.drop_last();
    reveal_with_fuel(sending, 2);
    reveal_with_fuel(written, 2);
    if before.len() > 0 {
        assert(written(before.drop_last()) <= written(before));
        law_every_byte_is_sent_once(len, before);
    }
}

/// The unsigned number with the bit pattern of a signed one.
pub open spec fn as_unsigned_32(value: int) -> nat {
    if value < 0 {
        (value + 0x1_0000_0000) as nat
    } else {
        value as nat
    }
}

/// A status as a client sends it: tag and number. None for those that no client sends.
pub open spec fn sent_status(status: StatusModel) -> Option<Seq<u8>> {
    match status {
        StatusModel::Pass => Some(le_bytes(TAG_PASS as nat, 2) + le_bytes(0, 4)),
        StatusModel::Exception => Some(le_bytes(TAG_EXC as nat, 2) + le_bytes(0, 4)),
        StatusModel::Timeout => Some(le_bytes(TAG_TIMEOUT as nat, 2) + le_bytes(0, 4)),
        StatusModel::Exit(code) => Some(
            le_bytes(TAG_EXIT as nat, 2) + le_bytes(as_unsigned_32(code as int), 4),
        ),
        StatusModel::Signal(number) => Some(
            le_bytes(TAG_SGNL as nat, 2) + le_bytes(as_unsigned_32(number as int), 4),
        ),
        StatusModel::Fatal(text) => if text == "test coordinator"@ {
            Some(le_bytes(TAG_FATAL as nat, 2) + le_bytes(0, 4))
        } else {
            None
        },
        _ => None,
    }
}

/// A message as a client sends it. None for those that no client sends.
pub open spec fn sent_message(msg: MessageModel) -> Option<Seq<u8>> {
    match msg {
        MessageModel::Start(uid, call) => Some(
            le_bytes(TAG_START as nat, 2) + le_bytes(uid.module_id.0 as nat, 4) + le_bytes(
                uid.function_id.0 as nat,
                4,
            ) + le_bytes(call.0 as nat, 4) + le_bytes(0, 10),
        ),
        MessageModel::PacketRequest(index) => Some(
            le_bytes(TAG_PKT as nat, 2) + le_bytes(index.0 as nat, 8) + le_bytes(0, 14),
        ),
        MessageModel::TestEnd(index, thread, status) => match sent_status(status) {
            Some(bytes) => Some(
                le_bytes(TAG_TEST_END as nat, 2) + le_bytes(index.0 as nat, 8) + le_bytes(
                    thread.0 as nat,
                    8,
                ) + bytes,
            ),
            None => None,
        },
        MessageModel::End => Some(le_bytes(TAG_TEST_FINISH as nat, 2) + le_bytes(0, 22)),
    }
}

proof fn lemma_tag_reads_back(tag: u16, rest: Seq<u8>)
    ensures
        (le_bytes(tag as nat, 2) + rest).len() == 2 + rest.len(),
        le_value((le_bytes(tag as nat, 2) + rest).subrange(0, 2)) == tag,
{
    lemma_byte_ranges();
    lemma_le_bytes_len(tag as nat, 2);
    law_le_read_after_write(tag as nat, 2);
    assert((le_bytes(tag as nat, 2) + rest).subrange(0, 2) =~= le_bytes(tag as nat, 2));
}

/// A status that a client sends is read as the status that it is.
pub proof fn law_sent_status_is_read_back(status: StatusModel)
    requires
        sent_status(status) is Some,
    ensures
        sent_status(status)->Some_0.len() == 6,
        parsed_status(sent_status(status)->Some_0) == Some(status),
{
    lemma_byte_ranges();
    let (tag, number) = match status {
        StatusModel::Pass => (TAG_PASS, 0nat),
        StatusModel::Exception => (TAG_EXC, 0nat),
        StatusModel::Timeout => (TAG_TIMEOUT, 0nat),
        StatusModel::Exit(code) => (TAG_EXIT, as_unsigned_32(code as int)),
        StatusModel::Signal(n) => (TAG_SGNL, as_unsigned_32(n as int)),
        _ => (TAG_FATAL, 0nat),
    };
    lemma_le_bytes_len(number, 4);
    law_le_read_after_write(number, 4);
    lemma_tag_reads_back(tag, le_bytes(number, 4));
    lemma_le_bytes_len(tag as nat, 2);
    let bytes = sent_status(status)->Some_0;
    assert(bytes == le_bytes(tag as nat, 2) + le_bytes(number, 4));
    assert(bytes.subrange(2, 6) =~= le_bytes(number, 4));
}

/// A message that a client sends is read as the message that it is.
pub proof fn law_sent_message_is_read_back(msg: MessageModel)
    requires
        sent_message(msg) is Some,
    ensures
        sent_message(msg)->Some_0.len() == 24,
        parsed_message(sent_message(msg)->Some_0) == Ok::<MessageModel, Seq<char>>(msg),
{
    lemma_byte_ranges();
    let bytes = sent_message(msg)->Some_0;
    match msg {
        MessageModel::Start(uid, call) => {
            let m = uid.module_id.0 as nat;
            let f = uid.function_id.0 as nat;
            let c = call.0 as nat;
            lemma_le_bytes_len(TAG_START as nat, 2);
            lemma_le_bytes_len(m, 4);
            lemma_le_bytes_len(f, 4);
            lemma_le_bytes_len(c, 4);
            lemma_le_bytes_len(0, 10);
            law_le_read_after_write(m, 4);
            law_le_read_after_write(f, 4);
            law_le_read_after_write(c, 4);
            let rest = le_bytes(m, 4) + le_bytes(f, 4) + le_bytes(c, 4) + le_bytes(0, 10);
            lemma_tag_reads_back(TAG_START, rest);
            assert(bytes =~= le_bytes(TAG_START as nat, 2) + rest);
            assert(bytes.subrange(2, 6) =~= le_bytes(m, 4));
            assert(bytes.subrange(6, 10) =~= le_bytes(f, 4));
            assert(bytes.subrange(10, 14) =~= le_bytes(c, 4));
        },
        MessageModel::PacketRequest(index) => {
            let i = index.0 as nat;
            lemma_le_bytes_len(TAG_PKT as nat, 2);
            lemma_le_bytes_len(i, 8);
            lemma_le_bytes_len(0, 14);
            law_le_read_after_write(i, 8);
            let rest = le_bytes(i, 8) + le_bytes(0, 14);
            lemma_tag_reads_back(TAG_PKT, rest);
            assert(bytes =~= le_bytes(TAG_PKT as nat, 2) + rest);
            assert(bytes.subrange(2, 10) =~= le_bytes(i, 8));
        },
        MessageModel::TestEnd(index, thread, status) => {
            let i = index.0 as nat;
            let t = thread.0 as nat;
            let s = sent_status(status)->Some_0;
            law_sent_status_is_read_back(status);
            lemma_le_bytes_len(TAG_TEST_END as nat, 2);
            lemma_le_bytes_len(i, 8);
            lemma_le_bytes_len(t, 8);
            law_le_read_after_write(i, 8);
            law_le_read_after_write(t, 8);
            let rest = le_bytes(i, 8) + le_bytes(t, 8) + s;
            lemma_tag_reads_back(TAG_TEST_END, rest);
            assert(bytes =~= le_bytes(TAG_TEST_END as nat, 2) + rest);
            assert(bytes.subrange(2, 10) =~= le_bytes(i, 8));
            assert(bytes.subrange(10, 18) =~= le_bytes(t, 8));
            assert(bytes.subrange(18, 24) =~= s);
        },
        MessageModel::End => {
            lemma_le_bytes_len(0, 22);
            lemma_tag_reads_back(TAG_TEST_FINISH, le_bytes(0, 22));
        },
    }
}

/// Only what a client sends is taken for a message: the bytes start with the tag of the message
/// that they are taken for, and what it says stands in them.
pub proof fn law_only_sent_messages_are_read(value: Seq<u8>)
    requires
        value.len() == 24,
        parsed_message(value) is Ok,
    ensures
        ({
            let msg = parsed_message(value)->Ok_0;
            let said: int = match msg {
                MessageModel::Start(_, _) => 14,
                MessageModel::PacketRequest(_) => 10,
                MessageModel::TestEnd(_, _, _) => 20,
                MessageModel::End => 2,
            };
            &&& sent_message(msg) is Some
            &&& sent_message(msg)->Some_0.subrange(0, said) == value.subrange(0, said)
        }),
{
    lemma_byte_ranges();
    let msg = parsed_message(value)->Ok_0;
    law_le_write_after_read(value.subrange(0, 2));
    match msg {
        MessageModel::Start(uid, call) => {
            lemma_parts_4(value, 2);
            lemma_parts_4(value, 6);
            lemma_parts_4(value, 10);
            law_sent_message_is_read_back(msg);
            lemma_le_bytes_len(0, 10);
            assert(sent_message(msg)->Some_0.subrange(0, 14) =~= value.subrange(0, 14));
        },
        MessageModel::PacketRequest(index) => {
            lemma_parts_8(value, 2);
            law_sent_message_is_read_back(msg);
            assert(sent_message(msg)->Some_0.subrange(0, 10) =~= value.subrange(0, 10));
        },
        MessageModel::TestEnd(index, thread, status) => {
            lemma_parts_8(value, 2);
            lemma_parts_8(value, 10);
            let at = value.subrange(18, 24);
            lemma_byte_ranges();
            lemma_le_value_bound(at.subrange(2, 6));
            law_le_write_after_read(at.subrange(0, 2));
            assert(sent_status(status) is Some);
            law_sent_status_is_read_back(status);
            lemma_le_bytes_len(0, 4);
            assert(sent_status(status)->Some_0.subrange(0, 2) =~= at.subrange(0, 2));
            assert(sent_message(msg)->Some_0.subrange(18, 20) =~= value.subrange(18, 20));
            assert(sent_message(msg)->Some_0.subrange(0, 20) =~= value.subrange(0, 20));
        },
        MessageModel::End => {
            lemma_le_bytes_len(0, 22);
            assert(sent_message(msg)->Some_0.subrange(0, 2) =~= value.subrange(0, 2));
        },
    }
}

proof fn lemma_parts_4(value: Seq<u8>, start: int)
    requires
        0 <= start,
        start + 4 <= value.len(),
    ensures
        le_bytes(u32_at(value, start) as nat, 4) == value.subrange(start, start + 4),
{
    lemma_byte_ranges();
    lemma_le_value_bound(value.subrange(start, start + 4));
    law_le_write_after_read(value.subrange(start, start + 4));
}

proof fn lemma_parts_8(value: Seq<u8>, start: int)
    requires
        0 <= start,
        start + 8 <= value.len(),
    ensures
        le_bytes(u64_at(value, start) as nat, 8) == value.subrange(start, start + 8),
{
    lemma_byte_ranges();
    lemma_le_value_bound(value.subrange(start, start + 8));
    law_le_write_after_read(value.subrange(start, start + 8));
}

/// The bytes in which a client says how a test has ended become a result that says the same: of
/// the function and the call of the session, with the packet, the thread and the status that the
/// client gave.
pub proof fn law_reported_end_is_recorded(
    uid: NumFunUid,
    call: CallIndexT,
    pkt: PacketIndexT,
    thread: ThreadLidT,
    status: StatusModel,
)
    requires
        sent_status(status) is Some,
    ensures
        ({
            let bytes = sent_message(MessageModel::TestEnd(pkt, thread, status))->Some_0;
            let step = message_step(ClientState::Started(uid, call), bytes);
            &&& step is Continue
            &&& step->Continue_0 == ClientState::Started(uid, call)
            &&& step->Continue_1 is Record
            &&& step->Continue_1->Record_0.uid == uid
            &&& step->Continue_1->Record_0.call == call
            &&& step->Continue_1->Record_0.pkt == pkt
            &&& step->Continue_1->Record_0.thread_lid == thread
            &&& step->Continue_1->Record_0.status == status
        }),
{
    law_sent_message_is_read_back(MessageModel::TestEnd(pkt, thread, status));
}

/// The bytes in which a client asks for a packet are answered with that packet of the function that
/// the session is about.
pub proof fn law_requested_packet_is_supplied(
    uid: NumFunUid,
    call: CallIndexT,
    index: PacketIndexT,
)
    requires
        index.0 <= usize::MAX,
    ensures
        ({
            let bytes = sent_message(MessageModel::PacketRequest(index))->Some_0;
            let step = message_step(ClientState::Started(uid, call), bytes);
            &&& step is Continue
            &&& step->Continue_0 == ClientState::Started(uid, call)
            &&& step->Continue_1 is SupplyPacket
            &&& step->Continue_1->SupplyPacket_0 == uid
            &&& step->Continue_1->SupplyPacket_1 == index.0
        }),
{
    law_sent_message_is_read_back(MessageModel::PacketRequest(index));
}

/// The results that the messages of a session give, and the state that it is then in. None
/// if one of the messages is refused.
pub open spec fn session(state: ClientState, msgs: Seq<MessageModel>) -> Option<
    (ClientState, Seq<ResultModel>),
>
    decreases msgs.len(),
{
    if msgs.len() == 0 {
        Some((state, Seq::empty()))
    } else {
        match session(state, msgs.drop_last()) {
            None => None,
            Some((before, results)) => match client_step(before, msgs.last()) {
                None => None,
                Some((next, ActionModel::Record(result))) => Some((next, results.push(result))),
                Some((next, action)) => Some((next, results)),
            },
        }
    }
}

/// The messages of a session that say how a test has ended.
pub open spec fn test_ends(msgs: Seq<MessageModel>) -> Seq<MessageModel> {
    msgs.filter(|m: MessageModel| m is TestEnd)
}

/// The results of a session are what its messages say, in order: one for each message that says
/// how a test has ended, with the packet, the thread and the status that the message carries.
pub proof fn law_results_are_what_the_messages_say(msgs: Seq<MessageModel>)
    requires
        session(ClientState::Init, msgs) is Some,
    ensures
        ({
            let results = session(ClientState::Init, msgs)->Some_0.1;
            &&& results.len() == test_ends(msgs).len()
            &&& forall|i: int|
                0 <= i < results.len() ==> #[trigger] test_ends(msgs)[i] == MessageModel::TestEnd(
                    results[i].pkt,
                    results[i].thread_lid,
                    results[i].status,
                )
        }),
    decreases msgs.len(),
{
    reveal(Seq::filter);
    if msgs.len() > 0 {
        law_results_are_what_the_messages_say(msgs.drop_last());
        let earlier = session(ClientState::Init, msgs.drop_last())->Some_0.1;
        let results = session(ClientState::Init, msgs)->Some_0.1;
        assert forall|i: int| 0 <= i < results.len() implies #[trigger] test_ends(msgs)[i]
            == MessageModel::TestEnd(results[i].pkt, results[i].thread_lid, results[i].status) by {
            if i < earlier.len() {
                assert(test_ends(msgs.drop_last())[i] == MessageModel::TestEnd(
                    earlier[i].pkt,
                    earlier[i].thread_lid,
                    earlier[i].status,
                ));
            }
        }
    }
}

/// Which sessions there can be: a session starts with the message that names function and call, or
/// is ended at once. Nothing is named a second time, and nothing comes after the message that ends
/// it. Any messages of which this holds are taken.
pub proof fn law_sessions_start_and_end_once(msgs: Seq<MessageModel>)
    ensures
        session(ClientState::Init, msgs) is Some <==> forall|k: int|
            0 <= k < msgs.len() ==> {
                &&& (#[trigger] msgs[k] is Start ==> k == 0)
                &&& (msgs[k] is End ==> k == msgs.len() - 1)
                &&& (k == 0 ==> msgs[k] is Start || msgs[k] is End)
            },
        session(ClientState::Init, msgs) matches Some((state, results)) ==> msgs.len() > 0 ==> (
        state is Ended <==> msgs.last() is End),
    decreases msgs.len(),
{
    if msgs.len() > 0 {
        let before = msgs.drop_last();
        law_sessions_start_and_end_once(before);
        if session(ClientState::Init, before) is Some {
            law_results_are_of_the_started_call(before);
        }
        if session(ClientState::Init, msgs) is Some {
            assert forall|k: int| 0 <= k < msgs.len() implies {
                &&& (#[trigger] msgs[k] is Start ==> k == 0)
                &&& (msgs[k] is End ==> k == msgs.len() - 1)
                &&& (k == 0 ==> msgs[k] is Start || msgs[k] is End)
            } by {
                if k < before.len() {
                    assert(before[k] == msgs[k]);
                    if msgs[k] is End {
                        assert(before.last() is End);
                    }
                }
            }
        } else if forall|k: int|
            0 <= k < msgs.len() ==> {
                &&& (#[trigger] msgs[k] is Start ==> k == 0)
                &&& (msgs[k] is End ==> k == msgs.len() - 1)
                &&& (k == 0 ==> msgs[k] is Start || msgs[k] is End)
            } {
            assert forall|k: int| 0 <= k < before.len() implies {
                &&& (#[trigger] before[k] is Start ==> k == 0)
                &&& (before[k] is End ==> k == before.len() - 1)
                &&& (k == 0 ==> before[k] is Start || before[k] is End)
            } by {
                assert(before[k] == msgs[k]);
            }
            assert(msgs[msgs.len() - 1] == msgs.last());
            if before.len() > 0 {
                assert(before.last() == msgs[before.len() - 1]);
            }
        }
    }
}

/// All results of a session are of the function and the call that its first message named,
/// and a session that has ended takes no further message.
pub proof fn law_results_are_of_the_started_call(msgs: Seq<MessageModel>)
    requires
        session(ClientState::Init, msgs) is Some,
    ensures
        ({
            let (state, results) = session(ClientState::Init, msgs)->Some_0;
            &&& forall|i: int|
                0 <= i < results.len() ==> msgs[0] == MessageModel::Start(
                    #[trigger] results[i].uid,
                    results[i].call,
                )
            &&& state matches ClientState::Started(uid, call) ==> msgs.len() > 0 && msgs[0]
                == MessageModel::Start(uid, call)
            &&& state is Init ==> msgs.len() == 0
            &&& forall|msg: MessageModel|
                state is Ended ==> #[trigger] session(ClientState::Init, msgs.push(msg)) is None
        }),
    decreases msgs.len(),
{
    assert forall|msg: MessageModel| #[trigger]
        session(ClientState::Init, msgs.push(msg)) is None || session(
            ClientState::Init,
            msgs,
        )->Some_0.0 !is Ended by {
        assert(msgs.push(msg).drop_last() =~= msgs);
    }
    if msgs.len() > 0 {
        let before = msgs.drop_last();
        law_results_are_of_the_started_call(before);
        if before.len() > 0 {
            assert(msgs[0] == before[0]);
        }
        let (was, earlier) = session(ClientState::Init, before)->Some_0;
        let (state, results) = session(ClientState::Init, msgs)->Some_0;
        assert forall|i: int| 0 <= i < results.len() implies msgs[0] == MessageModel::Start(
            #[trigger] results[i].uid,
            results[i].call,
        ) by {
            if i < earlier.len() {
                assert(results[i] == earlier[i]);
                assert(before[0] == MessageModel::Start(earlier[i].uid, earlier[i].call));
            }
        }
    }
}

} // verus!
