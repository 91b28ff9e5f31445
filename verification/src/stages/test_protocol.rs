//! The messages of test clients and how they are answered.

use crate::bytes::as_signed_32;
use crate::bytes::law_le_read_after_write;
use crate::bytes::le_bytes;
use crate::bytes::le_value;
use crate::bytes::lemma_byte_ranges;
use crate::bytes::lemma_le_bytes_len;
use crate::modmap::IntegralFnId;
use crate::modmap::IntegralModId;
use crate::modmap::NumFunUid;
use crate::shmem_capture::hooklib_commons::CLI_MSG_SIZE;
use crate::shmem_capture::hooklib_commons::TAG_EXC;
use crate::shmem_capture::hooklib_commons::TAG_EXIT;
use crate::shmem_capture::hooklib_commons::TAG_FATAL;
use crate::shmem_capture::hooklib_commons::TAG_PASS;
use crate::shmem_capture::hooklib_commons::TAG_PKT;
use crate::shmem_capture::hooklib_commons::TAG_SGNL;
use crate::shmem_capture::hooklib_commons::TAG_START;
use crate::shmem_capture::hooklib_commons::TAG_TEST_END;
use crate::shmem_capture::hooklib_commons::TAG_TEST_FINISH;
use crate::shmem_capture::hooklib_commons::TAG_TIMEOUT;
use crate::stages::test_jobs::law_decimal_numbers_are_read_back;
use crate::text::bracketed;
use crate::text::debug_of_str;
use crate::text::dec_signed;
use crate::text::decimal_signed;
use crate::text::decimals;
use crate::text::list_of_bytes;
use crate::text::str_debug;
use vstd::prelude::*;

verus! {

/// The index of a call within its thread.
#[derive(PartialEq, Eq, Structural, Debug, Clone, Copy)]
pub struct CallIndexT(pub u32);

/// The index of an argument packet.
#[derive(PartialEq, Eq, Structural, Debug, Clone, Copy)]
pub struct PacketIndexT(pub u64);

/// The logical ID of a thread.
#[derive(PartialEq, Eq, Structural, Debug, Clone, Copy)]
pub struct ThreadLidT(pub u64);

/// How a test has ended.
#[derive(Debug)]
pub enum TestStatus {
    Pass,
    Exception,
    Timeout,
    GlobalTimeout,
    Exit(i32),
    Signal(i32),
    /// an unexpected test failure outside the sandboxing and monitoring of the test coordinator
    /// - could be a test coordinator crash or a test job crash
    Fatal(String),
    /// possibly spurious error cause (might be masked by a success that came from the coordinator)
    Spurious(String),
}

/// The contents of a [`TestStatus`].
#[verifier::ext_equal]
pub enum StatusModel {
    Pass,
    Exception,
    Timeout,
    GlobalTimeout,
    Exit(i32),
    Signal(i32),
    Fatal(Seq<char>),
    Spurious(Seq<char>),
}

impl View for TestStatus {
    type V = StatusModel;

    open spec fn view(&self) -> StatusModel {
        match *self {
            TestStatus::Pass => StatusModel::Pass,
            TestStatus::Exception => StatusModel::Exception,
            TestStatus::Timeout => StatusModel::Timeout,
            TestStatus::GlobalTimeout => StatusModel::GlobalTimeout,
            TestStatus::Exit(code) => StatusModel::Exit(code),
            TestStatus::Signal(number) => StatusModel::Signal(number),
            TestStatus::Fatal(m) => StatusModel::Fatal(m@),
            TestStatus::Spurious(m) => StatusModel::Spurious(m@),
        }
    }
}

impl Clone for TestStatus {
    fn clone(&self) -> (r: Self)
        ensures
            r@ == self@,
    {
        match self {
            TestStatus::Pass => TestStatus::Pass,
            TestStatus::Exception => TestStatus::Exception,
            TestStatus::Timeout => TestStatus::Timeout,
            TestStatus::GlobalTimeout => TestStatus::GlobalTimeout,
            TestStatus::Exit(code) => TestStatus::Exit(*code),
            TestStatus::Signal(number) => TestStatus::Signal(*number),
            TestStatus::Fatal(m) => TestStatus::Fatal(m.clone()),
            TestStatus::Spurious(m) => TestStatus::Spurious(m.clone()),
        }
    }
}

/// A status as it is written to logs.
pub open spec fn status_text(status: StatusModel) -> Seq<char> {
    match status {
        StatusModel::Pass => "Pass"@,
        StatusModel::Exception => "Exception"@,
        StatusModel::Timeout => "Timeout"@,
        StatusModel::GlobalTimeout => "GlobalTimeout"@,
        StatusModel::Exit(code) => "Exit("@ + dec_signed(code as int) + ")"@,
        StatusModel::Signal(number) => "Signal("@ + dec_signed(number as int) + ")"@,
        StatusModel::Fatal(m) => "Fatal("@ + str_debug(m) + ")"@,
        StatusModel::Spurious(m) => "Spurious("@ + str_debug(m) + ")"@,
    }
}

/// What is written of a status tells it apart from every other one: where two of them read the
/// same, they are the same. Of a message, that is a matter of how texts are quoted.
pub proof fn law_statuses_read_differently(a: StatusModel, b: StatusModel)
    requires
        status_text(a) == status_text(b),
    ensures
        match (a, b) {
            (StatusModel::Fatal(x), StatusModel::Fatal(y)) => str_debug(x) == str_debug(y),
            (StatusModel::Spurious(x), StatusModel::Spurious(y)) => str_debug(x) == str_debug(y),
            _ => a == b,
        },
{
    reveal_strlit("Pass");
    reveal_strlit("Exception");
    reveal_strlit("Timeout");
    reveal_strlit("GlobalTimeout");
    reveal_strlit("Exit(");
    reveal_strlit("Signal(");
    reveal_strlit("Fatal(");
    reveal_strlit("Spurious(");
    reveal_strlit(")");
    let (x, y) = (status_text(a), status_text(b));
    assert(x[0] == y[0] && x[1] == y[1] && x[2] == y[2]);
    match (a, b) {
        (StatusModel::Exit(m), StatusModel::Exit(n)) => {
            let (s, t) = (dec_signed(m as int), dec_signed(n as int));
            assert(s =~= x.subrange(5, x.len() - 1));
            assert(t =~= y.subrange(5, y.len() - 1));
            law_decimal_numbers_are_read_back(m);
            law_decimal_numbers_are_read_back(n);
        },
        (StatusModel::Signal(m), StatusModel::Signal(n)) => {
            let (s, t) = (dec_signed(m as int), dec_signed(n as int));
            assert(s =~= x.subrange(7, x.len() - 1));
            assert(t =~= y.subrange(7, y.len() - 1));
            law_decimal_numbers_are_read_back(m);
            law_decimal_numbers_are_read_back(n);
        },
        (StatusModel::Fatal(m), StatusModel::Fatal(n)) => {
            assert(str_debug(m) =~= x.subrange(6, x.len() - 1));
            assert(str_debug(n) =~= y.subrange(6, y.len() - 1));
        },
        (StatusModel::Spurious(m), StatusModel::Spurious(n)) => {
            assert(str_debug(m) =~= x.subrange(9, x.len() - 1));
            assert(str_debug(n) =~= y.subrange(9, y.len() - 1));
        },
        _ => {},
    }
}

/// How a process has ended.
#[derive(Debug)]
pub struct ProcessExit {
    /// the signal that ended the process, if there was one
    pub signal: Option<i32>,
    /// the exit code, if the process exited
    pub code: Option<i32>,
    /// how the operating system's report of the end reads
    pub description: String,
}

/// The status that the end of a process stands for.
pub open spec fn status_of_exit(exit: ProcessExit) -> StatusModel {
    match (exit.signal, exit.code) {
        (Some(number), _) => StatusModel::Signal(number),
        (None, Some(code)) => StatusModel::Exit(code),
        (None, None) => StatusModel::Spurious("Exit status: "@ + exit.description@),
    }
}

/// The size of a status within a message.
pub const CLI_STATUS_SZ: usize = 6;

/// The status that the bytes stand for, if they stand for one.
pub open spec fn parsed_status(value: Seq<u8>) -> Option<StatusModel> {
    let tag = le_value(value.subrange(0, 2));
    let number = as_signed_32(le_value(value.subrange(2, 6))) as i32;
    if tag == TAG_PASS {
        Some(StatusModel::Pass)
    } else if tag == TAG_EXC {
        Some(StatusModel::Exception)
    } else if tag == TAG_TIMEOUT {
        Some(StatusModel::Timeout)
    } else if tag == TAG_EXIT {
        Some(StatusModel::Exit(number))
    } else if tag == TAG_SGNL {
        Some(StatusModel::Signal(number))
    } else if tag == TAG_FATAL {
        Some(StatusModel::Fatal("test coordinator"@))
    } else {
        None
    }
}

/// What is said of bytes that stand for no status.
pub open spec fn invalid_status(value: Seq<u8>) -> Seq<char> {
    "Invalid status format: "@ + bracketed(decimals(value)) + " "@ + bracketed(
        decimals(value.subrange(0, 2)),
    ) + " "@ + bracketed(decimals(value.subrange(2, 6)))
}

/// Whether the first two bytes spell `tag`.
fn has_tag(value: &[u8], tag: u16) -> (b: bool)
    requires
        value@.len() >= 2,
    ensures
        b == (le_value(value@.subrange(0, 2)) == tag),
{
    proof {
        reveal_with_fuel(le_value, 3);
        let head = value@.subrange(0, 2);
        assert(head.subrange(1, 2).subrange(1, 1) =~= Seq::<u8>::empty());
        assert(head.subrange(1, 2)[0] == value@[1]);
    }
    value[0] as u16 + 256 * (value[1] as u16) == tag
}

impl TestStatus {
    /// The status that the end of a process stands for.
    pub fn from_exit(exit: ProcessExit) -> (r: Self)
        ensures
            r@ == status_of_exit(exit),
    {
        if let Some(number) = exit.signal {
            return TestStatus::Signal(number);
        }
        if let Some(code) = exit.code {
            return TestStatus::Exit(code);
        }
        TestStatus::Spurious("Exit status: ".to_owned().concat(exit.description.as_str()))
    }

    /// The status as it is written to logs.
    pub fn text(&self) -> (r: String)
        ensures
            r@ == status_text(self@),
    {
        match self {
            TestStatus::Pass => "Pass".to_owned(),
            TestStatus::Exception => "Exception".to_owned(),
            TestStatus::Timeout => "Timeout".to_owned(),
            TestStatus::GlobalTimeout => "GlobalTimeout".to_owned(),
            TestStatus::Exit(code) => "Exit(".to_owned().concat(
                decimal_signed(*code).as_str(),
            ).concat(")"),
            TestStatus::Signal(number) => "Signal(".to_owned().concat(
                decimal_signed(*number).as_str(),
            ).concat(")"),
            TestStatus::Fatal(m) => "Fatal(".to_owned().concat(
                debug_of_str(m.as_str()).as_str(),
            ).concat(")"),
            TestStatus::Spurious(m) => "Spurious(".to_owned().concat(
                debug_of_str(m.as_str()).as_str(),
            ).concat(")"),
        }
    }
}

/// The signed number with these little-endian bytes.
fn signed_at(bytes: &[u8], start: usize) -> (r: i32)
    requires
        start + 4 <= bytes@.len(),
    ensures
        r == as_signed_32(le_value(bytes@.subrange(start as int, start + 4))),
{
    let array = [bytes[start], bytes[start + 1], bytes[start + 2], bytes[start + 3]];
    assert(array@ =~= bytes@.subrange(start as int, start + 4));
    let value = crate::bytes::u32_from_le(&array);
    assert(value as i32 == if value < 0x8000_0000 {
        value as int
    } else {
        value - 0x1_0000_0000
    }) by (bit_vector);
    value as i32
}

impl TryFrom<&[u8; CLI_STATUS_SZ]> for TestStatus {
    type Error = String;

    /// format of [`TestStatus`] messages:
    ///
    /// `| TAG: 2B | payload: 0-4B |`
    ///
    /// payload is either empty for [`Timeout`][`TestStatus::Timeout`], [`Exception`][`TestStatus::Exception`], [`Pass`][`TestStatus::Pass`] and [`Fatal`][`TestStatus::Fatal`] variants
    /// or and 4B of [`i32`] representing either the test's
    /// [`Signal`][`TestStatus::Signal`] or [`Exit`][`TestStatus::Exit`] code
    fn try_from(value: &[u8; CLI_STATUS_SZ]) -> (r: Result<Self, String>)
        ensures
            match r {
                Ok(status) => parsed_status(value@) == Some(status@),
                Err(e) => parsed_status(value@) is None && e@ == invalid_status(value@),
            },
    {
        if has_tag(value, TAG_PASS) {
            Ok(TestStatus::Pass)
        } else if has_tag(value, TAG_EXC) {
            Ok(TestStatus::Exception)
        } else if has_tag(value, TAG_TIMEOUT) {
            Ok(TestStatus::Timeout)
        } else if has_tag(value, TAG_EXIT) {
            Ok(TestStatus::Exit(signed_at(value, 2)))
        } else if has_tag(value, TAG_SGNL) {
            Ok(TestStatus::Signal(signed_at(value, 2)))
        } else if has_tag(value, TAG_FATAL) {
            Ok(TestStatus::Fatal("test coordinator".to_owned()))
        } else {
            let (tag, data) = value.as_slice().split_at(2);
            Err(
                "Invalid status format: ".to_owned().concat(
                    list_of_bytes(value).as_str(),
                ).concat(" ").concat(list_of_bytes(tag).as_str()).concat(" ").concat(
                    list_of_bytes(data).as_str(),
                ),
            )
        }
    }
}

impl vstd::std_specs::convert::TryFromSpecImpl<&[u8; CLI_STATUS_SZ]> for TestStatus {
    open spec fn obeys_try_from_spec() -> bool {
        false
    }

    open spec fn try_from_spec(value: &[u8; CLI_STATUS_SZ]) -> Result<Self, String> {
        arbitrary()
    }
}

/// The number at `start` in little-endian bytes.
pub open spec fn u32_at(bytes: Seq<u8>, start: int) -> u32 {
    le_value(bytes.subrange(start, start + 4)) as u32
}

/// The long number at `start` in little-endian bytes.
pub open spec fn u64_at(bytes: Seq<u8>, start: int) -> u64 {
    le_value(bytes.subrange(start, start + 8)) as u64
}

/// A number that stands somewhere among bytes is read from there, whatever stands around it.
pub proof fn law_numbers_are_read_where_they_stand(
    before: Seq<u8>,
    short: u32,
    long: u64,
    after: Seq<u8>,
)
    ensures
        u32_at(before + le_bytes(short as nat, 4) + after, before.len() as int) == short,
        u64_at(before + le_bytes(long as nat, 8) + after, before.len() as int) == long,
{
    lemma_byte_ranges();
    lemma_le_bytes_len(short as nat, 4);
    lemma_le_bytes_len(long as nat, 8);
    law_le_read_after_write(short as nat, 4);
    law_le_read_after_write(long as nat, 8);
    let n = before.len() as int;
    assert((before + le_bytes(short as nat, 4) + after).subrange(n, n + 4) =~= le_bytes(
        short as nat,
        4,
    ));
    assert((before + le_bytes(long as nat, 8) + after).subrange(n, n + 8) =~= le_bytes(
        long as nat,
        8,
    ));
}

/// extracts the first 4 bytes into a u32 from a starting offset
pub fn consume_to_u32(bytes: &[u8], start: usize) -> (r: Result<u32, String>)
    requires
        start + 3 <= usize::MAX,
    ensures
        r is Ok <==> start + 4 <= bytes@.len(),
        r matches Ok(value) ==> value == u32_at(bytes@, start as int),
        r matches Err(e) ==> e@ == "Invalid data"@,
{
    if start + 3 < bytes.len() {
        let array = [bytes[start], bytes[start + 1], bytes[start + 2], bytes[start + 3]];
        assert(array@ =~= bytes@.subrange(start as int, start + 4));
        Ok(crate::bytes::u32_from_le(&array))
    } else {
        Err("Invalid data".to_owned())
    }
}

/// The long number at `start`.
fn long_at(bytes: &[u8], start: usize) -> (r: u64)
    requires
        start + 8 <= bytes@.len(),
    ensures
        r == u64_at(bytes@, start as int),
{
    let array = [
        bytes[start],
        bytes[start + 1],
        bytes[start + 2],
        bytes[start + 3],
        bytes[start + 4],
        bytes[start + 5],
        bytes[start + 6],
        bytes[start + 7],
    ];
    assert(array@ =~= bytes@.subrange(start as int, start + 8));
    crate::bytes::u64_from_le(&array)
}

/// The size of a message.
pub const MSG_SIZE: usize = CLI_MSG_SIZE as usize;

/// message received from the test client (test coordinator)
#[derive(Debug)]
pub enum TestMessage {
    /// test started
    Start(NumFunUid, CallIndexT),
    /// test requested argument packet (payload is the packet index)
    PacketRequest(PacketIndexT),
    /// test (testing a packet index) ended with a status
    TestEnd(PacketIndexT, ThreadLidT, TestStatus),
    /// entire test session ended
    End,
}

/// The contents of a [`TestMessage`].
#[verifier::ext_equal]
pub enum MessageModel {
    Start(NumFunUid, CallIndexT),
    PacketRequest(PacketIndexT),
    TestEnd(PacketIndexT, ThreadLidT, StatusModel),
    End,
}

impl View for TestMessage {
    type V = MessageModel;

    open spec fn view(&self) -> MessageModel {
        match *self {
            TestMessage::Start(uid, call) => MessageModel::Start(uid, call),
            TestMessage::PacketRequest(index) => MessageModel::PacketRequest(index),
            TestMessage::TestEnd(index, thread, status) => MessageModel::TestEnd(
                index,
                thread,
                status@,
            ),
            TestMessage::End => MessageModel::End,
        }
    }
}

/// The message that the bytes stand for, or what is said of them if they stand for none.
pub open spec fn parsed_message(value: Seq<u8>) -> Result<MessageModel, Seq<char>> {
    let tag = le_value(value.subrange(0, 2));
    if tag == TAG_START {
        Ok(
            MessageModel::Start(
                NumFunUid {
                    function_id: IntegralFnId(u32_at(value, 6)),
                    module_id: IntegralModId(u32_at(value, 2)),
                },
                CallIndexT(u32_at(value, 10)),
            ),
        )
    } else if tag == TAG_PKT {
        Ok(MessageModel::PacketRequest(PacketIndexT(u64_at(value, 2))))
    } else if tag == TAG_TEST_END {
        match parsed_status(value.subrange(18, 24)) {
            Some(status) => Ok(
                MessageModel::TestEnd(
                    PacketIndexT(u64_at(value, 2)),
                    ThreadLidT(u64_at(value, 10)),
                    status,
                ),
            ),
            None => Err(invalid_status(value.subrange(18, 24))),
        }
    } else if tag == TAG_TEST_FINISH {
        Ok(MessageModel::End)
    } else {
        Err("Invalid msg format: "@ + bracketed(decimals(value)))
    }
}

impl TryFrom<&[u8; MSG_SIZE]> for TestMessage {
    type Error = String;

    /// format of test messages
    ///
    /// `| TAG: 2B | payload: 0-22B |`
    ///
    /// payload is empty for ([`End`][`TestMessage::End`])
    /// or consists of 3x4B (module ID, function ID, call index) for ([`Start`][`TestMessage::Start`])
    /// or ([`PacketRequest`][`TestMessage::PacketRequest`]) 8B of the packet index
    /// or ([`TestEnd`][`TestMessage::TestEnd`]) 8B of the packet index + 8B of the thread ID + 6B representing a [`TestStatus`]
    fn try_from(value: &[u8; MSG_SIZE]) -> (r: Result<Self, String>)
        ensures
            match r {
                Ok(message) => parsed_message(value@) == Ok::<MessageModel, Seq<char>>(message@),
                Err(e) => parsed_message(value@) == Err::<MessageModel, Seq<char>>(e@),
            },
    {
        if has_tag(value, TAG_START) {
            let module = consume_to_u32(value, 2)?;
            let function = consume_to_u32(value, 6)?;
            let call = consume_to_u32(value, 10)?;
            Ok(
                TestMessage::Start(
                    NumFunUid::from((IntegralModId(module), IntegralFnId(function))),
                    CallIndexT(call),
                ),
            )
        } else if has_tag(value, TAG_PKT) {
            Ok(TestMessage::PacketRequest(PacketIndexT(long_at(value, 2))))
        } else if has_tag(value, TAG_TEST_END) {
            let packet_index = PacketIndexT(long_at(value, 2));
            let thread_lid = ThreadLidT(long_at(value, 10));
            let status_bytes = [
                value[18],
                value[19],
                value[20],
                value[21],
                value[22],
                value[23],
            ];
            assert(status_bytes@ =~= value@.subrange(18, 24));
            match TestStatus::try_from(&status_bytes) {
                Ok(status) => Ok(TestMessage::TestEnd(packet_index, thread_lid, status)),
                Err(e) => Err(e),
            }
        } else if has_tag(value, TAG_TEST_FINISH) {
            Ok(TestMessage::End)
        } else {
            Err("Invalid msg format: ".to_owned().concat(list_of_bytes(value).as_str()))
        }
    }
}

impl vstd::std_specs::convert::TryFromSpecImpl<&[u8; MSG_SIZE]> for TestMessage {
    open spec fn obeys_try_from_spec() -> bool {
        false
    }

    open spec fn try_from_spec(value: &[u8; MSG_SIZE]) -> Result<Self, String> {
        arbitrary()
    }
}

/// the state of a test session (single test case with concrete packet index), updates of this state are communicated by the test coordinator
#[derive(Debug, Clone, Copy, PartialEq, Eq, Structural)]
pub enum ClientState {
    /// test session is starting, no message other than "start" is expected
    Init,
    /// test session started, testing a particular function at a particular call index
    /// expects packet requests
    Started(NumFunUid, CallIndexT),
    /// test session has ended, no more messages are expected
    Ended,
}

/// The result of a test.
#[derive(Debug)]
pub struct LogResult {
    pub call: CallIndexT,
    pub uid: NumFunUid,
    pub pkt: PacketIndexT,
    pub thread_lid: ThreadLidT,
    pub status: TestStatus,
}

/// The contents of a [`LogResult`].
#[verifier::ext_equal]
pub struct ResultModel {
    pub call: CallIndexT,
    pub uid: NumFunUid,
    pub pkt: PacketIndexT,
    pub thread_lid: ThreadLidT,
    pub status: StatusModel,
}

impl View for LogResult {
    type V = ResultModel;

    open spec fn view(&self) -> ResultModel {
        ResultModel {
            call: self.call,
            uid: self.uid,
            pkt: self.pkt,
            thread_lid: self.thread_lid,
            status: self.status@,
        }
    }
}

impl Clone for LogResult {
    fn clone(&self) -> (r: Self)
        ensures
            r@ == self@,
    {
        LogResult {
            call: self.call,
            uid: self.uid,
            pkt: self.pkt,
            thread_lid: self.thread_lid,
            status: self.status.clone(),
        }
    }
}

/// The contents of a result leave nothing out: where they are the same, the results are of the same
/// function, call, packet and thread, and ended in the same way.
pub proof fn law_contents_of_results_are_complete(a: LogResult, b: LogResult)
    ensures
        a@.uid == a.uid && a@.call == a.call && a@.pkt == a.pkt && a@.thread_lid == a.thread_lid,
        a@ == b@ ==> match (a.status, b.status) {
            (TestStatus::Fatal(x), TestStatus::Fatal(y)) => x@ == y@,
            (TestStatus::Spurious(x), TestStatus::Spurious(y)) => x@ == y@,
            _ => a.status == b.status,
        },
        a.status is Pass <==> a@.status is Pass,
        a.status is Exception <==> a@.status is Exception,
        a.status is Timeout <==> a@.status is Timeout,
        a.status is GlobalTimeout <==> a@.status is GlobalTimeout,
        a.status is Exit <==> a@.status is Exit,
        a.status is Signal <==> a@.status is Signal,
        a.status is Fatal <==> a@.status is Fatal,
{
}

/// The contents of a message leave nothing out.
pub proof fn law_contents_of_messages_are_complete(a: TestMessage)
    ensures
        match a {
            TestMessage::Start(uid, call) => a@ == MessageModel::Start(uid, call),
            TestMessage::PacketRequest(index) => a@ == MessageModel::PacketRequest(index),
            TestMessage::TestEnd(index, thread, status) => a@ == MessageModel::TestEnd(
                index,
                thread,
                status@,
            ),
            TestMessage::End => a@ is End,
        },
{
}

/// What is to be done after a message of a client.
#[derive(Debug)]
pub enum ClientAction {
    /// nothing
    Nothing,
    /// add the result of a test to the results
    Record(LogResult),
    /// send the packet of the function with this index, if there is one
    SupplyPacket(NumFunUid, usize),
}

/// The contents of a [`ClientAction`].
#[verifier::ext_equal]
pub enum ActionModel {
    Nothing,
    Record(ResultModel),
    SupplyPacket(NumFunUid, nat),
}

impl View for ClientAction {
    type V = ActionModel;

    open spec fn view(&self) -> ActionModel {
        match *self {
            ClientAction::Nothing => ActionModel::Nothing,
            ClientAction::Record(result) => ActionModel::Record(result@),
            ClientAction::SupplyPacket(uid, index) => ActionModel::SupplyPacket(
                uid,
                index as nat,
            ),
        }
    }
}

/// The contents of an action leave nothing out.
pub proof fn law_contents_of_actions_are_complete(a: ClientAction)
    ensures
        match a {
            ClientAction::Nothing => a@ is Nothing,
            ClientAction::Record(result) => a@ == ActionModel::Record(result@),
            ClientAction::SupplyPacket(uid, index) => a@ is SupplyPacket && a@->SupplyPacket_0 == uid
                && a@->SupplyPacket_1 == index,
        },
{
}

/// Why a message is refused.
#[derive(Debug)]
pub enum ClientError {
    /// the message cannot come in this state
    InvalidTransition(ClientState, TestMessage),
    /// the index of the requested packet is larger than any index can be
    IndexTooLarge(u64),
}

/// What comes of a message in a state: the next state and what is to be done. None if the
/// message cannot come in that state.
pub open spec fn client_step(state: ClientState, msg: MessageModel) -> Option<
    (ClientState, ActionModel),
> {
    match (state, msg) {
        (ClientState::Init, MessageModel::Start(uid, call)) => Some(
            (ClientState::Started(uid, call), ActionModel::Nothing),
        ),
        (ClientState::Init, MessageModel::End) => Some((ClientState::Ended, ActionModel::Nothing)),
        (ClientState::Started(uid, call), MessageModel::TestEnd(pkt, thread_lid, status)) => Some(
            (
                state,
                ActionModel::Record(ResultModel { call, uid, pkt, thread_lid, status }),
            ),
        ),
        (ClientState::Started(uid, call), MessageModel::PacketRequest(index)) => Some(
            (state, ActionModel::SupplyPacket(uid, index.0 as nat)),
        ),
        (ClientState::Started(uid, call), MessageModel::End) => Some(
            (ClientState::Ended, ActionModel::Nothing),
        ),
        _ => None,
    }
}

/// Ok variant contains a new client state and what is to be done
///
/// implements a simple state machine (states via [`ClientState`], messages via [`TestMessage`]):
///
/// ```text
///                                     v----EndTest/PacketRequest----+
/// | Init | ----- Start/End ----> | Started | -----------------------+----End----> | Ended |
///
/// ```
/// all other transitions are considered an error
pub fn handle_client_msg(state: ClientState, msg: TestMessage) -> (r: Result<
    (ClientState, ClientAction),
    ClientError,
>)
    ensures
        match client_step(state, msg@) {
            None => r == Err::<(ClientState, ClientAction), ClientError>(
                ClientError::InvalidTransition(state, msg),
            ),
            Some((next, ActionModel::SupplyPacket(uid, index))) => if index > usize::MAX {
                r == Err::<(ClientState, ClientAction), ClientError>(
                    ClientError::IndexTooLarge(index as u64),
                )
            } else {
                r is Ok && r->Ok_0.0 == next && r->Ok_0.1@ == ActionModel::SupplyPacket(uid, index)
            },
            Some((next, action)) => r is Ok && r->Ok_0.0 == next && r->Ok_0.1@ == action,
        },
{
    match state {
        ClientState::Init => match msg {
            TestMessage::Start(id, i) => Ok((ClientState::Started(id, i), ClientAction::Nothing)),
            TestMessage::End => Ok((ClientState::Ended, ClientAction::Nothing)),
            _ => Err(ClientError::InvalidTransition(state, msg)),
        },
        ClientState::Started(id, call_idx) => match msg {
            TestMessage::TestEnd(test_index, thread_lid, status) => Ok(
                (
                    state,
                    ClientAction::Record(
                        LogResult {
                            uid: id,
                            call: call_idx,
                            pkt: test_index,
                            status,
                            thread_lid,
                        },
                    ),
                ),
            ),
            TestMessage::PacketRequest(idx) => if idx.0 > usize::MAX as u64 {
                Err(ClientError::IndexTooLarge(idx.0))
            } else {
                Ok((state, ClientAction::SupplyPacket(id, idx.0 as usize)))
            },
            TestMessage::End => Ok((ClientState::Ended, ClientAction::Nothing)),
            TestMessage::Start(..) => Err(ClientError::InvalidTransition(state, msg)),
        },
        ClientState::Ended => Err(ClientError::InvalidTransition(state, msg)),
    }
}

} // verus!
