//! What is sent as argument packets is what is captured.

use crate::bytes::law_le_read_after_write;
use crate::bytes::law_le_write_after_read;
use crate::bytes::le_bytes;
use crate::bytes::le_value;
use crate::bytes::lemma_byte_ranges;
use crate::bytes::lemma_le_bytes_len;
use crate::bytes::lemma_le_value_bound;
use crate::error::Error;
use crate::modmap::ExtModuleMap;
use crate::modmap::IntegralModId;
use crate::modmap::NumFunUid;
use crate::shmem_capture::arg_capture::buffer_taken;
use crate::shmem_capture::arg_capture::capture_run;
use crate::shmem_capture::arg_capture::handed_out;
use crate::shmem_capture::arg_capture::lemma_progress_shrinks;
use crate::shmem_capture::arg_capture::lemma_read_args_shrinks;
use crate::shmem_capture::arg_capture::may_complete;
use crate::shmem_capture::arg_capture::no_threads;
use crate::shmem_capture::arg_capture::past;
use crate::shmem_capture::arg_capture::progress_model;
use crate::shmem_capture::arg_capture::read_args;
use crate::shmem_capture::arg_capture::register_packets;
use crate::shmem_capture::arg_capture::update_outcome;
use crate::shmem_capture::arg_capture::ArgCaptureRun;
use crate::shmem_capture::arg_capture::CaptureModel;
use crate::shmem_capture::arg_capture::CaptureOutcome;
use crate::shmem_capture::arg_capture::CapturePoint;
use crate::shmem_capture::arg_capture::PacketModel;
use crate::shmem_capture::arg_capture::ThreadModel;
use crate::shmem_capture::buffers::law_written_message_is_taken_out;
use crate::shmem_capture::buffers::payload_of;
use crate::shmem_capture::capture_loop::loop_start;
use crate::shmem_capture::capture_loop::loop_step;
use crate::shmem_capture::capture_loop::LoopDecision;
use crate::shmem_capture::capture_loop::LoopModel;
use crate::sizetype_handlers::frame;
use crate::sizetype_handlers::joined;
use crate::sizetype_handlers::law_read_loses_nothing;
use crate::sizetype_handlers::read_model;
use crate::sizetype_handlers::taken_in;
use crate::sizetype_handlers::ProgressModel;
use crate::sizetype_handlers::ReaderModel;
use vstd::prelude::*;

verus! {

/// The state and the outcome of a capture from several buffers, one after the other.
pub open spec fn stream_run(mods: ExtModuleMap, buffers: Seq<Seq<u8>>) -> CaptureOutcome
    decreases buffers.len(),
{
    if buffers.len() == 0 {
        CaptureOutcome {
            packets: Seq::empty(),
            result: Ok(CaptureModel::Empty),
            reader: ReaderModel::Start,
        }
    } else {
        let before = stream_run(mods, buffers.drop_last());
        match before.result {
            Err(e) => before,
            Ok(state) => {
                let outcome = update_outcome(
                    mods,
                    CapturePoint { state, rest: buffers.last(), reader: before.reader },
                );
                CaptureOutcome { packets: before.packets + outcome.packets, ..outcome }
            },
        }
    }
}

proof fn lemma_read_resumes(a: Seq<u8>, b: Seq<u8>)
    requires
        a.len() > 0,
        b.len() > 0,
        read_model(ReaderModel::Start, a).1 is NotYet,
    ensures
        ({
            let whole = read_model(ReaderModel::Start, a + b);
            let resumed = read_model(read_model(ReaderModel::Start, a).0, b);
            &&& whole.0 == resumed.0
            &&& match resumed.1 {
                ProgressModel::Done { payload, consumed } => whole.1 == ProgressModel::Done {
                    payload,
                    consumed: a.len() + consumed,
                } && consumed <= b.len(),
                ProgressModel::NotYet => whole.1 is NotYet,
                ProgressModel::Nop => false,
            }
        }),
{
    let c = a + b;
    if a.len() < 8 {
        let missing = 8 - a.len();
        if c.len() >= 8 {
            assert(c.subrange(0, 8) =~= a + b.subrange(0, missing));
            assert(c.subrange(8, c.len() as int) =~= b.subrange(missing, b.len() as int));
            lemma_le_value_bound(c.subrange(0, 8));
        }
    } else {
        assert(c.subrange(0, 8) =~= a.subrange(0, 8));
        let size = le_value(a.subrange(0, 8));
        let got = a.subrange(8, a.len() as int);
        let rest = c.subrange(8, c.len() as int);
        assert(rest =~= got + b);
        assert(Seq::<u8>::empty() + got =~= got);
        if a.len() == 8 {
            assert(got =~= Seq::<u8>::empty());
        }
        if size <= rest.len() {
            assert(Seq::<u8>::empty() + rest.subrange(0, size as int) =~= got + b.subrange(
                0,
                size - got.len(),
            ));
        } else {
            assert(Seq::<u8>::empty() + rest =~= got + b);
        }
    }
}

proof fn lemma_read_ignores_what_follows(a: Seq<u8>, b: Seq<u8>)
    requires
        read_model(ReaderModel::Start, a).1 is Done,
    ensures
        read_model(ReaderModel::Start, a + b) == read_model(ReaderModel::Start, a),
        read_model(ReaderModel::Start, a).1->consumed <= a.len(),
{
    let c = a + b;
    assert(c.subrange(0, 8) =~= a.subrange(0, 8));
    let size = le_value(a.subrange(0, 8));
    let got = a.subrange(8, a.len() as int);
    let rest = c.subrange(8, c.len() as int);
    assert(rest.subrange(0, size as int) =~= got.subrange(0, size as int));
}

proof fn lemma_args_resume(
    count: nat,
    id: NumFunUid,
    thread_id: u64,
    arg_idx: nat,
    buff: Seq<u8>,
    a: Seq<u8>,
    b: Seq<u8>,
)
    requires
        b.len() > 0,
        read_args(count, id, thread_id, arg_idx, buff, a, ReaderModel::Start) is Ok,
    ensures
        ({
            let first = read_args(
                count,
                id,
                thread_id,
                arg_idx,
                buff,
                a,
                ReaderModel::Start,
            )->Ok_0;
            let whole = read_args(count, id, thread_id, arg_idx, buff, a + b, ReaderModel::Start);
            match first.state {
                CaptureModel::Done { id: i, thread_id: t, buff: bytes } => first.reader
                    == ReaderModel::Start && whole == Ok::<CapturePoint, Error>(
                    CapturePoint { rest: first.rest + b, ..first },
                ),
                CaptureModel::CapturingArgs { id: i, thread_id: t, arg_idx: n, buff: bytes } => i
                    == id && t == thread_id && first.rest.len() == 0 && whole == read_args(
                    count,
                    id,
                    thread_id,
                    n,
                    bytes,
                    b,
                    first.reader,
                ),
                _ => false,
            }
        }),
    decreases count - arg_idx,
{
    if arg_idx < count && a.len() == 0 {
        assert(a + b =~= b);
    } else if arg_idx < count {
        let (next, progress) = read_model(ReaderModel::Start, a);
        match progress {
            ProgressModel::Done { payload, consumed } => {
                lemma_read_ignores_what_follows(a, b);
                assert(past(a + b, consumed) =~= past(a, consumed) + b);
                lemma_args_resume(
                    count,
                    id,
                    thread_id,
                    arg_idx + 1,
                    buff + payload,
                    past(a, consumed),
                    b,
                );
            },
            ProgressModel::NotYet => {
                lemma_read_resumes(a, b);
                if let ProgressModel::Done { payload, consumed } = read_model(next, b).1 {
                    assert(past(a + b, a.len() + consumed) =~= past(b, consumed));
                }
            },
            ProgressModel::Nop => {},
        }
    }
}

proof fn lemma_read_args_succeeds(
    count: nat,
    id: NumFunUid,
    thread_id: u64,
    arg_idx: nat,
    buff: Seq<u8>,
    rest: Seq<u8>,
    reader: ReaderModel,
)
    requires
        reader !is Finished,
    ensures
        read_args(count, id, thread_id, arg_idx, buff, rest, reader) is Ok,
    decreases count - arg_idx,
{
    if arg_idx < count && rest.len() > 0 {
        if let ProgressModel::Done { payload, consumed } = read_model(reader, rest).1 {
            lemma_read_args_succeeds(
                count,
                id,
                thread_id,
                arg_idx + 1,
                buff + payload,
                past(rest, consumed),
                ReaderModel::Start,
            );
        }
    }
}

proof fn lemma_done_leaves_start(
    count: nat,
    id: NumFunUid,
    thread_id: u64,
    arg_idx: nat,
    buff: Seq<u8>,
    a: Seq<u8>,
)
    ensures
        read_args(count, id, thread_id, arg_idx, buff, a, ReaderModel::Start) matches Ok(next)
            ==> next.state is Done ==> next.reader == ReaderModel::Start && next.state->Done_id
            == id && next.state->Done_thread_id == thread_id,
    decreases count - arg_idx,
{
    if arg_idx < count && a.len() > 0 {
        if let ProgressModel::Done { payload, consumed } = read_model(ReaderModel::Start, a).1 {
            lemma_done_leaves_start(
                count,
                id,
                thread_id,
                arg_idx + 1,
                buff + payload,
                past(a, consumed),
            );
        }
    }
}

proof fn lemma_run_resumes(mods: ExtModuleMap, state: CaptureModel, a: Seq<u8>, b: Seq<u8>)
    requires
        b.len() > 0,
        ({
            let first = capture_run(
                mods,
                CapturePoint { state, rest: a, reader: ReaderModel::Start },
            );
            first.result is Ok
        }),
    ensures
        ({
            let first = capture_run(
                mods,
                CapturePoint { state, rest: a, reader: ReaderModel::Start },
            );
            let second = capture_run(
                mods,
                CapturePoint { state: first.result->Ok_0, rest: b, reader: first.reader },
            );
            capture_run(mods, CapturePoint { state, rest: a + b, reader: ReaderModel::Start })
                == (CaptureOutcome { packets: first.packets + second.packets, ..second })
        }),
    decreases a.len(), may_complete(state) as int,
{
    let at = CapturePoint { state, rest: a, reader: ReaderModel::Start };
    let whole = CapturePoint { state, rest: a + b, reader: ReaderModel::Start };
    let first = capture_run(mods, at);
    let second = capture_run(
        mods,
        CapturePoint { state: first.result->Ok_0, rest: b, reader: first.reader },
    );
    assert(Seq::<PacketModel>::empty() + second.packets =~= second.packets);
    if a.len() == 0 {
        assert(a + b =~= b);
    } else {
        lemma_progress_shrinks(mods, at);
        let next = progress_model(mods, at)->Ok_0;
        match state {
            CaptureModel::CapturingArgs { id, thread_id, arg_idx, buff } => {
                let count = mods.function(id).args.len();
                lemma_read_args_shrinks(
                    count,
                    id,
                    thread_id,
                    arg_idx,
                    buff,
                    a,
                    ReaderModel::Start,
                );
                if next.state is CapturingArgs {
                    assert(capture_run(mods, next) == (CaptureOutcome {
                        packets: Seq::empty(),
                        result: Ok(next.state),
                        reader: next.reader,
                    }));
                    lemma_args_resume(count, id, thread_id, arg_idx, buff, a, b);
                    lemma_read_args_succeeds(
                        count,
                        id,
                        thread_id,
                        arg_idx,
                        buff,
                        a + b,
                        ReaderModel::Start,
                    );
                    assert(first.packets =~= Seq::<PacketModel>::empty());
                } else {
                    lemma_done_leaves_start(count, id, thread_id, arg_idx, buff, a);
                    lemma_args_resume(count, id, thread_id, arg_idx, buff, a, b);
                    lemma_run_resumes(mods, CaptureModel::Empty, next.rest, b);
                    let after = capture_run(mods, CapturePoint { state: CaptureModel::Empty, ..next });
                    let done = seq![
                        PacketModel {
                            id,
                            thread_id,
                            bytes: next.state->Done_buff,
                        },
                    ];
                    assert(first.packets == done + after.packets);
                    assert(done + (after.packets + second.packets) =~= first.packets + second.packets);
                }
            },
            CaptureModel::Done { id, thread_id, buff } => {
                lemma_run_resumes(mods, CaptureModel::Empty, a, b);
                let after = capture_run(mods, CapturePoint { state: CaptureModel::Empty, ..next });
                let done = seq![PacketModel { id, thread_id, bytes: buff }];
                assert(done + (after.packets + second.packets) =~= first.packets + second.packets);
            },
            CaptureModel::GotFnUId { id } => {
                assert((a + b).subrange(0, 8) =~= a.subrange(0, 8));
                assert(past(a + b, 8) =~= past(a, 8) + b);
                lemma_run_resumes(mods, next.state, next.rest, b);
            },
            _ => {
                assert((a + b).subrange(0, 4) =~= a.subrange(0, 4));
                assert(past(a + b, 4) =~= past(a, 4) + b);
                lemma_run_resumes(mods, next.state, next.rest, b);
            },
        }
    }
}

/// How a capture's buffers are cut does not matter: capturing from them one after the other
/// gives what capturing from all their bytes at once gives.
///
/// A buffer may end anywhere but within a module, function or thread number; else capturing
/// fails.
pub proof fn law_cuts_do_not_matter(mods: ExtModuleMap, buffers: Seq<Seq<u8>>)
    requires
        stream_run(mods, buffers).result is Ok,
    ensures
        stream_run(mods, buffers) == capture_run(
            mods,
            CapturePoint {
                state: CaptureModel::Empty,
                rest: joined(buffers),
                reader: ReaderModel::Start,
            },
        ),
    decreases buffers.len(),
{
    if buffers.len() > 0 {
        let before = buffers.drop_last();
        let first = stream_run(mods, before);
        law_cuts_do_not_matter(mods, before);
        lemma_joined_last(buffers);
        let outcome = update_outcome(
            mods,
            CapturePoint {
                state: first.result->Ok_0,
                rest: buffers.last(),
                reader: first.reader,
            },
        );
        if buffers.last().len() == 0 {
            assert(joined(buffers) =~= joined(before));
            assert(first.packets + outcome.packets =~= first.packets);
        } else {
            lemma_run_resumes(mods, CaptureModel::Empty, joined(before), buffers.last());
        }
    }
}

proof fn lemma_joined_last(pieces: Seq<Seq<u8>>)
    requires
        pieces.len() > 0,
    ensures
        joined(pieces) == joined(pieces.drop_last()) + pieces.last(),
    decreases pieces.len(),
{
    let rest = pieces.subrange(1, pieces.len() as int);
    if pieces.len() == 1 {
        assert(rest =~= Seq::<Seq<u8>>::empty());
        assert(joined(rest) == Seq::<u8>::empty());
        assert(joined(pieces) == pieces[0] + joined(rest));
        assert(pieces.drop_last() =~= Seq::<Seq<u8>>::empty());
        assert(joined(pieces.drop_last()) == Seq::<u8>::empty());
        assert(joined(pieces) =~= pieces[0]);
        assert(joined(pieces.drop_last()) + pieces.last() =~= pieces[0]);
    } else {
        lemma_joined_last(rest);
        assert(pieces.drop_last().subrange(1, pieces.len() - 1) =~= rest.drop_last());
        assert(pieces.drop_last()[0] == pieces[0]);
        assert(joined(pieces) =~= joined(pieces.drop_last()) + pieces.last());
    }
}

/// A call as the application sees it.
pub struct SentCall {
    pub id: NumFunUid,
    pub thread_id: u64,
    pub args: Seq<Seq<u8>>,
}

/// The arguments of a call as they are sent.
pub open spec fn sent_args(args: Seq<Seq<u8>>) -> Seq<u8>
    decreases args.len(),
{
    if args.len() == 0 {
        Seq::empty()
    } else {
        frame(args[0]) + sent_args(args.subrange(1, args.len() as int))
    }
}

/// A call as it is sent: the numbers of module, function and thread, then the arguments.
pub open spec fn sent_call(call: SentCall) -> Seq<u8> {
    le_bytes(call.id.module_id.0 as nat, 4) + (le_bytes(call.id.function_id.0 as nat, 4) + (
    le_bytes(call.thread_id as nat, 8) + sent_args(call.args)))
}

/// The calls as they are sent.
pub open spec fn sent_calls(calls: Seq<SentCall>) -> Seq<u8>
    decreases calls.len(),
{
    if calls.len() == 0 {
        Seq::empty()
    } else {
        sent_call(calls[0]) + sent_calls(calls.subrange(1, calls.len() as int))
    }
}

/// The packet of a call: its arguments, one behind the other.
pub open spec fn packet_of(call: SentCall) -> PacketModel {
    PacketModel { id: call.id, thread_id: call.thread_id, bytes: joined(call.args) }
}

/// The call is one of a known function, with as many arguments as the function has.
pub open spec fn call_is_known(mods: ExtModuleMap, call: SentCall) -> bool {
    &&& mods.knows_module(call.id.module_id)
    &&& mods.knows_function(call.id)
    &&& call.args.len() == mods.function(call.id).args.len()
    &&& forall|i: int|
        0 <= i < call.args.len() ==> (#[trigger] call.args[i]).len() < 0x1_0000_0000_0000_0000
}

/// The call has an argument.
pub open spec fn has_arguments(call: SentCall) -> bool {
    call.args.len() > 0
}

proof fn lemma_arg_arrives(payload: Seq<u8>, after: Seq<u8>)
    requires
        payload.len() < 0x1_0000_0000_0000_0000,
    ensures
        read_model(ReaderModel::Start, frame(payload) + after) == (
            ReaderModel::Finished,
            ProgressModel::Done { payload, consumed: frame(payload).len() },
        ),
        past(frame(payload) + after, frame(payload).len()) == after,
{
    lemma_byte_ranges();
    lemma_le_bytes_len(payload.len(), 8);
    law_le_read_after_write(payload.len(), 8);
    let data = frame(payload) + after;
    assert(data.subrange(0, 8) =~= le_bytes(payload.len(), 8));
    let rest = data.subrange(8, data.len() as int);
    assert(rest =~= payload + after);
    assert(Seq::<u8>::empty() + rest.subrange(0, payload.len() as int) =~= payload);
    assert(past(data, frame(payload).len()) =~= after);
}

proof fn lemma_args_arrive(
    count: nat,
    id: NumFunUid,
    thread_id: u64,
    arg_idx: nat,
    buff: Seq<u8>,
    args: Seq<Seq<u8>>,
    after: Seq<u8>,
)
    requires
        arg_idx + args.len() == count,
        forall|i: int|
            0 <= i < args.len() ==> (#[trigger] args[i]).len() < 0x1_0000_0000_0000_0000,
    ensures
        read_args(
            count,
            id,
            thread_id,
            arg_idx,
            buff,
            sent_args(args) + after,
            ReaderModel::Start,
        ) == Ok::<CapturePoint, Error>(
            CapturePoint {
                state: CaptureModel::Done { id, thread_id, buff: buff + joined(args) },
                rest: after,
                reader: ReaderModel::Start,
            },
        ),
    decreases args.len(),
{
    if args.len() == 0 {
        assert(sent_args(args) + after =~= after);
        assert(buff + joined(args) =~= buff);
    } else {
        let rest = args.subrange(1, args.len() as int);
        let follows = sent_args(rest) + after;
        assert(sent_args(args) + after =~= frame(args[0]) + follows);
        if rest.len() > 0 {
            lemma_byte_ranges();
            lemma_le_bytes_len(rest[0].len(), 8);
            assert(sent_args(rest).len() >= 8);
        }
        lemma_arg_arrives(args[0], follows);
        lemma_byte_ranges();
        lemma_le_bytes_len(args[0].len(), 8);
        lemma_args_arrive(count, id, thread_id, arg_idx + 1, buff + args[0], rest, after);
        assert(buff + args[0] + joined(rest) =~= buff + joined(args));
    }
}

proof fn lemma_call_arrives(mods: ExtModuleMap, call: SentCall, after: Seq<u8>)
    requires
        call_is_known(mods, call),
        after.len() > 0 || has_arguments(call),
    ensures
        ({
            let later = capture_run(
                mods,
                CapturePoint {
                    state: CaptureModel::Empty,
                    rest: after,
                    reader: ReaderModel::Start,
                },
            );
            capture_run(
                mods,
                CapturePoint {
                    state: CaptureModel::Empty,
                    rest: sent_call(call) + after,
                    reader: ReaderModel::Start,
                },
            ) == (CaptureOutcome { packets: seq![packet_of(call)] + later.packets, ..later })
        }),
{
    lemma_byte_ranges();
    let (m, f, t) = (
        call.id.module_id.0 as nat,
        call.id.function_id.0 as nat,
        call.thread_id as nat,
    );
    lemma_le_bytes_len(m, 4);
    lemma_le_bytes_len(f, 4);
    lemma_le_bytes_len(t, 8);
    law_le_read_after_write(m, 4);
    law_le_read_after_write(f, 4);
    law_le_read_after_write(t, 8);
    let args = sent_args(call.args) + after;
    let from_thread = le_bytes(t, 8) + args;
    let from_function = le_bytes(f, 4) + from_thread;
    let from_module = sent_call(call) + after;
    assert(from_module =~= le_bytes(m, 4) + from_function);
    assert(from_module.subrange(0, 4) =~= le_bytes(m, 4));
    assert(past(from_module, 4) =~= from_function);
    assert(from_function.subrange(0, 4) =~= le_bytes(f, 4));
    assert(past(from_function, 4) =~= from_thread);
    assert(from_thread.subrange(0, 8) =~= le_bytes(t, 8));
    assert(past(from_thread, 8) =~= args);
    let p0 = CapturePoint {
        state: CaptureModel::Empty,
        rest: from_module,
        reader: ReaderModel::Start,
    };
    let p1 = CapturePoint {
        state: CaptureModel::GotModuleId { module_id: call.id.module_id },
        rest: from_function,
        reader: ReaderModel::Start,
    };
    let p2 = CapturePoint {
        state: CaptureModel::GotFnUId { id: call.id },
        rest: from_thread,
        reader: ReaderModel::Start,
    };
    let p3 = CapturePoint {
        state: CaptureModel::CapturingArgs {
            id: call.id,
            thread_id: call.thread_id,
            arg_idx: 0,
            buff: Seq::empty(),
        },
        rest: args,
        reader: ReaderModel::Start,
    };
    assert(progress_model(mods, p0) == Ok::<CapturePoint, Error>(p1));
    assert(progress_model(mods, p1) == Ok::<CapturePoint, Error>(p2));
    assert(progress_model(mods, p2) == Ok::<CapturePoint, Error>(p3));
    if call.args.len() > 0 {
        lemma_le_bytes_len(call.args[0].len(), 8);
        assert(sent_args(call.args).len() >= 8);
    }
    lemma_args_arrive(
        call.args.len(),
        call.id,
        call.thread_id,
        0,
        Seq::empty(),
        call.args,
        after,
    );
    assert(Seq::<u8>::empty() + joined(call.args) =~= joined(call.args));
    assert(capture_run(mods, p0) == capture_run(mods, p1));
    assert(capture_run(mods, p1) == capture_run(mods, p2));
    assert(capture_run(mods, p2) == capture_run(mods, p3));
}

/// What the application sends is what is captured: the packets of the calls, in order, with
/// each call's function, thread and arguments.
///
/// The last call has to have an argument: a call without arguments is complete only when more
/// bytes follow.
pub proof fn law_sent_calls_are_captured(mods: ExtModuleMap, calls: Seq<SentCall>)
    requires
        forall|i: int| 0 <= i < calls.len() ==> call_is_known(mods, #[trigger] calls[i]),
        calls.len() > 0 ==> has_arguments(calls.last()),
    ensures
        capture_run(
            mods,
            CapturePoint {
                state: CaptureModel::Empty,
                rest: sent_calls(calls),
                reader: ReaderModel::Start,
            },
        ) == (CaptureOutcome {
            packets: calls.map_values(|c: SentCall| packet_of(c)),
            result: Ok(CaptureModel::Empty),
            reader: ReaderModel::Start,
        }),
    decreases calls.len(),
{
    let packets = calls.map_values(|c: SentCall| packet_of(c));
    if calls.len() == 0 {
        assert(packets =~= Seq::<PacketModel>::empty());
    } else {
        let rest = calls.subrange(1, calls.len() as int);
        law_sent_calls_are_captured(mods, rest);
        if rest.len() > 0 {
            lemma_byte_ranges();
            lemma_le_bytes_len(rest[0].id.module_id.0 as nat, 4);
            assert(sent_calls(rest).len() >= 4);
        }
        lemma_call_arrives(mods, calls[0], sent_calls(rest));
        assert(packets =~= seq![packet_of(calls[0])] + rest.map_values(|c: SentCall| packet_of(c)));
    }
}

/// What comes out of some bytes, captured from the start and at once.
pub open spec fn captured_at_once(mods: ExtModuleMap, bytes: Seq<u8>) -> CaptureOutcome {
    capture_run(
        mods,
        CapturePoint { state: CaptureModel::Empty, rest: bytes, reader: ReaderModel::Start },
    )
}

/// The bytes are cut into buffers in places where they can be cut: not within a module, function
/// or thread number. An empty buffer stands between packets.
pub open spec fn well_cut(mods: ExtModuleMap, buffers: Seq<Seq<u8>>) -> bool
    decreases buffers.len(),
{
    buffers.len() == 0 || {
        let before = captured_at_once(mods, joined(buffers.drop_last()));
        &&& well_cut(mods, buffers.drop_last())
        &&& captured_at_once(mods, joined(buffers)).result != Err::<CaptureModel, Error>(
            Error::NotEnoughBytes,
        )
        &&& buffers.last().len() == 0 ==> before.result == Ok::<CaptureModel, Error>(
            CaptureModel::Empty,
        )
    }
}

/// What can be captured as a whole can be captured up to any cut that is not within a number.
proof fn lemma_front_is_captured(
    mods: ExtModuleMap,
    state: CaptureModel,
    a: Seq<u8>,
    b: Seq<u8>,
)
    requires
        capture_run(
            mods,
            CapturePoint { state, rest: a + b, reader: ReaderModel::Start },
        ).result is Ok,
    ensures
        ({
            let front = capture_run(
                mods,
                CapturePoint { state, rest: a, reader: ReaderModel::Start },
            ).result;
            front is Ok || front == Err::<CaptureModel, Error>(Error::NotEnoughBytes)
        }),
    decreases a.len(), may_complete(state) as int,
{
    let at = CapturePoint { state, rest: a, reader: ReaderModel::Start };
    if b.len() == 0 {
        assert(a + b =~= a);
    } else if a.len() > 0 {
        lemma_progress_shrinks(mods, at);
        match state {
            CaptureModel::CapturingArgs { id, thread_id, arg_idx, buff } => {
                let count = mods.function(id).args.len();
                lemma_read_args_succeeds(
                    count,
                    id,
                    thread_id,
                    arg_idx,
                    buff,
                    a,
                    ReaderModel::Start,
                );
                lemma_read_args_shrinks(
                    count,
                    id,
                    thread_id,
                    arg_idx,
                    buff,
                    a,
                    ReaderModel::Start,
                );
                let next = progress_model(mods, at)->Ok_0;
                if next.state is Done {
                    lemma_done_leaves_start(count, id, thread_id, arg_idx, buff, a);
                    lemma_args_resume(count, id, thread_id, arg_idx, buff, a, b);
                    lemma_front_is_captured(mods, CaptureModel::Empty, next.rest, b);
                } else {
                    assert(capture_run(mods, next).result == Ok::<CaptureModel, Error>(
                        next.state,
                    ));
                }
            },
            CaptureModel::Done { id, thread_id, buff } => {
                lemma_front_is_captured(mods, CaptureModel::Empty, a, b);
            },
            CaptureModel::GotFnUId { id } => {
                if a.len() >= 8 {
                    assert((a + b).subrange(0, 8) =~= a.subrange(0, 8));
                    assert(past(a + b, 8) =~= past(a, 8) + b);
                    let next = progress_model(mods, at)->Ok_0;
                    lemma_front_is_captured(mods, next.state, next.rest, b);
                }
            },
            _ => {
                if a.len() >= 4 {
                    assert((a + b).subrange(0, 4) =~= a.subrange(0, 4));
                    assert(past(a + b, 4) =~= past(a, 4) + b);
                    let next = progress_model(mods, at)->Ok_0;
                    lemma_front_is_captured(mods, next.state, next.rest, b);
                }
            },
        }
    }
}

proof fn lemma_well_cut(mods: ExtModuleMap, buffers: Seq<Seq<u8>>, after: Seq<u8>)
    requires
        well_cut(mods, buffers),
        captured_at_once(mods, joined(buffers) + after).result is Ok,
    ensures
        captured_at_once(mods, joined(buffers)).result is Ok,
        stream_run(mods, buffers) == captured_at_once(mods, joined(buffers)),
    decreases buffers.len(),
{
    lemma_front_is_captured(mods, CaptureModel::Empty, joined(buffers), after);
    if buffers.len() > 0 {
        let before = buffers.drop_last();
        let last = buffers.last();
        lemma_joined_last(buffers);
        assert(joined(buffers) + after =~= joined(before) + (last + after));
        lemma_well_cut(mods, before, last + after);
        if last.len() == 0 {
            assert(joined(buffers) =~= joined(before));
            let first = stream_run(mods, before);
            assert(first.packets + Seq::<PacketModel>::empty() =~= first.packets);
        } else {
            lemma_run_resumes(mods, CaptureModel::Empty, joined(before), last);
        }
    }
}

/// Calls that are sent in buffers, cut in any way in which they can be cut, are captured: every
/// packet, in order, without an error.
pub proof fn law_calls_are_captured_however_cut(
    mods: ExtModuleMap,
    calls: Seq<SentCall>,
    buffers: Seq<Seq<u8>>,
)
    requires
        forall|i: int| 0 <= i < calls.len() ==> call_is_known(mods, #[trigger] calls[i]),
        calls.len() > 0 ==> has_arguments(calls.last()),
        joined(buffers) == sent_calls(calls),
        well_cut(mods, buffers),
    ensures
        stream_run(mods, buffers) == (CaptureOutcome {
            packets: calls.map_values(|c: SentCall| packet_of(c)),
            result: Ok(CaptureModel::Empty),
            reader: ReaderModel::Start,
        }),
{
    law_sent_calls_are_captured(mods, calls);
    assert(joined(buffers) + Seq::<u8>::empty() =~= joined(buffers));
    lemma_well_cut(mods, buffers, Seq::empty());
}

/// The message in a buffer: its length in four bytes, its bytes, and what an earlier message has
/// left behind them.
pub open spec fn written_buffer(message: Seq<u8>, left_over: Seq<u8>) -> Seq<u8> {
    le_bytes(message.len(), 4) + message + left_over
}

/// Calls that the application writes into buffers, cut in any way in which they can be cut, are
/// captured from what is taken out of the buffers: one packet for each call, in order, with the
/// call's module, function and thread, and its arguments one behind the other.
pub proof fn law_calls_in_buffers_are_captured(
    mods: ExtModuleMap,
    calls: Seq<SentCall>,
    messages: Seq<Seq<u8>>,
    left_overs: Seq<Seq<u8>>,
)
    requires
        forall|i: int| 0 <= i < calls.len() ==> call_is_known(mods, #[trigger] calls[i]),
        calls.len() > 0 ==> has_arguments(calls.last()),
        joined(messages) == sent_calls(calls),
        well_cut(mods, messages),
        left_overs.len() == messages.len(),
        forall|i: int| 0 <= i < messages.len() ==> (#[trigger] messages[i]).len() < 0x1_0000_0000,
    ensures
        ({
            let taken = Seq::new(
                messages.len(),
                |i: int| payload_of(written_buffer(messages[i], left_overs[i])),
            );
            let outcome = stream_run(mods, taken);
            &&& outcome.result == Ok::<CaptureModel, Error>(CaptureModel::Empty)
            &&& outcome.packets.len() == calls.len()
            &&& forall|i: int|
                0 <= i < calls.len() ==> {
                    let packet = #[trigger] outcome.packets[i];
                    &&& packet.id.module_id.0 == calls[i].id.module_id.0
                    &&& packet.id.function_id.0 == calls[i].id.function_id.0
                    &&& packet.thread_id == calls[i].thread_id
                    &&& packet.bytes == joined(calls[i].args)
                }
        }),
{
    let taken = Seq::new(
        messages.len(),
        |i: int| payload_of(written_buffer(messages[i], left_overs[i])),
    );
    assert forall|i: int| 0 <= i < messages.len() implies taken[i] == messages[i] by {
        law_written_message_is_taken_out(messages[i], left_overs[i]);
    }
    assert(taken =~= messages);
    law_calls_are_captured_however_cut(mods, calls, messages);
}

proof fn lemma_calls_arrive(mods: ExtModuleMap, calls: Seq<SentCall>, after: Seq<u8>)
    requires
        forall|i: int| 0 <= i < calls.len() ==> call_is_known(mods, #[trigger] calls[i]),
        after.len() > 0,
    ensures
        ({
            let later = captured_at_once(mods, after);
            captured_at_once(mods, sent_calls(calls) + after) == (CaptureOutcome {
                packets: calls.map_values(|c: SentCall| packet_of(c)) + later.packets,
                ..later
            })
        }),
    decreases calls.len(),
{
    let packets = calls.map_values(|c: SentCall| packet_of(c));
    let later = captured_at_once(mods, after);
    if calls.len() == 0 {
        assert(sent_calls(calls) + after =~= after);
        assert(packets + later.packets =~= later.packets);
    } else {
        let rest = calls.subrange(1, calls.len() as int);
        lemma_calls_arrive(mods, rest, after);
        lemma_call_arrives(mods, calls[0], sent_calls(rest) + after);
        assert(sent_calls(calls) + after =~= sent_call(calls[0]) + (sent_calls(rest) + after));
        assert(packets + later.packets =~= seq![packet_of(calls[0])] + (rest.map_values(
            |c: SentCall| packet_of(c),
        ) + later.packets));
    }
}

/// A call of an unknown module ends the capture: the error names the module, and the packets of the
/// calls before it are kept.
pub proof fn law_unknown_modules_are_refused(
    mods: ExtModuleMap,
    calls: Seq<SentCall>,
    module: u32,
    after: Seq<u8>,
)
    requires
        forall|i: int| 0 <= i < calls.len() ==> call_is_known(mods, #[trigger] calls[i]),
        !mods.knows_module(IntegralModId(module)),
    ensures
        ({
            let outcome = captured_at_once(
                mods,
                sent_calls(calls) + (le_bytes(module as nat, 4) + after),
            );
            &&& outcome.result == Err::<CaptureModel, Error>(
                Error::UnknownModule(IntegralModId(module)),
            )
            &&& outcome.packets == calls.map_values(|c: SentCall| packet_of(c))
        }),
{
    lemma_byte_ranges();
    lemma_le_bytes_len(module as nat, 4);
    law_le_read_after_write(module as nat, 4);
    let tail = le_bytes(module as nat, 4) + after;
    assert(tail.subrange(0, 4) =~= le_bytes(module as nat, 4));
    lemma_calls_arrive(mods, calls, tail);
    let packets = calls.map_values(|c: SentCall| packet_of(c));
    assert(captured_at_once(mods, tail).packets =~= Seq::<PacketModel>::empty());
    assert(packets + Seq::<PacketModel>::empty() =~= packets);
}

/// A call of an unknown function of a known module ends the capture: the error names module and
/// function, and the packets of the calls before it are kept.
pub proof fn law_unknown_functions_are_refused(
    mods: ExtModuleMap,
    calls: Seq<SentCall>,
    id: NumFunUid,
    after: Seq<u8>,
)
    requires
        forall|i: int| 0 <= i < calls.len() ==> call_is_known(mods, #[trigger] calls[i]),
        mods.knows_module(id.module_id),
        !mods.knows_function(id),
    ensures
        ({
            let outcome = captured_at_once(
                mods,
                sent_calls(calls) + (le_bytes(id.module_id.0 as nat, 4) + (le_bytes(
                    id.function_id.0 as nat,
                    4,
                ) + after)),
            );
            &&& outcome.result == Err::<CaptureModel, Error>(Error::UnknownFunction(id))
            &&& outcome.packets == calls.map_values(|c: SentCall| packet_of(c))
        }),
{
    lemma_byte_ranges();
    let (m, f) = (id.module_id.0 as nat, id.function_id.0 as nat);
    lemma_le_bytes_len(m, 4);
    lemma_le_bytes_len(f, 4);
    law_le_read_after_write(m, 4);
    law_le_read_after_write(f, 4);
    let from_function = le_bytes(f, 4) + after;
    let tail = le_bytes(m, 4) + from_function;
    assert(tail.subrange(0, 4) =~= le_bytes(m, 4));
    assert(past(tail, 4) =~= from_function);
    assert(from_function.subrange(0, 4) =~= le_bytes(f, 4));
    let p0 = CapturePoint { state: CaptureModel::Empty, rest: tail, reader: ReaderModel::Start };
    let p1 = CapturePoint {
        state: CaptureModel::GotModuleId { module_id: id.module_id },
        rest: from_function,
        reader: ReaderModel::Start,
    };
    assert(progress_model(mods, p0) == Ok::<CapturePoint, Error>(p1));
    assert(progress_model(mods, p1) == Err::<CapturePoint, Error>(Error::UnknownFunction(id)));
    assert(capture_run(mods, p0) == capture_run(mods, p1));
    lemma_calls_arrive(mods, calls, tail);
    let packets = calls.map_values(|c: SentCall| packet_of(c));
    assert(captured_at_once(mods, tail).packets =~= Seq::<PacketModel>::empty());
    assert(packets + Seq::<PacketModel>::empty() =~= packets);
}

proof fn lemma_args_were_sent(
    count: nat,
    id: NumFunUid,
    thread_id: u64,
    arg_idx: nat,
    buff: Seq<u8>,
    rest: Seq<u8>,
) -> (args: Seq<Seq<u8>>)
    requires
        arg_idx <= count,
        ({
            let r = read_args(count, id, thread_id, arg_idx, buff, rest, ReaderModel::Start);
            r is Ok && r->Ok_0.state is Done
        }),
    ensures
        ({
            let next = read_args(
                count,
                id,
                thread_id,
                arg_idx,
                buff,
                rest,
                ReaderModel::Start,
            )->Ok_0;
            &&& args.len() == count - arg_idx
            &&& rest == sent_args(args) + next.rest
            &&& next.state == CaptureModel::Done { id, thread_id, buff: buff + joined(args) }
            &&& next.reader == ReaderModel::Start
            &&& forall|i: int|
                0 <= i < args.len() ==> (#[trigger] args[i]).len() < 0x1_0000_0000_0000_0000
        }),
    decreases count - arg_idx,
{
    if arg_idx >= count {
        let args = Seq::<Seq<u8>>::empty();
        assert(sent_args(args) + rest =~= rest);
        assert(buff + joined(args) =~= buff);
        args
    } else {
        let (state, progress) = read_model(ReaderModel::Start, rest);
        law_read_loses_nothing(ReaderModel::Start, rest);
        let payload = progress->payload;
        let consumed = progress->consumed;
        let later = lemma_args_were_sent(
            count,
            id,
            thread_id,
            arg_idx + 1,
            buff + payload,
            past(rest, consumed),
        );
        let args = seq![payload] + later;
        let next = read_args(
            count,
            id,
            thread_id,
            arg_idx,
            buff,
            rest,
            ReaderModel::Start,
        )->Ok_0;
        assert(args.subrange(1, args.len() as int) =~= later);
        assert(taken_in(ReaderModel::Start) + rest.subrange(0, consumed as int) =~= rest.subrange(
            0,
            consumed as int,
        ));
        assert(rest =~= frame(payload) + past(rest, consumed));
        assert(rest =~= sent_args(args) + next.rest);
        assert(buff + joined(args) =~= buff + payload + joined(later));
        args
    }
}

/// Nothing is captured that was not sent: bytes that are captured without an error, up to the end
/// of a packet, are those of calls of known functions, and the packets are theirs.
pub proof fn law_only_sent_calls_are_captured(mods: ExtModuleMap, bytes: Seq<u8>)
    requires
        captured_at_once(mods, bytes).result == Ok::<CaptureModel, Error>(CaptureModel::Empty),
    ensures
        exists|calls: Seq<SentCall>|
            {
                &&& bytes == #[trigger] sent_calls(calls)
                &&& forall|i: int| 0 <= i < calls.len() ==> call_is_known(mods, #[trigger] calls[i])
                &&& captured_at_once(mods, bytes).packets == calls.map_values(
                    |c: SentCall| packet_of(c),
                )
            },
{
    let calls = lemma_calls_were_sent(mods, bytes);
    assert(bytes == sent_calls(calls));
}

proof fn lemma_calls_were_sent(mods: ExtModuleMap, bytes: Seq<u8>) -> (calls: Seq<SentCall>)
    requires
        captured_at_once(mods, bytes).result == Ok::<CaptureModel, Error>(CaptureModel::Empty),
    ensures
        bytes == sent_calls(calls),
        forall|i: int| 0 <= i < calls.len() ==> call_is_known(mods, #[trigger] calls[i]),
        captured_at_once(mods, bytes).packets == calls.map_values(|c: SentCall| packet_of(c)),
    decreases bytes.len(),
{
    if bytes.len() == 0 {
        let calls = Seq::<SentCall>::empty();
        assert(bytes =~= sent_calls(calls));
        assert(captured_at_once(mods, bytes).packets =~= calls.map_values(
            |c: SentCall| packet_of(c),
        ));
        calls
    } else {
        let p0 = CapturePoint {
            state: CaptureModel::Empty,
            rest: bytes,
            reader: ReaderModel::Start,
        };
        let p1 = progress_model(mods, p0)->Ok_0;
        assert(capture_run(mods, p0) == capture_run(mods, p1));
        let module_id = p1.state->GotModuleId_module_id;
        let p2 = progress_model(mods, p1)->Ok_0;
        assert(capture_run(mods, p1) == capture_run(mods, p2));
        let id = p2.state->GotFnUId_id;
        let p3 = progress_model(mods, p2)->Ok_0;
        assert(capture_run(mods, p2) == capture_run(mods, p3));
        let thread_id = p3.state->CapturingArgs_thread_id;
        let count = mods.function(id).args.len();
        let none = Seq::<u8>::empty();
        assert(p3.rest.len() > 0);
        lemma_read_args_succeeds(count, id, thread_id, 0, none, p3.rest, ReaderModel::Start);
        lemma_read_args_shrinks(count, id, thread_id, 0, none, p3.rest, ReaderModel::Start);
        let p4 = progress_model(mods, p3)->Ok_0;
        if p4.state is CapturingArgs {
            assert(capture_run(mods, p4).result == Ok::<CaptureModel, Error>(p4.state));
        }
        let args = lemma_args_were_sent(count, id, thread_id, 0, none, p3.rest);
        assert(none + joined(args) =~= joined(args));
        let call = SentCall { id, thread_id, args };
        let later = lemma_calls_were_sent(mods, p4.rest);
        let calls = seq![call] + later;
        assert(calls.subrange(1, calls.len() as int) =~= later);
        lemma_byte_ranges();
        lemma_le_value_bound(bytes.subrange(0, 4));
        lemma_le_value_bound(p1.rest.subrange(0, 4));
        lemma_le_value_bound(p2.rest.subrange(0, 8));
        law_le_write_after_read(bytes.subrange(0, 4));
        law_le_write_after_read(p1.rest.subrange(0, 4));
        law_le_write_after_read(p2.rest.subrange(0, 8));
        assert(bytes =~= le_bytes(module_id.0 as nat, 4) + p1.rest);
        assert(p1.rest =~= le_bytes(id.function_id.0 as nat, 4) + p2.rest);
        assert(p2.rest =~= le_bytes(thread_id as nat, 8) + p3.rest);
        assert(bytes =~= sent_call(call) + p4.rest);
        assert(captured_at_once(mods, bytes).packets =~= seq![packet_of(call)] + captured_at_once(
            mods,
            p4.rest,
        ).packets);
        assert(captured_at_once(mods, bytes).packets =~= calls.map_values(
            |c: SentCall| packet_of(c),
        ));
        assert forall|i: int| 0 <= i < calls.len() implies call_is_known(
            mods,
            #[trigger] calls[i],
        ) by {
            if i > 0 {
                assert(calls[i] == later[i - 1]);
            }
        }
        calls
    }
}

/// An empty buffer within a packet is an error, one between packets changes nothing.
pub proof fn law_empty_buffers_stand_between_packets(
    mods: ExtModuleMap,
    buffers: Seq<Seq<u8>>,
    empty: Seq<u8>,
)
    requires
        stream_run(mods, buffers).result is Ok,
        empty.len() == 0,
    ensures
        ({
            let before = stream_run(mods, buffers);
            let after = stream_run(mods, buffers.push(empty));
            &&& after.packets == before.packets
            &&& before.result->Ok_0 == CaptureModel::Empty ==> after == before
            &&& before.result->Ok_0 != CaptureModel::Empty ==> after.result == Err::<
                CaptureModel,
                Error,
            >(Error::EmptyBufferWithinPacket)
        }),
{
    assert(buffers.push(empty).drop_last() =~= buffers);
    let packets = stream_run(mods, buffers).packets;
    assert(packets + Seq::<PacketModel>::empty() =~= packets);
}

/// A capture after some buffers: what came out of them, and whether it goes on.
#[verifier::ext_equal]
pub struct CaptureSession {
    pub outcome: CaptureOutcome,
    pub end: LoopModel,
}

/// A capture after some buffers. Those after its end, or after an error, are not looked at.
pub open spec fn capture_session(
    mods: ExtModuleMap,
    buffer_count: nat,
    buffers: Seq<Seq<u8>>,
) -> CaptureSession
    decreases buffers.len(),
{
    if buffers.len() == 0 {
        CaptureSession { outcome: stream_run(mods, buffers), end: loop_start() }
    } else {
        let before = capture_session(mods, buffer_count, buffers.drop_last());
        match before.outcome.result {
            Err(e) => before,
            Ok(state) => if before.end.decision is Finished {
                before
            } else {
                let outcome = update_outcome(
                    mods,
                    CapturePoint { state, rest: buffers.last(), reader: before.outcome.reader },
                );
                let count = if buffers.last().len() == 0 {
                    before.end.count + 1
                } else {
                    before.end.count
                };
                CaptureSession {
                    outcome: CaptureOutcome {
                        packets: before.outcome.packets + outcome.packets,
                        ..outcome
                    },
                    end: loop_step(before.end.last, count, buffer_count),
                }
            },
        }
    }
}

/// This many empty buffers.
pub open spec fn empty_buffers(count: nat) -> Seq<Seq<u8>> {
    Seq::new(count, |i: int| Seq::<u8>::empty())
}

proof fn lemma_session_of_data(mods: ExtModuleMap, buffer_count: nat, data: Seq<Seq<u8>>)
    requires
        buffer_count >= 1,
        forall|i: int| 0 <= i < data.len() ==> (#[trigger] data[i]).len() > 0,
        stream_run(mods, data).result is Ok,
    ensures
        capture_session(mods, buffer_count, data) == (CaptureSession {
            outcome: stream_run(mods, data),
            end: loop_start(),
        }),
    decreases data.len(),
{
    if data.len() > 0 {
        assert(data[data.len() - 1].len() > 0);
        assert forall|i: int| 0 <= i < data.drop_last().len() implies (
        #[trigger] data.drop_last()[i]).len() > 0 by {
            assert(data[i].len() > 0);
        }
        lemma_session_of_data(mods, buffer_count, data.drop_last());
    }
}

proof fn lemma_session_of_empty_buffers(
    mods: ExtModuleMap,
    buffer_count: nat,
    data: Seq<Seq<u8>>,
    count: nat,
)
    requires
        count <= buffer_count,
        buffer_count >= 1,
        forall|i: int| 0 <= i < data.len() ==> (#[trigger] data[i]).len() > 0,
        stream_run(mods, data).result == Ok::<CaptureModel, Error>(CaptureModel::Empty),
    ensures
        ({
            let session = capture_session(mods, buffer_count, data + empty_buffers(count));
            &&& session.outcome == stream_run(mods, data)
            &&& session.end.count == count
            &&& session.end.decision == if count == buffer_count {
                LoopDecision::Finished
            } else {
                LoopDecision::Continue
            }
            &&& count < buffer_count ==> session.end.last == count
        }),
    decreases count,
{
    if count == 0 {
        assert(data + empty_buffers(0) =~= data);
        lemma_session_of_data(mods, buffer_count, data);
    } else {
        let before = (count - 1) as nat;
        lemma_session_of_empty_buffers(mods, buffer_count, data, before);
        let buffers = data + empty_buffers(count);
        assert(buffers.drop_last() =~= data + empty_buffers(before));
        assert(buffers.last().len() == 0);
        let packets = stream_run(mods, data).packets;
        assert(packets + Seq::<PacketModel>::empty() =~= packets);
    }
}

/// A capture goes on while the application sends calls, ends with the last one of as many empty
/// buffers as there are buffers, and has then captured all the calls.
pub proof fn law_capture_ends_with_all_calls(
    mods: ExtModuleMap,
    buffer_count: nat,
    calls: Seq<SentCall>,
    data: Seq<Seq<u8>>,
    count: nat,
)
    requires
        forall|i: int| 0 <= i < calls.len() ==> call_is_known(mods, #[trigger] calls[i]),
        calls.len() > 0 ==> has_arguments(calls.last()),
        joined(data) == sent_calls(calls),
        well_cut(mods, data),
        forall|i: int| 0 <= i < data.len() ==> (#[trigger] data[i]).len() > 0,
        buffer_count >= 1,
        count <= buffer_count,
    ensures
        ({
            let session = capture_session(mods, buffer_count, data + empty_buffers(count));
            &&& session.outcome == (CaptureOutcome {
                packets: calls.map_values(|c: SentCall| packet_of(c)),
                result: Ok(CaptureModel::Empty),
                reader: ReaderModel::Start,
            })
            &&& session.end.decision is Finished <==> count == buffer_count
        }),
{
    law_calls_are_captured_however_cut(mods, calls, data);
    lemma_session_of_empty_buffers(mods, buffer_count, data, count);
}

/// A capture as it goes: its state before each buffer and at the end, its state after each buffer
/// was taken in, what came of that, and the packets that were then handed out.
pub struct CaptureTrace {
    pub runs: Seq<ArgCaptureRun>,
    pub filled: Seq<ArgCaptureRun>,
    pub decisions: Seq<Result<LoopDecision, Error>>,
    pub packets: Seq<Seq<PacketModel>>,
}

impl CaptureTrace {
    /// The trace is one of these buffers: each was taken in and its packets were handed out, while
    /// the capture went on.
    pub open spec fn is_of(
        self,
        mods: ExtModuleMap,
        buffer_count: nat,
        buffers: Seq<Seq<u8>>,
    ) -> bool {
        &&& self.runs.len() == buffers.len() + 1
        &&& self.filled.len() == buffers.len()
        &&& self.decisions.len() == buffers.len()
        &&& self.packets.len() == buffers.len()
        &&& self.runs[0].active()
        &&& self.runs[0].state() == CaptureModel::Empty
        &&& self.runs[0].end_messages() == 0
        &&& self.runs[0].buffers() == buffer_count
        &&& self.runs[0].capture().reader() == ReaderModel::Start
        &&& self.runs[0].capture().captured() == Seq::<PacketModel>::empty()
        &&& self.runs[0].capture().threads() == no_threads()
        &&& forall|i: int|
            0 <= i < buffers.len() ==> {
                &&& (#[trigger] self.runs[i]).active()
                &&& buffer_taken(
                    self.runs[i],
                    self.filled[i],
                    mods,
                    buffers[i],
                    self.decisions[i],
                )
                &&& handed_out(self.filled[i], self.runs[i + 1], self.packets[i])
            }
    }
}

/// The packets of all buffers, in order.
pub open spec fn all_packets(packets: Seq<Seq<PacketModel>>) -> Seq<PacketModel>
    decreases packets.len(),
{
    if packets.len() == 0 {
        Seq::empty()
    } else {
        all_packets(packets.drop_last()) + packets.last()
    }
}

proof fn lemma_register_more(
    threads: ThreadModel,
    packets: Seq<PacketModel>,
    more: Seq<PacketModel>,
)
    ensures
        register_packets(register_packets(threads, packets), more) == register_packets(
            threads,
            packets + more,
        ),
    decreases more.len(),
{
    if more.len() == 0 {
        assert(packets + more =~= packets);
    } else {
        lemma_register_more(threads, packets, more.drop_last());
        assert((packets + more).drop_last() =~= packets + more.drop_last());
        assert((packets + more).last() == more.last());
    }
}

proof fn lemma_trace(
    mods: ExtModuleMap,
    buffer_count: nat,
    buffers: Seq<Seq<u8>>,
    trace: CaptureTrace,
    n: nat,
)
    requires
        trace.is_of(mods, buffer_count, buffers),
        n <= buffers.len(),
    ensures
        ({
            let session = capture_session(mods, buffer_count, buffers.take(n as int));
            let run = trace.runs[n as int];
            &&& all_packets(trace.packets.take(n as int)) == session.outcome.packets
            &&& run.capture().captured() == Seq::<PacketModel>::empty()
            &&& run.capture().threads() == register_packets(no_threads(), session.outcome.packets)
            &&& run.capture().reader() == session.outcome.reader
            &&& run.buffers() == buffer_count
            &&& run.active() ==> {
                &&& session.outcome.result == Ok::<CaptureModel, Error>(run.state())
                &&& session.end.decision is Continue
                &&& session.end.last == run.end_messages()
                &&& session.end.count == run.end_messages()
            }
            &&& n > 0 ==> trace.decisions[n - 1] == match session.outcome.result {
                Err(e) => Err::<LoopDecision, Error>(e),
                Ok(_) => Ok::<LoopDecision, Error>(session.end.decision),
            }
        }),
    decreases n,
{
    if n == 0 {
        assert(buffers.take(0) =~= Seq::<Seq<u8>>::empty());
        assert(trace.packets.take(0) =~= Seq::<Seq<PacketModel>>::empty());
    } else {
        let k = n - 1;
        lemma_trace(mods, buffer_count, buffers, trace, k as nat);
        let upto = buffers.take(n as int);
        assert(upto.drop_last() =~= buffers.take(k));
        assert(upto.last() == buffers[k]);
        assert(trace.packets.take(n as int).drop_last() =~= trace.packets.take(k));
        assert(trace.packets.take(n as int).last() == trace.packets[k]);
        let before = capture_session(mods, buffer_count, buffers.take(k));
        let run = trace.runs[k];
        assert(run.active());
        let outcome = update_outcome(
            mods,
            CapturePoint { state: run.state(), rest: buffers[k], reader: run.capture().reader() },
        );
        assert(Seq::<PacketModel>::empty() + outcome.packets =~= outcome.packets);
        lemma_register_more(no_threads(), before.outcome.packets, outcome.packets);
    }
}

/// A capture hands out what its buffers hold: all packets together, in order, are those that the
/// buffers give one after the other, every one of them is counted under its thread, and the
/// capture says it is over when it is.
pub proof fn law_all_packets_are_handed_out(
    mods: ExtModuleMap,
    buffer_count: nat,
    buffers: Seq<Seq<u8>>,
    trace: CaptureTrace,
)
    requires
        trace.is_of(mods, buffer_count, buffers),
    ensures
        ({
            let session = capture_session(mods, buffer_count, buffers);
            let all = all_packets(trace.packets);
            &&& all == session.outcome.packets
            &&& trace.runs.last().capture().threads() == register_packets(no_threads(), all)
            &&& buffers.len() > 0 ==> (trace.decisions.last() == Ok::<LoopDecision, Error>(
                LoopDecision::Finished,
            ) <==> session.outcome.result is Ok && session.end.decision is Finished)
        }),
{
    let n = buffers.len();
    lemma_trace(mods, buffer_count, buffers, trace, n);
    assert(buffers.take(n as int) =~= buffers);
    assert(trace.packets.take(n as int) =~= trace.packets);
}

/// From the calls of the application to the packets that are handed out and the counts that are
/// kept: once as many empty buffers have come as there are buffers, the capture is over, one packet
/// was handed out for each call, in order, with the call's module, function, thread and arguments,
/// and under each thread stands the number of its calls.
pub proof fn law_captured_calls_are_those_of_the_application(
    mods: ExtModuleMap,
    buffer_count: nat,
    calls: Seq<SentCall>,
    data: Seq<Seq<u8>>,
    trace: CaptureTrace,
)
    requires
        forall|i: int| 0 <= i < calls.len() ==> call_is_known(mods, #[trigger] calls[i]),
        calls.len() > 0 ==> has_arguments(calls.last()),
        joined(data) == sent_calls(calls),
        well_cut(mods, data),
        forall|i: int| 0 <= i < data.len() ==> (#[trigger] data[i]).len() > 0,
        buffer_count >= 1,
        trace.is_of(mods, buffer_count, data + empty_buffers(buffer_count)),
    ensures
        ({
            let packets = all_packets(trace.packets);
            let threads = trace.runs.last().capture().threads();
            &&& trace.decisions.last() == Ok::<LoopDecision, Error>(LoopDecision::Finished)
            &&& packets.len() == calls.len()
            &&& forall|i: int|
                0 <= i < calls.len() ==> {
                    let packet = #[trigger] packets[i];
                    &&& packet.id.module_id.0 == calls[i].id.module_id.0
                    &&& packet.id.function_id.0 == calls[i].id.function_id.0
                    &&& packet.thread_id == calls[i].thread_id
                    &&& packet.bytes == joined(calls[i].args)
                }
            &&& threads.ids.no_duplicates()
            &&& threads.ids.len() == threads.counts.len()
            &&& forall|i: int|
                0 <= i < threads.ids.len() ==> #[trigger] threads.counts[i] == calls.filter(
                    |c: SentCall| c.thread_id == threads.ids[i],
                ).len()
            &&& total(threads.counts) == calls.len()
        }),
{
    let buffers = data + empty_buffers(buffer_count);
    law_capture_ends_with_all_calls(mods, buffer_count, calls, data, buffer_count);
    law_all_packets_are_handed_out(mods, buffer_count, buffers, trace);
    let packets = all_packets(trace.packets);
    law_every_call_is_counted(packets);
    let threads = trace.runs.last().capture().threads();
    assert forall|i: int| 0 <= i < threads.ids.len() implies #[trigger] threads.counts[i]
        == calls.filter(|c: SentCall| c.thread_id == threads.ids[i]).len() by {
        lemma_calls_of_thread(calls, threads.ids[i]);
    }
}

proof fn lemma_calls_of_thread(calls: Seq<SentCall>, thread_id: u64)
    ensures
        calls_of(calls.map_values(|c: SentCall| packet_of(c)), thread_id) == calls.filter(
            |c: SentCall| c.thread_id == thread_id,
        ).len(),
    decreases calls.len(),
{
    reveal(Seq::filter);
    if calls.len() > 0 {
        lemma_calls_of_thread(calls.drop_last(), thread_id);
        let packets = calls.map_values(|c: SentCall| packet_of(c));
        assert(packets.drop_last() =~= calls.drop_last().map_values(|c: SentCall| packet_of(c)));
        assert(packets.last() == packet_of(calls.last()));
    }
}

/// The sum of the numbers.
pub open spec fn total(counts: Seq<nat>) -> nat
    decreases counts.len(),
{
    if counts.len() == 0 {
        0
    } else {
        total(counts.drop_last()) + counts.last()
    }
}

/// How many of the packets are of this thread.
pub open spec fn calls_of(packets: Seq<PacketModel>, thread_id: u64) -> nat
    decreases packets.len(),
{
    if packets.len() == 0 {
        0
    } else {
        calls_of(packets.drop_last(), thread_id) + if packets.last().thread_id == thread_id {
            1nat
        } else {
            0nat
        }
    }
}

proof fn lemma_total_update(counts: Seq<nat>, i: int)
    requires
        0 <= i < counts.len(),
    ensures
        total(counts.update(i, counts[i] + 1)) == total(counts) + 1,
    decreases counts.len(),
{
    let changed = counts.update(i, counts[i] + 1);
    if i == counts.len() - 1 {
        assert(changed.drop_last() =~= counts.drop_last());
    } else {
        assert(changed.drop_last() =~= counts.drop_last().update(i, counts[i] + 1));
        lemma_total_update(counts.drop_last(), i);
    }
}

/// Each thread has one logical ID, the count under an ID is the number of packets of the
/// thread, and no call goes uncounted.
pub proof fn law_every_call_is_counted(packets: Seq<PacketModel>)
    ensures
        ({
            let threads = register_packets(no_threads(), packets);
            &&& threads.ids.len() == threads.counts.len()
            &&& threads.ids.no_duplicates()
            &&& total(threads.counts) == packets.len()
            &&& forall|i: int|
                0 <= i < threads.ids.len() ==> #[trigger] threads.counts[i] == calls_of(
                    packets,
                    threads.ids[i],
                )
            &&& forall|t: u64| #[trigger]
                threads.ids.contains(t) <==> calls_of(packets, t) > 0
        }),
    decreases packets.len(),
{
    let threads = register_packets(no_threads(), packets);
    if packets.len() > 0 {
        let before = register_packets(no_threads(), packets.drop_last());
        let t = packets.last().thread_id;
        law_every_call_is_counted(packets.drop_last());
        if before.ids.contains(t) {
            let i = before.ids.index_of(t);
            assert(before.ids[i] == t);
            lemma_total_update(before.counts, i);
        } else {
            assert(threads.counts.drop_last() =~= before.counts);
            assert forall|u: u64| #[trigger] threads.ids.contains(u) implies calls_of(packets, u)
                > 0 by {
                let k = threads.ids.index_of(u);
                if k < before.ids.len() {
                    assert(before.ids[k] == u);
                    assert(before.ids.contains(u));
                }
            }
            assert forall|u: u64| calls_of(packets, u) > 0 implies #[trigger] threads.ids.contains(
                u,
            ) by {
                if u == t {
                    assert(threads.ids[before.ids.len() as int] == t);
                } else {
                    assert(before.ids.contains(u));
                    let k = before.ids.index_of(u);
                    assert(threads.ids[k] == u);
                }
            }
            assert forall|i: int| 0 <= i < threads.ids.len() implies #[trigger] threads.counts[i]
                == calls_of(packets, threads.ids[i]) by {
                if i < before.ids.len() {
                    assert(before.counts[i] == calls_of(packets.drop_last(), before.ids[i]));
                    assert(before.ids.contains(before.ids[i]));
                }
            }
        }
    }
}

/// A thread keeps its logical ID: later calls only add IDs behind those that were given.
pub proof fn law_logical_ids_stay(packets: Seq<PacketModel>, more: Seq<PacketModel>)
    ensures
        register_packets(no_threads(), packets).ids.is_prefix_of(
            register_packets(no_threads(), packets + more).ids,
        ),
    decreases more.len(),
{
    if more.len() == 0 {
        assert(packets + more =~= packets);
    } else {
        law_logical_ids_stay(packets, more.drop_last());
        assert((packets + more).drop_last() =~= packets + more.drop_last());
        let before = register_packets(no_threads(), packets + more.drop_last());
        let after = register_packets(no_threads(), packets + more);
        assert(before.ids.is_prefix_of(after.ids));
        assert(register_packets(no_threads(), packets).ids =~= after.ids.subrange(
            0,
            register_packets(no_threads(), packets).ids.len() as int,
        ));
    }
}

} // verus!
