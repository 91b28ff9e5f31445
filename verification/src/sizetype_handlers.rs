//! Readers of captured arguments: they take the bytes of an argument in pieces of
//! any size and say when the argument is complete.

use crate::bytes::le_bytes;
use crate::bytes::law_le_read_after_write;
use crate::bytes::law_le_write_after_read;
use crate::bytes::le_value;
use crate::bytes::lemma_byte_ranges;
use crate::bytes::lemma_le_bytes_len;
use crate::bytes::lemma_le_value_bound;
use crate::bytes::u64_from_le;
use crate::error::Error;
use vstd::prelude::*;

verus! {

/// What a reader made of the bytes it was handed.
#[derive(Debug)]
pub enum ReadProgress {
    /// reading of a value is done
    Done {
        /// result to be saved
        payload: Vec<u8>,
        /// nr of bytes consumed from input
        consumed_bytes: usize,
    },
    /// all bytes from input consumed, result not complete yet, send another buffer
    NotYet,
    /// buffer left untouched, you should call `read_reset()`
    Nop,
}

/// The contents of a [`ReadProgress`].
#[verifier::ext_equal]
pub enum ProgressModel {
    Done { payload: Seq<u8>, consumed: nat },
    NotYet,
    Nop,
}

impl View for ReadProgress {
    type V = ProgressModel;

    open spec fn view(&self) -> ProgressModel {
        match *self {
            ReadProgress::Done { payload, consumed_bytes } => ProgressModel::Done {
                payload: payload@,
                consumed: consumed_bytes as nat,
            },
            ReadProgress::NotYet => ProgressModel::NotYet,
            ReadProgress::Nop => ProgressModel::Nop,
        }
    }
}

/// The contents of what reading has come to leave nothing out.
pub proof fn law_contents_of_progress_are_complete(progress: ReadProgress)
    ensures
        match progress {
            ReadProgress::Done { payload, consumed_bytes } => progress@ is Done
                && progress@->payload == payload@ && progress@->consumed == consumed_bytes,
            ReadProgress::NotYet => progress@ is NotYet,
            ReadProgress::Nop => progress@ is Nop,
        },
{
}

/// How the size of an argument is determined.
#[derive(Debug, Copy, Clone, PartialEq, Eq, Structural)]
pub enum ArgSizeTypeRef {
    Empty,
    Custom,
}

/// The size type with number `id`: 0 takes no bytes, 1 to 1027 carry their own size.
pub open spec fn arg_size_type(id: u16) -> Result<ArgSizeTypeRef, Error> {
    if id == 0 {
        Ok(ArgSizeTypeRef::Empty)
    } else if id <= 1027 {
        Ok(ArgSizeTypeRef::Custom)
    } else {
        Err(Error::UnsupportedArgSizeType(id))
    }
}

impl TryFrom<u16> for ArgSizeTypeRef {
    type Error = Error;

    fn try_from(id: u16) -> (r: Result<Self, Error>) {
        if id == 0 {
            Ok(ArgSizeTypeRef::Empty)
        } else if id <= 1027 {
            Ok(ArgSizeTypeRef::Custom)
        } else {
            Err(Error::UnsupportedArgSizeType(id))
        }
    }
}

impl vstd::std_specs::convert::TryFromSpecImpl<u16> for ArgSizeTypeRef {
    open spec fn obeys_try_from_spec() -> bool {
        true
    }

    open spec fn try_from_spec(id: u16) -> Result<Self, Error> {
        arg_size_type(id)
    }
}

/// The numbers of size types have no gap: all are accepted up to the last one, which is 1027. Only
/// zero takes no bytes, and a number that is not accepted is named.
pub proof fn law_size_types_have_no_gaps(id: u16, smaller: u16)
    ensures
        arg_size_type(id) is Ok && smaller <= id ==> arg_size_type(smaller) is Ok,
        arg_size_type(id) is Ok <==> id <= 1027,
        arg_size_type(id) is Ok ==> (arg_size_type(id)->Ok_0 is Empty <==> id == 0),
        arg_size_type(id) matches Err(e) ==> e == Error::UnsupportedArgSizeType(id),
{
}

/// interface for argument readers
pub trait SizeTypeReader: Sized {
    /// The reader is in a state that reading can go on from.
    spec fn wf(&self) -> bool;

    /// The reader has a complete argument behind it.
    spec fn finished(&self) -> bool;

    /// resets the reader, acts as a no-op if reader is not finished
    ///
    /// returns true if reader was reset
    fn read_reset(&mut self) -> (was_reset: bool)
        ensures
            was_reset == old(self).finished(),
            was_reset ==> !final(self).finished() && final(self).wf(),
            !was_reset ==> *final(self) == *old(self),
    ;

    /// consumes bytes from data
    /// may consume any number of bytes (up to length), refer to `ReadProgress`
    /// for return value information
    fn read(&mut self, data: &[u8]) -> (r: Result<ReadProgress, Error>)
        requires
            old(self).wf(),
        ensures
            final(self).wf(),
            old(self).finished() ==> r is Ok && r->Ok_0 is Nop && *final(self) == *old(self),
            r matches Ok(ReadProgress::Done { payload, consumed_bytes }) ==> consumed_bytes
                <= data@.len() && final(self).finished(),
            r matches Ok(ReadProgress::NotYet) ==> !final(self).finished(),
    ;

    /// indicates that reader has finished reading, data is ready
    fn done(&self) -> (b: bool)
        ensures
            b == self.finished(),
    ;
}

/// Copies the first `n` bytes of `inp` (or all, if there are fewer) into `out`, from
/// position `start` on. Returns start + number of bytes consumed.
fn take_num_into_slice(n: usize, start: usize, out: &mut [u8; 8], inp: &[u8]) -> (end: usize)
    requires
        start + n <= 8 || start + inp@.len() <= 8,
    ensures
        ({
            let taken = if n <= inp@.len() {
                n as int
            } else {
                inp@.len() as int
            };
            &&& end == start + taken
            &&& forall|i: int|
                0 <= i < 8 ==> #[trigger] final(out)@[i] == if start <= i < start + taken {
                    inp@[i - start]
                } else {
                    old(out)@[i]
                }
        }),
{
    let mut offs: usize = start;
    let mut taken: usize = 0;
    while taken < n && taken < inp.len()
        invariant
            taken <= n,
            taken <= inp@.len(),
            offs == start + taken,
            start + n <= 8 || start + inp@.len() <= 8,
            forall|i: int|
                0 <= i < 8 ==> #[trigger] out@[i] == if start <= i < start + taken {
                    inp@[i - start]
                } else {
                    old(out)@[i]
                },
        decreases n - taken,
    {
        out[offs] = inp[taken];
        offs += 1;
        taken += 1;
    }
    offs
}

/// the size of the mandatory "length" field of an argument that carries its own size
pub const CUSTOM_TYPE_SIZE_SPEC_SIZE: usize = 8;

/// Reads an argument that starts with its own length.
#[derive(Debug)]
pub enum CustomTypeReader {
    Start,
    // in the middle of reading the 8-byte size
    ReadingTgtSize { idx: u8, bytes: [u8; CUSTOM_TYPE_SIZE_SPEC_SIZE] },
    // finished reading the size, now reading the payload (of length target_size)
    Reading { target_size: u64, payload: Vec<u8> },
    Finished,
}

/// Where a [`CustomTypeReader`] stands within an argument.
#[verifier::ext_equal]
pub enum ReaderModel {
    /// before the first byte
    Start,
    /// within the length field, of which these bytes are known
    Size(Seq<u8>),
    /// past the length field, with these bytes of the payload known
    Payload { size: nat, got: Seq<u8> },
    /// past the payload
    Finished,
}

impl View for CustomTypeReader {
    type V = ReaderModel;

    open spec fn view(&self) -> ReaderModel {
        match *self {
            CustomTypeReader::Start => ReaderModel::Start,
            CustomTypeReader::ReadingTgtSize { idx, bytes } => ReaderModel::Size(
                bytes@.subrange(0, idx as int),
            ),
            CustomTypeReader::Reading { target_size, payload } => ReaderModel::Payload {
                size: target_size as nat,
                got: payload@,
            },
            CustomTypeReader::Finished => ReaderModel::Finished,
        }
    }
}

/// Takes from `data` what a payload of `size` bytes still lacks after `got`. `before`
/// bytes of the input lie in front of `data`.
pub open spec fn read_payload(size: nat, got: Seq<u8>, data: Seq<u8>, before: nat) -> (
    ReaderModel,
    ProgressModel,
) {
    let missing = size - got.len();
    if missing <= data.len() {
        (
            ReaderModel::Finished,
            ProgressModel::Done {
                payload: got + data.subrange(0, missing),
                consumed: (missing + before) as nat,
            },
        )
    } else {
        (ReaderModel::Payload { size, got: got + data }, ProgressModel::NotYet)
    }
}

/// What reading `data` makes of a reader, and what it answers.
pub open spec fn read_model(state: ReaderModel, data: Seq<u8>) -> (ReaderModel, ProgressModel) {
    match state {
        ReaderModel::Start => if data.len() < 8 {
            (ReaderModel::Size(data), ProgressModel::NotYet)
        } else {
            read_payload(
                le_value(data.subrange(0, 8)),
                Seq::empty(),
                data.subrange(8, data.len() as int),
                8,
            )
        },
        ReaderModel::Size(known) => {
            let missing = 8 - known.len();
            if missing <= data.len() {
                read_payload(
                    le_value(known + data.subrange(0, missing)),
                    Seq::empty(),
                    data.subrange(missing, data.len() as int),
                    missing as nat,
                )
            } else {
                (ReaderModel::Size(known + data), ProgressModel::NotYet)
            }
        },
        ReaderModel::Payload { size, got } => read_payload(size, got, data, 0),
        ReaderModel::Finished => (ReaderModel::Finished, ProgressModel::Nop),
    }
}

impl CustomTypeReader {
    /// A reader that waits for the first byte of an argument.
    pub fn new() -> (r: Self)
        ensures
            r is Start,
            r@ == ReaderModel::Start,
            r.wf(),
            !r.finished(),
    {
        CustomTypeReader::Start
    }
}

impl SizeTypeReader for CustomTypeReader {
    open spec fn wf(&self) -> bool {
        match *self {
            // the bytes that are not known yet are zero
            CustomTypeReader::ReadingTgtSize { idx, bytes } => idx <= 8 && forall|i: int|
                idx <= i < 8 ==> #[trigger] bytes@[i] == 0,
            CustomTypeReader::Reading { target_size, payload } => payload@.len() <= target_size,
            _ => true,
        }
    }

    open spec fn finished(&self) -> bool {
        *self is Finished
    }

    fn read_reset(&mut self) -> (was_reset: bool)
        ensures
            was_reset ==> *final(self) is Start,
    {
        if !self.done() {
            return false;
        }
        *self = CustomTypeReader::Start;
        true
    }

    fn read(&mut self, data: &[u8]) -> (r: Result<ReadProgress, Error>)
        ensures
            r is Ok,
            (final(self)@, r->Ok_0@) == read_model(old(self)@, data@),
    {
        let mut state = CustomTypeReader::Finished;
        std::mem::swap(&mut state, self);
        let (newself, result) = match state {
            CustomTypeReader::Start => {
                let mut tgt_sz_buff = [0u8, 0, 0, 0, 0, 0, 0, 0];
                let ghost zeros = tgt_sz_buff@;
                let idx = take_num_into_slice(8, 0, &mut tgt_sz_buff, data);
                if idx == 8 {
                    assert(tgt_sz_buff@ =~= data@.subrange(0, 8));
                    let target_size = u64_from_le(&tgt_sz_buff);
                    perform_reading_stage(data, idx, target_size, Vec::new(), 8)
                } else {
                    assert(tgt_sz_buff@.subrange(0, idx as int) =~= data@);
                    assert forall|i: int| idx <= i < 8 implies #[trigger] tgt_sz_buff@[i] == 0 by {
                        assert(zeros[i] == 0);
                    }
                    (
                        CustomTypeReader::ReadingTgtSize { idx: idx as u8, bytes: tgt_sz_buff },
                        ReadProgress::NotYet,
                    )
                }
            },
            CustomTypeReader::ReadingTgtSize { idx, bytes } => {
                let uidx = idx as usize;
                let ghost before = bytes@;
                let ghost known = bytes@.subrange(0, idx as int);
                let mut bytes = bytes;
                let offs = take_num_into_slice(8 - uidx, uidx, &mut bytes, data);
                if offs == 8 {
                    assert(bytes@ =~= known + data@.subrange(0, 8 - idx));
                    let target_size = u64_from_le(&bytes);
                    perform_reading_stage(data, 8 - uidx, target_size, Vec::new(), 8 - uidx)
                } else {
                    assert(bytes@.subrange(0, offs as int) =~= known + data@);
                    assert forall|i: int| offs <= i < 8 implies #[trigger] bytes@[i] == 0 by {
                        assert(before[i] == 0);
                    }
                    (
                        CustomTypeReader::ReadingTgtSize { idx: offs as u8, bytes },
                        ReadProgress::NotYet,
                    )
                }
            },
            CustomTypeReader::Reading { target_size, payload } => perform_reading_stage(
                data,
                0,
                target_size,
                payload,
                0,
            ),
            CustomTypeReader::Finished => (CustomTypeReader::Finished, ReadProgress::Nop),
        };
        *self = newself;
        Ok(result)
    }

    fn done(&self) -> (b: bool) {
        matches!(self, CustomTypeReader::Finished)
    }
}

/// Reads payload bytes from `data`, from `offset` on. `previous_read` bytes of the
/// input were already used up.
fn perform_reading_stage(
    data: &[u8],
    offset: usize,
    target_size: u64,
    payload: Vec<u8>,
    previous_read: usize,
) -> (r: (CustomTypeReader, ReadProgress))
    requires
        offset <= data@.len(),
        previous_read <= offset,
        payload@.len() <= target_size,
    ensures
        (r.0@, r.1@) == read_payload(
            target_size as nat,
            payload@,
            data@.subrange(offset as int, data@.len() as int),
            previous_read as nat,
        ),
        r.0.wf(),
        r.0.finished() == (r.1 is Done),
        r.1 !is Nop,
        r.1 matches ReadProgress::Done { payload: p, consumed_bytes } ==> consumed_bytes
            <= data@.len(),
{
    let ghost before = payload@;
    let ghost rest = data@.subrange(offset as int, data@.len() as int);
    let mut payload = payload;
    let to_read = target_size - payload.len() as u64;
    let available = data.len() - offset;
    let taken: usize = if to_read <= available as u64 {
        to_read as usize
    } else {
        available
    };
    let mut i: usize = 0;
    while i < taken
        invariant
            i <= taken,
            taken <= available,
            available == data@.len() - offset,
            data@.len() <= usize::MAX,
            rest == data@.subrange(offset as int, data@.len() as int),
            payload@ =~= before + rest.subrange(0, i as int),
        decreases taken - i,
    {
        payload.push(data[offset + i]);
        i += 1;
    }
    if to_read <= available as u64 {
        (
            CustomTypeReader::Finished,
            ReadProgress::Done { payload, consumed_bytes: taken + previous_read },
        )
    } else {
        assert(rest.subrange(0, taken as int) =~= rest);
        (CustomTypeReader::Reading { target_size, payload }, ReadProgress::NotYet)
    }
}

/// An argument as it is sent: its length in 8 bytes, then its bytes.
pub open spec fn frame(payload: Seq<u8>) -> Seq<u8> {
    le_bytes(payload.len(), 8) + payload
}

/// The part of an argument that a reader has taken in.
pub open spec fn taken_in(state: ReaderModel) -> Seq<u8> {
    match state {
        ReaderModel::Start => Seq::empty(),
        ReaderModel::Size(known) => known,
        ReaderModel::Payload { size, got } => le_bytes(size, 8) + got,
        ReaderModel::Finished => Seq::empty(),
    }
}

/// A reader's state as it can arise.
pub open spec fn model_wf(state: ReaderModel) -> bool {
    match state {
        ReaderModel::Size(known) => known.len() < 8,
        ReaderModel::Payload { size, got } => got.len() < size < 0x1_0000_0000_0000_0000,
        _ => true,
    }
}

proof fn lemma_payload_after_size(head: Seq<u8>, rest: Seq<u8>)
    requires
        head.len() == 8,
    ensures
        ({
            let (next, progress) = read_payload(le_value(head), Seq::empty(), rest, 0);
            &&& model_wf(next)
            &&& match progress {
                ProgressModel::NotYet => next !is Finished && taken_in(next) == head + rest,
                ProgressModel::Done { payload, consumed } => next is Finished && payload.len()
                    < 0x1_0000_0000_0000_0000 && consumed <= rest.len() && frame(payload) == head
                    + rest.subrange(0, consumed as int),
                ProgressModel::Nop => false,
            }
        }),
{
    lemma_byte_ranges();
    lemma_le_value_bound(head);
    law_le_write_after_read(head);
    let size = le_value(head);
    if size <= rest.len() {
        let payload = rest.subrange(0, size as int);
        assert(Seq::<u8>::empty() + payload =~= payload);
    } else {
        assert(Seq::<u8>::empty() + rest =~= rest);
    }
}

/// No byte is lost: a piece that leaves the argument incomplete is taken in whole, and
/// what completes an argument are exactly the bytes counted as consumed.
pub proof fn law_read_loses_nothing(state: ReaderModel, piece: Seq<u8>)
    requires
        model_wf(state),
        state !is Finished,
    ensures
        ({
            let (next, progress) = read_model(state, piece);
            &&& model_wf(next)
            &&& match progress {
                ProgressModel::NotYet => next !is Finished && taken_in(next) == taken_in(state)
                    + piece,
                ProgressModel::Done { payload, consumed } => next is Finished && payload.len()
                    < 0x1_0000_0000_0000_0000 && consumed <= piece.len() && frame(payload) == taken_in(state) + piece.subrange(
                    0,
                    consumed as int,
                ),
                ProgressModel::Nop => false,
            }
        }),
{
    broadcast use vstd::seq_lib::group_seq_properties;

    lemma_byte_ranges();
    let (next, progress) = read_model(state, piece);
    match state {
        ReaderModel::Start => {
            if piece.len() >= 8 {
                let head = piece.subrange(0, 8);
                lemma_le_value_bound(head);
                law_le_write_after_read(head);
                let size = le_value(head);
                assert(piece =~= head + piece.subrange(8, piece.len() as int));
                lemma_payload_after_size(head, piece.subrange(8, piece.len() as int));
                if let ProgressModel::Done { payload, consumed } = progress {
                    assert(head + piece.subrange(8, piece.len() as int).subrange(0, consumed - 8)
                        =~= piece.subrange(0, consumed as int));
                }
            }
            assert(taken_in(state) + piece =~= piece);
            if let ProgressModel::Done { payload, consumed } = progress {
                assert(taken_in(state) + piece.subrange(0, consumed as int) =~= piece.subrange(
                    0,
                    consumed as int,
                ));
            }
        },
        ReaderModel::Size(known) => {
            let missing = 8 - known.len();
            if missing <= piece.len() {
                let head = known + piece.subrange(0, missing);
                let rest = piece.subrange(missing, piece.len() as int);
                lemma_le_value_bound(head);
                law_le_write_after_read(head);
                lemma_payload_after_size(head, rest);
                assert(head + rest =~= known + piece);
                if let ProgressModel::Done { payload, consumed } = progress {
                    assert(head + rest.subrange(0, consumed - missing) =~= known
                        + piece.subrange(0, consumed as int));
                }
            }
        },
        ReaderModel::Payload { size, got } => {
            lemma_le_bytes_len(size, 8);
            let missing = size - got.len();
            if missing <= piece.len() {
                let payload = got + piece.subrange(0, missing);
                assert(payload.len() == size);
                assert(frame(payload) =~= taken_in(state) + piece.subrange(0, missing));
            } else {
                assert(taken_in(next) =~= taken_in(state) + piece);
            }
        },
        ReaderModel::Finished => {},
    }
}

/// The bytes of all pieces in a row.
pub open spec fn joined(pieces: Seq<Seq<u8>>) -> Seq<u8>
    decreases pieces.len(),
{
    if pieces.len() == 0 {
        Seq::empty()
    } else {
        pieces[0] + joined(pieces.subrange(1, pieces.len() as int))
    }
}

/// Hands the pieces to a reader one by one, until one of them completes the argument.
pub open spec fn read_pieces(state: ReaderModel, pieces: Seq<Seq<u8>>) -> Option<Seq<u8>>
    decreases pieces.len(),
{
    if pieces.len() == 0 {
        None
    } else {
        let (next, progress) = read_model(state, pieces[0]);
        match progress {
            ProgressModel::Done { payload, consumed } => Some(payload),
            _ => read_pieces(next, pieces.subrange(1, pieces.len() as int)),
        }
    }
}

/// Where an argument ends is unambiguous: if the sent forms of two arguments, each followed by
/// anything, are the same bytes, then the arguments are the same, and so is what follows.
pub proof fn law_frame_is_unambiguous(a: Seq<u8>, b: Seq<u8>, after_a: Seq<u8>, after_b: Seq<u8>)
    requires
        a.len() < 0x1_0000_0000_0000_0000,
        b.len() < 0x1_0000_0000_0000_0000,
        frame(a) + after_a == frame(b) + after_b,
    ensures
        a == b,
        after_a == after_b,
{
    lemma_frame_parts(a, after_a);
    lemma_frame_parts(b, after_b);
}

proof fn lemma_frame_parts(payload: Seq<u8>, after: Seq<u8>)
    requires
        payload.len() < 0x1_0000_0000_0000_0000,
    ensures
        ({
            let sent = frame(payload) + after;
            let end = (8 + payload.len()) as int;
            &&& le_value(sent.subrange(0, 8)) == payload.len()
            &&& sent.subrange(8, end) == payload
            &&& sent.subrange(end, sent.len() as int) == after
        }),
{
    lemma_byte_ranges();
    lemma_le_bytes_len(payload.len(), 8);
    law_le_read_after_write(payload.len(), 8);
    let sent = frame(payload) + after;
    let end = (8 + payload.len()) as int;
    assert(sent.subrange(0, 8) =~= le_bytes(payload.len(), 8));
    assert(sent.subrange(8, end) =~= payload);
    assert(sent.subrange(end, sent.len() as int) =~= after);
}

/// However an argument is cut into pieces, the reader gives back its bytes.
pub proof fn law_reading_in_pieces(pieces: Seq<Seq<u8>>, payload: Seq<u8>, after: Seq<u8>)
    requires
        payload.len() < 0x1_0000_0000_0000_0000,
        joined(pieces) == frame(payload) + after,
    ensures
        read_pieces(ReaderModel::Start, pieces) == Some(payload),
{
    lemma_le_bytes_len(payload.len(), 8);
    assert(taken_in(ReaderModel::Start) + joined(pieces) =~= joined(pieces));
    lemma_reading_in_pieces(ReaderModel::Start, pieces, payload, after);
}

proof fn lemma_reading_in_pieces(
    state: ReaderModel,
    pieces: Seq<Seq<u8>>,
    payload: Seq<u8>,
    after: Seq<u8>,
)
    requires
        model_wf(state),
        state !is Finished,
        payload.len() < 0x1_0000_0000_0000_0000,
        taken_in(state) + joined(pieces) == frame(payload) + after,
        taken_in(state).len() < frame(payload).len(),
    ensures
        read_pieces(state, pieces) == Some(payload),
    decreases pieces.len(),
{
    lemma_byte_ranges();
    lemma_le_bytes_len(payload.len(), 8);
    let taken = taken_in(state);
    let sent = frame(payload) + after;
    assert(sent.len() == taken.len() + joined(pieces).len());
    assert(pieces.len() > 0);
    let first = pieces[0];
    let rest = pieces.subrange(1, pieces.len() as int);
    law_read_loses_nothing(state, first);
    let (next, progress) = read_model(state, first);
    assert(taken + joined(pieces) =~= (taken + first) + joined(rest));
    match progress {
        ProgressModel::Done { payload: read, consumed } => {
            let head = first.subrange(0, consumed as int);
            let tail = first.subrange(consumed as int, first.len() as int);
            assert(first =~= head + tail);
            assert((taken + first) + joined(rest) =~= (taken + head) + (tail + joined(rest)));
            law_frame_is_unambiguous(read, payload, tail + joined(rest), after);
        },
        _ => {
            if let ReaderModel::Payload { size, got } = next {
                lemma_le_bytes_len(size, 8);
                assert(taken_in(next).subrange(0, 8) =~= le_bytes(size, 8));
                assert(sent.subrange(0, 8) =~= le_bytes(payload.len(), 8));
                assert(sent.subrange(0, 8) =~= taken_in(next).subrange(0, 8));
                law_le_read_after_write(size, 8);
                law_le_read_after_write(payload.len(), 8);
                assert(size == payload.len());
            }
            lemma_reading_in_pieces(next, rest, payload, after);
        },
    }
}

} // verus!
