//! Read and write access to logical buffers.

use crate::bytes::law_le_read_after_write;
use crate::bytes::le_bytes;
use crate::bytes::le_value;
use crate::bytes::lemma_byte_ranges;
use crate::bytes::lemma_le_bytes_len;
use crate::bytes::u32_to_le;
use crate::bytes::LeNumber;
use crate::error::Error;
use vstd::prelude::*;

verus! {

/// a uniquely-typed wrapper around a start pointer to a logical buffer
/// which points to a valid size field
pub struct BufferStartPtr<'a> {
    ptr: ReadOnlyBufferPtr<'a>,
}

impl<'a> View for BufferStartPtr<'a> {
    type V = Seq<u8>;

    closed spec fn view(&self) -> Seq<u8> {
        self.ptr@
    }
}

/// The size that the first four bytes of a logical buffer give for its payload.
pub open spec fn declared_size(buffer: Seq<u8>) -> nat {
    le_value(buffer.subrange(0, 4))
}

/// The payload that a logical buffer declares lies within it.
pub open spec fn payload_fits(buffer: Seq<u8>) -> bool {
    buffer.len() >= 4 && declared_size(buffer) <= buffer.len() - 4
}

/// The payload of a logical buffer.
pub open spec fn payload_of(buffer: Seq<u8>) -> Seq<u8> {
    buffer.subrange(4, 4 + declared_size(buffer) as int)
}

impl<'a> BufferStartPtr<'a> {
    /// The start of the logical buffer `slice`. Refused if nothing can follow the size field.
    pub fn new(slice: &'a [u8]) -> (r: Result<Self, Error>)
        ensures
            r is Ok <==> slice@.len() > 4,
            r matches Ok(start) ==> start@ == slice@,
            r matches Err(e) ==> e == Error::NoSpaceForLength,
    {
        if slice.len() > 4 {
            Ok(BufferStartPtr { ptr: ReadOnlyBufferPtr::new(slice) })
        } else {
            Err(Error::NoSpaceForLength)
        }
    }

    /// Whether [`Self::shift_init_data`] can be called.
    pub fn payload_fits(&self) -> (b: bool)
        ensures
            b == payload_fits(self@),
    {
        let mut ahead = ReadOnlyBufferPtr::new(self.ptr.as_slice());
        match ahead.unaligned_shift_num_read::<u32>() {
            Ok(size) => {
                proof {
                    lemma_declared_size(self@);
                }
                size as usize <= ahead.len()
            },
            Err(_) => false,
        }
    }

    /// read the size field and return a buffer that supports reading of data
    pub fn shift_init_data(self) -> (r: Result<ReadOnlyBufferPtr<'a>, Error>)
        requires
            payload_fits(self@),
        ensures
            r matches Ok(buffer) && buffer@ == payload_of(self@),
    {
        let mut ptr = self.ptr;
        let ghost buffer = ptr@;
        match ptr.unaligned_shift_num_read::<u32>() {
            Ok(valid_size) => {
                proof {
                    lemma_declared_size(buffer);
                    assert(ptr@.subrange(0, valid_size as int) =~= payload_of(buffer));
                }
                Ok(ptr.constrain(valid_size as usize))
            },
            Err(e) => Err(e),
        }
    }
}

proof fn lemma_declared_size(buffer: Seq<u8>)
    requires
        buffer.len() >= 4,
    ensures
        declared_size(buffer) == u32::from_le_spec(buffer.subrange(0, 4)),
{
    lemma_byte_ranges();
    crate::bytes::lemma_le_value_bound(buffer.subrange(0, 4));
}

/// What the application writes into a buffer is what is taken out of it: behind the length of the
/// message come the bytes of the message, all of them and nothing of what is left behind them.
pub proof fn law_written_message_is_taken_out(message: Seq<u8>, left_over: Seq<u8>)
    requires
        message.len() < 0x1_0000_0000,
    ensures
        payload_fits(le_bytes(message.len(), 4) + message + left_over),
        payload_of(le_bytes(message.len(), 4) + message + left_over) == message,
{
    lemma_byte_ranges();
    lemma_le_bytes_len(message.len(), 4);
    law_le_read_after_write(message.len(), 4);
    let buffer = le_bytes(message.len(), 4) + message + left_over;
    assert(buffer.subrange(0, 4) =~= le_bytes(message.len(), 4));
    assert(payload_of(buffer) =~= message);
}

/// A message that is claimed to be longer than the buffer has room for is not taken out.
pub proof fn law_overlong_message_does_not_fit(claimed: nat, room: Seq<u8>)
    requires
        room.len() < claimed < 0x1_0000_0000,
    ensures
        !payload_fits(le_bytes(claimed, 4) + room),
{
    lemma_byte_ranges();
    lemma_le_bytes_len(claimed, 4);
    law_le_read_after_write(claimed, 4);
    let buffer = le_bytes(claimed, 4) + room;
    assert(buffer.subrange(0, 4) =~= le_bytes(claimed, 4));
}

/// a uniquely-typed wrapper around a logical buffer's inner data
pub struct ReadOnlyBufferPtr<'a> {
    slice: &'a [u8],
}

impl<'a> View for ReadOnlyBufferPtr<'a> {
    type V = Seq<u8>;

    closed spec fn view(&self) -> Seq<u8> {
        self.slice@
    }
}

impl<'a> ReadOnlyBufferPtr<'a> {
    /// How many bytes are left to read.
    pub fn len(&self) -> (n: usize)
        ensures
            n == self@.len(),
    {
        self.slice.len()
    }

    /// Whether no bytes are left to read.
    pub fn empty(&self) -> (b: bool)
        ensures
            b == (self@.len() == 0),
    {
        self.len() == 0
    }

    /// The first `max_size` bytes.
    pub fn constrain(self, max_size: usize) -> (r: Self)
        requires
            max_size <= self@.len(),
        ensures
            r@ == self@.subrange(0, max_size as int),
    {
        Self::new(self.slice.split_at(max_size).0)
    }

    /// All bytes of `slice`, to be read.
    pub fn new(slice: &'a [u8]) -> (r: Self)
        ensures
            r@ == slice@,
    {
        ReadOnlyBufferPtr { slice }
    }

    /// Passes over `offset` bytes.
    pub fn shift(&mut self, offset: usize)
        requires
            offset <= old(self)@.len(),
        ensures
            final(self)@ == old(self)@.subrange(offset as int, old(self)@.len() as int),
    {
        self.slice = self.slice.split_at(offset).1;
    }

    /// splits the underlying slice at offset, returning the first part
    /// if successful (and shifting the underlying slice to the second part)
    pub fn shift_split(&mut self, size: usize) -> (r: Result<&'a [u8], Error>)
        ensures
            r is Ok <==> size <= old(self)@.len(),
            r matches Ok(first) ==> first@ == old(self)@.subrange(0, size as int) && final(self)@
                == old(self)@.subrange(size as int, old(self)@.len() as int),
            r matches Err(e) ==> e == Error::NotEnoughBytes && final(self)@ == old(self)@,
    {
        if size > self.slice.len() {
            return Err(Error::NotEnoughBytes);
        }
        let (first, rest) = self.slice.split_at(size);
        self.slice = rest;
        Ok(first)
    }

    /// performs an unaligned read of bytes into a numerical value
    pub fn unaligned_shift_num_read<S: LeNumber>(&mut self) -> (r: Result<S, Error>)
        ensures
            r is Ok <==> S::width() <= old(self)@.len(),
            r matches Ok(value) ==> value == S::from_le_spec(
                old(self)@.subrange(0, S::width() as int),
            ) && final(self)@ == old(self)@.subrange(S::width() as int, old(self)@.len() as int),
            r matches Err(e) ==> e == Error::NotEnoughBytes && final(self)@ == old(self)@,
    {
        match self.shift_split(S::byte_width()) {
            Ok(bytes) => Ok(S::read_le(bytes)),
            Err(e) => Err(e),
        }
    }

    /// The bytes that are left to read.
    pub fn as_slice(&self) -> (r: &'a [u8])
        ensures
            r@ == self@,
    {
        self.slice
    }
}

/// A buffer that was handed out for reading.
pub struct BorrowedReadBuffer<'a> {
    pub buffer: ReadOnlyBufferPtr<'a>,
}

/// A position in shared memory that one number can be written to.
pub struct BorrowedOneshotWritePtr {
    offset: usize,
}

impl BorrowedOneshotWritePtr {
    /// Where the number goes.
    pub closed spec fn position(&self) -> nat {
        self.offset as nat
    }

    /// The position `offset` of a memory that itself starts at a multiple of four. Refused
    /// unless the position is a multiple of four too.
    pub fn at(offset: usize) -> (r: Result<Self, Error>)
        ensures
            r is Ok <==> offset % 4 == 0,
            r matches Ok(ptr) ==> ptr.position() == offset,
            r matches Err(e) ==> e == Error::UnalignedOffset,
    {
        if offset % 4 == 0 {
            Ok(BorrowedOneshotWritePtr { offset })
        } else {
            Err(Error::UnalignedOffset)
        }
    }

    /// Writes `value` and uses the position up.
    pub fn write(self, mem: &mut [u8], value: u32)
        requires
            self.position() + 4 <= old(mem)@.len(),
        ensures
            final(mem)@ == old(mem)@.subrange(0, self.position() as int) + le_bytes(
                value as nat,
                4,
            ) + old(mem)@.subrange(self.position() as int + 4, old(mem)@.len() as int),
    {
        let i = self.offset;
        let bytes = u32_to_le(value);
        mem[i] = bytes[0];
        mem[i + 1] = bytes[1];
        mem[i + 2] = bytes[2];
        mem[i + 3] = bytes[3];
        proof {
            assert(final(mem)@ =~= old(mem)@.subrange(0, i as int) + bytes@ + old(mem)@.subrange(
                i + 4,
                old(mem)@.len() as int,
            ));
        }
    }
}

} // verus!
