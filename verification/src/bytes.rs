//! Little-endian numbers.

use vstd::prelude::*;

verus! {

/// The number that `bytes` spells, least significant byte first.
pub open spec fn le_value(bytes: Seq<u8>) -> nat
    decreases bytes.len(),
{
    if bytes.len() == 0 {
        0
    } else {
        bytes[0] as nat + 256 * le_value(bytes.subrange(1, bytes.len() as int))
    }
}

/// The `len` lowest bytes of `value`, least significant byte first.
pub open spec fn le_bytes(value: nat, len: nat) -> Seq<u8>
    decreases len,
{
    if len == 0 {
        Seq::empty()
    } else {
        seq![(value % 256) as u8] + le_bytes(value / 256, (len - 1) as nat)
    }
}

/// The count of numbers that fit into `len` bytes.
pub open spec fn byte_range(len: nat) -> nat
    decreases len,
{
    if len == 0 {
        1
    } else {
        256 * byte_range((len - 1) as nat)
    }
}

/// The signed 32-bit number with the bit pattern of `value`.
pub open spec fn as_signed_32(value: nat) -> int {
    if value < 0x8000_0000 {
        value as int
    } else {
        value - 0x1_0000_0000
    }
}

/// Bytes written little-endian have the requested length.
pub proof fn lemma_le_bytes_len(value: nat, len: nat)
    ensures
        le_bytes(value, len).len() == len,
    decreases len,
{
    if len > 0 {
        lemma_le_bytes_len(value / 256, (len - 1) as nat);
    }
}

/// `n` bytes spell a number below `byte_range(n)`.
pub proof fn lemma_le_value_bound(bytes: Seq<u8>)
    ensures
        le_value(bytes) < byte_range(bytes.len()),
    decreases bytes.len(),
{
    if bytes.len() > 0 {
        lemma_le_value_bound(bytes.subrange(1, bytes.len() as int));
    }
}

/// `byte_range` at the widths that occur on the wire.
pub proof fn lemma_byte_ranges()
    ensures
        byte_range(2) == 0x1_0000,
        byte_range(4) == 0x1_0000_0000,
        byte_range(8) == 0x1_0000_0000_0000_0000,
{
    reveal_with_fuel(byte_range, 9);
}

/// Reading back what was written little-endian gives the number.
pub proof fn law_le_read_after_write(value: nat, len: nat)
    requires
        value < byte_range(len),
    ensures
        le_value(le_bytes(value, len)) == value,
    decreases len,
{
    lemma_le_bytes_len(value, len);
    if len > 0 {
        let rest = le_bytes(value / 256, (len - 1) as nat);
        law_le_read_after_write(value / 256, (len - 1) as nat);
        assert(le_bytes(value, len).subrange(1, len as int) =~= rest) by {
            lemma_le_bytes_len(value / 256, (len - 1) as nat);
        }
    }
}

/// Writing a number that was read little-endian gives back its bytes.
pub proof fn law_le_write_after_read(bytes: Seq<u8>)
    ensures
        le_bytes(le_value(bytes), bytes.len()) == bytes,
    decreases bytes.len(),
{
    if bytes.len() > 0 {
        let rest = bytes.subrange(1, bytes.len() as int);
        law_le_write_after_read(rest);
        let v = le_value(bytes);
        assert(v % 256 == bytes[0] as nat && v / 256 == le_value(rest));
        assert(le_bytes(v, bytes.len()) =~= bytes);
    } else {
        assert(le_bytes(le_value(bytes), 0) =~= bytes);
    }
}

/// `num_traits::FromBytes::from_le_bytes` for `u32`: the number whose
/// little-endian bytes are given.
#[verifier::external_body]
pub(crate) fn u32_from_le(bytes: &[u8; 4]) -> (value: u32)
    ensures
        value == le_value(bytes@),
{
    <u32 as num_traits::FromBytes>::from_le_bytes(bytes)
}

/// `num_traits::FromBytes::from_le_bytes` for `u64`: the number whose
/// little-endian bytes are given.
#[verifier::external_body]
pub(crate) fn u64_from_le(bytes: &[u8; 8]) -> (value: u64)
    ensures
        value == le_value(bytes@),
{
    <u64 as num_traits::FromBytes>::from_le_bytes(bytes)
}

/// A number that can be read from the start of little-endian bytes.
pub trait LeNumber: Sized {
    /// How many bytes the number takes.
    spec fn width() -> nat;

    /// The number that the bytes spell.
    spec fn from_le_spec(bytes: Seq<u8>) -> Self;

    /// How many bytes the number takes.
    fn byte_width() -> (n: usize)
        ensures
            n == Self::width(),
    ;

    /// The number that `bytes` spells.
    fn read_le(bytes: &[u8]) -> (value: Self)
        requires
            bytes@.len() == Self::width(),
        ensures
            value == Self::from_le_spec(bytes@),
    ;
}

impl LeNumber for u32 {
    open spec fn width() -> nat {
        4
    }

    open spec fn from_le_spec(bytes: Seq<u8>) -> u32 {
        le_value(bytes) as u32
    }

    fn byte_width() -> (n: usize) {
        4
    }

    fn read_le(bytes: &[u8]) -> (value: u32) {
        let array = [bytes[0], bytes[1], bytes[2], bytes[3]];
        assert(array@ =~= bytes@);
        u32_from_le(&array)
    }
}

impl LeNumber for u64 {
    open spec fn width() -> nat {
        8
    }

    open spec fn from_le_spec(bytes: Seq<u8>) -> u64 {
        le_value(bytes) as u64
    }

    fn byte_width() -> (n: usize) {
        8
    }

    fn read_le(bytes: &[u8]) -> (value: u64) {
        let array = [
            bytes[0],
            bytes[1],
            bytes[2],
            bytes[3],
            bytes[4],
            bytes[5],
            bytes[6],
            bytes[7],
        ];
        assert(array@ =~= bytes@);
        u64_from_le(&array)
    }
}

/// The four little-endian bytes of a number.
pub proof fn lemma_le_bytes_4(value: u32)
    ensures
        le_bytes(value as nat, 4) == seq![
            (value % 256) as u8,
            (value / 256 % 256) as u8,
            (value / 65536 % 256) as u8,
            (value / 16777216 % 256) as u8,
        ],
{
    reveal_with_fuel(le_bytes, 5);
    let v = value as nat;
    assert(v / 256 / 256 == v / 65536);
    assert(v / 256 / 256 / 256 == v / 16777216);
    assert(le_bytes(v, 4) =~= seq![
        (value % 256) as u8,
        (value / 256 % 256) as u8,
        (value / 65536 % 256) as u8,
        (value / 16777216 % 256) as u8,
    ]);
}

/// The four bytes of a number, least significant byte first.
pub fn u32_to_le(value: u32) -> (bytes: [u8; 4])
    ensures
        bytes@ == le_bytes(value as nat, 4),
{
    let bytes = [
        (value % 256) as u8,
        (value / 256 % 256) as u8,
        (value / 65536 % 256) as u8,
        (value / 16777216 % 256) as u8,
    ];
    proof {
        lemma_le_bytes_4(value);
        assert(bytes@ =~= le_bytes(value as nat, 4));
    }
    bytes
}

} // verus!
