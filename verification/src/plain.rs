//! Plain-data types: fixed-size integers read from little-endian bytes.

use vstd::prelude::*;
use vstd::arithmetic::div_mod::lemma_fundamental_div_mod_converse;

verus! {

/// The value of a byte sequence read as a little-endian integer.
pub open spec fn le_value(bytes: Seq<u8>) -> int
    decreases bytes.len(),
{
    if bytes.len() == 0 {
        0
    } else {
        bytes[0] + 256 * le_value(bytes.drop_first())
    }
}

/// The little-endian image of `v` in `n` bytes.
pub open spec fn le_bytes(v: int, n: nat) -> Seq<u8>
    decreases n,
{
    if n == 0 {
        Seq::empty()
    } else {
        seq![(v % 256) as u8] + le_bytes(v / 256, (n - 1) as nat)
    }
}

/// `256` to the power `n`: the number of values that `n` bytes can hold.
pub open spec fn pow256(n: nat) -> int
    decreases n,
{
    if n == 0 {
        1
    } else {
        256 * pow256((n - 1) as nat)
    }
}

/// The value of `n` bytes lies in `0 .. pow256(n)`.
pub proof fn lemma_le_value_bound(bytes: Seq<u8>)
    ensures
        0 <= le_value(bytes) < pow256(bytes.len()),
    decreases bytes.len(),
{
    if bytes.len() > 0 {
        lemma_le_value_bound(bytes.drop_first());
    }
}

/// `le_bytes` always produces exactly `n` bytes.
pub proof fn lemma_le_bytes_len(v: int, n: nat)
    ensures
        le_bytes(v, n).len() == n,
    decreases n,
{
    if n > 0 {
        lemma_le_bytes_len(v / 256, (n - 1) as nat);
    }
}

/// Writing back the value of a byte sequence recovers the bytes: the
/// little-endian image of `le_value(bytes)` in `bytes.len()` bytes is
/// `bytes` itself.
pub proof fn lemma_le_bytes_of_le_value(bytes: Seq<u8>)
    ensures
        le_bytes(le_value(bytes), bytes.len()) == bytes,
    decreases bytes.len(),
{
    if bytes.len() == 0 {
        assert(le_bytes(le_value(bytes), bytes.len()) =~= bytes);
    } else {
        let tail = bytes.drop_first();
        let v = le_value(bytes);
        lemma_le_value_bound(tail);
        lemma_fundamental_div_mod_converse(v, 256, le_value(tail), bytes[0] as int);
        lemma_le_bytes_of_le_value(tail);
        assert(le_bytes(v, bytes.len()) =~= bytes);
    }
}

/// A fixed-size plain-data type: every byte pattern of the right size is a
/// value, and the value determines its bytes. Implemented by the unsigned
/// integer types, which stand in for any fixed-layout field.
pub trait PlainData: Sized + Copy {
    /// The size of the type in bytes.
    spec fn spec_size() -> nat;

    /// The value that a byte sequence of that size stands for.
    spec fn spec_from_le(bytes: Seq<u8>) -> Self;

    /// The little-endian byte image of a value.
    spec fn spec_to_le(self) -> Seq<u8>;

    /// A value's byte image has exactly the type's size.
    proof fn lemma_to_le_len(v: Self)
        ensures
            v.spec_to_le().len() == Self::spec_size(),
    ;

    /// Reading a value from bytes and writing it back gives the same bytes.
    proof fn lemma_from_to_le(bytes: Seq<u8>)
        requires
            bytes.len() == Self::spec_size(),
        ensures
            Self::spec_from_le(bytes).spec_to_le() == bytes,
    ;

    /// Returns the size of the type in bytes.
    fn size() -> (n: usize)
        ensures
            n == Self::spec_size(),
            0 < n,
    ;

    /// Returns the value that `bytes` holds, read little-endian.
    fn from_le(bytes: &[u8]) -> (v: Self)
        requires
            bytes@.len() == Self::spec_size(),
        ensures
            v == Self::spec_from_le(bytes@),
    ;
}

impl PlainData for u8 {
    open spec fn spec_size() -> nat {
        1
    }

    open spec fn spec_from_le(bytes: Seq<u8>) -> u8 {
        le_value(bytes) as u8
    }

    open spec fn spec_to_le(self) -> Seq<u8> {
        le_bytes(self as int, 1)
    }

    proof fn lemma_to_le_len(v: u8) {
        lemma_le_bytes_len(v as int, 1);
    }

    proof fn lemma_from_to_le(bytes: Seq<u8>) {
        lemma_le_value_bound(bytes);
        assert(pow256(1) == 0x100) by {
            reveal_with_fuel(pow256, 2);
        }
        lemma_le_bytes_of_le_value(bytes);
    }

    fn size() -> usize {
        1
    }

    fn from_le(bytes: &[u8]) -> (v: u8) {
        proof {
            assert(le_value(bytes@.drop_first()) == 0);
        }
        bytes[0]
    }
}

impl PlainData for u16 {
    open spec fn spec_size() -> nat {
        2
    }

    open spec fn spec_from_le(bytes: Seq<u8>) -> u16 {
        le_value(bytes) as u16
    }

    open spec fn spec_to_le(self) -> Seq<u8> {
        le_bytes(self as int, 2)
    }

    proof fn lemma_to_le_len(v: u16) {
        lemma_le_bytes_len(v as int, 2);
    }

    proof fn lemma_from_to_le(bytes: Seq<u8>) {
        lemma_le_value_bound(bytes);
        assert(pow256(2) == 0x10000) by {
            reveal_with_fuel(pow256, 3);
        }
        lemma_le_bytes_of_le_value(bytes);
    }

    fn size() -> usize {
        2
    }

    fn from_le(bytes: &[u8]) -> (v: u16) {
        let b0 = bytes[0] as u16;
        let b1 = bytes[1] as u16;
        proof {
            let s = bytes@;
            let s1 = s.drop_first();
            let s2 = s1.drop_first();
            assert(le_value(s2) == 0);
            assert(le_value(s1) == s[1]);
            assert(le_value(s) == s[0] + 0x100 * s[1]);
        }
        b0 + b1 * 0x100
    }
}

impl PlainData for u32 {
    open spec fn spec_size() -> nat {
        4
    }

    open spec fn spec_from_le(bytes: Seq<u8>) -> u32 {
        le_value(bytes) as u32
    }

    open spec fn spec_to_le(self) -> Seq<u8> {
        le_bytes(self as int, 4)
    }

    proof fn lemma_to_le_len(v: u32) {
        lemma_le_bytes_len(v as int, 4);
    }

    proof fn lemma_from_to_le(bytes: Seq<u8>) {
        lemma_le_value_bound(bytes);
        assert(pow256(4) == 0x1_0000_0000) by {
            reveal_with_fuel(pow256, 5);
        }
        lemma_le_bytes_of_le_value(bytes);
    }

    fn size() -> usize {
        4
    }

    fn from_le(bytes: &[u8]) -> (v: u32) {
        let b0 = bytes[0] as u32;
        let b1 = bytes[1] as u32;
        let b2 = bytes[2] as u32;
        let b3 = bytes[3] as u32;
        proof {
            let s = bytes@;
            let s1 = s.drop_first();
            let s2 = s1.drop_first();
            let s3 = s2.drop_first();
            let s4 = s3.drop_first();
            assert(le_value(s4) == 0);
            assert(le_value(s3) == s[3]);
            assert(le_value(s2) == s[2] + 0x100 * s[3]);
            assert(le_value(s1) == s[1] + 0x100 * s[2] + 0x1_0000 * s[3]);
            assert(le_value(s) == s[0] + 0x100 * s[1] + 0x1_0000 * s[2] + 0x100_0000 * s[3]);
        }
        b0 + b1 * 0x100 + b2 * 0x1_0000 + b3 * 0x100_0000
    }
}

impl PlainData for u64 {
    open spec fn spec_size() -> nat {
        8
    }

    open spec fn spec_from_le(bytes: Seq<u8>) -> u64 {
        le_value(bytes) as u64
    }

    open spec fn spec_to_le(self) -> Seq<u8> {
        le_bytes(self as int, 8)
    }

    proof fn lemma_to_le_len(v: u64) {
        lemma_le_bytes_len(v as int, 8);
    }

    proof fn lemma_from_to_le(bytes: Seq<u8>) {
        lemma_le_value_bound(bytes);
        assert(pow256(8) == 0x1_0000_0000_0000_0000) by {
            reveal_with_fuel(pow256, 9);
        }
        lemma_le_bytes_of_le_value(bytes);
    }

    fn size() -> usize {
        8
    }

    fn from_le(bytes: &[u8]) -> (v: u64) {
        let b0 = bytes[0] as u64;
        let b1 = bytes[1] as u64;
        let b2 = bytes[2] as u64;
        let b3 = bytes[3] as u64;
        let b4 = bytes[4] as u64;
        let b5 = bytes[5] as u64;
        let b6 = bytes[6] as u64;
        let b7 = bytes[7] as u64;
        proof {
            let s = bytes@;
            let s1 = s.drop_first();
            let s2 = s1.drop_first();
            let s3 = s2.drop_first();
            let s4 = s3.drop_first();
            let s5 = s4.drop_first();
            let s6 = s5.drop_first();
            let s7 = s6.drop_first();
            let s8 = s7.drop_first();
            assert(le_value(s8) == 0);
            assert(le_value(s7) == s[7]);
            assert(le_value(s6) == s[6] + 0x100 * s[7]);
            assert(le_value(s5) == s[5] + 0x100 * s[6] + 0x1_0000 * s[7]);
            assert(le_value(s4) == s[4] + 0x100 * s[5] + 0x1_0000 * s[6] + 0x100_0000 * s[7]);
            assert(le_value(s3) == s[3] + 0x100 * s[4] + 0x1_0000 * s[5] + 0x100_0000 * s[6]
                + 0x1_0000_0000 * s[7]);
            assert(le_value(s2) == s[2] + 0x100 * s[3] + 0x1_0000 * s[4] + 0x100_0000 * s[5]
                + 0x1_0000_0000 * s[6] + 0x100_0000_0000 * s[7]);
            assert(le_value(s1) == s[1] + 0x100 * s[2] + 0x1_0000 * s[3] + 0x100_0000 * s[4]
                + 0x1_0000_0000 * s[5] + 0x100_0000_0000 * s[6] + 0x1_0000_0000_0000 * s[7]);
            assert(le_value(s) == s[0] + 0x100 * s[1] + 0x1_0000 * s[2] + 0x100_0000 * s[3]
                + 0x1_0000_0000 * s[4] + 0x100_0000_0000 * s[5] + 0x1_0000_0000_0000 * s[6]
                + 0x100_0000_0000_0000 * s[7]);
        }
        b0 + b1 * 0x100 + b2 * 0x1_0000 + b3 * 0x100_0000 + b4 * 0x1_0000_0000 + b5
            * 0x100_0000_0000 + b6 * 0x1_0000_0000_0000 + b7 * 0x100_0000_0000_0000
    }
}

} // verus!
