//! Which pieces a peer has, one bit to a piece, the first piece in the highest bit of the first
//! byte.

use crate::buffers::{bytes_as_slice, bytes_content, bytes_into_vec};
use crate::text::{joined, number, number_text};
use bytes::Bytes;
use vstd::prelude::*;
use vstd::string::*;

verus! {

/// Why a bitfield does not fit a torrent.
#[derive(Debug, Clone, Copy, PartialEq, Eq, Structural)]
pub enum BitfieldError {
    /// There are fewer bytes than the number of pieces needs.
    InvalidLength { expected_len: usize, actual_len: usize },
    /// A bit behind the last piece is set.
    NonZeroSpareBits,
}

impl BitfieldError {
    /// What the error reads like.
    pub open spec fn reads(self) -> Seq<char> {
        match self {
            BitfieldError::InvalidLength { expected_len, actual_len } => "Invalid Length expected"@
                + number_text(expected_len as nat) + ", got "@ + number_text(actual_len as nat),
            BitfieldError::NonZeroSpareBits => "Non zero spare bits"@,
        }
    }

    /// What the error reads like
    pub fn message(&self) -> (r: String)
        ensures
            r@ == self.reads(),
    {
        match self {
            BitfieldError::InvalidLength { expected_len, actual_len } => joined(
                "Invalid Length expected",
                number(*expected_len as u64).as_str(),
            ).concat(", got ").concat(number(*actual_len as u64).as_str()),
            BitfieldError::NonZeroSpareBits => String::from_str("Non zero spare bits"),
        }
    }
}

/// The bits of the pieces that are there.
#[derive(Debug, Clone, PartialEq, Eq)]
pub struct Bitfield {
    pub inner: Vec<u8>,
    pub num_pieces: usize,
}

/// Whether bit `k` of a byte is set, the highest bit being bit 0.
pub open spec fn byte_bit(b: u8, k: int) -> bool {
    b & (128u8 >> (k as u8)) != 0
}

/// Whether bit `i` of a byte string is set.
pub open spec fn bit(bytes: Seq<u8>, i: int) -> bool {
    byte_bit(bytes[i / 8], i % 8)
}

/// All bits of a byte string.
pub open spec fn bits(bytes: Seq<u8>) -> Seq<bool> {
    Seq::new(8 * bytes.len(), |i: int| bit(bytes, i))
}

/// How many bytes hold `n` bits.
pub open spec fn bytes_needed(n: int) -> int {
    (n + 7) / 8
}

/// Whether no bit at or behind `n` is set.
pub open spec fn spare_clear(bytes: Seq<u8>, n: int) -> bool {
    forall|i: int| n <= i < 8 * bytes.len() ==> !#[trigger] bit(bytes, i)
}

/// What a bitfield of the given bytes is worth for a torrent of `n` pieces.
pub open spec fn bitfield_verdict(bytes: Seq<u8>, n: usize) -> Result<(), BitfieldError> {
    if bytes.len() < bytes_needed(n as int) {
        Err(
            BitfieldError::InvalidLength {
                expected_len: bytes_needed(n as int) as usize,
                actual_len: bytes.len() as usize,
            },
        )
    } else if !spare_clear(bytes, n as int) {
        Err(BitfieldError::NonZeroSpareBits)
    } else {
        Ok(())
    }
}

impl Bitfield {
    /// Whether the bytes are those of a bitfield for `num_pieces` pieces.
    pub open spec fn wf(&self) -> bool {
        &&& self.inner.len() >= bytes_needed(self.num_pieces as int)
        &&& spare_clear(self.inner@, self.num_pieces as int)
    }

    /// Whether piece `i` is there.
    pub open spec fn holds(&self, i: int) -> bool {
        bit(self.inner@, i)
    }

    /// All bits, spare ones too.
    pub open spec fn bits(&self) -> Seq<bool> {
        bits(self.inner@)
    }
}

proof fn single_bit_of_byte(b: u8, k: u8)
    by (bit_vector)
    requires
        k < 8,
    ensures
        (b | (128u8 >> k)) & (128u8 >> k) != 0,
        forall|j: u8| j < 8 && j != k ==> ((b | (128u8 >> k)) & #[trigger] (128u8 >> j) != 0) == (b
            & (128u8 >> j) != 0),
{
}

proof fn spare_bits_of_byte(b: u8, r: u8)
    by (bit_vector)
    requires
        0 < r < 8,
    ensures
        1u8 << ((8 - r) as u8) >= 1,
        b & (((1u8 << ((8 - r) as u8)) - 1) as u8) == 0 ==> forall|k: u8|
            r <= k < 8 ==> b & #[trigger] (128u8 >> k) == 0,
        b & (((1u8 << ((8 - r) as u8)) - 1) as u8) != 0 ==> (r <= 1 && b & (128u8 >> 1u8) != 0) || (r
            <= 2 && b & (128u8 >> 2u8) != 0) || (r <= 3 && b & (128u8 >> 3u8) != 0) || (r <= 4 && b
            & (128u8 >> 4u8) != 0) || (r <= 5 && b & (128u8 >> 5u8) != 0) || (r <= 6 && b & (128u8
            >> 6u8) != 0) || (r <= 7 && b & (128u8 >> 7u8) != 0),
{
}

proof fn cut_bits_of_byte(b: u8, r: u8)
    by (bit_vector)
    requires
        0 < r < 8,
    ensures
        forall|k: u8|
            k < 8 ==> ((b & (255u8 << ((8 - r) as u8))) & #[trigger] (128u8 >> k) != 0) == (k < r && b
                & (128u8 >> k) != 0),
{
}

proof fn zero_byte_has_no_bit(k: u8)
    by (bit_vector)
    ensures
        0u8 & (128u8 >> k) == 0,
{
}

proof fn nonzero_byte_has_a_bit(b: u8)
    by (bit_vector)
    requires
        b != 0,
    ensures
        b & (128u8 >> 0u8) != 0 || b & (128u8 >> 1u8) != 0 || b & (128u8 >> 2u8) != 0 || b & (128u8
            >> 3u8) != 0 || b & (128u8 >> 4u8) != 0 || b & (128u8 >> 5u8) != 0 || b & (128u8 >> 6u8)
            != 0 || b & (128u8 >> 7u8) != 0,
{
}

/// How many bytes hold `n` bits.
pub fn div_ceil_8(n: usize) -> (r: usize)
    ensures
        r == bytes_needed(n as int),
{
    if n % 8 == 0 {
        n / 8
    } else {
        n / 8 + 1
    }
}

/// Whether no bit at or behind `n` is set, where the bytes suffice for `n` bits.
fn spare_bits_clear(bytes: &[u8], n: usize) -> (r: bool)
    requires
        bytes.len() >= bytes_needed(n as int),
    ensures
        r == spare_clear(bytes@, n as int),
{
    let expected: usize = div_ceil_8(n);
    let last_bits: usize = n % 8;
    if last_bits != 0 {
        let last: u8 = bytes[expected - 1];
        proof {
            spare_bits_of_byte(last, last_bits as u8);
        }
        let mask: u8 = (1u8 << ((8 - last_bits) as u8)) - 1;
        if last & mask != 0 {
            proof {
                let k: u8 = if last_bits <= 1 && last & (128u8 >> 1u8) != 0 {
                    1
                } else if last_bits <= 2 && last & (128u8 >> 2u8) != 0 {
                    2
                } else if last_bits <= 3 && last & (128u8 >> 3u8) != 0 {
                    3
                } else if last_bits <= 4 && last & (128u8 >> 4u8) != 0 {
                    4
                } else if last_bits <= 5 && last & (128u8 >> 5u8) != 0 {
                    5
                } else if last_bits <= 6 && last & (128u8 >> 6u8) != 0 {
                    6
                } else {
                    7
                };
                let i = 8 * (expected - 1) + k;
                assert(i / 8 == expected - 1 && i % 8 == k);
                assert(bit(bytes@, i));
            }
            return false;
        }
    }
    let mut j: usize = expected;
    while j < bytes.len()
        invariant
            expected <= j <= bytes.len(),
            expected == bytes_needed(n as int),
            forall|m: int| expected <= m < j ==> bytes[m] == 0,
        decreases bytes.len() - j,
    {
        if bytes[j] != 0 {
            proof {
                let b = bytes[j as int];
                nonzero_byte_has_a_bit(b);
                let k: u8 = if b & (128u8 >> 0u8) != 0 {
                    0
                } else if b & (128u8 >> 1u8) != 0 {
                    1
                } else if b & (128u8 >> 2u8) != 0 {
                    2
                } else if b & (128u8 >> 3u8) != 0 {
                    3
                } else if b & (128u8 >> 4u8) != 0 {
                    4
                } else if b & (128u8 >> 5u8) != 0 {
                    5
                } else if b & (128u8 >> 6u8) != 0 {
                    6
                } else {
                    7
                };
                let i = 8 * j + k;
                assert(i / 8 == j && i % 8 == k);
                assert(bit(bytes@, i));
            }
            return false;
        }
        j = j + 1;
    }
    proof {
        assert forall|i: int| n <= i < 8 * bytes@.len() implies !#[trigger] bit(bytes@, i) by {
            if i / 8 >= expected {
                zero_byte_has_no_bit((i % 8) as u8);
            } else {
                assert(i / 8 == expected - 1);
                assert(i % 8 >= last_bits);
                let k = (i % 8) as u8;
                assert(bytes[i / 8] & (128u8 >> k) == 0);
            }
        }
    }
    true
}

impl Bitfield {
    /// Constructs an empty bitfield
    pub fn new() -> (r: Self)
        ensures
            r.wf(),
            r.num_pieces == 0,
            r.inner@ == Seq::<u8>::empty(),
    {
        Self { inner: Vec::new(), num_pieces: 0 }
    }

    /// constructs a bitfield with given size
    pub fn with_size(num_pieces: usize) -> (r: Self)
        ensures
            r.wf(),
            r.num_pieces == num_pieces,
            r.inner.len() == bytes_needed(num_pieces as int),
            forall|i: int| 0 <= i < 8 * r.inner.len() ==> !#[trigger] r.holds(i),
    {
        let nbytes: usize = div_ceil_8(num_pieces);
        let inner: Vec<u8> = vec![0u8; nbytes];
        proof {
            assert forall|i: int| 0 <= i < 8 * inner@.len() implies !#[trigger] bit(inner@, i) by {
                zero_byte_has_no_bit((i % 8) as u8);
            }
        }
        Self { inner, num_pieces }
    }

    /// constructs a bitfield of the given size in which every piece is there
    pub fn with_all_set(num_pieces: usize) -> (r: Self)
        ensures
            r.wf(),
            r.num_pieces == num_pieces,
            r.inner.len() == bytes_needed(num_pieces as int),
            forall|i: int| 0 <= i < 8 * r.inner.len() ==> #[trigger] r.holds(i) == (i < num_pieces),
    {
        let mut r = Self::with_size(num_pieces);
        let mut k: usize = 0;
        while k < num_pieces
            invariant
                k <= num_pieces,
                r.num_pieces == num_pieces,
                r.inner.len() == bytes_needed(num_pieces as int),
                forall|i: int| 0 <= i < 8 * r.inner.len() ==> #[trigger] r.holds(i) == (i < k),
            decreases num_pieces - k,
        {
            r.set(k);
            k = k + 1;
        }
        proof {
            assert forall|i: int| num_pieces <= i < 8 * r.inner@.len() implies !#[trigger] bit(
                r.inner@,
                i,
            ) by {
                assert(!r.holds(i));
            }
        }
        r
    }

    /// Takes a peer's bytes as the bitfield of a torrent of `num_pieces` pieces, where there are
    /// enough of them and no spare bit is set.
    pub fn from_bytes_checked(payload: Bytes, num_pieces: usize) -> (r: Result<
        Self,
        BitfieldError,
    >)
        ensures
            match r {
                Ok(b) => {
                    &&& bitfield_verdict(bytes_content(payload), num_pieces) is Ok
                    &&& b.inner@ == bytes_content(payload)
                    &&& b.num_pieces == num_pieces
                    &&& b.wf()
                },
                Err(e) => bitfield_verdict(bytes_content(payload), num_pieces) == Err::<
                    (),
                    BitfieldError,
                >(e),
            },
    {
        let bytes = bytes_as_slice(&payload);
        let expected: usize = div_ceil_8(num_pieces);
        if bytes.len() < expected {
            return Err(
                BitfieldError::InvalidLength { expected_len: expected, actual_len: bytes.len() },
            );
        }
        if !spare_bits_clear(bytes, num_pieces) {
            return Err(BitfieldError::NonZeroSpareBits);
        }
        Ok(Self { inner: bytes_into_vec(payload), num_pieces })
    }

    /// Construct a bitfield from payload without checking internal checking
    /// We MUST have to call check of validate to verify the bitfield was not malformed
    pub fn from_bytes_unchecked(payload: Bytes) -> (r: Self)
        ensures
            r.inner@ == bytes_content(payload),
            r.num_pieces == 0,
    {
        Self { inner: bytes_into_vec(payload), num_pieces: 0 }
    }

    /// Validate an unchecked bitfield to the expected num_pieces
    pub fn validate(&mut self, num_pieces: usize) -> (r: Result<(), BitfieldError>)
        ensures
            r == bitfield_verdict(old(self).inner@, num_pieces),
            final(self).inner@ == old(self).inner@,
            final(self).num_pieces == if r is Ok {
                num_pieces
            } else {
                old(self).num_pieces
            },
            r is Ok ==> final(self).wf(),
    {
        let expected: usize = div_ceil_8(num_pieces);
        if self.inner.len() < expected {
            return Err(
                BitfieldError::InvalidLength { expected_len: expected, actual_len: self.inner.len() },
            );
        }
        if !spare_bits_clear(self.inner.as_slice(), num_pieces) {
            return Err(BitfieldError::NonZeroSpareBits);
        }
        self.num_pieces = num_pieces;
        Ok(())
    }

    /// Whether the bitfield is for no piece at all.
    pub fn is_empty(&self) -> (r: bool)
        ensures
            r == (self.num_pieces == 0),
    {
        self.num_pieces == 0
    }

    /// Makes the bitfield one for `needed` pieces: the pieces that stay in range keep their bits,
    /// every other bit is clear.
    pub fn resize(&mut self, needed: usize)
        ensures
            final(self).wf(),
            final(self).num_pieces == needed,
            final(self).inner.len() == bytes_needed(needed as int),
            forall|i: int|
                0 <= i < 8 * final(self).inner.len() ==> #[trigger] final(self).holds(i) == (i
                    < needed && i < 8 * old(self).inner.len() && old(self).holds(i)),
    {
        let new_bytes: usize = div_ceil_8(needed);
        let ghost before = self.inner@;
        self.inner.resize(new_bytes, 0);
        proof {
            assert forall|i: int| 0 <= i < 8 * self.inner@.len() implies #[trigger] bit(
                self.inner@,
                i,
            ) == (i < 8 * before.len() && bit(before, i)) by {
                if i / 8 < before.len() {
                    if new_bytes > before.len() {
                        assert(self.inner@.subrange(0, before.len() as int)[i / 8] == before[i / 8]);
                    }
                    assert(self.inner@[i / 8] == before[i / 8]);
                } else {
                    assert(self.inner@[i / 8] == 0);
                    zero_byte_has_no_bit((i % 8) as u8);
                }
            }
        }
        self.num_pieces = needed;
        let ghost grown = *self;
        self.clear_trailing_bits();
        proof {
            assert forall|i: int| 0 <= i < 8 * self.inner@.len() implies #[trigger] bit(
                self.inner@,
                i,
            ) == (i < needed && i < 8 * before.len() && bit(before, i)) by {
                assert(bit(grown.inner@, i) == (i < 8 * before.len() && bit(before, i)));
                assert(self.holds(i) == (grown.holds(i) && !(needed <= i < 8 * new_bytes)));
            }
        }
    }

    /// Clears the bits of the last piece's byte that stand for no piece.
    pub fn clear_trailing_bits(&mut self)
        ensures
            final(self).num_pieces == old(self).num_pieces,
            final(self).inner.len() == old(self).inner.len(),
            forall|i: int|
                0 <= i < 8 * old(self).inner.len() ==> #[trigger] final(self).holds(i) == (old(
                    self,
                ).holds(i) && !(old(self).num_pieces <= i < 8 * bytes_needed(
                    old(self).num_pieces as int,
                ))),
    {
        let remainder: usize = self.num_pieces % 8;
        let last_idx_end: usize = div_ceil_8(self.num_pieces);
        let ghost before = self.inner@;
        if remainder != 0 && last_idx_end <= self.inner.len() {
            let last_idx: usize = last_idx_end - 1;
            let mask: u8 = 255u8 << ((8 - remainder) as u8);
            let b: u8 = self.inner[last_idx];
            proof {
                cut_bits_of_byte(b, remainder as u8);
            }
            self.inner[last_idx] = b & mask;
            proof {
                assert forall|i: int| 0 <= i < 8 * before.len() implies #[trigger] bit(
                    self.inner@,
                    i,
                ) == (bit(before, i) && !(self.num_pieces <= i < 8 * last_idx_end)) by {
                    if i / 8 == last_idx {
                        let k = (i % 8) as u8;
                        assert(((b & mask) & (128u8 >> k) != 0) == (k < remainder && b & (128u8
                            >> k) != 0));
                    } else {
                        assert(self.inner@[i / 8] == before[i / 8]);
                    }
                }
            }
        }
    }

    /// The number of pieces that the bitfield is for.
    pub fn size(&self) -> (r: usize)
        ensures
            r == self.num_pieces,
    {
        self.num_pieces
    }

    /// Notes that a piece is there.
    pub fn set(&mut self, index: usize)
        requires
            index / 8 < old(self).inner.len(),
        ensures
            final(self).num_pieces == old(self).num_pieces,
            final(self).inner.len() == old(self).inner.len(),
            forall|i: int|
                0 <= i < 8 * old(self).inner.len() ==> #[trigger] final(self).holds(i) == (i == index
                    || old(self).holds(i)),
    {
        let byte_idx: usize = index / 8;
        let bit_idx: usize = index % 8;
        let ghost before = self.inner@;
        let b: u8 = self.inner[byte_idx];
        self.inner[byte_idx] = b | (128u8 >> (bit_idx as u8));
        proof {
            single_bit_of_byte(b, bit_idx as u8);
            assert forall|i: int| 0 <= i < 8 * before.len() implies #[trigger] bit(self.inner@, i)
                == (i == index || bit(before, i)) by {
                if i / 8 == byte_idx {
                    let k = (i % 8) as u8;
                    if k != bit_idx {
                        assert(((b | (128u8 >> (bit_idx as u8))) & (128u8 >> k) != 0) == (b & (128u8
                            >> k) != 0));
                    }
                } else {
                    assert(self.inner@[i / 8] == before[i / 8]);
                }
            }
        }
    }

    /// Whether a piece is there.
    pub fn has(&self, index: usize) -> (r: bool)
        requires
            index / 8 < self.inner.len(),
        ensures
            r == self.holds(index as int),
    {
        let byte_idx: usize = index / 8;
        let bit_idx: usize = index % 8;
        (self.inner[byte_idx] & (128u8 >> (bit_idx as u8))) != 0
    }

    /// The same bitfield once more
    pub fn copy(&self) -> (r: Self)
        ensures
            r.inner@ == self.inner@,
            r.num_pieces == self.num_pieces,
    {
        Bitfield { inner: self.inner.clone(), num_pieces: self.num_pieces }
    }

    /// The bytes of the bitfield, as they go to a peer.
    pub fn as_bytes(&self) -> (r: &[u8])
        ensures
            r@ == self.inner@,
    {
        self.inner.as_slice()
    }

    /// Whether every piece is there.
    pub fn all_set(&self) -> (r: bool)
        requires
            self.inner.len() >= bytes_needed(self.num_pieces as int),
        ensures
            r == (forall|i: int| 0 <= i < self.num_pieces ==> #[trigger] self.holds(i)),
    {
        let mut k: usize = 0;
        while k < self.num_pieces
            invariant
                k <= self.num_pieces,
                self.inner.len() >= bytes_needed(self.num_pieces as int),
                forall|i: int| 0 <= i < k ==> #[trigger] self.holds(i),
            decreases self.num_pieces - k,
        {
            if !self.has(k) {
                return false;
            }
            k = k + 1;
        }
        true
    }

    /// The pieces that are there, in ascending order.
    pub fn iter_set(&self) -> (r: Vec<usize>)
        requires
            self.inner.len() >= bytes_needed(self.num_pieces as int),
        ensures
            forall|a: int, b: int| 0 <= a < b < r.len() ==> r[a] < r[b],
            forall|a: int| 0 <= a < r.len() ==> r[a] < self.num_pieces && self.holds(
                #[trigger] r[a] as int,
            ),
            forall|i: int|
                0 <= i < self.num_pieces && #[trigger] self.holds(i) ==> r@.contains(i as usize),
    {
        let mut r: Vec<usize> = Vec::new();
        let mut k: usize = 0;
        while k < self.num_pieces
            invariant
                k <= self.num_pieces,
                self.inner.len() >= bytes_needed(self.num_pieces as int),
                forall|a: int, b: int| 0 <= a < b < r.len() ==> r[a] < r[b],
                forall|a: int| 0 <= a < r.len() ==> r[a] < k && self.holds(#[trigger] r[a] as int),
                forall|i: int| 0 <= i < k && #[trigger] self.holds(i) ==> r@.contains(i as usize),
            decreases self.num_pieces - k,
        {
            let ghost before = r@;
            if self.has(k) {
                r.push(k);
                proof {
                    assert(r@[before.len() as int] == k);
                    assert forall|i: int| 0 <= i < k + 1 && #[trigger] self.holds(i) implies r@.contains(
                        i as usize,
                    ) by {
                        if i < k {
                            let a = choose|a: int| 0 <= a < before.len() && before[a] == i as usize;
                            assert(r@[a] == i as usize);
                        }
                    }
                }
            }
            k = k + 1;
        }
        r
    }
}

/// The bytes of a well-formed bitfield are accepted by whoever expects that number of pieces.
pub proof fn own_bytes_are_valid(b: Bitfield)
    requires
        b.wf(),
    ensures
        bitfield_verdict(b.inner@, b.num_pieces) is Ok,
{
}

} // verus!
