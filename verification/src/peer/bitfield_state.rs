//! What is known of the pieces that a peer has.

use crate::bitfield::{bit, bits, bitfield_verdict, bytes_needed, spare_clear};
use crate::bitfield::{Bitfield, BitfieldError};
use vstd::prelude::*;

verus! {

/// A peer's bitfield: not there, taken as it came, or found to fit the torrent.
#[derive(Debug)]
pub enum BitfieldState {
    NotReceived,
    Received(Bitfield),
    Validated(Bitfield),
}

/// What is known of the pieces that a peer has: all bits of its bitfield, and how many of them
/// stand for pieces.
#[verifier::ext_equal]
pub enum FieldView {
    NotReceived,
    Received(Seq<bool>, int),
    Validated(Seq<bool>, int),
}

impl View for BitfieldState {
    type V = FieldView;

    open spec fn view(&self) -> FieldView {
        match self {
            BitfieldState::NotReceived => FieldView::NotReceived,
            BitfieldState::Received(b) => FieldView::Received(b.bits(), b.num_pieces as int),
            BitfieldState::Validated(b) => FieldView::Validated(b.bits(), b.num_pieces as int),
        }
    }
}

/// The bits of an empty bitfield for `n` pieces.
pub open spec fn no_bits(n: int) -> Seq<bool> {
    Seq::new((8 * bytes_needed(n)) as nat, |i: int| false)
}

/// The bits of a bitfield after it was resized to `n` pieces.
pub open spec fn resized_bits(s: Seq<bool>, n: int) -> Seq<bool> {
    Seq::new((8 * bytes_needed(n)) as nat, |i: int| i < n && i < s.len() && s[i])
}

/// What bits are worth for a torrent of `n` pieces.
pub open spec fn bits_verdict(s: Seq<bool>, n: usize) -> Result<(), BitfieldError> {
    if s.len() < 8 * bytes_needed(n as int) {
        Err(
            BitfieldError::InvalidLength {
                expected_len: bytes_needed(n as int) as usize,
                actual_len: (s.len() / 8) as usize,
            },
        )
    } else if exists|i: int| n <= i < s.len() && #[trigger] s[i] {
        Err(BitfieldError::NonZeroSpareBits)
    } else {
        Ok(())
    }
}

proof fn verdicts_agree(bytes: Seq<u8>, n: usize)
    ensures
        bits_verdict(bits(bytes), n) == bitfield_verdict(bytes, n),
{
    let s = bits(bytes);
    if s.len() >= 8 * bytes_needed(n as int) {
        if spare_clear(bytes, n as int) {
            assert forall|i: int| n <= i < s.len() implies !#[trigger] s[i] by {
                assert(!bit(bytes, i));
            }
        } else {
            let i = choose|i: int| n <= i < 8 * bytes.len() && #[trigger] bit(bytes, i);
            assert(s[i]);
        }
    }
}

impl FieldView {
    /// Whether a bitfield has come.
    pub open spec fn received(self) -> bool {
        !(self is NotReceived)
    }

    /// What is known once the number of pieces is known too.
    pub open spec fn validated(self, n: usize) -> (FieldView, Result<(), BitfieldError>) {
        match self {
            FieldView::NotReceived => (FieldView::Validated(no_bits(n as int), n as int), Ok(())),
            FieldView::Received(s, k) => match bits_verdict(s, n) {
                Ok(_) => (FieldView::Validated(s, n as int), Ok(())),
                Err(e) => (self, Err(e)),
            },
            FieldView::Validated(..) => (self, Ok(())),
        }
    }

    /// What is known once there is room for so many pieces.
    pub open spec fn with_capacity(self, n: int) -> FieldView {
        match self {
            FieldView::NotReceived => FieldView::Received(no_bits(n), n),
            FieldView::Received(s, k) => if n > k {
                FieldView::Received(resized_bits(s, n), n)
            } else {
                self
            },
            FieldView::Validated(s, k) => if n > k {
                FieldView::Validated(resized_bits(s, n), n)
            } else {
                self
            },
        }
    }

    /// How many pieces the bitfield speaks of.
    pub open spec fn size(self) -> int {
        match self {
            FieldView::NotReceived => 0,
            FieldView::Received(s, k) => k,
            FieldView::Validated(s, k) => k,
        }
    }

    /// Whether the peer has piece `i`.
    pub open spec fn has(self, i: int) -> bool {
        match self {
            FieldView::NotReceived => false,
            FieldView::Received(s, k) => s[i],
            FieldView::Validated(s, k) => s[i],
        }
    }

    /// What is known once the peer has piece `i`.
    pub open spec fn with_piece(self, i: int) -> FieldView {
        match self {
            FieldView::NotReceived => self,
            FieldView::Received(s, k) => FieldView::Received(s.update(i, true), k),
            FieldView::Validated(s, k) => FieldView::Validated(s.update(i, true), k),
        }
    }
}

impl BitfieldState {
    /// There are bytes for all pieces, and in a bitfield that fits no spare bit is set.
    pub open spec fn wf(&self) -> bool {
        match self {
            BitfieldState::NotReceived => true,
            BitfieldState::Received(b) => b.inner.len() >= bytes_needed(b.num_pieces as int),
            BitfieldState::Validated(b) => b.wf(),
        }
    }

    /// Nothing is known
    pub fn new() -> (r: Self)
        ensures
            r.wf(),
            r@ == FieldView::NotReceived,
    {
        BitfieldState::NotReceived
    }

    /// Whether a bitfield has come
    pub fn is_received(&self) -> (r: bool)
        ensures
            r == self@.received(),
    {
        match self {
            BitfieldState::NotReceived => false,
            _ => true,
        }
    }

    /// The bitfield, to change it
    pub fn get_bitfield_mut(&mut self) -> (r: Option<&mut Bitfield>)
        ensures
            match r {
                None => *old(self) is NotReceived && *final(self) == *old(self),
                Some(b) => match *old(self) {
                    BitfieldState::NotReceived => false,
                    BitfieldState::Received(x) => *b == x && *final(self)
                        == BitfieldState::Received(*final(b)),
                    BitfieldState::Validated(x) => *b == x && *final(self)
                        == BitfieldState::Validated(*final(b)),
                },
            },
    {
        match self {
            BitfieldState::NotReceived => None,
            BitfieldState::Received(bf) => Some(bf),
            BitfieldState::Validated(bf) => Some(bf),
        }
    }

    /// Takes a bitfield as it came
    pub fn set_received(&mut self, bitfield: Bitfield)
        ensures
            *final(self) == BitfieldState::Received(bitfield),
    {
        *self = BitfieldState::Received(bitfield);
    }

    /// Holds what has come against the number of pieces
    pub fn validate(&mut self, num_pieces: usize) -> (r: Result<(), BitfieldError>)
        requires
            old(self).wf(),
        ensures
            final(self).wf(),
            (final(self)@, r) == old(self)@.validated(num_pieces),
    {
        match self {
            BitfieldState::NotReceived => {
                let b = Bitfield::with_size(num_pieces);
                assert(b.bits() =~= no_bits(num_pieces as int)) by {
                    assert forall|i: int| 0 <= i < 8 * b.inner.len() implies !#[trigger] b.bits()[i] by {
                        assert(!b.holds(i));
                    }
                }
                *self = BitfieldState::Validated(b);
                Ok(())
            },
            BitfieldState::Received(bitfield) => {
                proof {
                    verdicts_agree(bitfield.inner@, num_pieces);
                }
                match bitfield.validate(num_pieces) {
                    Ok(_) => {
                        let b = bitfield.copy();
                        *self = BitfieldState::Validated(b);
                        Ok(())
                    },
                    Err(e) => Err(e),
                }
            },
            BitfieldState::Validated(_) => Ok(()),
        }
    }

    /// Makes room for so many pieces
    pub fn ensure_capacity(&mut self, required_pieces: usize)
        requires
            old(self).wf(),
        ensures
            final(self).wf(),
            final(self)@ == old(self)@.with_capacity(required_pieces as int),
    {
        match self {
            BitfieldState::NotReceived => {
                let b = Bitfield::with_size(required_pieces);
                assert(b.bits() =~= no_bits(required_pieces as int)) by {
                    assert forall|i: int| 0 <= i < 8 * b.inner.len() implies !#[trigger] b.bits()[i] by {
                        assert(!b.holds(i));
                    }
                }
                *self = BitfieldState::Received(b);
            },
            BitfieldState::Received(bitfield) => {
                resize_to(bitfield, required_pieces);
            },
            BitfieldState::Validated(bitfield) => {
                resize_to(bitfield, required_pieces);
            },
        }
    }
}

fn resize_to(b: &mut Bitfield, n: usize)
    ensures
        n <= old(b).num_pieces ==> *final(b) == *old(b),
        n > old(b).num_pieces ==> {
            &&& final(b).wf()
            &&& final(b).num_pieces == n
            &&& final(b).bits() == resized_bits(old(b).bits(), n as int)
        },
{
    if n > b.size() {
        let ghost before = b.bits();
        b.resize(n);
        assert(b.bits() =~= resized_bits(before, n as int)) by {
            assert forall|i: int| 0 <= i < 8 * b.inner.len() implies #[trigger] b.bits()[i] == (i < n
                && i < before.len() && before[i]) by {
                assert(b.bits()[i] == b.holds(i));
            }
        }
    }
}

} // verus!
