//! Entity handles and their generations.

use vstd::prelude::*;

verus! {

/// The bit of a generation word that marks it as not in use.
pub const INVALID: u32 = 0x8000_0000;

/// The bits of a generation word that count lifetimes.
pub const VALID: u32 = 0x7FFF_FFFF;

/// A generation keeps entities that reuse one position apart.
///
/// The high bit of the word is the flag "not in use"; the low 31 bits count.
#[derive(Debug, Clone, Copy, PartialEq, Eq, Structural)]
pub struct Generation(pub u32);

impl Generation {
    /// Whether the flag "not in use" is set.
    pub open spec fn invalid_spec(self) -> bool {
        self.0 >= INVALID
    }

    /// The generation that follows `self`: the count goes up by one and wraps
    /// to zero instead of running into the flag.
    pub open spec fn next_spec(self) -> Generation {
        if self.0 < VALID {
            Generation((self.0 + 1) as u32)
        } else {
            Generation(0)
        }
    }

    /// Creates a new, valid `Generation`.
    #[inline]
    pub fn new() -> (r: Self)
        ensures
            r == Generation(0),
            !r.invalid_spec(),
    {
        Self(0)
    }

    /// Creates a new, invalid `Generation`.
    #[inline]
    pub fn invalid() -> (r: Self)
        ensures
            r == Generation(INVALID),
            r.invalid_spec(),
    {
        Self(INVALID)
    }

    /// Sets the flag "not in use" and keeps the count.
    #[inline]
    pub fn set_invalid(&mut self)
        ensures
            final(self).invalid_spec(),
            final(self).0 == if old(self).invalid_spec() {
                old(self).0
            } else {
                (old(self).0 + INVALID) as u32
            },
    {
        let before: u32 = self.0;
        self.0 = before | INVALID;
        assert((before | 0x8000_0000u32) >= 0x8000_0000u32) by (bit_vector);
        assert(before >= 0x8000_0000u32 ==> (before | 0x8000_0000u32) == before) by (bit_vector);
        assert(before < 0x8000_0000u32 ==> (before | 0x8000_0000u32) == before + 0x8000_0000u32)
            by (bit_vector);
    }

    /// Clears the flag "not in use" and keeps the count.
    #[inline]
    pub fn set_valid(&mut self)
        ensures
            !final(self).invalid_spec(),
            final(self).0 == if old(self).invalid_spec() {
                (old(self).0 - INVALID) as u32
            } else {
                old(self).0
            },
    {
        let before: u32 = self.0;
        self.0 = before & VALID;
        assert((before & 0x7FFF_FFFFu32) < 0x8000_0000u32) by (bit_vector);
        assert(before < 0x8000_0000u32 ==> (before & 0x7FFF_FFFFu32) == before) by (bit_vector);
        assert(before >= 0x8000_0000u32 ==> (before & 0x7FFF_FFFFu32) == before - 0x8000_0000u32)
            by (bit_vector);
    }

    /// Whether the flag "not in use" is set.
    #[inline]
    pub fn is_invalid(&self) -> (r: bool)
        ensures
            r == self.invalid_spec(),
    {
        let word: u32 = self.0;
        assert((word & 0x8000_0000u32 != 0) == (word >= 0x8000_0000u32)) by (bit_vector);
        self.0 & INVALID != 0
    }

    /// Increments the generation, wrapping to zero when the count would reach
    /// the flag.
    #[inline]
    pub fn inc(&mut self)
        ensures
            *final(self) == old(self).next_spec(),
            !final(self).invalid_spec(),
    {
        if self.0 < VALID {
            self.0 = self.0 + 1;
        } else {
            self.0 = 0;
        }
    }
}

/// An `Entity` is a position in the directory together with the generation
/// that was current when the position was handed out.
#[derive(Debug, Clone, Copy, PartialEq, Eq, Structural)]
pub struct Entity {
    pub generation: Generation,
    /// A `u32` keeps the handle small; more than `u32::MAX` entities are
    /// not expected.
    pub position: u32,
}

impl Entity {
    #[inline]
    pub fn new(position: u32, generation: Generation) -> (r: Self)
        ensures
            r == (Entity { generation, position }),
    {
        Self { position, generation }
    }

    #[inline]
    pub fn generation(&self) -> (r: Generation)
        ensures
            r == self.generation,
    {
        self.generation
    }

    /// The entity's position as an index into the directory.
    pub open spec fn index(self) -> int {
        self.position as int
    }

    #[inline]
    pub fn id(&self) -> (r: usize)
        ensures
            r == self.index(),
    {
        self.position as usize
    }
}

} // verus!
