use vstd::prelude::*;

verus! {

/// Associates readiness events with the event source that produced them.
#[derive(Clone, Copy, Debug, PartialEq, Eq, Structural, Hash)]
pub struct Token(pub usize);

/// Bit of `Interest` for readable readiness.
pub const READABLE_BIT: u8 = 0b0_0001;

/// Bit of `Interest` for writable readiness.
pub const WRITABLE_BIT: u8 = 0b0_0010;

/// Bit of `Interest` for priority (out-of-band) readiness.
pub const PRIORITY_BIT: u8 = 0b1_0000;

/// The kinds of readiness an event source is registered for.
///
/// An interest is never empty and holds only the readable, writable and
/// priority kinds.
#[derive(Clone, Copy, Debug, PartialEq, Eq, Structural, Hash)]
pub struct Interest {
    bits: u8,
}

impl View for Interest {
    type V = u8;

    closed spec fn view(&self) -> u8 {
        self.bits
    }
}

/// The bits an interest may hold.
pub open spec fn interest_bits_ok(bits: u8) -> bool {
    &&& bits != 0
    &&& bits & !(READABLE_BIT | WRITABLE_BIT | PRIORITY_BIT) == 0
}

impl Interest {
    #[verifier::type_invariant]
    spec fn inv(self) -> bool {
        interest_bits_ok(self.bits)
    }

    /// Interest in readable readiness.
    pub fn readable() -> (r: Interest)
        ensures
            r@ == READABLE_BIT,
    {
        assert(interest_bits_ok(READABLE_BIT)) by (bit_vector);
        Interest { bits: READABLE_BIT }
    }

    /// Interest in writable readiness.
    pub fn writable() -> (r: Interest)
        ensures
            r@ == WRITABLE_BIT,
    {
        assert(interest_bits_ok(WRITABLE_BIT)) by (bit_vector);
        Interest { bits: WRITABLE_BIT }
    }

    /// Interest in priority readiness.
    pub fn priority() -> (r: Interest)
        ensures
            r@ == PRIORITY_BIT,
    {
        assert(interest_bits_ok(PRIORITY_BIT)) by (bit_vector);
        Interest { bits: PRIORITY_BIT }
    }

    /// The union of two interests.
    pub fn add(self, other: Interest) -> (r: Interest)
        ensures
            r@ == self@ | other@,
    {
        proof {
            use_type_invariant(&self);
            use_type_invariant(&other);
            let (a, b) = (self.bits, other.bits);
            assert(interest_bits_ok(a) && interest_bits_ok(b) ==> interest_bits_ok(a | b))
                by (bit_vector);
        }
        Interest { bits: self.bits | other.bits }
    }

    /// Whether the interest holds readable readiness.
    pub fn is_readable(self) -> (r: bool)
        ensures
            r == (self@ & READABLE_BIT != 0),
    {
        self.bits & READABLE_BIT != 0
    }

    /// Whether the interest holds writable readiness.
    pub fn is_writable(self) -> (r: bool)
        ensures
            r == (self@ & WRITABLE_BIT != 0),
    {
        self.bits & WRITABLE_BIT != 0
    }

    /// Whether the interest holds priority readiness.
    pub fn is_priority(self) -> (r: bool)
        ensures
            r == (self@ & PRIORITY_BIT != 0),
    {
        self.bits & PRIORITY_BIT != 0
    }
}

} // verus!
