use vstd::prelude::*;

verus! {

/// The seed every generator made by `new` starts from.
pub const DEFAULT_SEED: u16 = 0b1010_1100_1110_0001;

/// Parity of the register masked by the tap pattern `0x2d` (bits 0, 2, 3 and 5).
pub open spec fn tap_parity(s: u16) -> u16 {
    (s ^ (s >> 2u16) ^ (s >> 3u16) ^ (s >> 5u16)) & 1u16
}

/// One step of the shift register: shift right, feed the parity into bit 15.
pub open spec fn lfsr_next(s: u16) -> u16 {
    (s >> 1u16) | (tap_parity(s) << 15u16)
}

/// The unsigned range draw made from the advanced register `s`: bounds are
/// put in order, a zero-width range yields its bound, else `lo + s mod (hi - lo)`.
pub open spec fn range_u_of(s: u16, lo: u16, hi: u16) -> int {
    let (a, b) = if hi < lo { (hi, lo) } else { (lo, hi) };
    if a == b {
        a as int
    } else {
        a + (s as int) % ((b - a) as int)
    }
}

/// The signed range draw made from the advanced register `s`.
pub open spec fn range_i_of(s: u16, lo: i16, hi: i16) -> int {
    let (a, b) = if hi < lo { (hi, lo) } else { (lo, hi) };
    if a == b {
        a as int
    } else {
        a + (s as int) % ((b - a) as int)
    }
}

/// A non-zero register stays non-zero after a step.
pub proof fn lemma_next_nonzero(s: u16)
    requires
        s != 0,
    ensures
        lfsr_next(s) != 0,
{
    assert((s != 0u16) ==> (((s >> 1u16) | (((s ^ (s >> 2u16) ^ (s >> 3u16) ^ (s >> 5u16))
        & 1u16) << 15u16)) != 0u16)) by (bit_vector);
}

/// An unsigned draw from a zero-width range yields its bound, and swapping
/// the bounds changes no draw.
pub proof fn lemma_range_u_bounds(s: u16, lo: u16, hi: u16)
    ensures
        range_u_of(s, lo, lo) == lo,
        range_u_of(s, hi, lo) == range_u_of(s, lo, hi),
{
}

/// A signed draw from a zero-width range yields its bound, and swapping the
/// bounds changes no draw.
pub proof fn lemma_range_i_bounds(s: u16, lo: i16, hi: i16)
    ensures
        range_i_of(s, lo, lo) == lo,
        range_i_of(s, hi, lo) == range_i_of(s, lo, hi),
{
}

/// Deterministic pseudo-random source over a 16-bit linear feedback shift register.
pub struct RndGen {
    seed: u16,
}

impl View for RndGen {
    type V = u16;

    closed spec fn view(&self) -> u16 {
        self.seed
    }
}

impl RndGen {
    /// The register is never zero.
    pub open spec fn wf(&self) -> bool {
        self@ != 0
    }

    pub fn new() -> (r: Self)
        ensures
            r@ == DEFAULT_SEED,
            r.wf(),
    {
        RndGen { seed: DEFAULT_SEED }
    }

    /// A generator started from a chosen non-zero seed.
    pub fn with_seed(seed: u16) -> (r: Self)
        requires
            seed != 0,
        ensures
            r@ == seed,
            r.wf(),
    {
        RndGen { seed }
    }

    /// Advances the register by one step and returns its new raw value.
    pub fn next(&mut self) -> (r: u16)
        ensures
            r == lfsr_next(old(self)@),
            final(self)@ == r,
            old(self).wf() ==> final(self).wf(),
    {
        let s = self.seed;
        let bit: u16 = (s ^ (s >> 2u16) ^ (s >> 3u16) ^ (s >> 5u16)) & 1u16;
        self.seed = (s >> 1u16) | (bit << 15u16);
        proof {
            if s != 0 {
                lemma_next_nonzero(s);
            }
        }
        self.seed
    }

    /// A signed draw between `lo` and `hi` (in either order); advances the register once.
    pub fn gen_range_i(&mut self, lo: i16, hi: i16) -> (r: i16)
        ensures
            final(self)@ == lfsr_next(old(self)@),
            r as int == range_i_of(final(self)@, lo, hi),
            old(self).wf() ==> final(self).wf(),
    {
        let s = self.next();
        let (lo, hi) = if hi < lo { (hi, lo) } else { (lo, hi) };
        let rng: u16 = (hi as i32 - lo as i32) as u16;
        if rng == 0 {
            return lo;
        }
        proof {
            assert(s % rng < rng) by (nonlinear_arith) requires rng > 0;
        }
        (lo as i32 + (s % rng) as i32) as i16
    }

    /// An unsigned draw between `lo` and `hi` (in either order); advances the register once.
    pub fn gen_range(&mut self, lo: u16, hi: u16) -> (r: u16)
        ensures
            final(self)@ == lfsr_next(old(self)@),
            r as int == range_u_of(final(self)@, lo, hi),
            old(self).wf() ==> final(self).wf(),
    {
        let s = self.next();
        let (lo, hi) = if hi < lo { (hi, lo) } else { (lo, hi) };
        let rng: u16 = hi - lo;
        if rng == 0 {
            return lo;
        }
        proof {
            assert(s % rng < rng) by (nonlinear_arith) requires rng > 0;
        }
        lo + (s % rng)
    }
}

impl Default for RndGen {
    fn default() -> (r: Self)
        ensures
            r@ == DEFAULT_SEED,
    {
        RndGen::new()
    }
}

} // verus!
