//! A small deterministic pseudo-random number generator (an xorshift
//! variant) feeding room placement, spawn tables and spawn counts.
//!
//! The contracts promise only the range of each draw, never a
//! distribution, so every caller is verified for every possible outcome.
use vstd::prelude::*;

verus! {

pub struct Rng {
    pub state: u64,
}

impl Rng {
    pub fn new(seed: u64) -> (r: Rng) {
        if seed == 0 {
            Rng { state: 0x9E3779B97F4A7C15 }
        } else {
            Rng { state: seed }
        }
    }

    /// One raw 64-bit draw.
    pub fn next_u64(&mut self) -> (r: u64) {
        let mut s = self.state;
        if s == 0 {
            s = 0x9E3779B97F4A7C15;
        }
        s = s ^ (s << 13);
        s = s ^ (s >> 7);
        s = s ^ (s << 17);
        self.state = s;
        s
    }

    /// A draw in `[lo, hi)`: at least `lo`, strictly below `hi`.
    pub fn range(&mut self, lo: i32, hi: i32) -> (r: i32)
        requires
            lo < hi,
        ensures
            lo <= r < hi,
    {
        let span_i64: i64 = hi as i64 - lo as i64;
        let span: u64 = span_i64 as u64;
        assert(span == span_i64);
        let draw = self.next_u64();
        let off: u64 = draw % span;
        assert(off < span);
        let r_i64: i64 = lo as i64 + off as i64;
        r_i64 as i32
    }
}

} // verus!
