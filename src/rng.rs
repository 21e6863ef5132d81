//! The scripts' pseudo-random numbers: a xorshift generator whose state is
//! never zero.

use vstd::prelude::*;

verus! {

/// The successor of a xorshift state; a zero successor is replaced by a fixed
/// non-zero word so that the sequence cannot collapse.
pub open spec fn xorshift(x: u64) -> u64 {
    let a = x ^ (x << 13u64);
    let b = a ^ (a >> 7u64);
    let c = b ^ (b << 17u64);
    if c == 0 {
        0x2545_F491_4F6C_DD1Du64
    } else {
        c
    }
}

/// The first state, from the clock's nanoseconds (`None` when the clock
/// could not be read).
pub open spec fn seed_of(nanos: Option<u64>) -> u64 {
    match nanos {
        None => 0x9E37_79B9_7F4A_7C15u64,
        Some(n) => if n == 0 {
            0xA409_3822_299F_31D0u64
        } else {
            n
        },
    }
}

/// A pseudo-random generator owned by one script run.
pub struct Rng {
    state: u64,
}

impl Rng {
    pub closed spec fn state(&self) -> u64 {
        self.state
    }

    pub closed spec fn wf(&self) -> bool {
        self.state != 0
    }

    /// A generator seeded from the clock.
    pub fn from_clock(nanos: Option<u64>) -> (r: Rng)
        ensures
            r.wf(),
            r.state() == seed_of(nanos),
    {
        let s = match nanos {
            None => 0x9E37_79B9_7F4A_7C15u64,
            Some(n) => if n == 0 {
                0xA409_3822_299F_31D0u64
            } else {
                n
            },
        };
        Rng { state: s }
    }

    /// Advances the state and returns it.
    pub fn next_u64(&mut self) -> (r: u64)
        requires
            old(self).wf(),
        ensures
            final(self).wf(),
            r == xorshift(old(self).state()),
            final(self).state() == r,
    {
        let mut x = self.state;
        x = x ^ (x << 13u64);
        x = x ^ (x >> 7u64);
        x = x ^ (x << 17u64);
        if x == 0 {
            x = 0x2545_F491_4F6C_DD1Du64;
        }
        self.state = x;
        x
    }

    /// A number in `0..bound`, taken from the next state; `0`, and no step of
    /// the generator, when `bound` is not positive.
    pub fn random(&mut self, bound: i64) -> (r: i64)
        requires
            old(self).wf(),
        ensures
            final(self).wf(),
            bound <= 0 ==> r == 0 && final(self).state() == old(self).state(),
            bound > 0 ==> final(self).state() == xorshift(old(self).state()) && r as int == (
            xorshift(old(self).state()) as int) % (bound as int),
            bound > 0 ==> 0 <= r < bound,
    {
        if bound <= 0 {
            return 0;
        }
        let x = self.next_u64();
        (x % (bound as u64)) as i64
    }
}

} // verus!
