//! A xorshift pseudo-random generator and the vectors of random values
//! that the sorting comparison feeds on.

use vstd::prelude::*;

verus! {

/// How many random values each vector receives.
pub const NUM: usize = 200000000;

/// One step of the 64-bit xorshift generator.
pub open spec fn xorshift_step(x: u64) -> u64 {
    let a = x ^ (x << 13);
    let b = a ^ (a >> 7);
    b ^ (b << 17)
}

/// A 64-bit xorshift pseudo-random generator.
pub struct XOR64 {
    pub x: u64,
}

impl XOR64 {
    /// Seeds the generator.
    pub fn new(seed: u64) -> (r: XOR64)
        ensures
            r.x == seed ^ 88172645463325252u64,
    {
        XOR64 { x: seed ^ 88172645463325252 }
    }

    /// The next pseudo-random value; it is also the new state.
    pub fn next(&mut self) -> (r: u64)
        ensures
            r == xorshift_step(old(self).x),
            final(self).x == r,
    {
        let x = self.x;
        let x = x ^ (x << 13);
        let x = x ^ (x >> 7);
        let x = x ^ (x << 17);
        self.x = x;
        return x;
    }
}

/// Two vectors of `NUM` pseudo-random values each, from one fixed seed.
pub fn randomized_vec() -> (r: (Vec<u64>, Vec<u64>))
    ensures
        r.0@.len() == NUM,
        r.1@.len() == NUM,
{
    let mut v1: Vec<u64> = Vec::new();
    let mut v2: Vec<u64> = Vec::new();
    let mut generator = XOR64::new(1234);
    let mut i: usize = 0;
    while i < NUM
        invariant
            i <= NUM,
            v1@.len() == i,
            v2@.len() == i,
        decreases NUM - i,
    {
        let x1 = generator.next();
        let x2 = generator.next();
        v1.push(x1);
        v2.push(x2);
        i = i + 1;
    }
    (v1, v2)
}

} // verus!
