use vstd::prelude::*;

verus! {

/// Multiplier of the MINSTD generator.
pub const MINSTD_MUL: u64 = 48_271;

/// Modulus of the MINSTD generator, the prime `2^31 - 1`.
pub const MINSTD_MOD: u64 = 2_147_483_647;

/// One step of the MINSTD recurrence.
pub open spec fn lcg_step(u: nat) -> nat {
    (u * 48_271) % 2_147_483_647
}

/// `n` steps of the MINSTD recurrence.
pub open spec fn lcg_iter(u: nat, n: nat) -> nat
    decreases n,
{
    if n == 0 {
        u
    } else {
        lcg_step(lcg_iter(u, (n - 1) as nat))
    }
}

/// MINSTD linear congruential generator (Park & Miller, multiplier 48271).
/// Deterministic: a generator created by `default` always yields the same sequence.
#[derive(Debug)]
pub struct Minstd {
    u: u64,
}

impl Minstd {
    #[verifier::type_invariant]
    closed spec fn inv(&self) -> bool {
        self.u < MINSTD_MOD
    }

    /// The generator's current state.
    pub closed spec fn state(&self) -> nat {
        self.u as nat
    }

    /// Advances the state and returns it.
    pub fn next(&mut self) -> (r: u32)
        ensures
            final(self).state() == lcg_step(old(self).state()),
            r == final(self).state(),
    {
        proof {
            use_type_invariant(&*self);
        }
        assert(self.u * MINSTD_MUL < 0x1_0000_0000_0000) by (nonlinear_arith)
            requires
                self.u < MINSTD_MOD,
        ;
        self.u = (self.u * MINSTD_MUL) % MINSTD_MOD;
        self.u as u32
    }

    /// A value in `[0, n)`: the next state modulo `n`.
    pub fn next_idx(&mut self, n: u32) -> (r: u32)
        requires
            n > 0,
        ensures
            final(self).state() == lcg_step(old(self).state()),
            r == lcg_step(old(self).state()) % (n as nat),
            r < n,
    {
        self.next() % n
    }

    /// A fair-ish coin: whether the next state is odd.
    pub fn next_bool(&mut self) -> (r: bool)
        ensures
            final(self).state() == lcg_step(old(self).state()),
            r == (lcg_step(old(self).state()) % 2 == 1),
    {
        self.next() % 2 == 1
    }
}

impl Default for Minstd {
    /// The generator seeded with 1.
    fn default() -> (r: Self)
        ensures
            r.state() == 1,
    {
        Minstd { u: 1 }
    }
}

} // verus!
