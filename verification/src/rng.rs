//! Deterministic random stream (PCG32, XSH-RR output) and a simulation clock
//! that ticks whenever asked.
use vstd::prelude::*;

use crate::sim::{IRng, ISimClock, Probability};
use crate::types::{RngSeed, SimTime, Tick};

verus! {

/// The multiplier of the PCG32 state transition.
pub const PCG_MULTIPLIER: u64 = 6364136223846793005u64;

/// The (odd) increment of the PCG32 state transition.
pub const PCG_INCREMENT: u64 = 1442695040888963407u64;

/// The next state: `state * PCG_MULTIPLIER + PCG_INCREMENT` modulo 2^64.
pub open spec fn pcg_step(state: u64) -> u64 {
    ((state as int * PCG_MULTIPLIER as int + PCG_INCREMENT as int) % 0x1_0000_0000_0000_0000int) as u64
}

/// The XSH-RR output of a state: an xorshift of the high bits, rotated right
/// by the state's top five bits.
pub open spec fn pcg_output(state: u64) -> u32 {
    let x = (((state >> 18u64) ^ state) >> 27u64) as u32;
    let rot = (state >> 59u64) as u32;
    (x >> rot) | (x << (((32 - rot) as u32) & 31u32))
}

/// Whether a 32-bit draw falls under a probability given in parts per
/// million: `out * 10^6 / 2^32 < ppm`.
pub open spec fn under(out: u32, p: Probability) -> bool {
    (out as int * 1000000) / 4294967296 < p.parts_per_million as int
}

fn step(state: u64) -> (r: u64)
    ensures
        r == pcg_step(state),
{
    assert(state as int * PCG_MULTIPLIER as int <= 0xffff_ffff_ffff_ffff * 0xffff_ffff_ffff_ffff) by (nonlinear_arith)
        requires
            state <= 0xffff_ffff_ffff_ffffu64,
            PCG_MULTIPLIER <= 0xffff_ffff_ffff_ffffu64,
    ;
    let wide: u128 = state as u128 * PCG_MULTIPLIER as u128 + PCG_INCREMENT as u128;
    (wide % 0x1_0000_0000_0000_0000u128) as u64
}

fn output(state: u64) -> (r: u32)
    ensures
        r == pcg_output(state),
{
    let x = (((state >> 18u64) ^ state) >> 27u64) as u32;
    let rot = (state >> 59u64) as u32;
    assert(rot < 32) by (bit_vector)
        requires
            rot == (state >> 59u64) as u32,
    ;
    let diff: u32 = 32u32 - rot;
    let amount: u32 = diff & 31u32;
    assert(amount < 32) by (bit_vector)
        requires
            amount == diff & 31u32,
    ;
    (x >> rot) | (x << amount)
}

/// The PCG32 random stream of the simulation, seeded by the world seed.
pub struct Pcg32Rng {
    seed: RngSeed,
    state: u64,
}

impl Pcg32Rng {
    /// A stream whose state starts at the seed.
    pub fn new(seed: RngSeed) -> (r: Self)
        ensures
            r.spec_seed() == seed,
            r.spec_state() == seed.0,
    {
        Pcg32Rng { seed, state: seed.0 }
    }
}

impl IRng for Pcg32Rng {
    closed spec fn spec_seed(&self) -> RngSeed {
        self.seed
    }

    closed spec fn spec_state(&self) -> u64 {
        self.state
    }

    open spec fn draw(seed: RngSeed, state: u64, p: Probability) -> (bool, u64) {
        let next = pcg_step(state);
        (under(pcg_output(state), p), next)
    }

    fn seed(&self) -> (r: RngSeed) {
        self.seed
    }

    fn state(&self) -> (r: u64) {
        self.state
    }

    fn restore(&mut self, state: u64) {
        self.state = state;
    }

    fn restore_seeded(&mut self, seed: RngSeed, state: u64) {
        self.seed = seed;
        self.state = state;
    }

    fn next_u32(&mut self) -> (r: u32)
        ensures
            r == pcg_output(old(self).spec_state()),
            final(self).spec_state() == pcg_step(old(self).spec_state()),
    {
        let old = self.state;
        self.state = step(old);
        output(old)
    }

    fn next_u64(&mut self) -> (r: u64)
        ensures
            r == ((pcg_output(old(self).spec_state()) as u64) << 32u64) | (pcg_output(pcg_step(old(self).spec_state())) as u64),
            final(self).spec_state() == pcg_step(pcg_step(old(self).spec_state())),
    {
        let hi = self.next_u32() as u64;
        let lo = self.next_u32() as u64;
        (hi << 32u64) | lo
    }

    fn chance(&mut self, p: Probability) -> (r: bool) {
        let out = self.next_u32();
        (out as u64 * 1000000u64) / 4294967296u64 < p.parts_per_million as u64
    }
}

impl Pcg32Rng {
    /// The draw consumes one step of the stream and compares its output with
    /// the probability.
    pub proof fn lemma_draw(seed: RngSeed, state: u64, p: Probability)
        ensures
            <Pcg32Rng as IRng>::draw(seed, state, p) == (under(pcg_output(state), p), pcg_step(state)),
    {
    }
}

/// A simulation clock that is always ready for the next tick.
pub struct UnlimitedClock {
    tick: Tick,
}

impl UnlimitedClock {
    pub fn new() -> (r: Self)
        ensures
            r.spec_tick() == Tick(0),
    {
        UnlimitedClock { tick: Tick(0) }
    }
}

impl ISimClock for UnlimitedClock {
    closed spec fn spec_tick(&self) -> Tick {
        self.tick
    }

    fn current_tick(&self) -> (r: Tick) {
        self.tick
    }

    fn sim_time(&self) -> (r: SimTime) {
        SimTime::from_ticks(self.tick)
    }

    fn advance(&mut self) -> (r: Tick)
        ensures
            final(self).spec_tick().0 == if old(self).spec_tick().0 < u64::MAX {
                old(self).spec_tick().0 + 1
            } else {
                old(self).spec_tick().0 as int
            },
    {
        self.tick = self.tick.next();
        self.tick
    }

    fn set_tick(&mut self, tick: Tick) {
        self.tick = tick;
    }

    fn should_tick(&self) -> (r: bool)
        ensures
            r,
    {
        true
    }
}

} // verus!
