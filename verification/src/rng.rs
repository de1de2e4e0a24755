use vstd::prelude::*;

verus! {

/// Increment of the generator state between two draws.
pub const GOLDEN_GAMMA: u64 = 0x9E37_79B9_7F4A_7C15;

/// First multiplier of the output mix.
pub const MIX_MUL_1: u64 = 0xBF58_476D_1CE4_E5B9;

/// Second multiplier of the output mix.
pub const MIX_MUL_2: u64 = 0x94D0_49BB_1331_11EB;

/// The injectable source of randomness for grid generation.
///
/// `Seeded` walks a deterministic pseudo-random stream from a 64-bit seed, so
/// a run can be reproduced exactly. `Script` replays a fixed list of draws
/// (and yields 0 once the list is spent), which lets a test pin every choice.
pub enum RandomSource {
    Seeded { state: u64 },
    Script { values: Vec<usize>, next: usize },
}

/// The output mix of one generator step.
pub open spec fn mix64_spec(z0: u64) -> u64 {
    let z1 = (z0 ^ (z0 >> 30)).wrapping_mul(MIX_MUL_1);
    let z2 = (z1 ^ (z1 >> 27)).wrapping_mul(MIX_MUL_2);
    z2 ^ (z2 >> 31)
}

/// One draw below `n`: the value drawn and the source as it is afterwards.
pub open spec fn src_next(s: RandomSource, n: nat) -> (usize, RandomSource) {
    match s {
        RandomSource::Seeded { state } => {
            let state2 = state.wrapping_add(GOLDEN_GAMMA);
            ((mix64_spec(state2) as nat % n) as usize, RandomSource::Seeded { state: state2 })
        },
        RandomSource::Script { values, next } => {
            let raw: nat = if next < values.len() {
                values[next as int] as nat
            } else {
                0
            };
            let next2: usize = if next < values.len() {
                (next + 1) as usize
            } else {
                next
            };
            ((raw % n) as usize, RandomSource::Script { values, next: next2 })
        },
    }
}

/// Relies on rand::random: draws a value of `T` from the thread-local
/// generator; nothing can be promised of the value.
pub assume_specification<T>[ rand::random::<T> ]() -> (r: T)
    where
        rand::distributions::Standard: rand::distributions::Distribution<T>,
;

fn mix64(z0: u64) -> (r: u64)
    ensures
        r == mix64_spec(z0),
{
    let z1 = (z0 ^ (z0 >> 30)).wrapping_mul(MIX_MUL_1);
    let z2 = (z1 ^ (z1 >> 27)).wrapping_mul(MIX_MUL_2);
    z2 ^ (z2 >> 31)
}

impl RandomSource {
    /// A reproducible source: the same seed always yields the same draws.
    pub fn from_seed(seed: u64) -> (r: RandomSource)
        ensures
            r == (RandomSource::Seeded { state: seed }),
    {
        RandomSource::Seeded { state: seed }
    }

    /// A source that replays `values`, for tests that pin every choice.
    pub fn scripted(values: Vec<usize>) -> (r: RandomSource)
        ensures
            r == (RandomSource::Script { values, next: 0 }),
    {
        RandomSource::Script { values, next: 0 }
    }

    /// A source seeded from the thread-local generator.
    pub fn from_entropy() -> (r: RandomSource)
        ensures
            r is Seeded,
    {
        RandomSource::Seeded { state: rand::random::<u64>() }
    }

    /// Draw a value below `n`.
    pub fn next_below(&mut self, n: usize) -> (r: usize)
        requires
            n > 0,
        ensures
            r == src_next(*old(self), n as nat).0,
            *final(self) == src_next(*old(self), n as nat).1,
            r < n,
    {
        match self {
            RandomSource::Seeded { state } => {
                let state2 = state.wrapping_add(GOLDEN_GAMMA);
                *state = state2;
                let v = mix64(state2);
                (v % (n as u64)) as usize
            },
            RandomSource::Script { values, next } => {
                let raw: usize = if *next < values.len() {
                    let r = values[*next];
                    *next = *next + 1;
                    r
                } else {
                    0
                };
                raw % n
            },
        }
    }
}

} // verus!
