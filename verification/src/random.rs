//! The seeded random source that shapes the tunnel.

use rand::rngs::StdRng;
use rand::Rng;
use rand::SeedableRng;
use vstd::prelude::*;

verus! {

/// `rand::rngs::StdRng`, carried as an opaque value.
#[verifier::external_type_specification]
#[verifier::external_body]
pub struct ExStdRng(StdRng);

/// Calls `rand::SeedableRng::seed_from_u64` for `StdRng`. Nothing is claimed of
/// the generator that comes back.
#[verifier::external_body]
fn seeded_generator(seed: u64) -> StdRng {
    StdRng::seed_from_u64(seed)
}

/// Calls `rand::Rng::gen_range` on `i64` bounds. The claim is the documented
/// one: the value lies in `[low, high)`. The call panics unless `low < high`,
/// which the precondition demands.
#[verifier::external_body]
fn draw_in_range(rng: &mut StdRng, low: i64, high: i64) -> (r: i64)
    requires
        low < high,
    ensures
        low <= r < high,
{
    rng.gen_range(low, high)
}

/// A pseudo-random generator that is started from a seed and handed on
/// explicitly to whatever draws from it. Beside the generator it keeps a
/// record, for proofs only, of every value it has handed out.
pub struct RandomSource {
    rng: StdRng,
    record: Ghost<Seq<i64>>,
}

impl RandomSource {
    /// The values that the source has handed out since it was started, oldest
    /// first.
    pub closed spec fn drawn(&self) -> Seq<i64> {
        self.record@
    }

    /// A source started from `seed`, which has handed out nothing yet. Equal
    /// seeds give equal sequences of draws.
    pub fn new(seed: u64) -> (source: RandomSource)
        ensures
            source.drawn() == Seq::<i64>::empty(),
    {
        RandomSource { rng: seeded_generator(seed), record: Ghost(Seq::empty()) }
    }

    /// A value drawn uniformly from `[low, high)`, which is added to the
    /// record. Where the range is empty the result is `low` and nothing is
    /// drawn: the source stays as it was.
    pub fn uniform(&mut self, low: i64, high: i64) -> (r: i64)
        ensures
            low < high ==> low <= r < high,
            low < high ==> final(self).drawn() == old(self).drawn().push(r),
            low >= high ==> r == low,
            low >= high ==> *final(self) == *old(self),
    {
        if low < high {
            let r: i64 = draw_in_range(&mut self.rng, low, high);
            self.record = Ghost(self.record@.push(r));
            r
        } else {
            low
        }
    }
}

} // verus!
