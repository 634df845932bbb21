use crate::mul_triple::MulTriple;
use crate::mul_triple::provider::MTProvider;
use rand::rngs::StdRng;
use vstd::prelude::*;

verus! {

#[verifier::external_type_specification]
#[verifier::external_body]
pub struct ExStdRng(StdRng);

/// Relies on `rand::SeedableRng::from_seed` for `StdRng`: a generator determined by the seed.
#[verifier::external_body]
fn seeded_rng(seed: [u8; 32]) -> StdRng {
    <StdRng as rand::SeedableRng>::from_seed(seed)
}

/// Relies on `rand::Rng::gen::<bool>` for `StdRng`: one bit drawn from the generator.
#[verifier::external_body]
fn draw_bit(rng: &mut StdRng) -> bool {
    rand::Rng::gen::<bool>(rng)
}

/// Both parties build this provider from the same seed, so both see the same triple stream;
/// this gives correct results but no privacy for AND gates.
pub struct SharedSeedMTP {
    rng: StdRng,
    handed_out: Ghost<Seq<MulTriple>>,
}

impl SharedSeedMTP {
    pub fn new(seed: [u8; 32]) -> (r: Self)
        ensures
            r.issued() == Seq::<MulTriple>::empty(),
    {
        SharedSeedMTP { rng: seeded_rng(seed), handed_out: Ghost(Seq::empty()) }
    }
}

impl MTProvider for SharedSeedMTP {
    closed spec fn issued(&self) -> Seq<MulTriple> {
        self.handed_out@
    }

    fn get_triple(&mut self) -> (r: MulTriple) {
        let a = draw_bit(&mut self.rng);
        let b = draw_bit(&mut self.rng);
        let c = draw_bit(&mut self.rng);
        let r = MulTriple { a, b, c };
        self.handed_out = Ghost(self.handed_out@.push(r));
        r
    }
}

} // verus!
