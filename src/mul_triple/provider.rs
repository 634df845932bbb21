use crate::mul_triple::MulTriple;
use vstd::prelude::*;

pub mod shared_seed;

pub use shared_seed::SharedSeedMTP;

verus! {

/// A source of multiplication triples; a party pulls one for each AND gate, in circuit order.
pub trait MTProvider {
    /// The triples handed out so far, in order.
    spec fn issued(&self) -> Seq<MulTriple>;

    fn get_triple(&mut self) -> (r: MulTriple)
        ensures
            final(self).issued() == old(self).issued().push(r),
    ;
}

pub open spec fn zero_triple() -> MulTriple {
    MulTriple { a: false, b: false, c: false }
}

/// Always hands out the zero triple; it conforms with itself and hides nothing.
pub struct TrivialMTP {
    handed_out: Ghost<nat>,
}

impl TrivialMTP {
    pub fn new() -> (r: Self)
        ensures
            r.issued() == Seq::<MulTriple>::empty(),
    {
        let r = TrivialMTP { handed_out: Ghost(0) };
        proof {
            assert(r.issued() =~= Seq::<MulTriple>::empty());
        }
        r
    }

    /// Every triple it has handed out is the zero triple.
    pub proof fn lemma_all_zero(&self)
        ensures
            forall|i: int| 0 <= i < self.issued().len() ==> #[trigger] self.issued()[i] == zero_triple(),
    {
    }
}

impl MTProvider for TrivialMTP {
    closed spec fn issued(&self) -> Seq<MulTriple> {
        Seq::new(self.handed_out@, |i: int| zero_triple())
    }

    fn get_triple(&mut self) -> (r: MulTriple)
        ensures
            r == zero_triple(),
    {
        let ghost before = self.issued();
        self.handed_out = Ghost(self.handed_out@ + 1);
        proof {
            assert(self.issued() =~= before.push(zero_triple()));
        }
        MulTriple { a: false, b: false, c: false }
    }
}

} // verus!
