use vstd::prelude::*;

pub mod provider;

verus! {

/// Correlated randomness for one AND gate: a party's share of a triple `(a, b, c)`.
#[derive(Debug, Clone, Copy, PartialEq, Eq, Structural)]
pub struct MulTriple {
    pub a: bool,
    pub b: bool,
    pub c: bool,
}

/// Two parties' shares of one triple conform when the shared values satisfy `a & b == c`.
pub open spec fn conforming(t0: MulTriple, t1: MulTriple) -> bool {
    ((t0.a != t1.a) && (t0.b != t1.b)) == (t0.c != t1.c)
}

} // verus!
