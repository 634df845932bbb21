use crate::circuit::{gate_fits, lemma_sum_prefix_le, Circuit, GateOperation};
use crate::mul_triple::MulTriple;
use crate::mul_triple::provider::MTProvider;
use crate::network::GMWPacket;
use crate::party::error::GMWError;
use crate::party::protocol::{
    accepted, advance, and_share, lemma_advance_forward, lemma_advance_len, lemma_two_inputs,
    output_of, place, proceed, split, start, step, width, xor_seq, Outcome, Phase, State,
};
use crate::party::role::Role;
use vstd::prelude::*;

verus! {

/// What a party does next.
#[derive(Debug)]
pub enum Step {
    /// Send this packet to the peer and pass its answer to [`Session::receive`].
    Send(GMWPacket),
    /// The execution is over; this is the output.
    Done(Vec<bool>),
}

/// One party's side of one execution: its shares of all wires and where it stands.
pub struct Session {
    role: Role,
    phase: Phase,
    wires: Vec<bool>,
    gate: usize,
    triple: MulTriple,
}

/// Splits an input into this party's share and the share for the peer, using `mask` as
/// the peer's share.
pub fn split_shares(input: &[bool], mask: &Vec<bool>) -> (r: (Vec<bool>, Vec<bool>))
    requires
        mask@.len() == input@.len(),
    ensures
        (r.0@, r.1@) == split(input@, mask@),
{
    let mut own: Vec<bool> = Vec::new();
    let mut i: usize = 0;
    while i < input.len()
        invariant
            i <= input@.len(),
            mask@.len() == input@.len(),
            own@ == xor_seq(input@, mask@).take(i as int),
        decreases input@.len() - i,
    {
        own.push(input[i] != mask[i]);
        i = i + 1;
        proof {
            assert(own@ =~= xor_seq(input@, mask@).take(i as int));
        }
    }
    proof {
        assert(own@ =~= xor_seq(input@, mask@));
    }
    (own, mask.clone())
}

/// A party's share of an AND gate's output, from its triple, its shares `x`, `y` of the
/// operands and the peer's masked operands `d2`, `e2`.
fn compute_and(role: Role, t: MulTriple, x: bool, y: bool, d2: bool, e2: bool) -> (r: bool)
    ensures
        r == and_share(role, t, (x != t.a) != d2, (y != t.b) != e2),
{
    let d = (x != t.a) != d2;
    let e = (y != t.b) != e2;
    let server = role == Role::Server;
    (((d && t.b) != (e && t.a)) != t.c) != (server && d && e)
}

fn is_and(op: &GateOperation) -> (r: bool)
    ensures
        r == op is AND,
{
    match op {
        GateOperation::AND(_, _) => true,
        _ => false,
    }
}

/// `w` with `q` written from index `off` on.
fn place_into(w: &mut Vec<bool>, off: usize, q: &Vec<bool>)
    requires
        off + q@.len() <= old(w)@.len(),
        off + q@.len() <= usize::MAX,
    ensures
        final(w)@ == place(old(w)@, off as int, q@),
{
    let mut i: usize = 0;
    while i < q.len()
        invariant
            off + q@.len() <= w@.len(),
            off + q@.len() <= usize::MAX,
            w@.len() == old(w)@.len(),
            i <= q@.len(),
            forall|k: int|
                0 <= k < w@.len() ==> #[trigger] w@[k] == if off <= k < off + i {
                    q@[k - off]
                } else {
                    old(w)@[k]
                },
        decreases q@.len() - i,
    {
        assert(off + i < w@.len());
        w.set(off + i, q[i]);
        i = i + 1;
    }
    proof {
        assert(w@ =~= place(old(w)@, off as int, q@));
    }
}

fn xor_vec(a: &Vec<bool>, b: &Vec<bool>) -> (r: Vec<bool>)
    requires
        a@.len() == b@.len(),
    ensures
        r@ == xor_seq(a@, b@),
{
    let mut r: Vec<bool> = Vec::new();
    let mut i: usize = 0;
    while i < a.len()
        invariant
            i <= a@.len(),
            a@.len() == b@.len(),
            r@ == xor_seq(a@, b@).take(i as int),
        decreases a@.len() - i,
    {
        r.push(a[i] != b[i]);
        i = i + 1;
        proof {
            assert(r@ =~= xor_seq(a@, b@).take(i as int));
        }
    }
    proof {
        assert(r@ =~= xor_seq(a@, b@));
    }
    r
}

impl Session {
    pub closed spec fn state(&self) -> State {
        State { phase: self.phase, wires: self.wires@, gate: self.gate as int, triple: self.triple }
    }

    pub closed spec fn role(&self) -> Role {
        self.role
    }

    pub closed spec fn wf(&self, c: Circuit) -> bool {
        &&& self.wires@.len() == c.header.num_wires
        &&& self.gate <= c.gates@.len()
        &&& self.phase == Phase::Sharing ==> self.gate == 0
        &&& self.phase == Phase::AwaitAnd ==> self.gate < c.gates@.len()
            && c.gates@[self.gate as int].op is AND
    }

    pub proof fn lemma_wf_state(&self, c: Circuit)
        requires
            self.wf(c),
        ensures
            0 <= self.state().gate <= c.gates@.len(),
            self.state().phase == Phase::AwaitAnd ==> self.state().gate < c.gates@.len(),
            self.state().wires.len() == c.header.num_wires,
    {
    }

    /// Shares the input: the party keeps `input ^ mask` and sends `mask` to the peer.
    pub fn start(circuit: &Circuit, role: Role, input: &[bool], mask: &Vec<bool>) -> (r: (
        Session,
        GMWPacket,
    ))
        requires
            accepted(*circuit),
            input@.len() == width(*circuit, role),
            mask@.len() == input@.len(),
        ensures
            r.0.wf(*circuit),
            r.0.role() == role,
            (r.0.state(), r.1@) == start(*circuit, role, input@, mask@),
    {
        proof {
            lemma_two_inputs(*circuit);
        }
        let (own, shared) = split_shares(input, mask);
        let mut wires: Vec<bool> = Vec::new();
        let n = circuit.header.num_wires;
        let mut i: usize = 0;
        while i < n
            invariant
                i <= n,
                wires@ == Seq::new(i as nat, |k: int| false),
            decreases n - i,
        {
            wires.push(false);
            i = i + 1;
            proof {
                assert(wires@ =~= Seq::new(i as nat, |k: int| false));
            }
        }
        let range = circuit.parameter_range(role.index());
        place_into(&mut wires, range.start, &own);
        let s = Session {
            role,
            phase: Phase::Sharing,
            wires,
            gate: 0,
            triple: MulTriple { a: false, b: false, c: false },
        };
        (s, GMWPacket::ParameterShares(shared))
    }

    /// Evaluates gates up to the next AND gate or the end, without the peer.
    fn advance_local(&mut self, circuit: &Circuit)
        requires
            accepted(*circuit),
            old(self).wires@.len() == circuit.header.num_wires,
            old(self).gate <= circuit.gates@.len(),
        ensures
            final(self).role == old(self).role,
            final(self).phase == old(self).phase,
            final(self).triple == old(self).triple,
            (final(self).wires@, final(self).gate as int) == advance(
                *circuit,
                old(self).role,
                old(self).wires@,
                old(self).gate as int,
            ),
    {
        while self.gate < circuit.gates.len() && !is_and(&circuit.gates[self.gate].op)
            invariant
                accepted(*circuit),
                self.wires@.len() == circuit.header.num_wires,
                self.gate <= circuit.gates@.len(),
                self.role == old(self).role,
                self.phase == old(self).phase,
                self.triple == old(self).triple,
                advance(*circuit, self.role, self.wires@, self.gate as int)
                    == advance(
                    *circuit,
                    old(self).role,
                    old(self).wires@,
                    old(self).gate as int,
                ),
            decreases circuit.gates@.len() - self.gate,
        {
            let g = circuit.gates[self.gate];
            proof {
                assert(gate_fits(
                    circuit.gates@[self.gate as int],
                    circuit.header.input_sum(),
                    circuit.header.num_wires as int,
                ));
            }
            let v = match g.op {
                GateOperation::XOR(a, b) => self.wires[a] != self.wires[b],
                GateOperation::INV(x) => if self.role == Role::Server {
                    !self.wires[x]
                } else {
                    self.wires[x]
                },
                GateOperation::EQ { constant } => self.role == Role::Server && constant,
                GateOperation::EQW(x) => self.wires[x],
                GateOperation::AND(_, _) => false,
            };
            self.wires.set(g.output_wire, v);
            self.gate = self.gate + 1;
        }
    }

    /// Goes on to the next AND gate, drawing its triple and sending its masked operands, or
    /// at the end of the circuit sends the output shares.
    fn proceed<M: MTProvider>(&mut self, circuit: &Circuit, mtp: &mut M) -> (r: GMWPacket)
        requires
            accepted(*circuit),
            old(self).wires@.len() == circuit.header.num_wires,
            old(self).gate <= circuit.gates@.len(),
        ensures
            final(self).wf(*circuit),
            final(self).role == old(self).role,
            final(self).phase == Phase::AwaitAnd ==> final(mtp).issued() == old(mtp).issued().push(
                final(self).triple,
            ),
            final(self).phase != Phase::AwaitAnd ==> final(mtp).issued() == old(mtp).issued(),
            (final(self).state(), Outcome::Send(r@)) == proceed(
                *circuit,
                old(self).role,
                old(self).wires@,
                old(self).gate as int,
                final(self).triple,
            ),
    {
        self.advance_local(circuit);
        proof {
            lemma_advance_forward(*circuit, old(self).role, old(self).wires@, old(self).gate as int);
            lemma_advance_len(*circuit, old(self).role, old(self).wires@, old(self).gate as int);
        }
        if self.gate < circuit.gates.len() {
            let t = mtp.get_triple();
            self.triple = t;
            self.phase = Phase::AwaitAnd;
            let g = circuit.gates[self.gate];
            proof {
                assert(gate_fits(
                    circuit.gates@[self.gate as int],
                    circuit.header.input_sum(),
                    circuit.header.num_wires as int,
                ));
            }
            let (a, b) = match g.op {
                GateOperation::AND(a, b) => (a, b),
                _ => (0, 0),
            };
            GMWPacket::And { d: self.wires[a] != t.a, e: self.wires[b] != t.b }
        } else {
            self.phase = Phase::AwaitResult;
            let share = self.output_share(circuit);
            GMWPacket::Result(share)
        }
    }

    /// This party's shares of the output wires.
    fn output_share(&self, circuit: &Circuit) -> (r: Vec<bool>)
        requires
            circuit.wf(),
            self.wires@.len() == circuit.header.num_wires,
        ensures
            r@ == output_of(*circuit, self.wires@),
    {
        proof {
            lemma_sum_prefix_le(circuit.header.wires_per_output@, 0);
        }
        let n = circuit.header.num_wires;
        let off = n - circuit.output_bit_count();
        let mut r: Vec<bool> = Vec::new();
        let mut i: usize = off;
        while i < n
            invariant
                off <= i <= n,
                n == self.wires@.len(),
                r@ == self.wires@.subrange(off as int, i as int),
            decreases n - i,
        {
            r.push(self.wires[i]);
            i = i + 1;
            proof {
                assert(r@ =~= self.wires@.subrange(off as int, i as int));
            }
        }
        r
    }

    fn fail(&mut self) -> (r: Result<Step, GMWError>)
        ensures
            final(self).state() == (State { phase: Phase::Failed, ..old(self).state() }),
            final(self).role == old(self).role,
            r matches Err(GMWError::ProtocolError),
    {
        self.phase = Phase::Failed;
        Err(GMWError::ProtocolError)
    }

    /// Handles the peer's packet: the next packet to send, the output, or a protocol error
    /// where the packet is not the one this step expects. Reaching an AND gate, it draws the
    /// next triple from `mtp` and holds it for that gate; otherwise it draws none.
    pub fn receive<M: MTProvider>(&mut self, circuit: &Circuit, packet: GMWPacket, mtp: &mut M) -> (r:
        Result<Step, GMWError>)
        requires
            accepted(*circuit),
            old(self).wf(*circuit),
        ensures
            final(self).wf(*circuit),
            final(self).role() == old(self).role(),
            final(self).state().phase == Phase::AwaitAnd ==> final(mtp).issued()
                == old(mtp).issued().push(final(self).state().triple),
            final(self).state().phase != Phase::AwaitAnd ==> final(mtp).issued()
                == old(mtp).issued(),
            ({
                let (s, o) = step(
                    *circuit,
                    old(self).role(),
                    old(self).state(),
                    packet@,
                    final(self).state().triple,
                );
                &&& final(self).state() == s
                &&& match o {
                    Outcome::Send(p) => r matches Ok(Step::Send(q)) && q@ == p,
                    Outcome::Done(v) => r matches Ok(Step::Done(w)) && w@ == v,
                    Outcome::Fail => r matches Err(GMWError::ProtocolError),
                }
            }),
    {
        proof {
            lemma_two_inputs(*circuit);
        }
        match self.phase {
            Phase::Sharing => match packet {
                GMWPacket::ParameterShares(q) => {
                    let other = self.role.other();
                    let range = circuit.parameter_range(other.index());
                    if q.len() != circuit.header.wires_per_input[other.index()] {
                        return self.fail();
                    }
                    place_into(&mut self.wires, range.start, &q);
                    let p = self.proceed(circuit, mtp);
                    Ok(Step::Send(p))
                },
                _ => self.fail(),
            },
            Phase::AwaitAnd => match packet {
                GMWPacket::And { d, e } => {
                    let g = circuit.gates[self.gate];
                    proof {
                        assert(gate_fits(
                            circuit.gates@[self.gate as int],
                            circuit.header.input_sum(),
                            circuit.header.num_wires as int,
                        ));
                    }
                    match g.op {
                        GateOperation::AND(a, b) => {
                            let v = compute_and(self.role, self.triple, self.wires[a], self.wires[b], d, e);
                            self.wires.set(g.output_wire, v);
                            self.gate = self.gate + 1;
                            let p = self.proceed(circuit, mtp);
                            Ok(Step::Send(p))
                        },
                        _ => self.fail(),
                    }
                },
                _ => self.fail(),
            },
            Phase::AwaitResult => match packet {
                GMWPacket::Result(q) => {
                    let own = self.output_share(circuit);
                    if q.len() != own.len() {
                        return self.fail();
                    }
                    let out = xor_vec(&own, &q);
                    self.phase = Phase::Done;
                    Ok(Step::Done(out))
                },
                _ => self.fail(),
            },
            _ => self.fail(),
        }
    }
}

} // verus!
