use crate::circuit::{count_and, lemma_sum_prefix_le, Circuit};
use crate::mul_triple::MulTriple;
use crate::mul_triple::provider::MTProvider;
use crate::network::{GMWConnection, GMWPacket, Packet};
use crate::party::protocol::{
    accepted, and_triples, continued, finished, lemma_continue_trace, lemma_finish_trace,
    lemma_step_progress, lemma_step_received, lemma_step_sent, progress, received_so_far,
    records_progress, records_run, run_outcome, sent_so_far, split, transcript_shape, width,
    Outcome, Phase, State, Trace,
};
use vstd::prelude::*;

mod error;
pub mod protocol;
mod role;
pub mod session;

pub use error::GMWError;
pub use role::Role;
pub use session::{split_shares, Session, Step};

verus! {

/// Relies on `rand::random::<bool>`: one bit from the thread-local generator, of which
/// nothing is known.
#[verifier::external_body]
fn random_bit() -> bool {
    rand::random::<bool>()
}

/// Draws a random mask as long as the input and splits the input with it: the first share
/// stays with the party, the second (the mask) goes to the peer.
pub fn generate_shares(input: &[bool]) -> (r: (Vec<bool>, Vec<bool>))
    ensures
        r.1@.len() == input@.len(),
        (r.0@, r.1@) == split(input@, r.1@),
{
    let mut mask: Vec<bool> = Vec::new();
    let mut i: usize = 0;
    while i < input.len()
        invariant
            i <= input@.len(),
            mask@.len() == i,
        decreases input@.len() - i,
    {
        mask.push(random_bit());
        i = i + 1;
    }
    split_shares(input, &mask)
}

/// One of the two parties of a GMW execution: the circuit, its role, its triple source and
/// its end of the channel to the peer.
pub struct Party<M: MTProvider, G: GMWConnection> {
    circuit: Circuit,
    role: Role,
    mtp: M,
    connection: G,
    trace: Ghost<Trace>,
}

impl<M: MTProvider, G: GMWConnection> Party<M, G> {
    pub closed spec fn spec_circuit(&self) -> Circuit {
        self.circuit
    }

    pub closed spec fn spec_role(&self) -> Role {
        self.role
    }

    /// The party's triple source.
    pub closed spec fn spec_provider(&self) -> M {
        self.mtp
    }

    /// The party's end of the channel.
    pub closed spec fn spec_connection(&self) -> G {
        self.connection
    }

    /// What the last execution did.
    pub closed spec fn spec_trace(&self) -> Trace {
        self.trace@
    }

    /// Create a new party.
    pub fn new(circuit: Circuit, connection: G, role: Role, mtp: M) -> (r: Self)
        requires
            accepted(circuit),
        ensures
            r.spec_circuit() == circuit,
            r.spec_role() == role,
            r.spec_provider() == mtp,
            r.spec_connection() == connection,
    {
        let trace = Ghost(
            Trace {
                mask: Seq::empty(),
                states: Seq::empty(),
                sent: Seq::empty(),
                received: Seq::empty(),
                triples: Seq::empty(),
            },
        );
        Party { circuit, connection, role, mtp, trace }
    }

    /// Executes the GMW protocol with the peer for the stored circuit on this party's input.
    /// It fails on an input of the wrong width, on a packet other than the expected one, and
    /// where the channel fails; the output has one bit per output wire.
    pub fn execute(&mut self, input: &[bool]) -> (r: Result<Vec<bool>, GMWError>)
        requires
            accepted(old(self).spec_circuit()),
        ensures
            final(self).spec_circuit() == old(self).spec_circuit(),
            final(self).spec_role() == old(self).spec_role(),
            (input@.len() != width(old(self).spec_circuit(), old(self).spec_role()))
                <==> r matches Err(GMWError::InputLengthMismatch { .. }),
            r matches Err(GMWError::InputLengthMismatch { .. }) ==> *final(self) == *old(self),
            !(r matches Err(GMWError::InputLengthMismatch { .. })) ==> final(self).spec_provider().issued()
                == old(self).spec_provider().issued() + and_triples(final(self).spec_trace().states),
            r matches Err(GMWError::InputLengthMismatch { actual, expected }) ==> actual
                == input@.len() && expected == width(
                old(self).spec_circuit(),
                old(self).spec_role(),
            ),
            !(r matches Err(GMWError::InputLengthMismatch { .. })) ==> final(self).spec_connection().received()
                == old(self).spec_connection().received() + final(self).spec_trace().received,
            (r is Ok || r matches Err(GMWError::ProtocolError)) ==> final(self).spec_connection().sent()
                == old(self).spec_connection().sent() + final(self).spec_trace().sent,
            r matches Err(GMWError::NetworkError(_)) ==> final(self).spec_connection().sent()
                == old(self).spec_connection().sent() + final(self).spec_trace().sent
                || final(self).spec_connection().sent() == old(self).spec_connection().sent()
                + final(self).spec_trace().sent.drop_last(),
            !(r matches Err(GMWError::InvalidGate(_))),
            r matches Ok(out) ==> out@.len() == old(self).spec_circuit().header.output_sum(),
            r matches Ok(out) ==> ({
                let c = old(self).spec_circuit();
                let tr = final(self).spec_trace();
                &&& records_run(c, old(self).spec_role(), input@, tr)
                &&& run_outcome(c, old(self).spec_role(), tr)
                    == Outcome::Done(out@)
                &&& transcript_shape(tr.sent, count_and(c.gates@))
                &&& transcript_shape(tr.received, count_and(c.gates@))
                &&& and_triples(tr.states).len() == count_and(c.gates@)
            }),
            r matches Err(GMWError::ProtocolError) ==> ({
                let c = old(self).spec_circuit();
                let tr = final(self).spec_trace();
                &&& records_run(c, old(self).spec_role(), input@, tr)
                &&& run_outcome(c, old(self).spec_role(), tr) == Outcome::Fail
            }),
            r matches Err(GMWError::NetworkError(_)) ==> records_progress(
                old(self).spec_circuit(),
                old(self).spec_role(),
                input@,
                final(self).spec_trace(),
            ),
    {
        let expected = self.circuit.header.wires_per_input[self.role.index()];
        if input.len() != expected {
            return Err(GMWError::InputLengthMismatch { actual: input.len(), expected });
        }
        let (_, mask) = generate_shares(input);
        let (mut session, mut message) = Session::start(&self.circuit, self.role, input, &mask);
        self.trace = Ghost(
            Trace {
                mask: mask@,
                states: seq![session.state()],
                sent: seq![message@],
                received: Seq::empty(),
                triples: Seq::empty(),
            },
        );
        proof {
            assert(self.trace@.states.drop_last() =~= Seq::<State>::empty());
            assert(self.trace@.states.last().phase == Phase::Sharing);
            assert(and_triples(Seq::<State>::empty()) =~= Seq::<MulTriple>::empty());
            assert(and_triples(self.trace@.states) =~= Seq::<MulTriple>::empty());
            assert(self.mtp.issued() + and_triples(self.trace@.states) =~= self.mtp.issued());
            assert(self.trace@.sent.drop_last() =~= Seq::<Packet>::empty());
            assert(self.connection.sent() + self.trace@.sent.drop_last() =~= self.connection.sent());
            assert(self.connection.received() + self.trace@.received =~= self.connection.received());
        }
        loop
            invariant
                accepted(self.circuit),
                self.circuit == old(self).spec_circuit(),
                self.role == old(self).spec_role(),
                session.wf(self.circuit),
                session.role() == self.role,
                input@.len() == width(self.circuit, self.role),
                records_progress(self.circuit, self.role, input@, self.trace@),
                self.trace@.states.last() == session.state(),
                self.trace@.sent.last() == message@,
                sent_so_far(self.circuit, session.state(), self.trace@.sent),
                self.mtp.issued() == old(self).spec_provider().issued() + and_triples(self.trace@.states),
                self.connection.sent() == old(self).spec_connection().sent() + self.trace@.sent.drop_last(),
                self.connection.received() == old(self).spec_connection().received() + self.trace@.received,
                received_so_far(
                    self.circuit,
                    session.state(),
                    self.trace@.received,
                    and_triples(self.trace@.states).len(),
                ),
                session.state().phase == Phase::Sharing
                    || session.state().phase == Phase::AwaitAnd
                    || session.state().phase == Phase::AwaitResult,
            decreases progress(self.circuit, session.state()),
        {
            let ghost conn_sent = self.connection.sent();
            let ghost tr0 = self.trace@;
            let reply = match self.connection.exchange(message) {
                Ok(p) => p,
                Err(e) => {
                    proof {
                        assert(tr0.sent.drop_last().push(tr0.sent.last()) =~= tr0.sent);
                        assert(conn_sent.push(tr0.sent.last()) =~= old(self).spec_connection().sent()
                            + tr0.sent);
                    }
                    return Err(GMWError::NetworkError(e));
                },
            };
            proof {
                assert(tr0.sent.drop_last().push(tr0.sent.last()) =~= tr0.sent);
                assert(self.connection.sent() =~= old(self).spec_connection().sent() + tr0.sent);
                assert(self.connection.received() =~= old(self).spec_connection().received()
                    + tr0.received.push(reply@));
            }
            let ghost before = session.state();
            let ghost got = reply@;
            let ghost tr = self.trace@;
            let ghost issued_before = self.mtp.issued();
            proof {
                session.lemma_wf_state(self.circuit);
            }
            let answer = session.receive(&self.circuit, reply, &mut self.mtp);
            match answer {
                Ok(Step::Send(p)) => {
                    proof {
                        lemma_step_progress(
                            self.circuit,
                            self.role,
                            before,
                            got,
                            session.state().triple,
                        );
                        lemma_step_sent(
                            self.circuit,
                            self.role,
                            before,
                            got,
                            session.state().triple,
                            tr.sent,
                        );
                        lemma_step_received(
                            self.circuit,
                            self.role,
                            before,
                            got,
                            session.state().triple,
                            tr.received,
                            and_triples(tr.states).len(),
                        );
                    }
                    self.trace = Ghost(continued(tr, got, session.state().triple, session.state(), p@));
                    proof {
                        assert(self.trace@.states.drop_last() =~= tr.states);
                        lemma_continue_trace(
                            self.circuit,
                            self.role,
                            input@,
                            tr,
                            got,
                            session.state().triple,
                            p@,
                        );
                    }
                    proof {
                        assert(self.trace@.sent.drop_last() =~= tr.sent);
                    }
                    message = p;
                },
                Ok(Step::Done(out)) => {
                    proof {
                        lemma_sum_prefix_le(self.circuit.header.wires_per_output@, 0);
                        assert(before.phase == Phase::AwaitResult);
                        assert(got is Result);
                        let rcv = tr.received.push(got);
                        assert forall|i: int| 1 <= i <= count_and(self.circuit.gates@) implies #[trigger] rcv[i] is And by {
                            assert(rcv[i] == tr.received[i]);
                        }
                        assert(rcv[0] == tr.received[0]);
                    }
                    self.trace = Ghost(finished(tr, got, session.state().triple, session.state()));
                    proof {
                        assert(self.trace@.states.drop_last() =~= tr.states);
                        lemma_finish_trace(
                            self.circuit,
                            self.role,
                            input@,
                            tr,
                            got,
                            session.state().triple,
                        );
                    }
                    return Ok(out);
                },
                Err(e) => {
                    self.trace = Ghost(finished(tr, got, session.state().triple, session.state()));
                    proof {
                        assert(self.trace@.states.drop_last() =~= tr.states);
                        lemma_finish_trace(
                            self.circuit,
                            self.role,
                            input@,
                            tr,
                            got,
                            session.state().triple,
                        );
                    }
                    return Err(e);
                },
            }
        }
    }
}

} // verus!
