use crate::circuit::{
    count_and, gate_fits, lemma_count_and_take_next, lemma_sum_prefix_le, lemma_sum_take_next, sum,
    Circuit, Gate, GateOperation,
};
use crate::mul_triple::provider::zero_triple;
use crate::mul_triple::{conforming, MulTriple};
use crate::network::Packet;
use crate::party::role::Role;
use vstd::prelude::*;

verus! {

/// Where a party stands in one execution.
#[derive(Debug, Clone, Copy, PartialEq, Eq, Structural)]
pub enum Phase {
    /// Input shares sent; waiting for the peer's.
    Sharing,
    /// Masked operands of the current AND gate sent; waiting for the peer's.
    AwaitAnd,
    /// Output shares sent; waiting for the peer's.
    AwaitResult,
    Done,
    Failed,
}

/// A party's state as a mathematical value: its phase, its shares of all wires, the index of
/// its current gate and the triple drawn for that gate.
pub struct State {
    pub phase: Phase,
    pub wires: Seq<bool>,
    pub gate: int,
    pub triple: MulTriple,
}

/// What a party does after a packet: send the next one, finish with the output, or fail.
pub enum Outcome {
    Send(Packet),
    Done(Seq<bool>),
    Fail,
}

pub open spec fn width(c: Circuit, r: Role) -> int {
    c.header.wires_per_input@[r.spec_index() as int] as int
}

/// First wire of the input that role `r` holds.
pub open spec fn offset(c: Circuit, r: Role) -> int {
    match r {
        Role::Server => 0,
        Role::Client => c.header.wires_per_input@[0] as int,
    }
}

pub open spec fn xor_seq(a: Seq<bool>, b: Seq<bool>) -> Seq<bool> {
    Seq::new(a.len(), |i: int| a[i] != b[i])
}

/// `w` with `q` written from index `off` on.
pub open spec fn place(w: Seq<bool>, off: int, q: Seq<bool>) -> Seq<bool> {
    Seq::new(w.len(), |i: int| if off <= i < off + q.len() { q[i - off] } else { w[i] })
}

pub open spec fn output_of(c: Circuit, w: Seq<bool>) -> Seq<bool> {
    w.subrange(c.output_offset(), c.header.num_wires as int)
}

/// The value a gate other than AND gives its output wire, in the clear.
pub open spec fn clear_value(op: GateOperation, w: Seq<bool>) -> bool {
    match op {
        GateOperation::XOR(a, b) => w[a as int] != w[b as int],
        GateOperation::AND(a, b) => w[a as int] && w[b as int],
        GateOperation::INV(x) => !w[x as int],
        GateOperation::EQ { constant } => constant,
        GateOperation::EQW(x) => w[x as int],
    }
}

/// A party's share of the output of a gate other than AND, computed without the peer:
/// XOR and copies act on shares, the server alone negates and alone holds constants.
pub open spec fn local_share(role: Role, op: GateOperation, w: Seq<bool>) -> bool {
    match op {
        GateOperation::XOR(a, b) => w[a as int] != w[b as int],
        GateOperation::INV(x) => if role == Role::Server { !w[x as int] } else { w[x as int] },
        GateOperation::EQ { constant } => role == Role::Server && constant,
        GateOperation::EQW(x) => w[x as int],
        GateOperation::AND(..) => false,
    }
}

/// A party's share of an AND gate's output from its triple and the opened masks `d`, `e`.
pub open spec fn and_share(role: Role, t: MulTriple, d: bool, e: bool) -> bool {
    (((d && t.b) != (e && t.a)) != t.c) != (role == Role::Server && d && e)
}

/// The wires of the circuit in the clear after its first `j` gates, on input `x`.
pub open spec fn clear_wires(c: Circuit, x: Seq<bool>, j: int) -> Seq<bool>
    decreases j,
{
    if j <= 0 {
        Seq::new(c.header.num_wires as nat, |i: int| if i < x.len() { x[i] } else { false })
    } else {
        let w = clear_wires(c, x, j - 1);
        let g = c.gates@[j - 1];
        w.update(g.output_wire as int, clear_value(g.op, w))
    }
}

/// The circuit's output on the joint input `x`, evaluated in the clear.
pub open spec fn evaluate(c: Circuit, x: Seq<bool>) -> Seq<bool> {
    output_of(c, clear_wires(c, x, c.gates@.len() as int))
}

/// Evaluates gates from `j` on, up to the next AND gate or the end.
pub open spec fn advance(c: Circuit, role: Role, w: Seq<bool>, j: int) -> (Seq<bool>, int)
    decreases c.gates@.len() - j,
{
    if 0 <= j < c.gates@.len() && !(c.gates@[j].op is AND) {
        let g = c.gates@[j];
        advance(c, role, w.update(g.output_wire as int, local_share(role, g.op, w)), j + 1)
    } else {
        (w, j)
    }
}

/// Evaluates up to the next AND gate and sends its masked operands, drawing triple `t`;
/// at the end of the circuit, sends the output shares instead.
pub open spec fn proceed(
    c: Circuit,
    role: Role,
    w: Seq<bool>,
    j: int,
    t: MulTriple,
) -> (State, Outcome) {
    let (v, k) = advance(c, role, w, j);
    if k < c.gates@.len() {
        let (a, b) = match c.gates@[k].op {
            GateOperation::AND(a, b) => (a, b),
            _ => (0, 0),
        };
        (
            State { phase: Phase::AwaitAnd, wires: v, gate: k, triple: t },
            Outcome::Send(Packet::And { d: v[a as int] != t.a, e: v[b as int] != t.b }),
        )
    } else {
        (
            State { phase: Phase::AwaitResult, wires: v, gate: k, triple: t },
            Outcome::Send(Packet::Result(output_of(c, v))),
        )
    }
}

/// A party's own share of its input and the share it sends, for a random `mask`.
pub open spec fn split(input: Seq<bool>, mask: Seq<bool>) -> (Seq<bool>, Seq<bool>) {
    (xor_seq(input, mask), mask)
}

/// The state after the input is shared, and the packet that carries the peer's share.
pub open spec fn start(
    c: Circuit,
    role: Role,
    input: Seq<bool>,
    mask: Seq<bool>,
) -> (State, Packet) {
    let zeros = Seq::new(c.header.num_wires as nat, |i: int| false);
    (
        State {
            phase: Phase::Sharing,
            wires: place(zeros, offset(c, role), split(input, mask).0),
            gate: 0,
            triple: MulTriple { a: false, b: false, c: false },
        },
        Packet::ParameterShares(split(input, mask).1),
    )
}

/// What a party does on receiving packet `p` in state `s`; `t` is the triple it draws if
/// it reaches an AND gate.
pub open spec fn step(
    c: Circuit,
    role: Role,
    s: State,
    p: Packet,
    t: MulTriple,
) -> (State, Outcome) {
    let failed = (State { phase: Phase::Failed, ..s }, Outcome::Fail);
    match s.phase {
        Phase::Sharing => match p {
            Packet::ParameterShares(q) => if q.len() == width(c, role.spec_other()) {
                proceed(c, role, place(s.wires, offset(c, role.spec_other()), q), 0, t)
            } else {
                failed
            },
            _ => failed,
        },
        Phase::AwaitAnd => match (p, c.gates@[s.gate].op) {
            (Packet::And { d, e }, GateOperation::AND(a, b)) => {
                let x = s.wires[a as int];
                let y = s.wires[b as int];
                let opened_d = (x != s.triple.a) != d;
                let opened_e = (y != s.triple.b) != e;
                let w = s.wires.update(
                    c.gates@[s.gate].output_wire as int,
                    and_share(role, s.triple, opened_d, opened_e),
                );
                proceed(c, role, w, s.gate + 1, t)
            },
            _ => failed,
        },
        Phase::AwaitResult => match p {
            Packet::Result(q) => if q.len() == output_of(c, s.wires).len() {
                (
                    State { phase: Phase::Done, ..s },
                    Outcome::Done(xor_seq(output_of(c, s.wires), q)),
                )
            } else {
                failed
            },
            _ => failed,
        },
        _ => failed,
    }
}

/// The circuits the engine evaluates: well formed, with exactly two inputs.
pub open spec fn accepted(c: Circuit) -> bool {
    c.wf() && c.header.wires_per_input.len() == 2
}

/// A bound on the exchanges still to come from a state.
pub open spec fn progress(c: Circuit, s: State) -> nat {
    match s.phase {
        Phase::Sharing => (c.gates@.len() + 2) as nat,
        Phase::AwaitAnd => (c.gates@.len() - s.gate + 1) as nat,
        _ => 0,
    }
}

// What one party does, step by step.

pub proof fn lemma_two_inputs(c: Circuit)
    requires
        c.header.wires_per_input.len() == 2,
    ensures
        c.header.input_sum() == c.header.wires_per_input@[0] + c.header.wires_per_input@[1],
        sum(c.header.wires_per_input@.take(0)) == 0,
        sum(c.header.wires_per_input@.take(1)) == c.header.wires_per_input@[0],
        sum(c.header.wires_per_input@.take(2)) == c.header.input_sum(),
{
    let w = c.header.wires_per_input@;
    assert(w.drop_last().drop_last() =~= Seq::<usize>::empty());
    assert(sum(w.drop_last().drop_last()) == 0);
    assert(w.drop_last().last() == w[0]);
    assert(sum(w.drop_last()) == w[0]);
    assert(w.take(0) =~= Seq::<usize>::empty());
    lemma_sum_take_next(w, 0);
    assert(w.take(2) =~= w);
}

proof fn lemma_clear_len(c: Circuit, x: Seq<bool>, j: int)
    requires
        c.wf(),
        j <= c.gates@.len(),
    ensures
        clear_wires(c, x, j).len() == c.header.num_wires,
    decreases j,
{
    if j > 0 {
        lemma_clear_len(c, x, j - 1);
        assert(gate_fits(c.gates@[j - 1], c.header.input_sum(), c.header.num_wires as int));
    }
}

proof fn lemma_count_and_prefix(c: Circuit, j: int)
    requires
        0 <= j <= c.gates@.len(),
    ensures
        count_and(c.gates@.take(j)) <= count_and(c.gates@),
    decreases c.gates@.len() - j,
{
    if j < c.gates@.len() {
        lemma_count_and_take_next(c.gates@, j);
        lemma_count_and_prefix(c, j + 1);
    } else {
        assert(c.gates@.take(j) =~= c.gates@);
    }
}

pub proof fn lemma_advance_len(c: Circuit, role: Role, w: Seq<bool>, j: int)
    requires
        c.wf(),
        0 <= j <= c.gates@.len(),
        w.len() == c.header.num_wires,
    ensures
        advance(c, role, w, j).0.len() == w.len(),
    decreases c.gates@.len() - j,
{
    if j < c.gates@.len() && !(c.gates@[j].op is AND) {
        let g = c.gates@[j];
        assert(gate_fits(g, c.header.input_sum(), c.header.num_wires as int));
        lemma_advance_len(
            c,
            role,
            w.update(g.output_wire as int, local_share(role, g.op, w)),
            j + 1,
        );
    }
}

pub proof fn lemma_advance_forward(c: Circuit, role: Role, w: Seq<bool>, j: int)
    requires
        0 <= j <= c.gates@.len(),
    ensures
        j <= advance(c, role, w, j).1 <= c.gates@.len(),
        advance(c, role, w, j).1 < c.gates@.len() ==> c.gates@[advance(c, role, w, j).1].op is AND,
    decreases c.gates@.len() - j,
{
    if j < c.gates@.len() && !(c.gates@[j].op is AND) {
        let g = c.gates@[j];
        lemma_advance_forward(
            c,
            role,
            w.update(g.output_wire as int, local_share(role, g.op, w)),
            j + 1,
        );
    }
}

pub proof fn lemma_advance_count(c: Circuit, role: Role, w: Seq<bool>, j: int)
    requires
        0 <= j <= c.gates@.len(),
    ensures
        count_and(c.gates@.take(advance(c, role, w, j).1)) == count_and(
            c.gates@.take(j),
        ),
    decreases c.gates@.len() - j,
{
    if j < c.gates@.len() && !(c.gates@[j].op is AND) {
        let g = c.gates@[j];
        lemma_count_and_take_next(c.gates@, j);
        lemma_advance_count(
            c,
            role,
            w.update(g.output_wire as int, local_share(role, g.op, w)),
            j + 1,
        );
    }
}

/// Each exchange that does not end the run brings the party closer to its end.
pub proof fn lemma_step_progress(c: Circuit, role: Role, s: State, p: Packet, t: MulTriple)
    requires
        0 <= s.gate <= c.gates@.len(),
        s.phase == Phase::AwaitAnd ==> s.gate < c.gates@.len(),
        step(c, role, s, p, t).1 is Send,
    ensures
        progress(c, step(c, role, s, p, t).0) < progress(c, s),
        step(c, role, s, p, t).0.phase == Phase::AwaitAnd || step(c, role, s, p, t).0.phase
            == Phase::AwaitResult,
{
    match s.phase {
        Phase::Sharing => {
            let q = p->ParameterShares_0;
            lemma_advance_forward(c, role, place(s.wires, offset(c, role.spec_other()), q), 0);
        },
        Phase::AwaitAnd => {
            let g = c.gates@[s.gate];
            let (d, e) = (p->And_d, p->And_e);
            let x = s.wires[g.op->AND_0 as int];
            let y = s.wires[g.op->AND_1 as int];
            let w = s.wires.update(
                g.output_wire as int,
                and_share(role, s.triple, (x != s.triple.a) != d, (y != s.triple.b) != e),
            );
            lemma_advance_forward(c, role, w, s.gate + 1);
        },
        _ => {},
    }
}

/// The packets a party has sent, as its state calls for: its input shares, then one AND
/// packet for each AND gate it has reached, then its output shares once it has them.
pub open spec fn sent_so_far(c: Circuit, s: State, sent: Seq<Packet>) -> bool {
    &&& sent.len() >= 1
    &&& sent[0] is ParameterShares
    &&& match s.phase {
        Phase::Sharing => sent.len() == 1,
        Phase::AwaitAnd => {
            &&& sent.len() == count_and(c.gates@.take(s.gate)) + 2
            &&& forall|i: int| 1 <= i < sent.len() ==> #[trigger] sent[i] is And
        },
        Phase::AwaitResult => {
            &&& sent.len() == count_and(c.gates@) + 2
            &&& forall|i: int| 1 <= i < sent.len() - 1 ==> #[trigger] sent[i] is And
            &&& sent.last() is Result
        },
        _ => true,
    }
}

/// Each packet a step sends keeps the record of sent packets in the shape its state calls for.
pub proof fn lemma_step_sent(
    c: Circuit,
    role: Role,
    s: State,
    p: Packet,
    t: MulTriple,
    sent: Seq<Packet>,
)
    requires
        0 <= s.gate <= c.gates@.len(),
        s.phase == Phase::AwaitAnd ==> s.gate < c.gates@.len() && c.gates@[s.gate].op is AND,
        sent_so_far(c, s, sent),
        step(c, role, s, p, t).1 is Send,
    ensures
        sent_so_far(c, step(c, role, s, p, t).0, sent.push(step(c, role, s, p, t).1->Send_0)),
{
    let (n, o) = step(c, role, s, p, t);
    let q = o->Send_0;
    let j0 = if s.phase == Phase::Sharing { 0 } else { s.gate + 1 };
    let w = if s.phase == Phase::Sharing {
        place(s.wires, offset(c, role.spec_other()), p->ParameterShares_0)
    } else {
        let g = c.gates@[s.gate];
        let x = s.wires[g.op->AND_0 as int];
        let y = s.wires[g.op->AND_1 as int];
        s.wires.update(
            g.output_wire as int,
            and_share(role, s.triple, (x != s.triple.a) != p->And_d, (y != s.triple.b) != p->And_e),
        )
    };
    assert((n, o) == proceed(c, role, w, j0, t));
    lemma_advance_forward(c, role, w, j0);
    lemma_advance_count(c, role, w, j0);
    if s.phase == Phase::Sharing {
        assert(c.gates@.take(0) =~= Seq::<Gate>::empty());
    } else {
        lemma_count_and_take_next(c.gates@, s.gate);
    }
    let k = advance(c, role, w, j0).1;
    if k == c.gates@.len() {
        assert(c.gates@.take(k) =~= c.gates@);
    }
    let sent2 = sent.push(q);
    assert forall|i: int| 1 <= i < sent.len() implies sent2[i] == sent[i] by {}
}

/// The packets a party has received, as its state calls for: the peer's input shares, then
/// one AND packet for each AND gate it has passed; and how many triples it has drawn: one for
/// each AND gate it has reached.
pub open spec fn received_so_far(c: Circuit, s: State, received: Seq<Packet>, drawn: nat) -> bool {
    match s.phase {
        Phase::Sharing => received.len() == 0 && drawn == 0,
        Phase::AwaitAnd => {
            &&& received.len() == count_and(c.gates@.take(s.gate)) + 1
            &&& drawn == count_and(c.gates@.take(s.gate)) + 1
            &&& received[0] is ParameterShares
            &&& forall|i: int| 1 <= i < received.len() ==> #[trigger] received[i] is And
        },
        Phase::AwaitResult => {
            &&& received.len() == count_and(c.gates@) + 1
            &&& drawn == count_and(c.gates@)
            &&& received[0] is ParameterShares
            &&& forall|i: int| 1 <= i < received.len() ==> #[trigger] received[i] is And
        },
        _ => true,
    }
}

/// Each packet a step accepts keeps the record of received packets and drawn triples in the
/// shape its state calls for.
pub proof fn lemma_step_received(
    c: Circuit,
    role: Role,
    s: State,
    p: Packet,
    t: MulTriple,
    received: Seq<Packet>,
    drawn: nat,
)
    requires
        0 <= s.gate <= c.gates@.len(),
        s.phase == Phase::AwaitAnd ==> s.gate < c.gates@.len() && c.gates@[s.gate].op is AND,
        received_so_far(c, s, received, drawn),
        step(c, role, s, p, t).1 is Send,
    ensures
        received_so_far(
            c,
            step(c, role, s, p, t).0,
            received.push(p),
            if step(c, role, s, p, t).0.phase == Phase::AwaitAnd {
                drawn + 1
            } else {
                drawn
            },
        ),
{
    let (n, o) = step(c, role, s, p, t);
    let j0 = if s.phase == Phase::Sharing { 0 } else { s.gate + 1 };
    let w = if s.phase == Phase::Sharing {
        place(s.wires, offset(c, role.spec_other()), p->ParameterShares_0)
    } else {
        let g = c.gates@[s.gate];
        let x = s.wires[g.op->AND_0 as int];
        let y = s.wires[g.op->AND_1 as int];
        s.wires.update(
            g.output_wire as int,
            and_share(role, s.triple, (x != s.triple.a) != p->And_d, (y != s.triple.b) != p->And_e),
        )
    };
    assert((n, o) == proceed(c, role, w, j0, t));
    lemma_advance_forward(c, role, w, j0);
    lemma_advance_count(c, role, w, j0);
    if s.phase == Phase::Sharing {
        assert(c.gates@.take(0) =~= Seq::<Gate>::empty());
    } else {
        lemma_count_and_take_next(c.gates@, s.gate);
    }
    let k = advance(c, role, w, j0).1;
    if k == c.gates@.len() {
        assert(c.gates@.take(k) =~= c.gates@);
    }
    let received2 = received.push(p);
    assert forall|i: int| 0 <= i < received.len() implies received2[i] == received[i] by {}
}

// The record of one execution.

/// What one party's execution did: the mask it drew, the states it went through, the
/// packets it sent and received, and the triple it held after each step.
pub struct Trace {
    pub mask: Seq<bool>,
    pub states: Seq<State>,
    pub sent: Seq<Packet>,
    pub received: Seq<Packet>,
    pub triples: Seq<MulTriple>,
}

/// `tr` records a complete run of the party with role `role` on `input`: it began where
/// `start` puts it for the recorded mask, each received packet took it one `step`, and each
/// step but the last sent the next recorded packet.
pub open spec fn records_run(c: Circuit, role: Role, input: Seq<bool>, tr: Trace) -> bool {
    let n = tr.received.len() as int;
    &&& n >= 1
    &&& tr.mask.len() == input.len()
    &&& tr.states.len() == n + 1
    &&& tr.triples.len() == n
    &&& tr.sent.len() == n
    &&& (tr.states[0], tr.sent[0]) == start(c, role, input, tr.mask)
    &&& forall|i: int|
        0 <= i < n - 1 ==> #[trigger] step(
            c,
            role,
            tr.states[i],
            tr.received[i],
            tr.triples[i],
        ) == (
            tr.states[i + 1],
            Outcome::Send(tr.sent[i + 1]),
        )
    &&& step(c, role, tr.states[n - 1], tr.received[n - 1], tr.triples[n - 1]).0 == tr.states[n]
}

/// How the recorded run ended.
pub open spec fn run_outcome(c: Circuit, role: Role, tr: Trace) -> Outcome {
    let n = tr.received.len() as int - 1;
    step(c, role, tr.states[n], tr.received[n], tr.triples[n]).1
}

/// A run in progress: as `records_run`, but the last sent packet still awaits its answer.
pub open spec fn records_progress(c: Circuit, role: Role, input: Seq<bool>, tr: Trace) -> bool {
    let n = tr.received.len() as int;
    &&& tr.mask.len() == input.len()
    &&& tr.states.len() == n + 1
    &&& tr.triples.len() == n
    &&& tr.sent.len() == n + 1
    &&& (tr.states[0], tr.sent[0]) == start(c, role, input, tr.mask)
    &&& forall|i: int|
        0 <= i < n ==> #[trigger] step(c, role, tr.states[i], tr.received[i], tr.triples[i]) == (
            tr.states[i + 1],
            Outcome::Send(tr.sent[i + 1]),
        )
}

/// The triples held at AND gates along a sequence of states, in order: one for each state
/// that waits at an AND gate.
pub open spec fn and_triples(states: Seq<State>) -> Seq<MulTriple>
    decreases states.len(),
{
    if states.len() == 0 {
        Seq::empty()
    } else if states.last().phase == Phase::AwaitAnd {
        and_triples(states.drop_last()).push(states.last().triple)
    } else {
        and_triples(states.drop_last())
    }
}

/// The record after one more step, which sent `p`.
pub open spec fn continued(tr: Trace, got: Packet, t: MulTriple, s: State, p: Packet) -> Trace {
    Trace {
        mask: tr.mask,
        states: tr.states.push(s),
        sent: tr.sent.push(p),
        received: tr.received.push(got),
        triples: tr.triples.push(t),
    }
}

/// The record after a last step, which sent nothing.
pub open spec fn finished(tr: Trace, got: Packet, t: MulTriple, s: State) -> Trace {
    Trace {
        mask: tr.mask,
        states: tr.states.push(s),
        sent: tr.sent,
        received: tr.received.push(got),
        triples: tr.triples.push(t),
    }
}

pub proof fn lemma_continue_trace(
    c: Circuit,
    role: Role,
    input: Seq<bool>,
    tr: Trace,
    got: Packet,
    t: MulTriple,
    p: Packet,
)
    requires
        records_progress(c, role, input, tr),
        step(c, role, tr.states.last(), got, t).1 == Outcome::Send(p),
    ensures
        records_progress(
            c,
            role,
            input,
            continued(tr, got, t, step(c, role, tr.states.last(), got, t).0, p),
        ),
{
    let nt = continued(tr, got, t, step(c, role, tr.states.last(), got, t).0, p);
    let n = tr.received.len() as int;
    assert forall|i: int| 0 <= i < n + 1 implies #[trigger] step(
        c,
        role,
        nt.states[i],
        nt.received[i],
        nt.triples[i],
    )
        == (nt.states[i + 1], Outcome::Send(nt.sent[i + 1])) by {
        if i < n {
            assert(nt.states[i] == tr.states[i]);
            assert(nt.states[i + 1] == tr.states[i + 1]);
            assert(nt.received[i] == tr.received[i]);
            assert(nt.triples[i] == tr.triples[i]);
            assert(nt.sent[i + 1] == tr.sent[i + 1]);
            assert(step(c, role, tr.states[i], tr.received[i], tr.triples[i])
                == (tr.states[i + 1], Outcome::Send(tr.sent[i + 1])));
        }
    }
}

pub proof fn lemma_finish_trace(
    c: Circuit,
    role: Role,
    input: Seq<bool>,
    tr: Trace,
    got: Packet,
    t: MulTriple,
)
    requires
        records_progress(c, role, input, tr),
    ensures
        ({
            let nt = finished(tr, got, t, step(c, role, tr.states.last(), got, t).0);
            &&& records_run(c, role, input, nt)
            &&& run_outcome(c, role, nt) == step(c, role, tr.states.last(), got, t).1
        }),
{
    let nt = finished(tr, got, t, step(c, role, tr.states.last(), got, t).0);
    let n = tr.received.len() as int;
    assert forall|i: int| 0 <= i < n implies #[trigger] step(
        c,
        role,
        nt.states[i],
        nt.received[i],
        nt.triples[i],
    )
        == (nt.states[i + 1], Outcome::Send(nt.sent[i + 1])) by {
        assert(nt.states[i] == tr.states[i]);
        assert(nt.states[i + 1] == tr.states[i + 1]);
        assert(nt.received[i] == tr.received[i]);
        assert(nt.triples[i] == tr.triples[i]);
        assert(step(c, role, tr.states[i], tr.received[i], tr.triples[i])
            == (tr.states[i + 1], Outcome::Send(tr.sent[i + 1])));
    }
    assert(nt.states[n] == tr.states.last());
}

// Two parties in lockstep.

/// The two parties' shares of every wire add up to the clear value after `j` gates.
pub open spec fn shares_match(
    c: Circuit,
    x: Seq<bool>,
    w0: Seq<bool>,
    w1: Seq<bool>,
    j: int,
) -> bool {
    &&& w0.len() == c.header.num_wires
    &&& w1.len() == c.header.num_wires
    &&& forall|i: int|
        0 <= i < c.header.num_wires ==> (w0[i] != w1[i]) == #[trigger] clear_wires(c, x, j)[i]
}

/// Two parties between exchanges, as they stand in a run over an in-order channel: same
/// gate, same phase, shares adding up to the clear wires, and each has sent what its state
/// calls for.
pub open spec fn paired(
    c: Circuit,
    x: Seq<bool>,
    s0: State,
    s1: State,
    pk0: Packet,
    pk1: Packet,
) -> bool {
    let n = c.gates@.len() as int;
    let j = s0.gate;
    &&& s1.gate == j
    &&& 0 <= j <= n
    &&& shares_match(c, x, s0.wires, s1.wires, j)
    &&& {
        ||| {
            &&& s0.phase == Phase::AwaitAnd
            &&& s1.phase == Phase::AwaitAnd
            &&& j < n
            &&& c.gates@[j].op is AND
            &&& pk0 == Packet::And {
                d: s0.wires[c.gates@[j].op->AND_0 as int] != s0.triple.a,
                e: s0.wires[c.gates@[j].op->AND_1 as int] != s0.triple.b,
            }
            &&& pk1 == Packet::And {
                d: s1.wires[c.gates@[j].op->AND_0 as int] != s1.triple.a,
                e: s1.wires[c.gates@[j].op->AND_1 as int] != s1.triple.b,
            }
        }
        ||| {
            &&& s0.phase == Phase::AwaitResult
            &&& s1.phase == Phase::AwaitResult
            &&& j == n
            &&& pk0 == Packet::Result(output_of(c, s0.wires))
            &&& pk1 == Packet::Result(output_of(c, s1.wires))
        }
    }
}

/// The AND subprotocol: the two output shares add up to the AND of the two inputs.
proof fn lemma_and_shares(t0: MulTriple, t1: MulTriple, x0: bool, x1: bool, y0: bool, y1: bool)
    requires
        conforming(t0, t1),
    ensures
        ({
            let d = (x0 != t0.a) != (x1 != t1.a);
            let e = (y0 != t0.b) != (y1 != t1.b);
            (and_share(Role::Server, t0, d, e) != and_share(Role::Client, t1, d, e)) == ((x0 != x1)
                && (y0 != y1))
        }),
{
}

/// Both parties evaluate the same stretch of gates without talking, and their shares keep
/// adding up to the clear wire values.
proof fn lemma_advance_pair(c: Circuit, x: Seq<bool>, w0: Seq<bool>, w1: Seq<bool>, j: int)
    requires
        c.wf(),
        0 <= j <= c.gates@.len(),
        shares_match(c, x, w0, w1, j),
    ensures
        ({
            let (v0, j0) = advance(c, Role::Server, w0, j);
            let (v1, j1) = advance(c, Role::Client, w1, j);
            &&& j0 == j1
            &&& j <= j0 <= c.gates@.len()
            &&& j0 < c.gates@.len() ==> c.gates@[j0].op is AND
            &&& shares_match(c, x, v0, v1, j0)
            &&& count_and(c.gates@.take(j0)) == count_and(c.gates@.take(j))
        }),
    decreases c.gates@.len() - j,
{
    if j < c.gates@.len() && !(c.gates@[j].op is AND) {
        let g = c.gates@[j];
        assert(gate_fits(g, c.header.input_sum(), c.header.num_wires as int));
        let u0 = w0.update(g.output_wire as int, local_share(Role::Server, g.op, w0));
        let u1 = w1.update(g.output_wire as int, local_share(Role::Client, g.op, w1));
        let cw = clear_wires(c, x, j);
        lemma_clear_len(c, x, j);
        assert(clear_wires(c, x, j + 1) == cw.update(g.output_wire as int, clear_value(g.op, cw)));
        match g.op {
            GateOperation::XOR(a, b) => {
                assert(cw[a as int] == (w0[a as int] != w1[a as int]));
                assert(cw[b as int] == (w0[b as int] != w1[b as int]));
            },
            GateOperation::INV(a) => {
                assert(cw[a as int] == (w0[a as int] != w1[a as int]));
            },
            GateOperation::EQW(a) => {
                assert(cw[a as int] == (w0[a as int] != w1[a as int]));
            },
            _ => {},
        }
        assert(shares_match(c, x, u0, u1, j + 1));
        lemma_count_and_take_next(c.gates@, j);
        lemma_advance_pair(c, x, u0, u1, j + 1);
    }
}

proof fn lemma_paired_after_proceed(
    c: Circuit,
    x: Seq<bool>,
    w0: Seq<bool>,
    w1: Seq<bool>,
    j: int,
    t0: MulTriple,
    t1: MulTriple,
)
    requires
        c.wf(),
        0 <= j <= c.gates@.len(),
        shares_match(c, x, w0, w1, j),
    ensures
        ({
            let (n0, o0) = proceed(c, Role::Server, w0, j, t0);
            let (n1, o1) = proceed(c, Role::Client, w1, j, t1);
            &&& o0 is Send
            &&& o1 is Send
            &&& n0.triple == t0
            &&& n1.triple == t1
            &&& paired(c, x, n0, n1, o0->Send_0, o1->Send_0)
        }),
{
    lemma_advance_pair(c, x, w0, w1, j);
}

/// The exchange of output shares ends both paired parties with the clear evaluation.
#[verifier::rlimit(40)]
proof fn lemma_paired_result(
    c: Circuit,
    x: Seq<bool>,
    s0: State,
    s1: State,
    pk0: Packet,
    pk1: Packet,
    t0: MulTriple,
    t1: MulTriple,
)
    requires
        c.wf(),
        paired(c, x, s0, s1, pk0, pk1),
        s0.phase == Phase::AwaitResult,
    ensures
        step(c, Role::Server, s0, pk1, t0).1 == Outcome::Done(evaluate(c, x)),
        step(c, Role::Client, s1, pk0, t1).1 == Outcome::Done(evaluate(c, x)),
{
    let n = c.gates@.len() as int;
    let q1 = output_of(c, s1.wires);
    let q0 = output_of(c, s0.wires);
    lemma_clear_len(c, x, n);
    let cw = clear_wires(c, x, n);
    let off = c.output_offset();
    lemma_sum_prefix_le(c.header.wires_per_output@, 0);
    assert forall|i: int| 0 <= i < q0.len() implies xor_seq(q0, q1)[i] == evaluate(c, x)[i]
        && xor_seq(q1, q0)[i] == evaluate(c, x)[i] by {
        assert(cw[off + i] == (s0.wires[off + i] != s1.wires[off + i]));
    }
    assert(xor_seq(q0, q1) =~= evaluate(c, x));
    assert(xor_seq(q1, q0) =~= evaluate(c, x));
}

/// The exchange at an AND gate, with conforming triples, leaves both parties paired at the
/// next AND gate or at the output.
#[verifier::rlimit(80)]
proof fn lemma_paired_and(
    c: Circuit,
    x: Seq<bool>,
    s0: State,
    s1: State,
    pk0: Packet,
    pk1: Packet,
    t0: MulTriple,
    t1: MulTriple,
)
    requires
        c.wf(),
        paired(c, x, s0, s1, pk0, pk1),
        s0.phase == Phase::AwaitAnd,
        conforming(s0.triple, s1.triple),
    ensures
        ({
            let (n0, o0) = step(c, Role::Server, s0, pk1, t0);
            let (n1, o1) = step(c, Role::Client, s1, pk0, t1);
            &&& o0 is Send
            &&& o1 is Send
            &&& n0.triple == t0
            &&& n1.triple == t1
            &&& paired(c, x, n0, n1, o0->Send_0, o1->Send_0)
            &&& count_and(c.gates@.take(n0.gate)) == count_and(
                c.gates@.take(s0.gate),
            ) + 1
        }),
{
    let j = s0.gate;
    let g = c.gates@[j];
    let a = g.op->AND_0;
    let b = g.op->AND_1;
    assert(gate_fits(g, c.header.input_sum(), c.header.num_wires as int));
    let ta = s0.triple;
    let tb = s1.triple;
    let x0 = s0.wires[a as int];
    let x1 = s1.wires[a as int];
    let y0 = s0.wires[b as int];
    let y1 = s1.wires[b as int];
    let d = (x0 != ta.a) != (x1 != tb.a);
    let e = (y0 != ta.b) != (y1 != tb.b);
    lemma_and_shares(ta, tb, x0, x1, y0, y1);
    let u0 = s0.wires.update(g.output_wire as int, and_share(Role::Server, ta, d, e));
    let u1 = s1.wires.update(g.output_wire as int, and_share(Role::Client, tb, d, e));
    let cw = clear_wires(c, x, j);
    lemma_clear_len(c, x, j);
    assert(cw[a as int] == (x0 != x1));
    assert(cw[b as int] == (y0 != y1));
    assert(clear_wires(c, x, j + 1) == cw.update(g.output_wire as int, clear_value(g.op, cw)));
    assert(shares_match(c, x, u0, u1, j + 1));
    lemma_paired_after_proceed(c, x, u0, u1, j + 1, t0, t1);
    lemma_advance_count(c, Role::Server, u0, j + 1);
    lemma_count_and_take_next(c.gates@, j);
    assert(step(c, Role::Server, s0, pk1, t0) == proceed(c, Role::Server, u0, j + 1, t0));
    assert(step(c, Role::Client, s1, pk0, t1) == proceed(c, Role::Client, u1, j + 1, t1));
}

/// The first exchange, of input shares, leaves two parties paired.
proof fn lemma_paired_start(
    c: Circuit,
    x0: Seq<bool>,
    x1: Seq<bool>,
    m0: Seq<bool>,
    m1: Seq<bool>,
    t0: MulTriple,
    t1: MulTriple,
)
    requires
        accepted(c),
        x0.len() == c.header.wires_per_input@[0],
        x1.len() == c.header.wires_per_input@[1],
        m0.len() == x0.len(),
        m1.len() == x1.len(),
    ensures
        ({
            let (s0, pk0) = start(c, Role::Server, x0, m0);
            let (s1, pk1) = start(c, Role::Client, x1, m1);
            let (n0, o0) = step(c, Role::Server, s0, pk1, t0);
            let (n1, o1) = step(c, Role::Client, s1, pk0, t1);
            &&& o0 is Send
            &&& o1 is Send
            &&& n0.triple == t0
            &&& n1.triple == t1
            &&& paired(c, x0 + x1, n0, n1, o0->Send_0, o1->Send_0)
            &&& count_and(c.gates@.take(n0.gate)) == 0
        }),
{
    let x = x0 + x1;
    let n0 = x0.len() as int;
    lemma_two_inputs(c);
    let (s0, pk0) = start(c, Role::Server, x0, m0);
    let (s1, pk1) = start(c, Role::Client, x1, m1);
    let u0 = place(s0.wires, n0, m1);
    let u1 = place(s1.wires, 0, m0);
    lemma_clear_len(c, x, 0);
    assert(shares_match(c, x, u0, u1, 0));
    lemma_paired_after_proceed(c, x, u0, u1, 0, t0, t1);
    lemma_advance_count(c, Role::Server, u0, 0);
    assert(c.gates@.take(0) =~= Seq::<Gate>::empty());
    assert(step(c, Role::Server, s0, pk1, t0) == proceed(c, Role::Server, u0, 0, t0));
    assert(step(c, Role::Client, s1, pk0, t1) == proceed(c, Role::Client, u1, 0, t1));
}

// The joint run of both parties.

/// Both parties run in lockstep over an in-order channel: each step, each receives the
/// packet the other sent last. `k` triples have been drawn so far at each party.
pub struct Joint {
    pub server: Outcome,
    pub client: Outcome,
    pub server_sent: Seq<Packet>,
    pub client_sent: Seq<Packet>,
}

pub open spec fn joint(
    c: Circuit,
    s0: State,
    s1: State,
    pk0: Packet,
    pk1: Packet,
    t0s: Seq<MulTriple>,
    t1s: Seq<MulTriple>,
    k: nat,
    fuel: nat,
) -> Joint
    decreases fuel,
{
    if fuel == 0 {
        Joint { server: Outcome::Fail, client: Outcome::Fail, server_sent: seq![pk0], client_sent: seq![pk1] }
    } else {
        let (n0, o0) = step(c, Role::Server, s0, pk1, t0s[k as int]);
        let (n1, o1) = step(c, Role::Client, s1, pk0, t1s[k as int]);
        match (o0, o1) {
            (Outcome::Send(q0), Outcome::Send(q1)) => {
                let next_k = if n0.phase == Phase::AwaitAnd { k + 1 } else { k };
                let rest = joint(c, n0, n1, q0, q1, t0s, t1s, next_k, (fuel - 1) as nat);
                Joint {
                    server: rest.server,
                    client: rest.client,
                    server_sent: seq![pk0] + rest.server_sent,
                    client_sent: seq![pk1] + rest.client_sent,
                }
            },
            _ => Joint { server: o0, client: o1, server_sent: seq![pk0], client_sent: seq![pk1] },
        }
    }
}

/// The run of both parties on inputs `x0`, `x1`, masks `m0`, `m1` and triples `t0s`, `t1s`.
pub open spec fn run_both(
    c: Circuit,
    x0: Seq<bool>,
    x1: Seq<bool>,
    m0: Seq<bool>,
    m1: Seq<bool>,
    t0s: Seq<MulTriple>,
    t1s: Seq<MulTriple>,
) -> Joint {
    let (s0, pk0) = start(c, Role::Server, x0, m0);
    let (s1, pk1) = start(c, Role::Client, x1, m1);
    joint(c, s0, s1, pk0, pk1, t0s, t1s, 0, count_and(c.gates@) + 2)
}

/// The packets a party sends: one input-share packet, `n` AND packets, one output packet.
pub open spec fn transcript_shape(sent: Seq<Packet>, n: nat) -> bool {
    &&& sent.len() == n + 2
    &&& sent[0] is ParameterShares
    &&& forall|i: int| 1 <= i <= n ==> #[trigger] sent[i] is And
    &&& sent[n as int + 1] is Result
}

/// The lockstep of the two parties between two exchanges in the joint run: paired, and each
/// holds the triple of its own sequence that belongs to the AND gate it stands at.
pub open spec fn lockstep(
    c: Circuit,
    x: Seq<bool>,
    s0: State,
    s1: State,
    pk0: Packet,
    pk1: Packet,
    t0s: Seq<MulTriple>,
    t1s: Seq<MulTriple>,
    k: nat,
) -> bool {
    &&& paired(c, x, s0, s1, pk0, pk1)
    &&& s0.phase == Phase::AwaitAnd ==> {
        &&& k == count_and(c.gates@.take(s0.gate)) + 1
        &&& s0.triple == t0s[k - 1]
        &&& s1.triple == t1s[k - 1]
    }
    &&& s0.phase == Phase::AwaitResult ==> k == count_and(c.gates@)
}

/// From a lockstep state, the rest of the joint run ends with both parties holding the clear
/// output, each having sent the remaining AND packets and then its output packet.
#[verifier::rlimit(40)]
proof fn lemma_joint_rest(
    c: Circuit,
    x: Seq<bool>,
    s0: State,
    s1: State,
    pk0: Packet,
    pk1: Packet,
    t0s: Seq<MulTriple>,
    t1s: Seq<MulTriple>,
    k: nat,
    fuel: nat,
)
    requires
        c.wf(),
        lockstep(c, x, s0, s1, pk0, pk1, t0s, t1s, k),
        forall|i: int| 0 <= i < count_and(c.gates@) ==> conforming(#[trigger] t0s[i], t1s[i]),
        fuel >= count_and(c.gates@) + 1 - k + if s0.phase == Phase::AwaitAnd { 1int } else { 0 },
    ensures
        ({
            let run = joint(c, s0, s1, pk0, pk1, t0s, t1s, k, fuel);
            let r = count_and(c.gates@) - k + if s0.phase == Phase::AwaitAnd { 1int } else { 0 };
            &&& run.server == Outcome::Done(evaluate(c, x))
            &&& run.client == Outcome::Done(evaluate(c, x))
            &&& run.server_sent.len() == r + 1
            &&& run.client_sent.len() == r + 1
            &&& forall|i: int| 0 <= i < r ==> #[trigger] run.server_sent[i] is And
            &&& forall|i: int| 0 <= i < r ==> #[trigger] run.client_sent[i] is And
            &&& run.server_sent[r] is Result
            &&& run.client_sent[r] is Result
        }),
    decreases fuel,
{
    let j = s0.gate;
    if s0.phase == Phase::AwaitResult {
        lemma_paired_result(c, x, s0, s1, pk0, pk1, t0s[k as int], t1s[k as int]);
    } else {
        lemma_count_and_take_next(c.gates@, j);
        lemma_count_and_prefix(c, j + 1);
        assert(conforming(t0s[k - 1], t1s[k - 1]));
        lemma_paired_and(c, x, s0, s1, pk0, pk1, t0s[k as int], t1s[k as int]);
        let (n0, o0) = step(c, Role::Server, s0, pk1, t0s[k as int]);
        let (n1, o1) = step(c, Role::Client, s1, pk0, t1s[k as int]);
        if n0.phase == Phase::AwaitResult {
            assert(c.gates@.take(n0.gate) =~= c.gates@);
        }
        let next_k = if n0.phase == Phase::AwaitAnd { k + 1 } else { k };
        lemma_joint_rest(c, x, n0, n1, o0->Send_0, o1->Send_0, t0s, t1s, next_k, (fuel - 1) as nat);
        let rest = joint(c, n0, n1, o0->Send_0, o1->Send_0, t0s, t1s, next_k, (fuel - 1) as nat);
        let run = joint(c, s0, s1, pk0, pk1, t0s, t1s, k, fuel);
        assert(run.server_sent == seq![pk0] + rest.server_sent);
        assert(run.client_sent == seq![pk1] + rest.client_sent);
        let r = count_and(c.gates@) - k + 1;
        assert forall|i: int| 0 <= i < r implies #[trigger] run.server_sent[i] is And by {
            if i > 0 {
                assert(run.server_sent[i] == rest.server_sent[i - 1]);
            }
        }
        assert forall|i: int| 0 <= i < r implies #[trigger] run.client_sent[i] is And by {
            if i > 0 {
                assert(run.client_sent[i] == rest.client_sent[i - 1]);
            }
        }
        assert(run.server_sent[r] == rest.server_sent[r - 1]);
        assert(run.client_sent[r] == rest.client_sent[r - 1]);
    }
}

proof fn lemma_joint_from_start(
    c: Circuit,
    x0: Seq<bool>,
    x1: Seq<bool>,
    m0: Seq<bool>,
    m1: Seq<bool>,
    t0s: Seq<MulTriple>,
    t1s: Seq<MulTriple>,
)
    requires
        c.wf(),
        c.header.wires_per_input.len() == 2,
        x0.len() == c.header.wires_per_input@[0],
        x1.len() == c.header.wires_per_input@[1],
        m0.len() == x0.len(),
        m1.len() == x1.len(),
        forall|i: int| 0 <= i < count_and(c.gates@) ==> conforming(#[trigger] t0s[i], t1s[i]),
    ensures
        ({
            let run = run_both(c, x0, x1, m0, m1, t0s, t1s);
            &&& run.server == Outcome::Done(evaluate(c, x0 + x1))
            &&& run.client == Outcome::Done(evaluate(c, x0 + x1))
            &&& transcript_shape(run.server_sent, count_and(c.gates@))
            &&& transcript_shape(run.client_sent, count_and(c.gates@))
        }),
{
    let x = x0 + x1;
    let (s0, pk0) = start(c, Role::Server, x0, m0);
    let (s1, pk1) = start(c, Role::Client, x1, m1);
    lemma_paired_start(c, x0, x1, m0, m1, t0s[0], t1s[0]);
    let (a0, o0) = step(c, Role::Server, s0, pk1, t0s[0]);
    let (a1, o1) = step(c, Role::Client, s1, pk0, t1s[0]);
    if a0.phase == Phase::AwaitResult {
        assert(c.gates@.take(a0.gate) =~= c.gates@);
    }
    let k = if a0.phase == Phase::AwaitAnd { 1nat } else { 0nat };
    let fuel = (count_and(c.gates@) + 1) as nat;
    lemma_joint_rest(c, x, a0, a1, o0->Send_0, o1->Send_0, t0s, t1s, k, fuel);
    let rest = joint(c, a0, a1, o0->Send_0, o1->Send_0, t0s, t1s, k, fuel);
    let run = run_both(c, x0, x1, m0, m1, t0s, t1s);
    assert(run.server_sent == seq![pk0] + rest.server_sent);
    assert(run.client_sent == seq![pk1] + rest.client_sent);
    let r = count_and(c.gates@);
    assert forall|i: int| 1 <= i <= r implies #[trigger] run.server_sent[i] is And by {
        assert(run.server_sent[i] == rest.server_sent[i - 1]);
    }
    assert forall|i: int| 1 <= i <= r implies #[trigger] run.client_sent[i] is And by {
        assert(run.client_sent[i] == rest.client_sent[i - 1]);
    }
    assert(run.server_sent[r as int + 1] == rest.server_sent[r as int]);
    assert(run.client_sent[r as int + 1] == rest.client_sent[r as int]);
}

// What holds of every execution.

/// Correctness: for a circuit the engine accepts, inputs of the widths the circuit gives,
/// any masks and any conforming triples, both parties end with the same output, the
/// circuit's clear evaluation on the two inputs joined.
pub proof fn lemma_gmw_correct(
    c: Circuit,
    x0: Seq<bool>,
    x1: Seq<bool>,
    m0: Seq<bool>,
    m1: Seq<bool>,
    t0s: Seq<MulTriple>,
    t1s: Seq<MulTriple>,
)
    requires
        c.wf(),
        c.header.wires_per_input.len() == 2,
        x0.len() == c.header.wires_per_input@[0],
        x1.len() == c.header.wires_per_input@[1],
        m0.len() == x0.len(),
        m1.len() == x1.len(),
        forall|i: int| 0 <= i < count_and(c.gates@) ==> conforming(#[trigger] t0s[i], t1s[i]),
    ensures
        run_both(c, x0, x1, m0, m1, t0s, t1s).server == Outcome::Done(evaluate(c, x0 + x1)),
        run_both(c, x0, x1, m0, m1, t0s, t1s).client == Outcome::Done(evaluate(c, x0 + x1)),
{
    lemma_joint_from_start(c, x0, x1, m0, m1, t0s, t1s);
}

/// Message count: in a run of both parties, each sends exactly one input-share packet, one
/// AND packet per AND gate, and one output packet, in that order.
pub proof fn lemma_packet_count(
    c: Circuit,
    x0: Seq<bool>,
    x1: Seq<bool>,
    m0: Seq<bool>,
    m1: Seq<bool>,
    t0s: Seq<MulTriple>,
    t1s: Seq<MulTriple>,
)
    requires
        c.wf(),
        c.header.wires_per_input.len() == 2,
        x0.len() == c.header.wires_per_input@[0],
        x1.len() == c.header.wires_per_input@[1],
        m0.len() == x0.len(),
        m1.len() == x1.len(),
        forall|i: int| 0 <= i < count_and(c.gates@) ==> conforming(#[trigger] t0s[i], t1s[i]),
    ensures
        transcript_shape(run_both(c, x0, x1, m0, m1, t0s, t1s).server_sent, count_and(c.gates@)),
        transcript_shape(run_both(c, x0, x1, m0, m1, t0s, t1s).client_sent, count_and(c.gates@)),
{
    lemma_joint_from_start(c, x0, x1, m0, m1, t0s, t1s);
}

/// XOR without communication: a circuit of XOR and INV gates alone makes each party send
/// no AND packet, only its input shares and its output shares.
pub proof fn lemma_linear_no_and(
    c: Circuit,
    x0: Seq<bool>,
    x1: Seq<bool>,
    m0: Seq<bool>,
    m1: Seq<bool>,
    t0s: Seq<MulTriple>,
    t1s: Seq<MulTriple>,
)
    requires
        c.wf(),
        c.header.wires_per_input.len() == 2,
        x0.len() == c.header.wires_per_input@[0],
        x1.len() == c.header.wires_per_input@[1],
        m0.len() == x0.len(),
        m1.len() == x1.len(),
        forall|i: int|
            0 <= i < c.gates@.len() ==> (#[trigger] c.gates@[i].op is XOR || c.gates@[i].op is INV),
    ensures
        ({
            let run = run_both(c, x0, x1, m0, m1, t0s, t1s);
            &&& run.server_sent.len() == 2
            &&& run.client_sent.len() == 2
            &&& forall|i: int| 0 <= i < 2 ==> !(#[trigger] run.server_sent[i] is And)
            &&& forall|i: int| 0 <= i < 2 ==> !(#[trigger] run.client_sent[i] is And)
        }),
{
    lemma_no_and(c.gates@);
    lemma_joint_from_start(c, x0, x1, m0, m1, t0s, t1s);
}

proof fn lemma_no_and(g: Seq<Gate>)
    requires
        forall|i: int| 0 <= i < g.len() ==> (#[trigger] g[i].op is XOR || g[i].op is INV),
    ensures
        count_and(g) == 0,
    decreases g.len(),
{
    if g.len() > 0 {
        assert(g.last().op is XOR || g.last().op is INV);
        let h = g.drop_last();
        assert forall|i: int| 0 <= i < h.len() implies (#[trigger] h[i].op is XOR || h[i].op is INV) by {
            assert(h[i] == g[i]);
        }
        lemma_no_and(h);
    }
}

/// Share hiding: the input-share packet a party sends is its mask, whatever its input; so a
/// uniformly drawn mask makes it uniform and independent of both inputs. The party's own
/// share and the sent one add up to its input.
pub proof fn lemma_share_hiding(c: Circuit, role: Role, x: Seq<bool>, y: Seq<bool>, m: Seq<bool>)
    requires
        x.len() == m.len(),
        y.len() == m.len(),
    ensures
        start(c, role, x, m).1 == Packet::ParameterShares(m),
        start(c, role, x, m).1 == start(c, role, y, m).1,
        xor_seq(split(x, m).0, split(x, m).1) == x,
{
    assert(xor_seq(split(x, m).0, split(x, m).1) =~= x);
}

/// Two recorded runs that form one execution: each received what the other sent, in order,
/// and whenever both stand at an AND gate their triples conform.
pub open spec fn one_execution(
    c: Circuit,
    x0: Seq<bool>,
    x1: Seq<bool>,
    tr0: Trace,
    tr1: Trace,
) -> bool {
    &&& records_run(c, Role::Server, x0, tr0)
    &&& records_run(c, Role::Client, x1, tr1)
    &&& tr0.received == tr1.sent
    &&& tr1.received == tr0.sent
    &&& forall|k: int|
        0 <= k < and_triples(tr0.states).len() && k < and_triples(tr1.states).len() ==> conforming(
            #[trigger] and_triples(tr0.states)[k],
            and_triples(tr1.states)[k],
        )
}

proof fn lemma_and_triples_next(states: Seq<State>, i: int)
    requires
        0 <= i < states.len(),
    ensures
        and_triples(states.take(i + 1)) == if states[i].phase == Phase::AwaitAnd {
            and_triples(states.take(i)).push(states[i].triple)
        } else {
            and_triples(states.take(i))
        },
{
    assert(states.take(i + 1).drop_last() =~= states.take(i));
}

proof fn lemma_and_triples_prefix(states: Seq<State>, i: int)
    requires
        0 <= i <= states.len(),
    ensures
        and_triples(states.take(i)).len() <= and_triples(states).len(),
        forall|k: int|
            0 <= k < and_triples(states.take(i)).len() ==> #[trigger] and_triples(states.take(i))[k]
                == and_triples(states)[k],
    decreases states.len() - i,
{
    if i == states.len() {
        assert(states.take(i) =~= states);
    } else {
        lemma_and_triples_prefix(states, i + 1);
        lemma_and_triples_next(states, i);
        let short = and_triples(states.take(i));
        let long = and_triples(states.take(i + 1));
        assert forall|k: int| 0 <= k < short.len() implies #[trigger] short[k] == and_triples(states)[k] by {
            assert(short[k] == long[k]);
        }
    }
}

/// Where both parties stand at an AND gate after the same number of AND gates, the triples
/// they hold conform.
proof fn lemma_conforming_at(c: Circuit, x0: Seq<bool>, x1: Seq<bool>, tr0: Trace, tr1: Trace, i: int)
    requires
        one_execution(c, x0, x1, tr0, tr1),
        0 <= i < tr0.states.len(),
        i < tr1.states.len(),
        tr0.states[i].phase == Phase::AwaitAnd,
        tr1.states[i].phase == Phase::AwaitAnd,
        and_triples(tr0.states.take(i)).len() == and_triples(tr1.states.take(i)).len(),
    ensures
        conforming(tr0.states[i].triple, tr1.states[i].triple),
{
    lemma_and_triples_next(tr0.states, i);
    lemma_and_triples_next(tr1.states, i);
    lemma_and_triples_prefix(tr0.states, i + 1);
    lemma_and_triples_prefix(tr1.states, i + 1);
    let k = and_triples(tr0.states.take(i)).len() as int;
    assert(and_triples(tr0.states.take(i + 1))[k] == tr0.states[i].triple);
    assert(and_triples(tr1.states.take(i + 1))[k] == tr1.states[i].triple);
    assert(conforming(and_triples(tr0.states)[k], and_triples(tr1.states)[k]));
}

proof fn lemma_runs_paired(c: Circuit, x0: Seq<bool>, x1: Seq<bool>, tr0: Trace, tr1: Trace, j: int)
    requires
        accepted(c),
        x0.len() == c.header.wires_per_input@[0],
        x1.len() == c.header.wires_per_input@[1],
        one_execution(c, x0, x1, tr0, tr1),
        1 <= j < tr0.received.len(),
    ensures
        paired(c, x0 + x1, tr0.states[j], tr1.states[j], tr0.sent[j], tr1.sent[j]),
        and_triples(tr0.states.take(j)).len() == and_triples(tr1.states.take(j)).len(),
    decreases j,
{
    let x = x0 + x1;
    if j == 1 {
        lemma_and_triples_next(tr0.states, 0);
        lemma_and_triples_next(tr1.states, 0);
        assert(tr0.states.take(0) =~= Seq::<State>::empty());
        assert(tr1.states.take(0) =~= Seq::<State>::empty());
        assert(step(c, Role::Server, tr0.states[0], tr0.received[0], tr0.triples[0])
            == (tr0.states[1], Outcome::Send(tr0.sent[1])));
        assert(step(c, Role::Client, tr1.states[0], tr1.received[0], tr1.triples[0])
            == (tr1.states[1], Outcome::Send(tr1.sent[1])));
        lemma_paired_start(c, x0, x1, tr0.mask, tr1.mask, tr0.triples[0], tr1.triples[0]);
    } else {
        lemma_runs_paired(c, x0, x1, tr0, tr1, j - 1);
        let i = j - 1;
        assert(step(c, Role::Server, tr0.states[i], tr0.received[i], tr0.triples[i])
            == (tr0.states[j], Outcome::Send(tr0.sent[j])));
        assert(step(c, Role::Client, tr1.states[i], tr1.received[i], tr1.triples[i])
            == (tr1.states[j], Outcome::Send(tr1.sent[j])));
        assert(tr0.states[i].phase == Phase::AwaitAnd) by {
            if tr0.states[i].phase == Phase::AwaitResult {
                lemma_paired_result(
                    c,
                    x,
                    tr0.states[i],
                    tr1.states[i],
                    tr0.sent[i],
                    tr1.sent[i],
                    tr0.triples[i],
                    tr1.triples[i],
                );
            }
        }
        lemma_conforming_at(c, x0, x1, tr0, tr1, i);
        lemma_and_triples_next(tr0.states, i);
        lemma_and_triples_next(tr1.states, i);
        lemma_paired_and(
            c,
            x,
            tr0.states[i],
            tr1.states[i],
            tr0.sent[i],
            tr1.sent[i],
            tr0.triples[i],
            tr1.triples[i],
        );
    }
}

/// Zero triples, as the trivial provider hands out, conform with each other.
pub proof fn lemma_zero_triples_conform(t0s: Seq<MulTriple>, t1s: Seq<MulTriple>)
    requires
        forall|k: int| 0 <= k < t0s.len() ==> #[trigger] t0s[k] == zero_triple(),
        forall|k: int| 0 <= k < t1s.len() ==> #[trigger] t1s[k] == zero_triple(),
    ensures
        forall|k: int| 0 <= k < t0s.len() && k < t1s.len() ==> conforming(#[trigger] t0s[k], t1s[k]),
{
}

/// Correctness of executions: when the server and the client each complete a run on their
/// inputs, each receiving in order what the other sent, and the k-th triples they hold at AND
/// gates conform, both end with the circuit's clear evaluation on the two inputs joined.
pub proof fn lemma_executions_agree(
    c: Circuit,
    x0: Seq<bool>,
    x1: Seq<bool>,
    tr0: Trace,
    tr1: Trace,
)
    requires
        accepted(c),
        x0.len() == c.header.wires_per_input@[0],
        x1.len() == c.header.wires_per_input@[1],
        one_execution(c, x0, x1, tr0, tr1),
        run_outcome(c, Role::Server, tr0) is Done,
    ensures
        run_outcome(c, Role::Server, tr0) == Outcome::Done(evaluate(c, x0 + x1)),
        run_outcome(c, Role::Client, tr1) == Outcome::Done(evaluate(c, x0 + x1)),
{
    let x = x0 + x1;
    let n = tr0.received.len() as int;
    let i = n - 1;
    if n == 1 {
        lemma_paired_start(c, x0, x1, tr0.mask, tr1.mask, tr0.triples[0], tr1.triples[0]);
    } else {
        lemma_runs_paired(c, x0, x1, tr0, tr1, i);
        if tr0.states[i].phase == Phase::AwaitAnd {
            lemma_conforming_at(c, x0, x1, tr0, tr1, i);
            lemma_paired_and(
                c,
                x,
                tr0.states[i],
                tr1.states[i],
                tr0.sent[i],
                tr1.sent[i],
                tr0.triples[i],
                tr1.triples[i],
            );
        } else {
            lemma_paired_result(
                c,
                x,
                tr0.states[i],
                tr1.states[i],
                tr0.sent[i],
                tr1.sent[i],
                tr0.triples[i],
                tr1.triples[i],
            );
        }
    }
}

} // verus!
