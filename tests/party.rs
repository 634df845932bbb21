use mpc_in_rust::circuit::parser::parse_str;
use mpc_in_rust::circuit::Circuit;
use mpc_in_rust::mul_triple::provider::{MTProvider, SharedSeedMTP, TrivialMTP};
use mpc_in_rust::mul_triple::MulTriple;
use mpc_in_rust::network::in_memory::{from_queue_item, MemChannelConnection, MemChannelPacket};
use mpc_in_rust::network::{GMWConnection, GMWPacket, NetworkError, PacketTransport, Recorded};
use mpc_in_rust::party::{generate_shares, split_shares, GMWError, Party, Role, Session, Step};

const AND_CIRCUIT: &str = "1 3\n2 1 1\n1 1\n\n2 1 0 1 2 AND\n";
const XOR_CIRCUIT: &str = "1 3\n2 1 1\n1 1\n\n2 1 0 1 2 XOR\n";
const AND_XOR_CIRCUIT: &str = "2 4\n2 1 1\n1 1\n\n2 1 0 1 2 AND\n2 1 1 2 3 XOR\n";
const FULL_ADDER: &str =
    "5 8\n2 2 1\n1 2\n\n2 1 0 1 3 XOR\n2 1 0 1 4 AND\n2 1 3 2 5 AND\n2 1 3 2 6 XOR\n2 1 4 5 7 XOR\n";

/// Runs both parties in lockstep, each receiving the packet the other sent last; returns
/// both outputs and the packets each sent.
fn run_sessions<M: MTProvider>(
    c: &Circuit,
    x0: &[bool],
    x1: &[bool],
    m0: &mut M,
    m1: &mut M,
) -> (Vec<bool>, Vec<bool>, Vec<GMWPacket>, Vec<GMWPacket>) {
    let mask0: Vec<bool> = x0.iter().map(|_| true).collect();
    let mask1: Vec<bool> = x1.iter().enumerate().map(|(i, _)| i % 2 == 0).collect();
    let (mut s0, mut pk0) = Session::start(c, Role::Server, x0, &mask0);
    let (mut s1, mut pk1) = Session::start(c, Role::Client, x1, &mask1);
    let mut sent0 = vec![pk0.clone()];
    let mut sent1 = vec![pk1.clone()];
    loop {
        let r0 = s0.receive(c, pk1.clone(), m0).unwrap();
        let r1 = s1.receive(c, pk0.clone(), m1).unwrap();
        match (r0, r1) {
            (Step::Send(q0), Step::Send(q1)) => {
                sent0.push(q0.clone());
                sent1.push(q1.clone());
                pk0 = q0;
                pk1 = q1;
            },
            (Step::Done(o0), Step::Done(o1)) => return (o0, o1, sent0, sent1),
            other => panic!("parties out of step: {:?}", other),
        }
    }
}

fn shape(sent: &[GMWPacket]) -> (usize, usize, usize) {
    let shares = sent.iter().filter(|p| matches!(p, GMWPacket::ParameterShares(_))).count();
    let ands = sent.iter().filter(|p| matches!(p, GMWPacket::And { .. })).count();
    let results = sent.iter().filter(|p| matches!(p, GMWPacket::Result(_))).count();
    (shares, ands, results)
}

fn both(src: &str, x0: &[bool], x1: &[bool]) -> (Vec<bool>, Vec<bool>, Vec<GMWPacket>, Vec<GMWPacket>) {
    let c = parse_str(src).unwrap();
    run_sessions(&c, x0, x1, &mut TrivialMTP::new(), &mut TrivialMTP::new())
}

#[test]
fn scenario_and_one_one() {
    let (o0, o1, s0, s1) = both(AND_CIRCUIT, &[true], &[true]);
    assert_eq!(o0, vec![true]);
    assert_eq!(o1, vec![true]);
    assert_eq!(shape(&s0), (1, 1, 1));
    assert_eq!(shape(&s1), (1, 1, 1));
}

#[test]
fn scenario_and_one_zero() {
    let (o0, o1, s0, s1) = both(AND_CIRCUIT, &[true], &[false]);
    assert_eq!(o0, vec![false]);
    assert_eq!(o1, vec![false]);
    assert_eq!(shape(&s0), (1, 1, 1));
    assert_eq!(shape(&s1), (1, 1, 1));
}

#[test]
fn scenario_xor_sends_no_and_packet() {
    let (o0, o1, s0, s1) = both(XOR_CIRCUIT, &[true], &[true]);
    assert_eq!(o0, vec![false]);
    assert_eq!(o1, vec![false]);
    assert_eq!(shape(&s0), (1, 0, 1));
    assert_eq!(shape(&s1), (1, 0, 1));
}

#[test]
fn scenario_and_then_xor() {
    let (o0, o1, _, _) = both(AND_XOR_CIRCUIT, &[true], &[true]);
    assert_eq!(o0, vec![false]);
    assert_eq!(o1, vec![false]);
}

#[test]
fn scenario_full_adder() {
    let (o0, o1, s0, _) = both(FULL_ADDER, &[true, false], &[true]);
    assert_eq!(o0, vec![false, true]);
    assert_eq!(o1, vec![false, true]);
    assert_eq!(shape(&s0), (1, 2, 1));
}

#[test]
fn inv_eq_eqw_gates() {
    // w2 = !x0, w3 = 1, w4 = w2 AND w3, w5 = copy of w4, w6 = x1 XOR w5
    let src = "5 7\n2 1 1\n1 1\n\n1 1 0 2 INV\n1 1 1 3 EQ\n2 1 2 3 4 AND\n1 1 4 5 EQW\n2 1 1 5 6 XOR\n";
    for (x0, x1) in [(false, false), (false, true), (true, false), (true, true)] {
        let (o0, o1, _, _) = both(src, &[x0], &[x1]);
        let expected = x1 ^ !x0;
        assert_eq!(o0, vec![expected]);
        assert_eq!(o1, vec![expected]);
    }
}

#[test]
fn nontrivial_triples_give_the_clear_result() {
    let c = parse_str(FULL_ADDER).unwrap();
    for bits in 0..8u32 {
        let a = bits & 1 == 1;
        let b = bits & 2 == 2;
        let cin = bits & 4 == 4;
        // both parties see the same non-zero triple stream, which conforms
        let mut m0 = SharedSeedMTP::new([bits as u8 + 11; 32]);
        let mut m1 = SharedSeedMTP::new([bits as u8 + 11; 32]);
        let (o0, o1, _, _) = run_sessions(&c, &[a, b], &[cin], &mut m0, &mut m1);
        let sum = a ^ b ^ cin;
        let carry = (a && b) || (cin && (a ^ b));
        assert_eq!(o0, vec![sum, carry]);
        assert_eq!(o1, vec![sum, carry]);
    }
}

fn to_bits(v: u64) -> Vec<bool> {
    (0..64).map(|i| (v >> i) & 1 == 1).collect()
}

fn from_bits(b: &[bool]) -> u64 {
    b.iter().enumerate().map(|(i, &x)| if x { 1u64 << i } else { 0 }).sum()
}

/// A 64-bit ripple-carry adder: inputs a (wires 0..64) and b (64..128), output a + b.
fn adder_64() -> String {
    let mut gates: Vec<String> = Vec::new();
    let mut next = 128;
    let mut carry: Option<usize> = None;
    let mut sums = Vec::new();
    for i in 0..64 {
        let (a, b) = (i, 64 + i);
        let p = next;
        gates.push(format!("2 1 {} {} {} XOR", a, b, p));
        let g = next + 1;
        gates.push(format!("2 1 {} {} {} AND", a, b, g));
        next += 2;
        match carry {
            None => {
                sums.push(p);
                carry = Some(g);
            },
            Some(c) => {
                let s = next;
                gates.push(format!("2 1 {} {} {} XOR", p, c, s));
                let t = next + 1;
                gates.push(format!("2 1 {} {} {} AND", p, c, t));
                let c2 = next + 2;
                gates.push(format!("2 1 {} {} {} XOR", g, t, c2));
                next += 3;
                sums.push(s);
                carry = Some(c2);
            },
        }
    }
    for (i, s) in sums.iter().enumerate() {
        gates.push(format!("1 1 {} {} EQW", s, next + i));
    }
    let wires = next + 64;
    format!("{} {}\n2 64 64\n1 64\n\n{}\n", gates.len(), wires, gates.join("\n"))
}

#[test]
fn scenario_adder_64() {
    let src = adder_64();
    let (o0, o1, _, _) = both(&src, &to_bits(123), &to_bits(456));
    assert_eq!(from_bits(&o0), 579);
    assert_eq!(from_bits(&o1), 579);
}

/// The peer, run inside the channel: each exchange hands over the peer's pending packet and
/// lets the peer answer the packet it was sent.
struct SimulatedPeer {
    circuit: Circuit,
    session: Session,
    pending: Option<GMWPacket>,
    triples: TrivialMTP,
    received: Vec<GMWPacket>,
    output: Option<Vec<bool>>,
    corrupt: bool,
}

impl SimulatedPeer {
    fn new(src: &str, role: Role, input: &[bool]) -> Self {
        let circuit = parse_str(src).unwrap();
        let mask: Vec<bool> = input.iter().map(|_| false).collect();
        let (session, first) = Session::start(&circuit, role, input, &mask);
        SimulatedPeer {
            circuit,
            session,
            pending: Some(first),
            triples: TrivialMTP::new(),
            received: Vec::new(),
            output: None,
            corrupt: false,
        }
    }
}

impl PacketTransport for SimulatedPeer {
    fn send_packet(&mut self, message: GMWPacket) -> Result<(), NetworkError> {
        self.received.push(message);
        Ok(())
    }

    fn recv_packet(&mut self) -> Result<GMWPacket, NetworkError> {
        let reply = match self.pending.take() {
            Some(p) => p,
            None => return Err(NetworkError::Other("peer is done".to_string())),
        };
        let last = self.received.last().unwrap().clone();
        match self.session.receive(&self.circuit, last, &mut self.triples) {
            Ok(Step::Send(p)) => self.pending = Some(p),
            Ok(Step::Done(out)) => self.output = Some(out),
            Err(_) => {},
        }
        if self.corrupt {
            return Ok(GMWPacket::Result(vec![]));
        }
        Ok(reply)
    }
}

#[test]
fn execute_against_peer() {
    let c = parse_str(AND_XOR_CIRCUIT).unwrap();
    let peer = SimulatedPeer::new(AND_XOR_CIRCUIT, Role::Client, &[true]);
    let mut p = Party::new(c, Recorded::new(peer), Role::Server, TrivialMTP::new());
    let out = p.execute(&[true]).unwrap();
    assert_eq!(out, vec![false]);
}

#[test]
fn execute_adder_as_client() {
    let src = adder_64();
    let c = parse_str(&src).unwrap();
    let peer = SimulatedPeer::new(&src, Role::Server, &to_bits(123));
    let mut p = Party::new(c, Recorded::new(peer), Role::Client, TrivialMTP::new());
    let out = p.execute(&to_bits(456)).unwrap();
    assert_eq!(from_bits(&out), 579);
}

#[test]
fn execute_rejects_wrong_input_width() {
    let c = parse_str(AND_CIRCUIT).unwrap();
    let peer = SimulatedPeer::new(AND_CIRCUIT, Role::Client, &[true]);
    let mut p = Party::new(c, Recorded::new(peer), Role::Server, TrivialMTP::new());
    match p.execute(&[true, false]) {
        Err(GMWError::InputLengthMismatch { actual, expected }) => {
            assert_eq!(actual, 2);
            assert_eq!(expected, 1);
        },
        other => panic!("unexpected {:?}", other),
    }
}

#[test]
fn execute_reports_protocol_error() {
    let c = parse_str(AND_CIRCUIT).unwrap();
    let mut peer = SimulatedPeer::new(AND_CIRCUIT, Role::Client, &[true]);
    peer.corrupt = true;
    let mut p = Party::new(c, Recorded::new(peer), Role::Server, TrivialMTP::new());
    assert!(matches!(p.execute(&[true]), Err(GMWError::ProtocolError)));
}

#[test]
fn execute_reports_network_error() {
    let c = parse_str(AND_CIRCUIT).unwrap();
    let mut peer = SimulatedPeer::new(AND_CIRCUIT, Role::Client, &[true]);
    peer.pending = None;
    let mut p = Party::new(c, Recorded::new(peer), Role::Server, TrivialMTP::new());
    match p.execute(&[true]) {
        Err(GMWError::NetworkError(e)) => assert_eq!(e.describe(), "NetworkError: peer is done"),
        other => panic!("unexpected {:?}", other),
    }
}

#[test]
fn wrong_packet_kind_fails_the_session() {
    let c = parse_str(AND_CIRCUIT).unwrap();
    let (mut s, _) = Session::start(&c, Role::Server, &[true], &vec![false]);
    let r = s.receive(&c, GMWPacket::And { d: false, e: false }, &mut TrivialMTP::new());
    assert!(matches!(r, Err(GMWError::ProtocolError)));
    // a share packet of the wrong width fails too
    let (mut s, _) = Session::start(&c, Role::Server, &[true], &vec![false]);
    let r = s.receive(&c, GMWPacket::ParameterShares(vec![true, true]), &mut TrivialMTP::new());
    assert!(matches!(r, Err(GMWError::ProtocolError)));
}

#[test]
fn outgoing_share_is_the_mask_whatever_the_input() {
    let mask = vec![true, false, true];
    let (own_a, sent_a) = split_shares(&[false, false, true], &mask);
    let (own_b, sent_b) = split_shares(&[true, true, true], &mask);
    assert_eq!(sent_a, mask);
    assert_eq!(sent_b, mask);
    assert_eq!(own_a, vec![true, false, false]);
    assert_eq!(own_b, vec![false, true, false]);
    let c = parse_str("0 6\n2 3 3\n1 1\n\n").unwrap();
    let (_, pa) = Session::start(&c, Role::Server, &[false, false, true], &mask);
    let (_, pb) = Session::start(&c, Role::Server, &[true, true, true], &mask);
    match (pa, pb) {
        (GMWPacket::ParameterShares(a), GMWPacket::ParameterShares(b)) => assert_eq!(a, b),
        other => panic!("unexpected {:?}", other),
    }
}

#[test]
fn generated_shares_reconstruct_the_input() {
    let input: Vec<bool> = (0..200).map(|i| i % 3 == 0).collect();
    let mut ones = 0;
    for _ in 0..20 {
        let (own, sent) = generate_shares(&input);
        assert_eq!(sent.len(), input.len());
        let back: Vec<bool> = own.iter().zip(sent.iter()).map(|(a, b)| a ^ b).collect();
        assert_eq!(back, input);
        ones += sent.iter().filter(|&&b| b).count();
    }
    // 4000 fair bits: the count of ones lies far inside these bounds
    assert!(ones > 1600 && ones < 2400);
}

#[test]
fn trivial_provider_gives_zero_triple() {
    assert_eq!(TrivialMTP::new().get_triple(), MulTriple { a: false, b: false, c: false });
}

#[test]
fn shared_seed_providers_agree() {
    let mut p = SharedSeedMTP::new([7u8; 32]);
    let mut q = SharedSeedMTP::new([7u8; 32]);
    let mut r = SharedSeedMTP::new([8u8; 32]);
    let a: Vec<MulTriple> = (0..64).map(|_| p.get_triple()).collect();
    let b: Vec<MulTriple> = (0..64).map(|_| q.get_triple()).collect();
    let d: Vec<MulTriple> = (0..64).map(|_| r.get_triple()).collect();
    assert_eq!(a, b);
    assert_ne!(a, d);
    let c = parse_str(FULL_ADDER).unwrap();
    let mut m0 = SharedSeedMTP::new([3u8; 32]);
    let mut m1 = SharedSeedMTP::new([3u8; 32]);
    let (o0, o1, _, _) = run_sessions(&c, &[true, true], &[true], &mut m0, &mut m1);
    assert_eq!(o0, vec![true, true]);
    assert_eq!(o1, vec![true, true]);
}

#[test]
fn roles() {
    assert_eq!(Role::Server.index(), 0);
    assert_eq!(Role::Client.index(), 1);
    assert_eq!(Role::Server.other(), Role::Client);
    assert_eq!(Role::Client.other(), Role::Server);
    assert_eq!(!Role::Server, Role::Client);
    assert_eq!(!Role::Client, Role::Server);
}

#[test]
fn in_memory_channel_delivers_in_order() {
    let (mut a, mut b) = MemChannelConnection::<u8>::pair();
    a.send(GMWPacket::ParameterShares(vec![true, false])).unwrap();
    a.send(GMWPacket::And { d: true, e: false }).unwrap();
    b.send(GMWPacket::Result(vec![true])).unwrap();
    assert!(matches!(b.recv().unwrap(), GMWPacket::ParameterShares(v) if v == vec![true, false]));
    assert!(matches!(b.recv().unwrap(), GMWPacket::And { d: true, e: false }));
    assert!(matches!(a.recv().unwrap(), GMWPacket::Result(v) if v == vec![true]));
    a.sender.send(MemChannelPacket::Mtp(3)).unwrap();
    match b.recv() {
        Err(e) => assert_eq!(e.describe(), "NetworkError: Protocol Error: Expected GMW packet but got MTP packet."),
        Ok(p) => panic!("unexpected {:?}", p),
    }
    drop(a);
    assert!(matches!(b.recv(), Err(NetworkError::ConnectionError(_))));
    assert!(matches!(b.send(GMWPacket::And { d: false, e: false }), Err(NetworkError::ConnectionError(_))));
}

#[test]
fn error_descriptions_carry_their_values() {
    let e = GMWError::InputLengthMismatch { actual: 2, expected: 1 };
    assert_eq!(e.describe(), "Input provided of length 2, but expected length 1");
    let e = GMWError::InvalidGate(mpc_in_rust::circuit::GateOperation::XOR(3, 14));
    assert_eq!(e.describe(), "Expected AND, INV, XOR, EQ or EQW gate, but got XOR(3, 14)");
    assert_eq!(GMWError::ProtocolError.describe(), "ProtocolError!");
}

#[test]
fn queue_items_become_packets_or_errors() {
    assert!(matches!(from_queue_item::<u8>(MemChannelPacket::Gmw(GMWPacket::And { d: true, e: true })), Ok(GMWPacket::And { d: true, e: true })));
    assert!(matches!(from_queue_item(MemChannelPacket::Mtp(4u8)), Err(NetworkError::Other(_))));
}

#[test]
fn recorded_exchange_is_send_then_recv() {
    let mut peer = SimulatedPeer::new(AND_CIRCUIT, Role::Client, &[true]);
    peer.received.clear();
    let mut conn = Recorded::new(peer);
    let reply = conn.exchange(GMWPacket::ParameterShares(vec![false])).unwrap();
    assert!(matches!(reply, GMWPacket::ParameterShares(_)));
    assert_eq!(conn.transport.received.len(), 1);
    conn.transport.pending = None;
    assert!(conn.exchange(GMWPacket::And { d: false, e: false }).is_err());
    assert_eq!(conn.transport.received.len(), 2);
}
