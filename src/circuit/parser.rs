use crate::circuit::{
    gate_fits, lemma_sum_prefix_le, lemma_sum_take_next, outputs_defined, single_writer, sum,
    written, Circuit, Gate, GateOperation, Header,
};
use crate::circuit::error::{Failure, ParserError};
use crate::circuit::parse_lines::{joined, line_views, ChatIter};
use crate::circuit::tokenizer::{
    lemma_take_n_numbers_len, location_at, take_identifier, take_n_numbers, take_newline,
    take_number, TokenStream,
};
use std::collections::HashSet;
use vstd::prelude::*;
use vstd::string::*;

verus! {

/// A header as a mathematical value.
pub struct HeaderModel {
    pub num_gates: usize,
    pub num_wires: usize,
    pub wires_per_input: Seq<usize>,
    pub wires_per_output: Seq<usize>,
}

impl View for Header {
    type V = HeaderModel;

    open spec fn view(&self) -> HeaderModel {
        HeaderModel {
            num_gates: self.num_gates,
            num_wires: self.num_wires,
            wires_per_input: self.wires_per_input@,
            wires_per_output: self.wires_per_output@,
        }
    }
}

/// The three header lines, each ended by a newline: gate and wire counts, input widths,
/// output widths.
pub open spec fn header_spec(s: Seq<char>, i: int) -> Result<(HeaderModel, int), Failure> {
    match take_number(s, i) {
        Err(f) => Err(f),
        Ok((num_gates, q1)) => match take_number(s, q1) {
            Err(f) => Err(f),
            Ok((num_wires, q2)) => match widths_spec(s, q2) {
                Err(f) => Err(f),
                Ok((wires_per_input, q3)) => match widths_spec(s, q3) {
                    Err(f) => Err(f),
                    Ok((wires_per_output, q4)) => match take_newline(s, q4) {
                        Err(f) => Err(f),
                        Ok(q5) => Ok(
                            (HeaderModel { num_gates, num_wires, wires_per_input, wires_per_output }, q5),
                        ),
                    },
                },
            },
        },
    }
}

/// The end of the line before, then a line `n w_1 ... w_n`.
pub open spec fn widths_spec(s: Seq<char>, i: int) -> Result<(Seq<usize>, int), Failure> {
    match take_newline(s, i) {
        Err(f) => Err(f),
        Ok(q0) => match take_number(s, q0) {
            Err(f) => Err(f),
            Ok((n, q1)) => match take_n_numbers(s, q1, n as nat) {
                Err(f) => Err(f),
                Ok((w, q2)) => Ok((w, q2)),
            },
        },
    }
}

/// The operation a gate line names, given its input numbers, or the message for an unknown
/// name or a wrong number of inputs.
pub open spec fn operation_of(name: Seq<char>, ins: Seq<usize>) -> Result<GateOperation, Seq<char>> {
    if name == "XOR"@ {
        if ins.len() == 2 {
            Ok(GateOperation::XOR(ins[0], ins[1]))
        } else {
            Err("XOR Gate requires two inputs"@)
        }
    } else if name == "AND"@ {
        if ins.len() == 2 {
            Ok(GateOperation::AND(ins[0], ins[1]))
        } else {
            Err("AND Gate requires two inputs"@)
        }
    } else if name == "INV"@ {
        if ins.len() == 1 {
            Ok(GateOperation::INV(ins[0]))
        } else {
            Err("INV Gate requires one input"@)
        }
    } else if name == "EQ"@ {
        if ins.len() != 1 {
            Err("EQ Gate requires one input"@)
        } else if ins[0] > 1 {
            Err("EQ Gate constant must be 0 or 1"@)
        } else {
            Ok(GateOperation::EQ { constant: ins[0] == 1 })
        }
    } else if name == "EQW"@ {
        if ins.len() == 1 {
            Ok(GateOperation::EQW(ins[0]))
        } else {
            Err("EQW Gate requires one input"@)
        }
    } else {
        Err("Unknown Gate type: "@ + name)
    }
}

/// A gate line `n_in n_out in_1 .. in_n_in out_1 .. out_n_out NAME`, ended by a newline or
/// the end of the text; errors of its contents are placed where the line starts.
#[verifier::opaque]
pub open spec fn gate_spec(s: Seq<char>, i: int) -> Result<(Gate, int), Failure> {
    let here = location_at(s, i);
    match take_number(s, i) {
        Err(f) => Err(f),
        Ok((n_in, q1)) => match take_number(s, q1) {
            Err(f) => Err(f),
            Ok((n_out, q2)) => match take_n_numbers(s, q2, n_in as nat) {
                Err(f) => Err(f),
                Ok((ins, q3)) => match take_n_numbers(s, q3, n_out as nat) {
                    Err(f) => Err(f),
                    Ok((outs, q4)) => match take_identifier(s, q4) {
                        Err(f) => Err(f),
                        Ok((name, q5)) => match operation_of(name, ins) {
                            Err(message) => Err(Failure::Syntax { message, location: here }),
                            Ok(op) => match take_newline(s, q5) {
                                Err(f) => Err(f),
                                Ok(q6) => if outs.len() == 1 {
                                    Ok((Gate { op, output_wire: outs[0] }, q6))
                                } else {
                                    Err(
                                        Failure::Syntax {
                                            message: "Gate must have one output wire: "@ + name,
                                            location: here,
                                        },
                                    )
                                },
                            },
                        },
                    },
                },
            },
        },
    }
}

/// The first `k` gate lines, each checked against the header and against the wires the
/// lines before it write.
pub open spec fn gates_spec(s: Seq<char>, i: int, h: HeaderModel, k: nat) -> Result<(Seq<Gate>, int), Failure>
    decreases k,
{
    if k == 0 {
        Ok((Seq::empty(), i))
    } else {
        match gates_spec(s, i, h, (k - 1) as nat) {
            Err(f) => Err(f),
            Ok((gs, p)) => match gate_spec(s, p) {
                Err(f) => Err(f),
                Ok((g, q)) => if !gate_fits(g, sum(h.wires_per_input), h.num_wires as int) {
                    Err(
                        Failure::Syntax {
                            message: "Gate wires out of order or out of range"@,
                            location: location_at(s, p),
                        },
                    )
                } else if written(gs).contains(g.output_wire) {
                    Err(Failure::Syntax { message: "Wire written by two gates"@, location: location_at(s, p) })
                } else {
                    Ok((gs.push(g), q))
                },
            },
        }
    }
}

/// After the lines of gates: every output wire must be defined; an undefined one is reported
/// where those lines end.
pub open spec fn finish_spec(s: Seq<char>, h: HeaderModel, gates: Result<(Seq<Gate>, int), Failure>) -> Result<
    (HeaderModel, Seq<Gate>),
    Failure,
> {
    match gates {
        Err(f) => Err(f),
        Ok((gs, e)) => if outputs_defined(
            sum(h.wires_per_input),
            h.num_wires as int,
            sum(h.wires_per_output),
            gs,
        ) {
            Ok((h, gs))
        } else {
            Err(Failure::Syntax { message: "Output wire defined by no gate"@, location: location_at(s, e) })
        },
    }
}

/// A whole circuit text: the header, whose inputs and outputs must fit the wire count, an
/// empty line, then as many gate lines as the header announces, no two writing the same
/// wire, and such that every output wire is defined. What follows is not read.
pub open spec fn parse_spec(s: Seq<char>) -> Result<(HeaderModel, Seq<Gate>), Failure> {
    match header_spec(s, 0) {
        Err(f) => Err(f),
        Ok((h, p)) => if sum(h.wires_per_input) <= h.num_wires && sum(h.wires_per_output)
            <= h.num_wires {
            match take_newline(s, p) {
                Err(f) => Err(f),
                Ok(r) => finish_spec(s, h, gates_spec(s, r, h, h.num_gates as nat)),
            }
        } else {
            Err(Failure::Syntax { message: "Inputs or outputs exceed the wire count"@, location: location_at(s, 0) })
        },
    }
}

pub proof fn lemma_gates_spec_fails(s: Seq<char>, i: int, h: HeaderModel, k: nat, n: nat)
    requires
        k <= n,
        gates_spec(s, i, h, k) is Err,
    ensures
        gates_spec(s, i, h, n) == gates_spec(s, i, h, k),
    decreases n - k,
{
    if k < n {
        lemma_gates_spec_fails(s, i, h, k, (n - 1) as nat);
    }
}

pub proof fn lemma_gates_spec_len(s: Seq<char>, i: int, h: HeaderModel, k: nat)
    requires
        gates_spec(s, i, h, k) is Ok,
    ensures
        gates_spec(s, i, h, k)->Ok_0.0.len() == k,
        forall|j: int|
            0 <= j < k ==> #[trigger] gate_fits(
                gates_spec(s, i, h, k)->Ok_0.0[j],
                sum(h.wires_per_input),
                h.num_wires as int,
            ),
        single_writer(gates_spec(s, i, h, k)->Ok_0.0),
    decreases k,
{
    if k > 0 {
        lemma_gates_spec_len(s, i, h, (k - 1) as nat);
        let gs = gates_spec(s, i, h, (k - 1) as nat)->Ok_0.0;
        let g = gates_spec(s, i, h, k)->Ok_0.0.last();
        assert forall|m: int| 0 <= m < gs.len() implies gs[m].output_wire != g.output_wire by {
            if gs[m].output_wire == g.output_wire {
                assert(written(gs).contains(g.output_wire));
            }
        }
    }
}

/// Whether `s` holds exactly the characters of `w`.
fn same_text(s: &String, w: &str) -> (r: bool)
    ensures
        r == (s@ == w@),
{
    let t = s.as_str();
    let n = t.unicode_len();
    if n != w.unicode_len() {
        return false;
    }
    let mut i: usize = 0;
    while i < n
        invariant
            n == t@.len() == w@.len(),
            t@ == s@,
            i <= n,
            forall|j: int| 0 <= j < i ==> t@[j] == w@[j],
        decreases n - i,
    {
        if t.get_char(i) != w.get_char(i) {
            return false;
        }
        i = i + 1;
    }
    proof {
        assert(t@ =~= w@);
    }
    true
}

/// Whether the widths sum to at most `limit`.
fn widths_fit(w: &Vec<usize>, limit: usize) -> (r: bool)
    ensures
        r == (sum(w@) <= limit),
{
    let mut total: usize = 0;
    let mut i: usize = 0;
    while i < w.len()
        invariant
            i <= w.len(),
            total == sum(w@.take(i as int)),
            total <= limit,
        decreases w.len() - i,
    {
        proof {
            lemma_sum_take_next(w@, i as int);
        }
        if w[i] > limit - total {
            proof {
                lemma_sum_prefix_le(w@, i + 1);
            }
            return false;
        }
        total = total + w[i];
        i = i + 1;
    }
    proof {
        assert(w@.take(w@.len() as int) =~= w@);
    }
    true
}

/// Whether a gate fits the wire table: it reads only wires below its output, and writes a
/// non-input wire below `num_wires`.
fn fits(g: &Gate, inputs: usize, num_wires: usize) -> (r: bool)
    ensures
        r == gate_fits(*g, inputs as int, num_wires as int),
{
    let reads_ok = match g.op {
        GateOperation::XOR(a, b) => a < g.output_wire && b < g.output_wire,
        GateOperation::AND(a, b) => a < g.output_wire && b < g.output_wire,
        GateOperation::INV(x) => x < g.output_wire,
        GateOperation::EQ { .. } => true,
        GateOperation::EQW(x) => x < g.output_wire,
    };
    reads_ok && inputs <= g.output_wire && g.output_wire < num_wires
}

fn parse_widths(token_stream: &mut TokenStream) -> (r: Result<Vec<usize>, ParserError>)
    requires
        old(token_stream).wf(),
    ensures
        final(token_stream).wf(),
        final(token_stream).text() == old(token_stream).text(),
        match widths_spec(old(token_stream).text(), old(token_stream).pos()) {
            Ok((w, e)) => r matches Ok(x) && x@ == w && final(token_stream).pos() == e,
            Err(f) => r matches Err(err) && err@ == f,
        },
{
    token_stream.accept_newline()?;
    let n = token_stream.accept_number()?;
    token_stream.accept_n_numbers(n)
}

pub fn parse_header(token_stream: &mut TokenStream) -> (r: Result<Header, ParserError>)
    requires
        old(token_stream).wf(),
    ensures
        final(token_stream).wf(),
        final(token_stream).text() == old(token_stream).text(),
        match header_spec(old(token_stream).text(), old(token_stream).pos()) {
            Ok((h, e)) => r matches Ok(x) && x@ == h && final(token_stream).pos() == e,
            Err(f) => r matches Err(err) && err@ == f,
        },
{
    let num_gates = token_stream.accept_number()?;
    let num_wires = token_stream.accept_number()?;
    let wires_per_input = parse_widths(token_stream)?;
    let wires_per_output = parse_widths(token_stream)?;
    token_stream.accept_newline()?;
    Ok(Header { num_gates, num_wires, wires_per_input, wires_per_output })
}

pub fn parse_gate(token_stream: &mut TokenStream) -> (r: Result<Gate, ParserError>)
    requires
        old(token_stream).wf(),
    ensures
        final(token_stream).wf(),
        final(token_stream).text() == old(token_stream).text(),
        match gate_spec(old(token_stream).text(), old(token_stream).pos()) {
            Ok((g, e)) => r matches Ok(x) && x == g && final(token_stream).pos() == e,
            Err(f) => r matches Err(err) && err@ == f,
        },
{
    reveal(gate_spec);
    let location = token_stream.current_location();
    let n_in_wires = token_stream.accept_number()?;
    let n_out_wires = token_stream.accept_number()?;
    let in_wires = token_stream.accept_n_numbers(n_in_wires)?;
    let out_wires = token_stream.accept_n_numbers(n_out_wires)?;
    let operation = token_stream.accept_identifier()?;

    let op = if same_text(&operation, "XOR") {
        if in_wires.len() != 2 {
            return Err(
                ParserError::Syntax {
                    message: String::from_str("XOR Gate requires two inputs"),
                    location,
                },
            );
        }
        GateOperation::XOR(in_wires[0], in_wires[1])
    } else if same_text(&operation, "AND") {
        if in_wires.len() != 2 {
            return Err(
                ParserError::Syntax {
                    message: String::from_str("AND Gate requires two inputs"),
                    location,
                },
            );
        }
        GateOperation::AND(in_wires[0], in_wires[1])
    } else if same_text(&operation, "INV") {
        if in_wires.len() != 1 {
            return Err(
                ParserError::Syntax { message: String::from_str("INV Gate requires one input"), location },
            );
        }
        GateOperation::INV(in_wires[0])
    } else if same_text(&operation, "EQ") {
        if in_wires.len() != 1 {
            return Err(
                ParserError::Syntax { message: String::from_str("EQ Gate requires one input"), location },
            );
        }
        if in_wires[0] > 1 {
            return Err(
                ParserError::Syntax {
                    message: String::from_str("EQ Gate constant must be 0 or 1"),
                    location,
                },
            );
        }
        GateOperation::EQ { constant: in_wires[0] == 1 }
    } else if same_text(&operation, "EQW") {
        if in_wires.len() != 1 {
            return Err(
                ParserError::Syntax { message: String::from_str("EQW Gate requires one input"), location },
            );
        }
        GateOperation::EQW(in_wires[0])
    } else {
        let message = String::from_str("Unknown Gate type: ").concat(operation.as_str());
        return Err(ParserError::Syntax { message, location });
    };

    token_stream.accept_newline()?;

    if out_wires.len() != 1 {
        let message = String::from_str("Gate must have one output wire: ").concat(operation.as_str());
        Err(ParserError::Syntax { message, location })
    } else {
        Ok(Gate { op, output_wire: out_wires[0] })
    }
}

/// Parses a circuit from its characters.
pub fn parse(circuit: Vec<char>) -> (r: Result<Circuit, ParserError>)
    ensures
        match parse_spec(circuit@) {
            Ok((h, gs)) => r matches Ok(c) && c.header@ == h && c.gates@ == gs && c.valid(),
            Err(f) => r matches Err(err) && err@ == f,
        },
{
    broadcast use vstd::std_specs::hash::group_hash_axioms;

    let ghost s = circuit@;
    let mut token_stream = TokenStream::new(circuit);
    let start = token_stream.current_location();
    let header = parse_header(&mut token_stream)?;
    if !(widths_fit(&header.wires_per_input, header.num_wires) && widths_fit(
        &header.wires_per_output,
        header.num_wires,
    )) {
        return Err(
            ParserError::Syntax {
                message: String::from_str("Inputs or outputs exceed the wire count"),
                location: start,
            },
        );
    }
    // the empty line after the header
    token_stream.accept_newline()?;

    let ghost first = token_stream.pos();
    let input_wires = sum_widths(&header.wires_per_input, header.num_wires);
    let mut gates: Vec<Gate> = Vec::new();
    let mut outputs: HashSet<usize> = HashSet::new();
    let mut k: usize = 0;
    while k < header.num_gates
        invariant
            token_stream.wf(),
            token_stream.text() == s,
            s == circuit@,
            k <= header.num_gates,
            input_wires == sum(header.wires_per_input@),
            sum(header.wires_per_input@) <= header.num_wires,
            sum(header.wires_per_output@) <= header.num_wires,
            parse_spec(s) == finish_spec(s, header@, gates_spec(s, first, header@, header.num_gates as nat)),
            gates_spec(s, first, header@, k as nat) == Ok::<(Seq<Gate>, int), Failure>(
                (gates@, token_stream.pos()),
            ),
            outputs@ == written(gates@),
        decreases header.num_gates - k,
    {
        let location = token_stream.current_location();
        let gate = match parse_gate(&mut token_stream) {
            Ok(g) => g,
            Err(e) => {
                proof {
                    lemma_gates_spec_fails(s, first, header@, (k + 1) as nat, header.num_gates as nat);
                }
                return Err(e);
            },
        };
        if !fits(&gate, input_wires, header.num_wires) {
            proof {
                lemma_gates_spec_fails(s, first, header@, (k + 1) as nat, header.num_gates as nat);
            }
            return Err(
                ParserError::Syntax {
                    message: String::from_str("Gate wires out of order or out of range"),
                    location,
                },
            );
        }
        if outputs.contains(&gate.output_wire) {
            proof {
                lemma_gates_spec_fails(s, first, header@, (k + 1) as nat, header.num_gates as nat);
            }
            return Err(
                ParserError::Syntax { message: String::from_str("Wire written by two gates"), location },
            );
        }
        let ghost old_gates = gates@;
        outputs.insert(gate.output_wire);
        gates.push(gate);
        proof {
            assert(gates@.drop_last() =~= old_gates);
            assert(outputs@ =~= written(gates@)) by {
                assert forall|w: usize| written(gates@).contains(w) implies outputs@.contains(w) by {
                    let m = choose|m: int| 0 <= m < gates@.len() && gates@[m].output_wire == w;
                    if m < gates@.len() - 1 {
                        assert(gates@.drop_last()[m] == gates@[m]);
                        assert(written(gates@.drop_last()).contains(w));
                    }
                }
                assert forall|w: usize| outputs@.contains(w) implies written(gates@).contains(w) by {
                    if w != gate.output_wire {
                        assert(written(old_gates).contains(w));
                        let m = choose|m: int| 0 <= m < old_gates.len() && old_gates[m].output_wire == w;
                        assert(gates@[m] == old_gates[m]);
                    } else {
                        assert(gates@[gates@.len() - 1].output_wire == w);
                    }
                }
            }
        }
        k = k + 1;
    }
    let output_wires = sum_widths(&header.wires_per_output, header.num_wires);
    let mut w: usize = header.num_wires - output_wires;
    while w < header.num_wires
        invariant
            token_stream.wf(),
            token_stream.text() == s,
            s == circuit@,
            sum(header.wires_per_input@) <= header.num_wires,
            sum(header.wires_per_output@) <= header.num_wires,
            parse_spec(s) == finish_spec(s, header@, gates_spec(s, first, header@, header.num_gates as nat)),
            gates_spec(s, first, header@, header.num_gates as nat) == Ok::<(Seq<Gate>, int), Failure>(
                (gates@, token_stream.pos()),
            ),
            header.num_wires - output_wires <= w <= header.num_wires,
            output_wires == sum(header.wires_per_output@),
            input_wires == sum(header.wires_per_input@),
            outputs@ == written(gates@),
            forall|v: int|
                header.num_wires - output_wires <= v < w ==> v < input_wires || #[trigger] written(
                    gates@,
                ).contains(v as usize),
        decreases header.num_wires - w,
    {
        if w >= input_wires && !outputs.contains(&w) {
            proof {
                assert(!written(gates@).contains(w as int as usize));
                assert(!outputs_defined(
                    sum(header.wires_per_input@),
                    header.num_wires as int,
                    sum(header.wires_per_output@),
                    gates@,
                ));
            }
            return Err(
                ParserError::Syntax {
                    message: String::from_str("Output wire defined by no gate"),
                    location: token_stream.current_location(),
                },
            );
        }
        w = w + 1;
    }
    proof {
        lemma_gates_spec_len(s, first, header@, header.num_gates as nat);
    }
    Ok(Circuit { header, gates })
}

/// Sum of widths already known to be at most `limit`.
fn sum_widths(w: &Vec<usize>, limit: usize) -> (r: usize)
    requires
        sum(w@) <= limit,
    ensures
        r == sum(w@),
{
    let mut total: usize = 0;
    let mut i: usize = 0;
    while i < w.len()
        invariant
            i <= w.len(),
            total == sum(w@.take(i as int)),
            sum(w@) <= limit,
        decreases w.len() - i,
    {
        proof {
            lemma_sum_take_next(w@, i as int);
            lemma_sum_prefix_le(w@, i + 1);
        }
        total = total + w[i];
        i = i + 1;
    }
    proof {
        assert(w@.take(w@.len() as int) =~= w@);
    }
    total
}


/// The counts the header text announces, read as the header grammar reads them: gates,
/// wires, inputs and outputs.
pub open spec fn announced(s: Seq<char>) -> (usize, usize, usize, usize) {
    let (num_gates, q1) = take_number(s, 0)->Ok_0;
    let (num_wires, q2) = take_number(s, q1)->Ok_0;
    let (niv, q3) = take_number(s, take_newline(s, q2)->Ok_0)->Ok_0;
    let q4 = take_n_numbers(s, q3, niv as nat)->Ok_0.1;
    let (nov, _) = take_number(s, take_newline(s, q4)->Ok_0)->Ok_0;
    (num_gates, num_wires, niv, nov)
}

/// Every accepted circuit holds the counts its header text announces and exactly the gates it
/// announces; its input and output widths sum to no more than its wire count, no wire is
/// written twice, and every output is defined.
pub proof fn lemma_parse_header_consistency(s: Seq<char>)
    requires
        parse_spec(s) is Ok,
    ensures
        ({
            let (h, gs) = parse_spec(s)->Ok_0;
            let (num_gates, num_wires, niv, nov) = announced(s);
            &&& h.num_gates == num_gates
            &&& h.num_wires == num_wires
            &&& h.wires_per_input.len() == niv
            &&& h.wires_per_output.len() == nov
            &&& gs.len() == h.num_gates
            &&& sum(h.wires_per_input) <= h.num_wires
            &&& sum(h.wires_per_output) <= h.num_wires
            &&& single_writer(gs)
            &&& outputs_defined(sum(h.wires_per_input), h.num_wires as int, sum(h.wires_per_output), gs)
        }),
{
    let (h, p) = header_spec(s, 0)->Ok_0;
    let r = take_newline(s, p)->Ok_0;
    lemma_gates_spec_len(s, r, h, h.num_gates as nat);
    let (num_gates, q1) = take_number(s, 0)->Ok_0;
    let (num_wires, q2) = take_number(s, q1)->Ok_0;
    let (niv, q3) = take_number(s, take_newline(s, q2)->Ok_0)->Ok_0;
    lemma_take_n_numbers_len(s, q3, niv as nat);
    let q4 = take_n_numbers(s, q3, niv as nat)->Ok_0.1;
    let (nov, q5) = take_number(s, take_newline(s, q4)->Ok_0)->Ok_0;
    lemma_take_n_numbers_len(s, q5, nov as nat);
}

/// Parses a circuit held in a string.
pub fn parse_str(source: &str) -> (r: Result<Circuit, ParserError>)
    ensures
        match parse_spec(source@) {
            Ok((h, gs)) => r matches Ok(c) && c.header@ == h && c.gates@ == gs && c.valid(),
            Err(f) => r matches Err(err) && err@ == f,
        },
{
    broadcast use vstd::string::group_string_axioms;

    let mut chars: Vec<char> = Vec::new();
    let mut it = source.chars();
    loop
        invariant
            vstd::std_specs::iter::IteratorSpec::obeys_prophetic_iter_laws(&it),
            chars@ + vstd::std_specs::iter::IteratorSpec::remaining(&it) == source@,
            vstd::std_specs::iter::IteratorSpec::decrease(&it) is Some,
        ensures
            chars@ == source@,
        decreases vstd::std_specs::iter::IteratorSpec::decrease(&it)->0,
    {
        match it.next() {
            Some(c) => {
                proof {
                    assert(chars@.push(c) + vstd::std_specs::iter::IteratorSpec::remaining(&it) =~= source@);
                }
                chars.push(c);
            },
            None => {
                assert(chars@ =~= source@);
                break ;
            },
        }
    }
    parse(chars)
}

/// Parses a circuit given line by line, each line without its newline.
pub fn parse_lines(lines: Vec<String>) -> (r: Result<Circuit, ParserError>)
    ensures
        match parse_spec(joined(line_views(lines@))) {
            Ok((h, gs)) => r matches Ok(c) && c.header@ == h && c.gates@ == gs && c.valid(),
            Err(f) => r matches Err(err) && err@ == f,
        },
{
    let ghost text = joined(line_views(lines@));
    let mut it = ChatIter::from_lines(lines);
    let mut chars: Vec<char> = Vec::new();
    loop
        invariant
            it.wf(),
            chars@ + it.remaining() == text,
        ensures
            chars@ == text,
        decreases it.remaining().len(),
    {
        match it.next() {
            Some(c) => {
                proof {
                    assert(chars@.push(c) + it.remaining() =~= text);
                }
                chars.push(c);
            },
            None => {
                assert(chars@ =~= text);
                break ;
            },
        }
    }
    parse(chars)
}

} // verus!
