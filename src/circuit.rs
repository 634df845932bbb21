use std::ops::Range;
use vstd::prelude::*;

pub mod error;
pub mod parse_lines;
pub mod parser;
pub mod tokenizer;

verus! {

/// The operation a gate performs; wire operands are indices into the wire table.
#[derive(Debug, Clone, Copy, PartialEq, Eq, Structural)]
pub enum GateOperation {
    XOR(usize, usize),
    AND(usize, usize),
    INV(usize),
    EQ { constant: bool },
    EQW(usize),
}

#[derive(Debug, Clone, Copy, PartialEq, Eq, Structural)]
pub struct Gate {
    pub op: GateOperation,
    pub output_wire: usize,
}

#[derive(Debug, Clone, PartialEq, Eq)]
pub struct Header {
    pub num_gates: usize,
    pub num_wires: usize,
    pub wires_per_input: Vec<usize>,
    pub wires_per_output: Vec<usize>,
}

#[derive(Debug, Clone)]
pub struct Circuit {
    pub header: Header,
    pub gates: Vec<Gate>,
}

/// Sum of a sequence of widths.
pub open spec fn sum(s: Seq<usize>) -> int
    decreases s.len(),
{
    if s.len() == 0 {
        0
    } else {
        sum(s.drop_last()) + s.last()
    }
}

/// Number of AND gates in a gate sequence.
pub open spec fn count_and(g: Seq<Gate>) -> nat
    decreases g.len(),
{
    if g.len() == 0 {
        0
    } else {
        count_and(g.drop_last()) + if g.last().op is AND { 1nat } else { 0nat }
    }
}

/// The wires a gate reads.
pub open spec fn reads_below(op: GateOperation, bound: int) -> bool {
    match op {
        GateOperation::XOR(a, b) => a < bound && b < bound,
        GateOperation::AND(a, b) => a < bound && b < bound,
        GateOperation::INV(x) => x < bound,
        GateOperation::EQ { .. } => true,
        GateOperation::EQW(x) => x < bound,
    }
}

/// A gate that fits a circuit of `num_wires` wires whose first `inputs` wires are inputs:
/// it reads only wires below its output, and writes a non-input wire that exists.
pub open spec fn gate_fits(g: Gate, inputs: int, num_wires: int) -> bool {
    &&& reads_below(g.op, g.output_wire as int)
    &&& inputs <= g.output_wire < num_wires
}

/// The wires the gates write.
pub open spec fn written(g: Seq<Gate>) -> Set<usize> {
    Set::new(|w: usize| exists|m: int| 0 <= m < g.len() && g[m].output_wire == w)
}

/// No wire is written by two gates.
pub open spec fn single_writer(g: Seq<Gate>) -> bool {
    forall|i: int, j: int| 0 <= i < j < g.len() ==> g[i].output_wire != g[j].output_wire
}

/// Every output wire is an input wire or written by a gate.
pub open spec fn outputs_defined(inputs: int, num_wires: int, outputs: int, g: Seq<Gate>) -> bool {
    forall|w: int|
        num_wires - outputs <= w < num_wires ==> w < inputs || #[trigger] written(g).contains(
            w as usize,
        )
}

pub proof fn lemma_sum_prefix_le(s: Seq<usize>, k: int)
    requires
        0 <= k <= s.len(),
    ensures
        0 <= sum(s.take(k)) <= sum(s),
    decreases s.len(),
{
    if s.len() > 0 {
        if k == s.len() {
            assert(s.take(k) =~= s);
            lemma_sum_prefix_le(s.drop_last(), k - 1);
            assert(s.drop_last().take(k - 1) =~= s.take(k - 1));
        } else {
            lemma_sum_prefix_le(s.drop_last(), k);
            assert(s.drop_last().take(k) =~= s.take(k));
        }
    }
}

pub proof fn lemma_sum_take_next(s: Seq<usize>, k: int)
    requires
        0 <= k < s.len(),
    ensures
        sum(s.take(k + 1)) == sum(s.take(k)) + s[k],
{
    assert(s.take(k + 1).drop_last() =~= s.take(k));
}

pub proof fn lemma_count_and_take_next(g: Seq<Gate>, k: int)
    requires
        0 <= k < g.len(),
    ensures
        count_and(g.take(k + 1)) == count_and(g.take(k)) + if g[k].op is AND { 1nat } else { 0nat },
{
    assert(g.take(k + 1).drop_last() =~= g.take(k));
}

impl Header {
    /// Total number of input wires.
    pub open spec fn input_sum(&self) -> int {
        sum(self.wires_per_input@)
    }

    /// Total number of output wires.
    pub open spec fn output_sum(&self) -> int {
        sum(self.wires_per_output@)
    }
}

impl Circuit {
    /// The conditions under which the engine evaluates a circuit: the number of gates matches
    /// the header, inputs and outputs fit the wire table, and every gate reads wires defined
    /// before it and writes a non-input wire of the table.
    pub open spec fn wf(&self) -> bool {
        let h = self.header;
        &&& self.gates.len() == h.num_gates
        &&& h.input_sum() <= h.num_wires
        &&& h.output_sum() <= h.num_wires
        &&& forall|i: int|
            0 <= i < self.gates.len() ==> #[trigger] gate_fits(
                self.gates[i],
                h.input_sum(),
                h.num_wires as int,
            )
    }

    /// All the invariants of a circuit: well formed, no wire written twice, and every output
    /// wire defined.
    pub open spec fn valid(&self) -> bool {
        &&& self.wf()
        &&& single_writer(self.gates@)
        &&& outputs_defined(
            self.header.input_sum(),
            self.header.num_wires as int,
            self.header.output_sum(),
            self.gates@,
        )
    }

    /// First wire of the outputs.
    pub open spec fn output_offset(&self) -> int {
        self.header.num_wires - self.header.output_sum()
    }

    pub fn input_bit_count(&self) -> (r: usize)
        requires
            self.header.input_sum() <= usize::MAX,
        ensures
            r == self.header.input_sum(),
    {
        let w = &self.header.wires_per_input;
        proof {
            assert(w@.take(w@.len() as int) =~= w@);
        }
        self.parameter_offset(w.len())
    }

    pub fn output_bit_count(&self) -> (r: usize)
        requires
            self.header.output_sum() <= usize::MAX,
        ensures
            r == self.header.output_sum(),
    {
        let w = &self.header.wires_per_output;
        let mut total: usize = 0;
        let mut i: usize = 0;
        while i < w.len()
            invariant
                i <= w.len(),
                total == sum(w@.take(i as int)),
                sum(w@) <= usize::MAX,
            decreases w.len() - i,
        {
            proof {
                lemma_sum_take_next(w@, i as int);
                lemma_sum_prefix_le(w@, i + 1);
            }
            total = total + w[i];
            i = i + 1;
        }
        proof {
            assert(w@.take(w@.len() as int) =~= w@);
        }
        total
    }

    /// First wire of input number `parameter_index`: the widths of the inputs before it, summed
    /// (all of them for an index past the last input).
    pub fn parameter_offset(&self, parameter_index: usize) -> (r: usize)
        requires
            self.header.input_sum() <= usize::MAX,
        ensures
            r == sum(
                self.header.wires_per_input@.take(
                    if parameter_index <= self.header.wires_per_input.len() {
                        parameter_index as int
                    } else {
                        self.header.wires_per_input.len() as int
                    },
                ),
            ),
    {
        let w = &self.header.wires_per_input;
        let end = if parameter_index <= w.len() {
            parameter_index
        } else {
            w.len()
        };
        let mut total: usize = 0;
        let mut i: usize = 0;
        while i < end
            invariant
                i <= end <= w.len(),
                total == sum(w@.take(i as int)),
                sum(w@) <= usize::MAX,
            decreases end - i,
        {
            proof {
                lemma_sum_take_next(w@, i as int);
                lemma_sum_prefix_le(w@, i + 1);
            }
            total = total + w[i];
            i = i + 1;
        }
        total
    }

    /// The wires that input number `parameter_index` occupies.
    pub fn parameter_range(&self, parameter_index: usize) -> (r: Range<usize>)
        requires
            parameter_index < self.header.wires_per_input.len(),
            self.header.input_sum() <= usize::MAX,
        ensures
            r.start == sum(self.header.wires_per_input@.take(parameter_index as int)),
            r.end == sum(self.header.wires_per_input@.take(parameter_index + 1)),
    {
        let offset = self.parameter_offset(parameter_index);
        let size = self.header.wires_per_input[parameter_index];
        proof {
            lemma_sum_take_next(self.header.wires_per_input@, parameter_index as int);
            lemma_sum_prefix_le(self.header.wires_per_input@, parameter_index + 1);
        }
        offset..offset + size
    }

    pub fn and_count(&self) -> (r: usize)
        ensures
            r == count_and(self.gates@),
    {
        let g = &self.gates;
        let mut n: usize = 0;
        let mut i: usize = 0;
        while i < g.len()
            invariant
                i <= g.len(),
                n == count_and(g@.take(i as int)),
                n <= i,
            decreases g.len() - i,
        {
            proof {
                lemma_count_and_take_next(g@, i as int);
            }
            if let GateOperation::AND(_, _) = g[i].op {
                n = n + 1;
            }
            i = i + 1;
        }
        proof {
            assert(g@.take(g@.len() as int) =~= g@);
        }
        n
    }
}

} // verus!
