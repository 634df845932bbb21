use crate::circuit::GateOperation;
use crate::network::NetworkError;
use crate::text::{chars_to_string, decimal, push_decimal, push_str};
use vstd::prelude::*;

verus! {

/// Why an execution stopped.
#[derive(Debug)]
pub enum GMWError {
    /// The circuit holds an operation the engine does not evaluate.
    InvalidGate(GateOperation),
    /// The peer sent a packet other than the one this step expects.
    ProtocolError,
    /// The private input does not have the width the circuit gives it.
    InputLengthMismatch { actual: usize, expected: usize },
    NetworkError(NetworkError),
}

/// A gate operation as the error text shows it.
pub open spec fn gate_text(op: GateOperation) -> Seq<char> {
    match op {
        GateOperation::XOR(a, b) => "XOR("@ + decimal(a as nat) + ", "@ + decimal(b as nat) + ")"@,
        GateOperation::AND(a, b) => "AND("@ + decimal(a as nat) + ", "@ + decimal(b as nat) + ")"@,
        GateOperation::INV(x) => "INV("@ + decimal(x as nat) + ")"@,
        GateOperation::EQ { constant } => if constant {
            "EQ(1)"@
        } else {
            "EQ(0)"@
        },
        GateOperation::EQW(x) => "EQW("@ + decimal(x as nat) + ")"@,
    }
}

fn push_gate(v: &mut Vec<char>, op: GateOperation)
    ensures
        final(v)@ == old(v)@ + gate_text(op),
{
    match op {
        GateOperation::XOR(a, b) => {
            push_str(v, "XOR(");
            push_decimal(v, a);
            push_str(v, ", ");
            push_decimal(v, b);
            push_str(v, ")");
        },
        GateOperation::AND(a, b) => {
            push_str(v, "AND(");
            push_decimal(v, a);
            push_str(v, ", ");
            push_decimal(v, b);
            push_str(v, ")");
        },
        GateOperation::INV(x) => {
            push_str(v, "INV(");
            push_decimal(v, x);
            push_str(v, ")");
        },
        GateOperation::EQ { constant } => {
            if constant {
                push_str(v, "EQ(1)");
            } else {
                push_str(v, "EQ(0)");
            }
        },
        GateOperation::EQW(x) => {
            push_str(v, "EQW(");
            push_decimal(v, x);
            push_str(v, ")");
        },
    }
    proof {
        assert(final(v)@ =~= old(v)@ + gate_text(op));
    }
}

impl GMWError {
    pub open spec fn spec_describe(&self) -> Seq<char> {
        match self {
            GMWError::InvalidGate(op) => "Expected AND, INV, XOR, EQ or EQW gate, but got "@
                + gate_text(*op),
            GMWError::NetworkError(err) => err.spec_describe(),
            GMWError::InputLengthMismatch { actual, expected } => "Input provided of length "@
                + decimal(*actual as nat) + ", but expected length "@ + decimal(*expected as nat),
            GMWError::ProtocolError => "ProtocolError!"@,
        }
    }

    /// A one-line description of the error, with the values that caused it.
    pub fn describe(&self) -> (r: String)
        ensures
            r@ == self.spec_describe(),
    {
        match self {
            GMWError::NetworkError(err) => err.describe(),
            GMWError::ProtocolError => String::from_str("ProtocolError!"),
            GMWError::InvalidGate(op) => {
                let mut v: Vec<char> = Vec::new();
                push_str(&mut v, "Expected AND, INV, XOR, EQ or EQW gate, but got ");
                push_gate(&mut v, *op);
                chars_to_string(&v)
            },
            GMWError::InputLengthMismatch { actual, expected } => {
                let mut v: Vec<char> = Vec::new();
                push_str(&mut v, "Input provided of length ");
                push_decimal(&mut v, *actual);
                push_str(&mut v, ", but expected length ");
                push_decimal(&mut v, *expected);
                proof {
                    assert(v@ =~= self.spec_describe());
                }
                chars_to_string(&v)
            },
        }
    }
}

} // verus!
