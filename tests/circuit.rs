use mpc_in_rust::circuit::error::ParserError;
use mpc_in_rust::circuit::parse_lines::ChatIter;
use mpc_in_rust::circuit::parser::{parse, parse_gate, parse_header, parse_lines, parse_str};
use mpc_in_rust::circuit::tokenizer::{LexicalUnit, Location, TokenStream};
use mpc_in_rust::circuit::{Circuit, Gate, GateOperation, Header};

fn chars(s: &str) -> Vec<char> {
    s.chars().collect()
}

#[test]
fn test_simple_and() {
    let source = "\
        2 4\n\
        2 1 1\n\
        1 1\n\
        \n\
        2 1 0 1 2 AND\n\
        2 1 1 2 3 XOR\n";

    let circuit = parse_str(source).unwrap();

    assert_eq!(
        circuit.gates,
        vec![
            Gate { op: GateOperation::AND(0, 1), output_wire: 2 },
            Gate { op: GateOperation::XOR(1, 2), output_wire: 3 }
        ]
    );

    assert_eq!(
        circuit.header,
        Header { num_gates: 2, num_wires: 4, wires_per_input: vec![1, 1], wires_per_output: vec![1] }
    )
}

#[test]
fn parses_every_opcode() {
    let source = "5 7\n2 1 1\n1 1\n\n2 1 0 1 2 XOR\n1 1 2 3 INV\n1 1 1 4 EQ\n1 1 4 5 EQW\n2 1 3 5 6 AND\n";
    let c = parse_str(source).unwrap();
    assert_eq!(
        c.gates,
        vec![
            Gate { op: GateOperation::XOR(0, 1), output_wire: 2 },
            Gate { op: GateOperation::INV(2), output_wire: 3 },
            Gate { op: GateOperation::EQ { constant: true }, output_wire: 4 },
            Gate { op: GateOperation::EQW(4), output_wire: 5 },
            Gate { op: GateOperation::AND(3, 5), output_wire: 6 },
        ]
    );
    assert_eq!(c.and_count(), 1);
}

#[test]
fn last_gate_without_newline_is_accepted() {
    let c = parse_str("1 3\n2 1 1\n1 1\n\n2 1 0 1 2 AND").unwrap();
    assert_eq!(c.gates, vec![Gate { op: GateOperation::AND(0, 1), output_wire: 2 }]);
}

#[test]
fn carriage_returns_and_trailing_spaces_are_ignored() {
    let c = parse_str("1 3  \r\n2 1 1\r\n1 1\r\n\r\n2 1 0 1 2 XOR  \r\n").unwrap();
    assert_eq!(c.gates, vec![Gate { op: GateOperation::XOR(0, 1), output_wire: 2 }]);
    assert_eq!(c.header.wires_per_input, vec![1, 1]);
}

#[test]
fn unknown_gate_is_a_syntax_error() {
    match parse_str("1 3\n2 1 1\n1 1\n\n2 1 0 1 2 NAND\n") {
        Err(ParserError::Syntax { location, .. }) => assert_eq!(location, Location { line: 4, column: 0 }),
        other => panic!("unexpected {:?}", other),
    }
}

#[test]
fn several_outputs_are_a_syntax_error() {
    match parse_str("1 4\n2 1 1\n1 1\n\n2 2 0 1 2 3 AND\n") {
        Err(ParserError::Syntax { location, .. }) => assert_eq!(location.line, 4),
        other => panic!("unexpected {:?}", other),
    }
}

#[test]
fn wrong_arity_is_a_syntax_error() {
    assert!(matches!(parse_str("1 3\n2 1 1\n1 1\n\n1 1 0 2 XOR\n"), Err(ParserError::Syntax { .. })));
    assert!(matches!(parse_str("1 3\n2 1 1\n1 1\n\n2 1 0 1 2 INV\n"), Err(ParserError::Syntax { .. })));
}

#[test]
fn eq_constant_must_be_a_bit() {
    assert!(matches!(parse_str("1 3\n2 1 1\n1 1\n\n1 1 2 2 EQ\n"), Err(ParserError::Syntax { .. })));
    let c = parse_str("1 3\n2 1 1\n1 1\n\n1 1 0 2 EQ\n").unwrap();
    assert_eq!(c.gates[0].op, GateOperation::EQ { constant: false });
}

#[test]
fn missing_gate_line_is_a_token_error() {
    match parse_str("2 4\n2 1 1\n1 1\n\n2 1 0 1 2 AND\n") {
        Err(ParserError::Token { expected, actual }) => {
            assert_eq!(expected, "Number");
            assert!(matches!(actual.value, LexicalUnit::EndOfFile));
        },
        other => panic!("unexpected {:?}", other),
    }
}

#[test]
fn identifier_in_header_is_a_token_error() {
    match parse_str("x 4\n") {
        Err(ParserError::Token { expected, actual }) => {
            assert_eq!(expected, "Number");
            assert_eq!(actual.location, Location { line: 0, column: 0 });
            match actual.value {
                LexicalUnit::Identifier(s) => assert_eq!(s, "x"),
                v => panic!("unexpected {:?}", v),
            }
        },
        other => panic!("unexpected {:?}", other),
    }
}

#[test]
fn too_large_number_is_a_syntax_error() {
    assert!(matches!(
        parse_str("99999999999999999999999999 3\n2 1 1\n1 1\n\n"),
        Err(ParserError::Syntax { .. })
    ));
}

#[test]
fn wires_out_of_order_are_refused() {
    // a gate reading wire 3, which is not below its output 2
    assert!(matches!(parse_str("1 4\n2 1 1\n1 1\n\n2 1 0 3 2 AND\n"), Err(ParserError::Syntax { .. })));
    // a gate writing an input wire
    assert!(matches!(parse_str("1 3\n2 1 1\n1 1\n\n1 1 0 1 INV\n"), Err(ParserError::Syntax { .. })));
    // a gate writing past the wire table
    assert!(matches!(parse_str("1 3\n2 1 1\n1 1\n\n2 1 0 1 3 AND\n"), Err(ParserError::Syntax { .. })));
}

#[test]
fn inputs_wider_than_the_wire_table_are_refused() {
    assert!(matches!(parse_str("0 2\n2 1 2\n1 1\n\n"), Err(ParserError::Syntax { .. })));
}

#[test]
fn header_and_gate_parse_step_by_step() {
    let mut ts = TokenStream::new(chars("1 3\n2 1 1\n1 1\n\n2 1 0 1 2 AND\n"));
    let h = parse_header(&mut ts).unwrap();
    assert_eq!(h, Header { num_gates: 1, num_wires: 3, wires_per_input: vec![1, 1], wires_per_output: vec![1] });
    assert_eq!(ts.current_location(), Location { line: 3, column: 0 });
    ts.accept_newline().unwrap();
    assert_eq!(ts.current_location(), Location { line: 4, column: 0 });
    let g = parse_gate(&mut ts).unwrap();
    assert_eq!(g, Gate { op: GateOperation::AND(0, 1), output_wire: 2 });
}

#[test]
fn token_stream_accepts_each_kind() {
    let mut ts = TokenStream::new(chars("12 ab3 4 5\n"));
    assert_eq!(ts.accept_number().unwrap(), 12);
    assert_eq!(ts.accept_identifier().unwrap(), "ab3");
    assert_eq!(ts.current_location(), Location { line: 0, column: 6 });
    assert_eq!(ts.accept_n_numbers(2).unwrap(), vec![4, 5]);
    ts.accept_newline().unwrap();
    assert_eq!(ts.current_location(), Location { line: 1, column: 0 });
    // the end of the text also ends a line
    ts.accept_newline().unwrap();
    assert!(matches!(ts.accept_number(), Err(ParserError::Token { .. })));
}

#[test]
fn token_stream_reports_wrong_kind() {
    let mut ts = TokenStream::new(chars("7"));
    match ts.accept_identifier() {
        Err(ParserError::Token { expected, actual }) => {
            assert_eq!(expected, "Identifier");
            assert!(matches!(actual.value, LexicalUnit::Number(7)));
        },
        other => panic!("unexpected {:?}", other),
    }
    let mut ts = TokenStream::new(chars("a"));
    assert!(matches!(ts.accept_newline(), Err(ParserError::Token { .. })));
}

#[test]
fn chat_iter_joins_lines() {
    let mut it = ChatIter::from_lines(vec!["ab".to_string(), "".to_string(), "c".to_string()]);
    let mut out = String::new();
    while let Some(c) = it.next() {
        out.push(c);
    }
    assert_eq!(out, "ab\n\nc\n");
}

#[test]
fn parse_lines_matches_parse_str() {
    let lines: Vec<String> =
        vec!["1 3", "2 1 1", "1 1", "", "2 1 0 1 2 AND"].into_iter().map(String::from).collect();
    let c = parse_lines(lines).unwrap();
    assert_eq!(c.gates, vec![Gate { op: GateOperation::AND(0, 1), output_wire: 2 }]);
    let d = parse(chars("1 3\n2 1 1\n1 1\n\n2 1 0 1 2 AND\n")).unwrap();
    assert_eq!(c.header, d.header);
}

fn two_input_circuit() -> Circuit {
    parse_str("3 8\n2 2 3\n2 1 2\n\n2 1 0 2 5 AND\n2 1 1 3 6 XOR\n2 1 4 6 7 AND\n").unwrap()
}

#[test]
fn bit_counts_and_ranges() {
    let c = two_input_circuit();
    assert_eq!(c.input_bit_count(), 5);
    assert_eq!(c.output_bit_count(), 3);
    assert_eq!(c.parameter_offset(0), 0);
    assert_eq!(c.parameter_offset(1), 2);
    assert_eq!(c.parameter_range(0), 0..2);
    assert_eq!(c.parameter_range(1), 2..5);
    assert_eq!(c.and_count(), 2);
}

#[test]
fn parsed_circuit_matches_its_header() {
    let c = two_input_circuit();
    assert_eq!(c.gates.len(), c.header.num_gates);
    assert!(c.input_bit_count() <= c.header.num_wires);
    assert!(c.output_bit_count() <= c.header.num_wires);
}

#[test]
fn describe_errors() {
    let e = parse_str("1 3\n2 1 1\n1 1\n\n2 1 0 1 2 NAND\n").unwrap_err();
    assert_eq!(e.describe(), "Syntax Error in line 4, column 0: Unknown Gate type: NAND");
    let e = parse_str("x").unwrap_err();
    assert_eq!(e.describe(), "TokenError in line 0, column 0: Expected Number but got Identifier(x)");
    let e = parse_str("1 3\n2 1 1\n1 1\n\n2 1 0 1 2 AND 7").unwrap_err();
    assert_eq!(e.describe(), "TokenError in line 4, column 14: Expected NewLine but got Number(7)");
    let e = parse_str("1 3\n2 1 1\n1 1\n\n2 1 0 1").unwrap_err();
    assert_eq!(e.describe(), "TokenError in line 4, column 7: Expected Number but got EndOfFile");
}

#[test]
fn peek_leaves_the_token() {
    let mut ts = TokenStream::new(chars("  42 x"));
    match ts.peek() {
        Ok(t) => {
            assert!(matches!(t.value, LexicalUnit::Number(42)));
            assert_eq!(t.location, Location { line: 0, column: 2 });
        },
        Err(e) => panic!("unexpected {:?}", e),
    }
    assert_eq!(ts.current_location(), Location { line: 0, column: 0 });
    assert_eq!(ts.accept_number().unwrap(), 42);
    assert!(matches!(ts.peek().unwrap().value, LexicalUnit::Identifier(_)));
    assert_eq!(ts.accept_identifier().unwrap(), "x");
    assert!(matches!(ts.peek().unwrap().value, LexicalUnit::EndOfFile));
}

#[test]
fn wire_written_twice_is_refused() {
    match parse_str("2 4\n2 1 1\n1 1\n\n2 1 0 1 3 AND\n2 1 0 1 3 XOR\n") {
        Err(ParserError::Syntax { location, .. }) => assert_eq!(location, Location { line: 5, column: 0 }),
        other => panic!("unexpected {:?}", other),
    }
}

#[test]
fn undefined_output_is_refused() {
    // the output wire 3 is written by no gate
    match parse_str("1 4\n2 1 1\n1 1\n\n2 1 0 1 2 AND\n") {
        Err(ParserError::Syntax { location, .. }) => assert_eq!(location, Location { line: 5, column: 0 }),
        other => panic!("unexpected {:?}", other),
    }
    // an output wire that is an input wire is defined
    let c = parse_str("0 2\n2 1 1\n1 1\n\n").unwrap();
    assert!(c.gates.is_empty());
}

#[test]
fn header_ends_with_its_newline() {
    let mut ts = TokenStream::new(chars("2 4\n2 1 1\n1 1\n"));
    let h = parse_header(&mut ts).unwrap();
    assert_eq!(h, Header { num_gates: 2, num_wires: 4, wires_per_input: vec![1, 1], wires_per_output: vec![1] });
    assert!(matches!(ts.peek().unwrap().value, LexicalUnit::EndOfFile));
}

#[test]
fn unknown_gate_message() {
    match parse_str("1 3\n2 1 1\n1 1\n\n2 1 0 1 2 OR\n") {
        Err(ParserError::Syntax { message, location }) => {
            assert_eq!(message, "Unknown Gate type: OR");
            assert_eq!(location, Location { line: 4, column: 0 });
        },
        other => panic!("unexpected {:?}", other),
    }
}

#[test]
fn parameter_offset_past_the_end_sums_all() {
    let c = parse_str("0 2\n2 1 1\n1 1\n\n").unwrap();
    assert_eq!(c.parameter_offset(0), 0);
    assert_eq!(c.parameter_offset(1), 1);
    assert_eq!(c.parameter_offset(2), 2);
    assert_eq!(c.parameter_offset(5), 2);
}
