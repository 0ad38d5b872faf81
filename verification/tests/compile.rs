//! Compiler behavior: emission order, the constant pool, diagnostics, and
//! compile determinism.
use lox_vm::compiler::{Compiler, DiagnosticLocation};
use lox_vm::machine::InterpretResult;
use lox_vm::op_code::{Chunk, OpCode};

fn compile(src: &str) -> (InterpretResult, Vec<lox_vm::compiler::Diagnostic>, Chunk) {
    let mut chunk = Chunk::new();
    let mut compiler = Compiler {};
    let (res, diags) = compiler.compile(src, &mut chunk);
    (res, diags, chunk)
}

fn pool(chunk: &Chunk) -> Vec<Vec<u8>> {
    chunk.constants.iter().map(|n| n.text.clone()).collect()
}

#[test]
fn multiplication_binds_tighter_than_addition() {
    let (res, diags, chunk) = compile("1 + 2 * 3");
    assert_eq!(res, InterpretResult::OK);
    assert!(diags.is_empty());
    assert_eq!(
        chunk.code,
        vec![
            OpCode::Constant(0),
            OpCode::Constant(1),
            OpCode::Constant(2),
            OpCode::Multiply,
            OpCode::Add,
            OpCode::Return,
        ]
    );
    assert_eq!(pool(&chunk), vec![b"1".to_vec(), b"2".to_vec(), b"3".to_vec()]);
}

#[test]
fn grouping_overrides_precedence() {
    let (res, _, chunk) = compile("(1 + 2) * 3");
    assert_eq!(res, InterpretResult::OK);
    assert_eq!(
        chunk.code,
        vec![
            OpCode::Constant(0),
            OpCode::Constant(1),
            OpCode::Add,
            OpCode::Constant(2),
            OpCode::Multiply,
            OpCode::Return,
        ]
    );
}

#[test]
fn unary_minus_binds_tighter_than_binary_operators() {
    let (res, _, chunk) = compile("-2 + 3");
    assert_eq!(res, InterpretResult::OK);
    assert_eq!(
        chunk.code,
        vec![
            OpCode::Constant(0),
            OpCode::Negate,
            OpCode::Constant(1),
            OpCode::Add,
            OpCode::Return,
        ]
    );
}

#[test]
fn division_is_left_associative() {
    let (res, _, chunk) = compile("8 / 2 / 2");
    assert_eq!(res, InterpretResult::OK);
    assert_eq!(
        chunk.code,
        vec![
            OpCode::Constant(0),
            OpCode::Constant(1),
            OpCode::Divide,
            OpCode::Constant(2),
            OpCode::Divide,
            OpCode::Return,
        ]
    );
}

#[test]
fn line_table_runs_parallel_to_code() {
    let (res, _, chunk) = compile("1 +\n2");
    assert_eq!(res, InterpretResult::OK);
    assert_eq!(chunk.code.len(), chunk.lines.len());
    // constants carry the line of their literal; Add carries line 2 (the
    // previous token when it is emitted), Return the last line.
    assert_eq!(chunk.lines, vec![1, 2, 2, 2]);
}

#[test]
fn unterminated_string_reports_exactly_one_error() {
    let (res, diags, _) = compile("\"abc");
    assert_eq!(res, InterpretResult::CompileErr);
    assert_eq!(diags.len(), 1);
    assert_eq!(diags[0].message, b"Unterminated string".to_vec());
    assert_eq!(diags[0].location, DiagnosticLocation::Bare);
    assert_eq!(
        diags[0].render(),
        b"[line 1] Error: Unterminated string".to_vec()
    );
}

#[test]
fn unknown_character_reports_exactly_one_error() {
    let (res, diags, _) = compile("@");
    assert_eq!(res, InterpretResult::CompileErr);
    assert_eq!(diags.len(), 1);
    assert_eq!(diags[0].message, b"Unexpected character".to_vec());
}

#[test]
fn missing_closing_paren_reports_expected_message() {
    let (res, diags, _) = compile("(1 + 2");
    assert_eq!(res, InterpretResult::CompileErr);
    assert_eq!(diags.len(), 1);
    assert_eq!(diags[0].message, b"Expect ')' after expression.".to_vec());
    assert_eq!(diags[0].location, DiagnosticLocation::AtEnd);
    assert_eq!(
        diags[0].render(),
        b"[line 1] Error at end: Expect ')' after expression.".to_vec()
    );
}

#[test]
fn empty_input_expects_an_expression() {
    let (res, diags, _) = compile("");
    assert_eq!(res, InterpretResult::CompileErr);
    assert_eq!(diags.len(), 1);
    assert_eq!(diags[0].message, b"Expect expression".to_vec());
}

#[test]
fn trailing_tokens_fail_the_compile() {
    let (res, diags, _) = compile("1 2");
    assert_eq!(res, InterpretResult::CompileErr);
    assert_eq!(diags.len(), 1);
    assert_eq!(diags[0].message, b"Expect end of expression".to_vec());
    assert_eq!(diags[0].location, DiagnosticLocation::At(b"2".to_vec()));
    assert_eq!(
        diags[0].render(),
        b"[line 1] Error at '2': Expect end of expression".to_vec()
    );
}

#[test]
fn missing_right_operand_expects_an_expression() {
    let (res, diags, _) = compile("1 +");
    assert_eq!(res, InterpretResult::CompileErr);
    assert_eq!(diags.len(), 1);
    assert_eq!(diags[0].message, b"Expect expression".to_vec());
    assert_eq!(diags[0].location, DiagnosticLocation::AtEnd);
}

#[test]
fn diagnostics_carry_the_error_line() {
    let (res, diags, _) = compile("1 +\n@");
    assert_eq!(res, InterpretResult::CompileErr);
    assert_eq!(diags.len(), 1);
    assert_eq!(
        diags[0].render(),
        b"[line 2] Error: Unexpected character".to_vec()
    );
}

#[test]
fn later_errors_are_suppressed_by_panic_mode() {
    // two lexical errors in one input: only the first is reported
    let (res, diags, _) = compile("@ @");
    assert_eq!(res, InterpretResult::CompileErr);
    assert_eq!(diags.len(), 1);
}

#[test]
fn compiling_twice_gives_identical_chunks() {
    let src = "(1 + 2.5) * -3 / 4";
    let (res1, _, c1) = compile(src);
    let (res2, _, c2) = compile(src);
    assert_eq!(res1, InterpretResult::OK);
    assert_eq!(res2, InterpretResult::OK);
    assert_eq!(c1.code, c2.code);
    assert_eq!(c1.lines, c2.lines);
    assert_eq!(c1.constants, c2.constants);
}

#[test]
fn disassembling_twice_gives_identical_output() {
    let (res, _, chunk) = compile("1 +\n2");
    assert_eq!(res, InterpretResult::OK);
    let a = chunk.disassemble("test chunk");
    let b = chunk.disassemble("test chunk");
    assert_eq!(a, b);
    let listing = String::from_utf8(a).unwrap();
    assert_eq!(
        listing,
        "== test chunk ==\n\
         0 1 OP_CONSTANT '1'\n\
         1 2 OP_CONSTANT '2'\n\
         2   ^ OP_ADD\n\
         3   ^ OP_RETURN\n"
    );
}

#[test]
fn disassembler_covers_every_mnemonic() {
    let (res, _, chunk) = compile("1 + 2 - 3 * 4 / -5");
    assert_eq!(res, InterpretResult::OK);
    let listing = String::from_utf8(chunk.disassemble("ops")).unwrap();
    for m in [
        "OP_CONSTANT", "OP_ADD", "OP_SUBTRACT", "OP_MULT", "OP_DIVIDE", "OP_NEGATE", "OP_RETURN",
    ] {
        assert!(listing.contains(m), "missing {m} in {listing}");
    }
}
