use game_lang::bytecode::chunk::CodeChunk;
use game_lang::bytecode::number::NumberOp;
use game_lang::bytecode::object::{HeapError, ObjectHeap};
use game_lang::bytecode::value::{Printed, ValueError};
use game_lang::bytecode::vm::{RuntimeError, VM};
use game_lang::compiler::parser::{Parser, ParsingError};

fn read_number(literal: &str) -> u64 {
    literal.parse::<f64>().unwrap().to_bits()
}

fn arithmetic(op: NumberOp, a: u64, b: u64) -> u64 {
    let (a, b) = (f64::from_bits(a), f64::from_bits(b));
    let r = match op {
        NumberOp::Add => a + b,
        NumberOp::Sub => a - b,
        NumberOp::Mul => a * b,
        NumberOp::Div => a / b,
    };
    r.to_bits()
}

fn show(printed: &Printed) -> String {
    match printed {
        Printed::Text(text) => text.clone(),
        Printed::Number(bits) => format!("{}", f64::from_bits(*bits)),
    }
}

/// Compiles and runs `source` on `heap` and returns what it printed.
fn run_on(heap: &mut ObjectHeap, source: &str) -> Result<Vec<String>, RuntimeError> {
    let mut code = CodeChunk::new();
    Parser::parse_source(source, &mut code, heap, &read_number).unwrap();
    let mut vm = VM::init(&code, heap);
    let result = vm.run(&arithmetic);
    let lines: Vec<String> = vm.output().iter().map(show).collect();
    result.map(|_| lines)
}

fn run(source: &str) -> Result<Vec<String>, RuntimeError> {
    run_on(&mut ObjectHeap::new(), source)
}

fn compile_errors(source: &str) -> Vec<ParsingError> {
    let mut code = CodeChunk::new();
    let mut heap = ObjectHeap::new();
    match Parser::parse_source(source, &mut code, &mut heap, &read_number) {
        Ok(()) => Vec::new(),
        Err(errors) => errors,
    }
}

#[test]
fn prints_arithmetic_with_precedence() {
    assert_eq!(run("print 1 + 2 * 3;").unwrap(), vec!["7"]);
}

#[test]
fn prints_joined_strings() {
    assert_eq!(run("print \"foo\" + \"bar\";").unwrap(), vec!["foobar"]);
}

#[test]
fn assigns_to_a_global() {
    assert_eq!(run("let x = 10; x = x + 5; print x;").unwrap(), vec!["15"]);
}

#[test]
fn a_local_shadows_a_global_inside_its_block() {
    assert_eq!(run("let x = 1; { let x = 2; print x; } print x;").unwrap(), vec!["2", "1"]);
}

#[test]
fn takes_the_first_branch_of_a_true_condition() {
    assert_eq!(
        run("if 1 < 2 { print \"yes\"; } else { print \"no\"; }").unwrap(),
        vec!["yes"]
    );
}

#[test]
fn takes_the_second_branch_of_a_false_condition() {
    assert_eq!(
        run("if 2 < 1 { print \"yes\"; } else { print \"no\"; }").unwrap(),
        vec!["no"]
    );
}

#[test]
fn prints_negations() {
    assert_eq!(run("print -(1 + 2);").unwrap(), vec!["-3"]);
    assert_eq!(run("print !true;").unwrap(), vec!["false"]);
}

#[test]
fn adding_a_number_and_a_string_is_not_supported() {
    let source = "print 1 + \"a\";";
    let mut code = CodeChunk::new();
    let mut heap = ObjectHeap::new();
    Parser::parse_source(source, &mut code, &mut heap, &read_number).unwrap();
    let mut vm = VM::init(&code, &mut heap);
    assert_eq!(
        vm.run(&arithmetic),
        Err(RuntimeError::ValueError(ValueError::UnSupportedOperation))
    );
    let span = vm.current_span();
    assert_eq!(&source[span], "+");
}

#[test]
fn reading_an_undeclared_global_fails() {
    assert_eq!(
        run("print y;"),
        Err(RuntimeError::HeapError(HeapError::GlobalVariableNotFound))
    );
}

#[test]
fn assigning_to_a_number_is_a_parse_error() {
    let errors = compile_errors("1 = 2;");
    assert_eq!(errors.len(), 1);
    assert_eq!(errors[0].msg, "invalid assignment target");
    assert_eq!(errors[0].span, 2..3);
}

#[test]
fn more_constants_than_a_chunk_holds_do_not_compile() {
    let mut source = String::new();
    for i in 0..257 {
        source.push_str(&format!("print {};", i));
    }
    let errors = compile_errors(&source);
    assert!(!errors.is_empty());
    assert_eq!(errors[0].msg, "constant-pool overflow");
}

#[test]
fn as_many_constants_as_a_chunk_holds_compile() {
    let mut source = String::new();
    for i in 0..256 {
        source.push_str(&format!("print {};", i));
    }
    assert!(compile_errors(&source).is_empty());
}

#[test]
fn a_second_declaration_of_a_global_wins() {
    assert_eq!(run("let x = 1; let x = 2; print x;").unwrap(), vec!["2"]);
}

#[test]
fn globals_and_strings_outlive_a_chunk() {
    let mut heap = ObjectHeap::new();
    assert_eq!(run_on(&mut heap, "let greeting = \"hi\";").unwrap(), Vec::<String>::new());
    let objects = heap.live_count();
    assert_eq!(run_on(&mut heap, "print greeting + \"\";").unwrap(), vec!["hi"]);
    assert_eq!(heap.live_count(), objects + 1);
}
