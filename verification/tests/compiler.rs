use ecow::EcoString;
use game_lang::bytecode::chunk::CodeChunk;
use game_lang::bytecode::number::NumberOp;
use game_lang::bytecode::object::ObjectHeap;
use game_lang::bytecode::opcodes::{
    OP_ADD, OP_AND, OP_CONSTANT, OP_DEF_GLOBAL, OP_DIV, OP_EQUAL, OP_FALSE, OP_GET_GLOBAL,
    OP_GET_LOCAL, OP_GREATER, OP_JUMP, OP_JUMP_F, OP_LESS, OP_MUL, OP_NEG, OP_NIL, OP_NOT, OP_OR,
    OP_POP, OP_PRINT, OP_RETURN, OP_SET_GLOBAL, OP_SET_LOCAL, OP_SUB, OP_TRUE,
};
use game_lang::bytecode::value::Value;
use game_lang::bytecode::vm::VM;
use game_lang::compiler::error::{ParserError, ParserErrorKind};
use game_lang::compiler::lexer::Token;
use game_lang::compiler::locals::MAX_LOCALS;
use game_lang::compiler::parser::{Locals, Parser, ParsingError};

fn read_number(literal: &str) -> u64 {
    literal.parse::<f64>().unwrap().to_bits()
}

fn arithmetic(op: NumberOp, a: u64, b: u64) -> u64 {
    let (a, b) = (f64::from_bits(a), f64::from_bits(b));
    let r = match op {
        NumberOp::Add => a + b,
        NumberOp::Sub => a - b,
        NumberOp::Mul => a * b,
        NumberOp::Div => a / b,
    };
    r.to_bits()
}

fn compile(source: &str) -> (Result<(), Vec<ParsingError>>, CodeChunk, ObjectHeap) {
    let mut code = CodeChunk::new();
    let mut heap = ObjectHeap::new();
    let result = Parser::parse_source(source, &mut code, &mut heap, &read_number);
    (result, code, heap)
}

fn code_of(source: &str) -> Vec<u8> {
    let (result, code, _) = compile(source);
    assert_eq!(result, Ok(()));
    (0..code.size()).map(|offset| code.get_byte(offset).unwrap()).collect()
}

fn errors_of(source: &str) -> Vec<(String, std::ops::Range<usize>)> {
    match compile(source).0 {
        Ok(()) => Vec::new(),
        Err(errors) => errors.into_iter().map(|e| (e.msg, e.span)).collect(),
    }
}

fn error(msg: &str, span: std::ops::Range<usize>) -> (String, std::ops::Range<usize>) {
    (msg.to_string(), span)
}

#[test]
fn parse_test() {
    let test_str = "(1 + 5) - - - (8 - 2)";
    let mut code = CodeChunk::new();
    let mut heap = ObjectHeap::new();
    let result = Parser::parse_source(test_str, &mut code, &mut heap, &read_number);
    println!("{:?}", code);
    // An expression is a statement only with a `;` behind it.
    let errors = result.unwrap_err();
    assert_eq!(errors.len(), 1);
    assert_eq!(errors[0].msg, "Expected Some(Semicolon), got None");
    assert_eq!(errors[0].span, 21..21);
}

#[test]
fn the_expression_of_parse_test_runs_as_a_statement() {
    let test_str = "(1 + 5) - - - (8 - 2);";
    let mut code = CodeChunk::new();
    let mut heap = ObjectHeap::new();
    Parser::parse_source(test_str, &mut code, &mut heap, &read_number).unwrap();
    let bytes: Vec<u8> = (0..code.size()).map(|offset| code.get_byte(offset).unwrap()).collect();
    assert_eq!(
        bytes,
        vec![
            OP_CONSTANT, 0, OP_CONSTANT, 1, OP_ADD, OP_CONSTANT, 2, OP_CONSTANT, 3, OP_SUB, OP_NEG,
            OP_NEG, OP_SUB, OP_POP, OP_RETURN,
        ]
    );
    let mut vm = VM::init(&code, &mut heap);
    vm.run(&arithmetic).unwrap();
    assert!(vm.stack().is_empty());

    let print = "print (1 + 5) - - - (8 - 2);";
    let mut code = CodeChunk::new();
    Parser::parse_source(print, &mut code, &mut heap, &read_number).unwrap();
    let mut vm = VM::init(&code, &mut heap);
    vm.run(&arithmetic).unwrap();
    assert_eq!(
        vm.output(),
        &vec![game_lang::bytecode::value::Printed::Number(0.0f64.to_bits())]
    );
}

#[test]
fn an_empty_source_is_a_program_that_halts() {
    assert_eq!(code_of(""), vec![OP_RETURN]);
    assert_eq!(code_of(" \n\t "), vec![OP_RETURN]);
}

#[test]
fn print_emits_the_expression_and_the_instruction() {
    let (result, code, _) = compile("print 1 + 2;");
    assert_eq!(result, Ok(()));
    let bytes: Vec<u8> = (0..code.size()).map(|offset| code.get_byte(offset).unwrap()).collect();
    assert_eq!(
        bytes,
        vec![OP_CONSTANT, 0, OP_CONSTANT, 1, OP_ADD, OP_PRINT, OP_RETURN]
    );
    assert_eq!(code.get_constant(0), Some(&Value::Number(1.0f64.to_bits())));
    assert_eq!(code.get_constant(1), Some(&Value::Number(2.0f64.to_bits())));
    assert_eq!(code.get_constant(2), None);
    assert_eq!(code.find_span_of(0), &(0, 6..7));
    assert_eq!(code.find_span_of(1), &(0, 6..7));
    assert_eq!(code.find_span_of(2), &(2, 10..11));
    assert_eq!(code.find_span_of(4), &(4, 8..9));
    assert_eq!(code.find_span_of(5), &(5, 0..5));
    assert_eq!(code.find_span_of(6), &(5, 0..5));
}

#[test]
fn every_instruction_stands_under_the_span_of_its_token() {
    let source = "{ let a; let b = a; b = a; print b; a; } let g; g = 1; if g { }";
    let (result, code, _) = compile(source);
    assert_eq!(result, Ok(()));
    let bytes: Vec<u8> = (0..code.size()).map(|offset| code.get_byte(offset).unwrap()).collect();
    let expected: Vec<(u8, &str)> = vec![
        (OP_NIL, "a"),
        (OP_GET_LOCAL, "a"),
        (0, "a"),
        (OP_GET_LOCAL, "a"),
        (0, "a"),
        (OP_SET_LOCAL, "b"),
        (1, "b"),
        (OP_POP, ";"),
        (OP_GET_LOCAL, "b"),
        (1, "b"),
        (OP_PRINT, "print"),
        (OP_GET_LOCAL, "a"),
        (0, "a"),
        (OP_POP, ";"),
        (OP_POP, "}"),
        (OP_POP, "}"),
        (OP_NIL, "g"),
        (OP_DEF_GLOBAL, "g"),
        (0, "g"),
        (OP_CONSTANT, "1"),
        (2, "1"),
        (OP_SET_GLOBAL, "g"),
        (1, "g"),
        (OP_POP, ";"),
        (OP_GET_GLOBAL, "g"),
        (3, "g"),
        (OP_JUMP_F, "if"),
        (0, "if"),
        (4, "if"),
        (OP_POP, "if"),
        (OP_JUMP, "}"),
        (0, "}"),
        (1, "}"),
        (OP_POP, "}"),
        (OP_RETURN, "}"),
    ];
    assert_eq!(bytes, expected.iter().map(|(byte, _)| *byte).collect::<Vec<u8>>());
    for (offset, (_, token)) in expected.iter().enumerate() {
        let span = code.find_span_of(offset).1.clone();
        assert_eq!(&source[span], *token, "at offset {}", offset);
    }
}

#[test]
fn numbers_are_read_by_the_function_that_is_given() {
    let mut code = CodeChunk::new();
    let mut heap = ObjectHeap::new();
    let lengths = |literal: &str| literal.len() as u64;
    Parser::parse_source("12.5; 7; 100.;", &mut code, &mut heap, &lengths).unwrap();
    assert_eq!(code.get_constant(0), Some(&Value::Number(4)));
    assert_eq!(code.get_constant(1), Some(&Value::Number(1)));
    assert_eq!(code.get_constant(2), Some(&Value::Number(4)));
}

#[test]
fn each_operator_has_its_code() {
    let operand = |index: u8| vec![OP_CONSTANT, index];
    for (operator, codes) in [
        ("+", vec![OP_ADD]),
        ("-", vec![OP_SUB]),
        ("*", vec![OP_MUL]),
        ("/", vec![OP_DIV]),
        ("==", vec![OP_EQUAL]),
        ("!=", vec![OP_EQUAL, OP_NOT]),
        (">", vec![OP_GREATER]),
        ("<", vec![OP_LESS]),
        (">=", vec![OP_LESS, OP_NOT]),
        ("<=", vec![OP_GREATER, OP_NOT]),
        ("&&", vec![OP_AND]),
        ("and", vec![OP_AND]),
        ("||", vec![OP_OR]),
        ("or", vec![OP_OR]),
    ] {
        let mut expected = operand(0);
        expected.extend(operand(1));
        expected.extend(codes);
        expected.extend([OP_POP, OP_RETURN]);
        assert_eq!(code_of(&format!("1 {} 2;", operator)), expected, "operator {}", operator);
    }
    assert_eq!(code_of("-1;"), vec![OP_CONSTANT, 0, OP_NEG, OP_POP, OP_RETURN]);
    assert_eq!(code_of("!true;"), vec![OP_TRUE, OP_NOT, OP_POP, OP_RETURN]);
    assert_eq!(code_of("not false;"), vec![OP_FALSE, OP_NOT, OP_POP, OP_RETURN]);
    assert_eq!(code_of("nil;"), vec![OP_NIL, OP_POP, OP_RETURN]);
}

#[test]
fn operators_bind_by_precedence_and_to_the_left() {
    let c = |index: u8| [OP_CONSTANT, index];
    let join = |parts: &[&[u8]]| -> Vec<u8> {
        let mut all: Vec<u8> = parts.iter().flat_map(|p| p.iter().copied()).collect();
        all.extend([OP_POP, OP_RETURN]);
        all
    };
    assert_eq!(code_of("1 + 2 * 3;"), join(&[&c(0), &c(1), &c(2), &[OP_MUL], &[OP_ADD]]));
    assert_eq!(code_of("1 * 2 + 3;"), join(&[&c(0), &c(1), &[OP_MUL], &c(2), &[OP_ADD]]));
    assert_eq!(code_of("1 - 2 - 3;"), join(&[&c(0), &c(1), &[OP_SUB], &c(2), &[OP_SUB]]));
    assert_eq!(code_of("1 / 2 / 3;"), join(&[&c(0), &c(1), &[OP_DIV], &c(2), &[OP_DIV]]));
    assert_eq!(code_of("(1 + 2) * 3;"), join(&[&c(0), &c(1), &[OP_ADD], &c(2), &[OP_MUL]]));
    assert_eq!(code_of("1 < 2 + 3;"), join(&[&c(0), &c(1), &c(2), &[OP_ADD], &[OP_LESS]]));
    assert_eq!(code_of("-1 * 2;"), join(&[&c(0), &[OP_NEG], &c(1), &[OP_MUL]]));
    assert_eq!(
        code_of("1 == 2 and 3 == 4;"),
        join(&[&c(0), &c(1), &[OP_EQUAL], &c(2), &c(3), &[OP_EQUAL], &[OP_AND]])
    );
    assert_eq!(
        code_of("true or false and nil;"),
        join(&[&[OP_TRUE], &[OP_FALSE], &[OP_NIL], &[OP_AND], &[OP_OR]])
    );
    assert_eq!(code_of("1 < 2 == true;"), join(&[&c(0), &c(1), &[OP_LESS], &[OP_TRUE], &[OP_EQUAL]]));
}

#[test]
fn a_string_literal_is_interned_without_its_quotes() {
    let (result, code, mut heap) = compile("print \"hi there\"; print \"\";");
    assert_eq!(result, Ok(()));
    let Some(Value::Object(key)) = code.get_constant(0).copied() else { panic!("no object") };
    assert_eq!(heap.get_object(key).unwrap().as_str(), "hi there");
    assert_eq!(heap.intern_string(EcoString::from("hi there")), key);
    let Some(Value::Object(empty)) = code.get_constant(1).copied() else { panic!("no object") };
    assert_eq!(heap.get_object(empty).unwrap().as_str(), "");
    assert_eq!(heap.live_count(), 2);
}

#[test]
fn a_global_is_defined_read_and_assigned_by_its_interned_name() {
    let (result, code, mut heap) = compile("let x = 1; x = x; let y;");
    assert_eq!(result, Ok(()));
    let bytes: Vec<u8> = (0..code.size()).map(|offset| code.get_byte(offset).unwrap()).collect();
    assert_eq!(
        bytes,
        vec![
            OP_CONSTANT, 0, OP_DEF_GLOBAL, 1, OP_GET_GLOBAL, 3, OP_SET_GLOBAL, 2, OP_POP, OP_NIL,
            OP_DEF_GLOBAL, 4, OP_RETURN,
        ]
    );
    let x = heap.intern_string(EcoString::from("x"));
    let y = heap.intern_string(EcoString::from("y"));
    assert_eq!(code.get_constant(1), Some(&Value::Object(x)));
    assert_eq!(code.get_constant(2), Some(&Value::Object(x)));
    assert_eq!(code.get_constant(3), Some(&Value::Object(x)));
    assert_eq!(code.get_constant(4), Some(&Value::Object(y)));
    assert_eq!(code.constant_count(), 5);
    assert_eq!(heap.live_count(), 2);
}

#[test]
fn assignment_associates_to_the_right() {
    assert_eq!(
        code_of("a = b = 1;"),
        vec![OP_CONSTANT, 2, OP_SET_GLOBAL, 1, OP_SET_GLOBAL, 0, OP_POP, OP_RETURN]
    );
}

#[test]
fn locals_are_slots_in_the_order_of_their_declaration() {
    assert_eq!(
        code_of("{ let a = 1; let b = a; print b; b = a; }"),
        vec![
            OP_CONSTANT, 0, OP_GET_LOCAL, 0, OP_GET_LOCAL, 1, OP_PRINT, OP_GET_LOCAL, 0,
            OP_SET_LOCAL, 1, OP_POP, OP_POP, OP_POP, OP_RETURN,
        ]
    );
}

#[test]
fn a_block_pops_its_locals_and_no_others() {
    assert_eq!(code_of("{ }"), vec![OP_RETURN]);
    assert_eq!(code_of("{ let a; }"), vec![OP_NIL, OP_POP, OP_RETURN]);
    assert_eq!(
        code_of("{ let a; { let b; let c; } let d; }"),
        vec![OP_NIL, OP_NIL, OP_NIL, OP_POP, OP_POP, OP_NIL, OP_POP, OP_POP, OP_RETURN]
    );
    assert_eq!(
        code_of("{ let a; let a; print a; }"),
        vec![OP_NIL, OP_NIL, OP_GET_LOCAL, 1, OP_PRINT, OP_POP, OP_POP, OP_RETURN]
    );
}

#[test]
fn running_a_block_leaves_the_stack_as_deep_as_it_was() {
    for source in [
        "{ let a = 1; let b = 2; { let c = a + b; print c; } }",
        "let g = 1; { let a = g; { let b = a; } { let c = a; let d = c; } }",
        "{ let a = 1; if a < 2 { print a; } else { a = 2; } { let b = a; } }",
        "{ let a = 1; if a < 2 { let b = a; print b; } else { let c = 2; } }",
        "1; 2; { 3; let x = 4; x; }",
    ] {
        let (result, code, mut heap) = compile(source);
        assert_eq!(result, Ok(()), "{}", source);
        let mut vm = VM::init(&code, &mut heap);
        assert_eq!(vm.run(&arithmetic), Ok(()), "{}", source);
        assert!(vm.stack().is_empty(), "{}", source);
    }
}

#[test]
fn the_blocks_of_an_if_have_a_scope_of_their_own() {
    assert_eq!(
        code_of("{ if true { let a; } }"),
        vec![
            OP_TRUE, OP_JUMP_F, 0, 6, OP_POP, OP_NIL, OP_POP, OP_JUMP, 0, 1, OP_POP, OP_RETURN
        ]
    );
    assert_eq!(
        code_of("if true { let a; } else { let b; let c; }"),
        vec![
            OP_TRUE, OP_JUMP_F, 0, 6, OP_POP, OP_NIL, OP_POP, OP_JUMP, 0, 5, OP_POP, OP_NIL,
            OP_NIL, OP_POP, OP_POP, OP_RETURN,
        ]
    );
    for (condition, printed) in [("false", 2.0f64), ("true", 2.0)] {
        let source = format!("{{ if {} {{ let x = 1; }} let y = 2; print y; }}", condition);
        let (result, code, mut heap) = compile(&source);
        assert_eq!(result, Ok(()));
        let mut vm = VM::init(&code, &mut heap);
        assert_eq!(vm.run(&arithmetic), Ok(()), "{}", source);
        assert_eq!(
            vm.output(),
            &vec![game_lang::bytecode::value::Printed::Number(printed.to_bits())]
        );
        assert!(vm.stack().is_empty());
    }
}

#[test]
fn a_local_of_an_if_block_is_gone_behind_it() {
    let (result, code, mut heap) = compile("if true { let a = 1; print a; } print a;");
    assert_eq!(result, Ok(()));
    let mut vm = VM::init(&code, &mut heap);
    assert_eq!(
        vm.run(&arithmetic),
        Err(game_lang::bytecode::vm::RuntimeError::HeapError(
            game_lang::bytecode::object::HeapError::GlobalVariableNotFound
        ))
    );
    assert_eq!(
        vm.output(),
        &vec![game_lang::bytecode::value::Printed::Number(1.0f64.to_bits())]
    );
}

#[test]
fn an_if_jumps_over_the_branch_that_is_not_taken() {
    assert_eq!(
        code_of("if true { print 1; } else { print 2; }"),
        vec![
            OP_TRUE, OP_JUMP_F, 0, 7, OP_POP, OP_CONSTANT, 0, OP_PRINT, OP_JUMP, 0, 4, OP_POP,
            OP_CONSTANT, 1, OP_PRINT, OP_RETURN,
        ]
    );
    assert_eq!(
        code_of("if nil { }"),
        vec![OP_NIL, OP_JUMP_F, 0, 4, OP_POP, OP_JUMP, 0, 1, OP_POP, OP_RETURN]
    );
}

#[test]
fn a_jump_covers_at_most_what_two_bytes_count() {
    let body = |statements: usize| format!("if true {{ {} }}", "nil;".repeat(statements));
    let (result, code, _) = compile(&body(32765));
    assert_eq!(result, Ok(()));
    assert_eq!(code.get_byte(2), Some(0xFF));
    assert_eq!(code.get_byte(3), Some(0xFE));
    let errors = errors_of(&body(32766));
    assert_eq!(errors.len(), 1);
    assert_eq!(errors[0].0, "jump too long");
}

#[test]
fn blocks_nest_as_deep_as_a_byte_counts() {
    let nested = |depth: usize| format!("{}{}", "{".repeat(depth), "}".repeat(depth));
    assert_eq!(code_of(&nested(255)), vec![OP_RETURN]);
    let errors = errors_of(&nested(256));
    assert_eq!(errors[0], error("too many nested scopes", 255..256));
}

#[test]
fn a_missing_semicolon_is_reported() {
    assert_eq!(errors_of("print 1"), vec![error("Expected Some(Semicolon), got None", 7..7)]);
    assert_eq!(
        errors_of("print 1 print 2;"),
        vec![error("Expected Some(Semicolon), got Some(Print)", 8..13)]
    );
    assert_eq!(
        errors_of("let x = 1 }"),
        vec![error("Expected Some(Semicolon), got Some(BraceClose)", 10..11)]
    );
}

#[test]
fn a_token_that_starts_no_expression_is_reported() {
    assert_eq!(errors_of("print ;"), vec![error("Unexpected token: Some(Semicolon)", 6..7)]);
    assert_eq!(errors_of("print * 2;"), vec![error("Unexpected token: Some(Mul)", 6..7)]);
    assert_eq!(errors_of("print"), vec![error("Expected expression", 5..5)]);
    assert_eq!(errors_of("1 +"), vec![error("Expected expression", 3..3)]);
}

#[test]
fn a_missing_token_is_reported() {
    assert_eq!(
        errors_of("let 1 = 2;"),
        vec![error("Expected Some(Identifier), got Some(Number)", 4..5)]
    );
    assert_eq!(errors_of("let"), vec![error("Expected Some(Identifier), got None", 3..3)]);
    assert_eq!(
        errors_of("(1 + 2;"),
        vec![error("Expected Some(ParenClose), got Some(Semicolon)", 6..7)]
    );
    assert_eq!(
        errors_of("if true print 1;"),
        vec![error("Expected Some(BraceOpen), got Some(Print)", 8..13)]
    );
    assert_eq!(errors_of("{ print 1;"), vec![error("Expected Some(BraceClose), got None", 10..10)]);
}

#[test]
fn a_character_that_starts_no_token_is_a_lex_error() {
    assert_eq!(errors_of("print $;"), vec![error("lex error", 6..7)]);
    assert_eq!(errors_of("print 1 € 2;"), vec![error("lex error", 8..11)]);
    assert_eq!(errors_of("let # = 1;"), vec![error("lex error", 4..5)]);
    assert_eq!(errors_of("\"open"), vec![error("lex error", 0..1)]);
}

#[test]
fn only_a_variable_can_be_assigned_to() {
    assert_eq!(errors_of("1 = 2;"), vec![error("invalid assignment target", 2..3)]);
    assert_eq!(errors_of("a + b = 3;"), vec![error("invalid assignment target", 6..7)]);
    assert_eq!(errors_of("(a) = 3;"), vec![error("invalid assignment target", 4..5)]);
    assert_eq!(errors_of("-a = 3;"), vec![error("invalid assignment target", 3..4)]);
    assert_eq!(errors_of("\"s\" = 3;"), vec![error("invalid assignment target", 4..5)]);
}

#[test]
fn the_compiler_goes_on_behind_an_error() {
    assert_eq!(
        errors_of("print ; print 1; print );"),
        vec![
            error("Unexpected token: Some(Semicolon)", 6..7),
            error("Unexpected token: Some(ParenClose)", 23..24),
        ]
    );
    assert_eq!(
        errors_of("1 2 3 let x = ; print x"),
        vec![
            error("Expected Some(Semicolon), got Some(Number)", 2..3),
            error("Unexpected token: Some(Semicolon)", 14..15),
            error("Expected Some(Semicolon), got None", 23..23),
        ]
    );
}

#[test]
fn a_source_with_errors_gets_no_halt() {
    let (result, code, _) = compile("print 1; print ;");
    assert!(result.is_err());
    assert_ne!(code.get_byte(code.size() - 1), Some(OP_RETURN));
}

#[test]
fn reserved_words_are_rejected() {
    for (word, token) in [
        ("class", Token::Class),
        ("fn", Token::Fn),
        ("for", Token::For),
        ("while", Token::While),
        ("return", Token::Return),
        ("this", Token::This),
        ("super", Token::Super),
        ("else", Token::Else),
    ] {
        let errors = errors_of(word);
        assert_eq!(
            errors,
            vec![error(&format!("Unexpected token: Some({:?})", token), 0..word.len())],
            "{}",
            word
        );
    }
    assert_eq!(errors_of("class class class").len(), 3);
    assert_eq!(
        errors_of("class ; print 1;"),
        vec![
            error("Unexpected token: Some(Class)", 0..5),
            error("Unexpected token: Some(Semicolon)", 6..7),
        ]
    );
    assert_eq!(errors_of("while true { print 1; }").len(), 3);
}

#[test]
fn the_pool_overflows_behind_its_last_constant() {
    let source = format!("{} x;", "1;".repeat(256));
    let errors = errors_of(&source);
    assert_eq!(errors, vec![error("constant-pool overflow", 513..514)]);
    let source = format!("{} \"s\"; let y; 2;", "1;".repeat(256));
    let errors = errors_of(&source);
    assert_eq!(
        errors.iter().map(|e| e.0.as_str()).collect::<Vec<_>>(),
        vec!["constant-pool overflow"; 3]
    );
}

#[test]
fn compiling_adds_to_the_chunk_it_is_given() {
    let mut code = CodeChunk::new();
    let mut heap = ObjectHeap::new();
    code.push_constant(Value::Nil);
    code.push_code(OP_NIL);
    code.push_code(OP_POP);
    Parser::parse_source("print 5;", &mut code, &mut heap, &read_number).unwrap();
    let bytes: Vec<u8> = (0..code.size()).map(|offset| code.get_byte(offset).unwrap()).collect();
    assert_eq!(bytes, vec![OP_NIL, OP_POP, OP_CONSTANT, 1, OP_PRINT, OP_RETURN]);
    assert_eq!(code.get_constant(0), Some(&Value::Nil));
    assert_eq!(code.get_constant(1), Some(&Value::Number(5.0f64.to_bits())));
}

#[test]
fn every_error_is_about_bytes_of_the_source() {
    for source in [
        "print",
        "print 1 +",
        "let",
        "{ print 1;",
        "1 = 2; ) ( $ \"open",
        "if true { let = ; } else",
        "class fn € 12 12",
    ] {
        let errors = errors_of(source);
        assert!(!errors.is_empty(), "{}", source);
        for (_, span) in errors {
            assert!(span.start <= span.end && span.end <= source.len(), "{}", source);
        }
    }
}

#[test]
fn every_span_lies_within_the_source() {
    for source in [
        "print 1 + 2 * 3;",
        "let x = 10; x = x + 5; print x;",
        "if 1 < 2 { print \"yes\"; } else { print \"no\"; }",
        "let été = \"né\"; { let y = été; }",
        "print 1 + ; let = ; $",
    ] {
        let (_, code, _) = compile(source);
        for offset in 0..code.size() + 2 {
            let span = &code.find_span_of(offset).1;
            assert!(span.start <= span.end && span.end <= source.len(), "{}", source);
        }
    }
}

#[test]
fn a_table_of_locals_finds_the_last_declaration() {
    let mut locals = Locals::new();
    assert_eq!(locals.depth(), 0);
    assert_eq!(locals.find_local("a"), None);
    assert!(locals.push_local(EcoString::from("a")));
    assert!(locals.push_local(EcoString::from("b")));
    assert_eq!(locals.find_local("a"), Some(0));
    assert_eq!(locals.find_local("b"), Some(1));
    locals.enter_scope();
    assert_eq!(locals.depth(), 1);
    assert!(locals.push_local(EcoString::from("a")));
    assert_eq!(locals.find_local("a"), Some(2));
    assert_eq!(locals.find_local("b"), Some(1));
    assert_eq!(locals.find_local("c"), None);
    assert_eq!(locals.find_local(""), None);
    assert_eq!(locals.exit_scope(), 1);
    assert_eq!(locals.depth(), 0);
    assert_eq!(locals.find_local("a"), Some(0));
    let fresh = Locals::default();
    assert_eq!(fresh.depth(), 0);
}

#[test]
fn leaving_a_scope_drops_its_locals() {
    let mut locals = Locals::new();
    locals.enter_scope();
    assert_eq!(locals.exit_scope(), 0);
    locals.enter_scope();
    locals.push_local(EcoString::from("a"));
    locals.enter_scope();
    locals.push_local(EcoString::from("b"));
    locals.push_local(EcoString::from("c"));
    locals.enter_scope();
    assert_eq!(locals.exit_scope(), 0);
    assert_eq!(locals.find_local("c"), Some(2));
    assert_eq!(locals.exit_scope(), 2);
    assert_eq!(locals.find_local("c"), None);
    assert_eq!(locals.find_local("a"), Some(0));
    assert_eq!(locals.exit_scope(), 1);
    assert_eq!(locals.find_local("a"), None);
    assert_eq!(locals.depth(), 0);
}

#[test]
fn a_table_of_locals_is_full_at_its_limit() {
    let mut locals = Locals::new();
    locals.enter_scope();
    for i in 0..MAX_LOCALS {
        assert!(!locals.is_full());
        assert!(locals.push_local(EcoString::from(format!("v{}", i))), "local {}", i);
    }
    assert!(locals.is_full());
    assert!(!locals.push_local(EcoString::from("one_more")));
    assert_eq!(locals.find_local("one_more"), None);
    assert_eq!(locals.find_local("v255"), Some(255));
    assert_eq!(locals.find_local("v0"), Some(0));
    assert_eq!(locals.exit_scope(), 256);
}

#[test]
fn an_error_kind_has_a_span_and_a_message() {
    let error: ParserError = ParserErrorKind::WrongAssignment.with_span(3..4);
    assert_eq!(error.kind, ParserErrorKind::WrongAssignment);
    assert_eq!(error.span, 3..4);
    assert_eq!(error.clone(), error);
    let reported = ParsingError::of(error);
    assert_eq!(reported.msg, "invalid assignment target");
    assert_eq!(reported.span, 3..4);
    assert_eq!(reported.clone(), reported);

    let messages = [
        (ParserErrorKind::EndOfInput, "Expected expression"),
        (
            ParserErrorKind::UnexpectedToken { expected: Token::Semicolon, found: None },
            "Expected Some(Semicolon), got None",
        ),
        (
            ParserErrorKind::UnexpectedToken {
                expected: Token::BraceClose,
                found: Some(Token::Let),
            },
            "Expected Some(BraceClose), got Some(Let)",
        ),
        (
            ParserErrorKind::UnexpectedNotPrefixOp { found: Token::Comma },
            "Unexpected token: Some(Comma)",
        ),
        (ParserErrorKind::WrongAssignment, "invalid assignment target"),
        (ParserErrorKind::LexerError, "lex error"),
        (ParserErrorKind::JumpTooLong, "jump too long"),
        (ParserErrorKind::ConstantPoolOverflow, "constant-pool overflow"),
        (ParserErrorKind::ScopeOverflow, "too many nested scopes"),
        (ParserErrorKind::LocalsOverflow, "too many locals"),
        (ParserErrorKind::HeapExhausted, "no room on the heap"),
    ];
    for (kind, message) in messages {
        assert_eq!(kind.message(), message);
    }
    let at = ParsingError::at(1..2, "text".to_string());
    assert_eq!((at.msg.as_str(), at.span.clone()), ("text", 1..2));
}

#[test]
fn a_local_declared_in_a_branch_is_popped_on_its_way() {
    for source in [
        "{ if true { let a; } }",
        "{ if false { let a; } }",
        "{ let o = 1; if o < 2 { let a = o; print a; } else { let b = 2; let c = b; } print o; }",
        "{ let o = 3; if o < 2 { let a = o; print a; } else { let b = 2; let c = b; } print o; }",
    ] {
        let (result, code, mut heap) = compile(source);
        assert_eq!(result, Ok(()), "{}", source);
        let mut vm = VM::init(&code, &mut heap);
        assert_eq!(vm.run(&arithmetic), Ok(()), "{}", source);
        assert!(vm.stack().is_empty(), "{}", source);
    }
}

#[test]
fn the_table_of_locals_takes_no_local_beyond_its_limit() {
    let lets = |count: usize| format!("{{ {} }}", "let v;".repeat(count));
    let (result, code, mut heap) = compile(&lets(256));
    assert_eq!(result, Ok(()));
    let mut vm = VM::init(&code, &mut heap);
    assert_eq!(vm.run(&arithmetic), Ok(()));
    assert!(vm.stack().is_empty());

    let source = lets(257);
    let errors = errors_of(&source);
    assert_eq!(errors[0], error("too many locals", 2 + 256 * 6 + 5..2 + 256 * 6 + 6));
}

#[test]
fn a_program_that_runs_to_its_end_leaves_the_stack_empty() {
    for source in [
        "",
        "print 1 + 2 * 3;",
        "let x = 10; x = x + 5; print x;",
        "let x = 1; { let x = 2; print x; } print x;",
        "if 1 < 2 { print \"yes\"; } else { print \"no\"; }",
        "{ let a = 1; { let b = a + 1; if b > a { print b; } else { print a; } } }",
        "{ let a; let b; { let c; } if a == b { a = 1; } else { b = 2; } }",
        "1; true; nil; \"s\"; -1; !false;",
    ] {
        let (result, code, mut heap) = compile(source);
        assert_eq!(result, Ok(()), "{}", source);
        let mut vm = VM::init(&code, &mut heap);
        assert_eq!(vm.run(&arithmetic), Ok(()), "{}", source);
        assert!(vm.stack().is_empty(), "{}", source);
    }
}
