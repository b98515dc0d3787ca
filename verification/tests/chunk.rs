use game_lang::bytecode::chunk::{CodeChunk, MAX_CONSTANTS};
use game_lang::bytecode::opcodes::{OP_CONSTANT, OP_JUMP, OP_NIL, OP_POP, OP_RETURN};
use game_lang::bytecode::value::Value;

#[test]
fn test() {
    let mut chunk = CodeChunk::new();
    chunk.push_span_info(0..10);
    let constant = chunk.push_constant(Value::Number(1.2f64.to_bits()));
    chunk.push_code(OP_CONSTANT);
    chunk.push_code(constant);
    chunk.push_span_info(10..20);
    chunk.push_code(OP_RETURN);
    println!("{chunk:?}");

    assert_eq!(constant, 0);
    assert_eq!(chunk.size(), 3);
    assert_eq!(chunk.get_byte(0), Some(OP_CONSTANT));
    assert_eq!(chunk.get_byte(1), Some(0));
    assert_eq!(chunk.get_byte(2), Some(OP_RETURN));
    assert_eq!(chunk.get_byte(3), None);
    assert_eq!(chunk.get_constant(0), Some(&Value::Number(1.2f64.to_bits())));
    assert_eq!(chunk.get_constant(1), None);
    assert_eq!(chunk.find_span_of(0), &(0, 0..10));
    assert_eq!(chunk.find_span_of(1), &(0, 0..10));
    assert_eq!(chunk.find_span_of(2), &(2, 10..20));
    assert_eq!(chunk.find_span_of(100), &(2, 10..20));
}

#[test]
fn an_empty_chunk_has_the_empty_span_everywhere() {
    let chunk = CodeChunk::new();
    assert_eq!(chunk.size(), 0);
    assert_eq!(chunk.constant_count(), 0);
    assert_eq!(chunk.get_byte(0), None);
    assert_eq!(chunk.get_constant(0), None);
    assert_eq!(chunk.find_span_of(0), &(0, 0..0));
    assert_eq!(chunk.find_span_of(usize::MAX), &(0, 0..0));
    let by_default = CodeChunk::default();
    assert_eq!(by_default.size(), 0);
    assert_eq!(by_default.find_span_of(7), &(0, 0..0));
}

#[test]
fn a_span_is_in_effect_up_to_the_next_entry() {
    let mut chunk = CodeChunk::new();
    for (at, span) in [(0usize, 1..2), (3, 4..6), (3, 6..9), (5, 10..11)] {
        while chunk.size() < at {
            chunk.push_code(OP_NIL);
        }
        chunk.push_span_info(span);
    }
    while chunk.size() < 8 {
        chunk.push_code(OP_POP);
    }
    let expected = [1..2, 1..2, 1..2, 6..9, 6..9, 10..11, 10..11, 10..11];
    for (offset, span) in expected.iter().enumerate() {
        assert_eq!(&chunk.find_span_of(offset).1, span, "at offset {}", offset);
    }
    assert_eq!(chunk.find_span_of(3).0, 3);
    assert_eq!(chunk.find_span_of(4).0, 3);
}

#[test]
fn patch_overwrites_one_byte() {
    let mut chunk = CodeChunk::new();
    chunk.push_code(OP_JUMP);
    chunk.push_code(0xFF);
    chunk.push_code(0xFF);
    chunk.patch(1, 0x01);
    chunk.patch(2, 0x02);
    assert_eq!(chunk.get_byte(0), Some(OP_JUMP));
    assert_eq!(chunk.get_byte(1), Some(0x01));
    assert_eq!(chunk.get_byte(2), Some(0x02));
    assert_eq!(chunk.size(), 3);
}

#[test]
fn the_pool_takes_as_many_constants_as_a_byte_can_name() {
    let mut chunk = CodeChunk::new();
    for i in 0..MAX_CONSTANTS {
        assert!(chunk.constant_count() < MAX_CONSTANTS);
        let index = chunk.push_constant(Value::Number(i as u64));
        assert_eq!(index as usize, i);
    }
    assert_eq!(chunk.constant_count(), 256);
    assert_eq!(chunk.get_constant(255), Some(&Value::Number(255)));
    assert_eq!(chunk.get_constant(256), None);
}

#[test]
fn a_clone_holds_the_same() {
    let mut chunk = CodeChunk::new();
    chunk.push_span_info(2..5);
    chunk.push_code(OP_NIL);
    chunk.push_constant(Value::Bool(true));
    let copy = chunk.clone();
    chunk.push_code(OP_POP);
    assert_eq!(copy.size(), 1);
    assert_eq!(copy.get_byte(0), Some(OP_NIL));
    assert_eq!(copy.get_constant(0), Some(&Value::Bool(true)));
    assert_eq!(copy.find_span_of(0), &(0, 2..5));
}
