use ecow::EcoString;
use game_lang::bytecode::object::{HeapError, Object, ObjectHeap, ObjectKind};
use game_lang::bytecode::value::Value;

fn text_of(heap: &ObjectHeap, key: game_lang::bytecode::object::ObjectKey) -> String {
    heap.get_object(key).unwrap().as_str().to_string()
}

#[test]
fn a_new_heap_is_empty() {
    let heap = ObjectHeap::new();
    assert_eq!(heap.live_count(), 0);
    assert_eq!(heap.dynamic_memory_used(), 0);
    let by_default = ObjectHeap::default();
    assert_eq!(by_default.live_count(), 0);
}

#[test]
fn interning_the_same_text_gives_the_same_key() {
    let mut heap = ObjectHeap::new();
    let first = heap.intern_string(EcoString::from("name"));
    let second = heap.intern_string(EcoString::from("name"));
    assert_eq!(first, second);
    assert_eq!(heap.live_count(), 1);
    assert_eq!(heap.dynamic_memory_used(), 4);
    assert_eq!(text_of(&heap, first), "name");
}

#[test]
fn interning_different_texts_gives_different_keys() {
    let mut heap = ObjectHeap::new();
    let a = heap.intern_string(EcoString::from("a"));
    let b = heap.intern_string(EcoString::from("b"));
    let empty = heap.intern_string(EcoString::from(""));
    let wide = heap.intern_string(EcoString::from("né"));
    assert_ne!(a, b);
    assert_ne!(a, empty);
    assert_ne!(b, wide);
    assert_eq!(heap.live_count(), 4);
    assert_eq!(heap.dynamic_memory_used(), 1 + 1 + 0 + 3);
    assert_eq!(text_of(&heap, a), "a");
    assert_eq!(text_of(&heap, b), "b");
    assert_eq!(text_of(&heap, empty), "");
    assert_eq!(text_of(&heap, wide), "né");
    assert_eq!(heap.intern_string(EcoString::from("b")), b);
    assert_eq!(heap.intern_string(EcoString::from("a")), a);
}

#[test]
fn an_interned_string_that_does_not_fit_inline_keeps_its_text() {
    let mut heap = ObjectHeap::new();
    let long = "a string that is much longer than fits into sixteen bytes";
    let key = heap.intern_string(EcoString::from(long));
    assert_eq!(text_of(&heap, key), long);
    assert_eq!(heap.intern_string(EcoString::from(long)), key);
    assert_eq!(heap.dynamic_memory_used(), long.len());
}

#[test]
fn can_intern_says_whether_there_is_room() {
    let mut heap = ObjectHeap::new();
    assert!(heap.can_intern(&EcoString::from("x")));
    heap.intern_string(EcoString::from("x"));
    assert!(heap.can_intern(&EcoString::from("x")));
    assert!(heap.can_intern(&EcoString::from("y")));
}

#[test]
fn allocated_objects_are_not_interned() {
    let mut heap = ObjectHeap::new();
    let first = heap.alloc_object(Object::new(ObjectKind::String(EcoString::from("same"))));
    let second = heap.alloc_object(Object::new(ObjectKind::String(EcoString::from("same"))));
    assert_ne!(first, second);
    assert_eq!(heap.live_count(), 2);
    assert_eq!(heap.dynamic_memory_used(), 8);
    let interned = heap.intern_string(EcoString::from("same"));
    assert_ne!(interned, first);
    assert_ne!(interned, second);
    assert_eq!(heap.live_count(), 3);
    assert_eq!(text_of(&heap, first), "same");
    assert_eq!(text_of(&heap, second), "same");
    match &heap.get_object(second).unwrap().kind {
        ObjectKind::String(text) => assert_eq!(text.as_str(), "same"),
    }
}

#[test]
fn a_key_of_another_heap_finds_no_object() {
    let mut elsewhere = ObjectHeap::new();
    let foreign = elsewhere.intern_string(EcoString::from("there"));
    let heap = ObjectHeap::new();
    assert_eq!(heap.get_object(foreign).err(), Some(HeapError::ObjectNotFound));
    assert_eq!(heap.get_global(foreign), Err(HeapError::GlobalVariableNotFound));
}

#[test]
fn globals_are_bound_and_bound_again() {
    let mut heap = ObjectHeap::new();
    let x = heap.intern_string(EcoString::from("x"));
    let y = heap.intern_string(EcoString::from("y"));
    assert_eq!(heap.get_global(x), Err(HeapError::GlobalVariableNotFound));
    heap.put_as_global(x, Value::Number(1.0f64.to_bits()));
    assert_eq!(heap.get_global(x), Ok(Value::Number(1.0f64.to_bits())));
    assert_eq!(heap.get_global(y), Err(HeapError::GlobalVariableNotFound));
    heap.put_as_global(x, Value::Bool(true));
    assert_eq!(heap.get_global(x), Ok(Value::Bool(true)));
    heap.put_as_global(y, Value::Object(x));
    assert_eq!(heap.get_global(y), Ok(Value::Object(x)));
    assert_eq!(heap.get_global(x), Ok(Value::Bool(true)));
    assert_eq!(heap.live_count(), 2);
}

#[test]
fn a_global_is_found_by_the_key_of_its_interned_name() {
    let mut heap = ObjectHeap::new();
    let key = heap.intern_string(EcoString::from("counter"));
    heap.put_as_global(key, Value::Nil);
    let again = heap.intern_string(EcoString::from("counter"));
    assert_eq!(heap.get_global(again), Ok(Value::Nil));
}
