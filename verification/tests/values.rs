use ecow::EcoString;
use game_lang::bytecode::number::NumberOp;
use game_lang::bytecode::object::{HeapError, ObjectHeap};
use game_lang::bytecode::value::{Printed, Value, ValueError};

fn num(x: f64) -> Value {
    Value::Number(x.to_bits())
}

fn arithmetic(op: NumberOp, a: u64, b: u64) -> u64 {
    let (a, b) = (f64::from_bits(a), f64::from_bits(b));
    let r = match op {
        NumberOp::Add => a + b,
        NumberOp::Sub => a - b,
        NumberOp::Mul => a * b,
        NumberOp::Div => a / b,
    };
    r.to_bits()
}

const UNSUPPORTED: Result<Value, ValueError> = Err(ValueError::UnSupportedOperation);

#[test]
fn nil_and_false_are_falsey() {
    assert!(Value::Nil.is_falsey());
    assert!(Value::Bool(false).is_falsey());
    assert!(!Value::Bool(true).is_falsey());
    assert!(!num(0.0).is_falsey());
    assert!(!num(f64::NAN).is_falsey());
    let mut heap = ObjectHeap::new();
    let empty = heap.intern_string(EcoString::from(""));
    assert!(!Value::Object(empty).is_falsey());
}

#[test]
fn neg_negates_numbers_only() {
    let mut heap = ObjectHeap::new();
    assert_eq!(num(3.0).neg(&mut heap), Ok(num(-3.0)));
    assert_eq!(num(-0.5).neg(&mut heap), Ok(num(0.5)));
    assert_eq!(num(0.0).neg(&mut heap), Ok(num(-0.0)));
    assert_eq!(Value::Bool(true).neg(&mut heap), UNSUPPORTED);
    assert_eq!(Value::Nil.neg(&mut heap), UNSUPPORTED);
    let key = heap.intern_string(EcoString::from("s"));
    assert_eq!(Value::Object(key).neg(&mut heap), UNSUPPORTED);
}

#[test]
fn not_negates_booleans_and_nil() {
    let mut heap = ObjectHeap::new();
    assert_eq!(Value::Bool(true).not(&mut heap), Ok(Value::Bool(false)));
    assert_eq!(Value::Bool(false).not(&mut heap), Ok(Value::Bool(true)));
    assert_eq!(Value::Nil.not(&mut heap), Ok(Value::Bool(true)));
    assert_eq!(num(1.0).not(&mut heap), UNSUPPORTED);
}

#[test]
fn arithmetic_is_on_numbers() {
    let mut heap = ObjectHeap::new();
    assert_eq!(num(1.5).add(&num(2.25), &mut heap, &arithmetic), Ok(num(3.75)));
    assert_eq!(num(1.5).sub(&num(2.25), &mut heap, &arithmetic), Ok(num(-0.75)));
    assert_eq!(num(1.5).mul(&num(2.0), &mut heap, &arithmetic), Ok(num(3.0)));
    assert_eq!(num(1.0).div(&num(4.0), &mut heap, &arithmetic), Ok(num(0.25)));
    assert_eq!(num(1.0).div(&num(0.0), &mut heap, &arithmetic), Ok(num(f64::INFINITY)));
    assert_eq!(num(1.0).sub(&Value::Nil, &mut heap, &arithmetic), UNSUPPORTED);
    assert_eq!(Value::Bool(true).mul(&num(1.0), &mut heap, &arithmetic), UNSUPPORTED);
    assert_eq!(Value::Nil.div(&Value::Nil, &mut heap, &arithmetic), UNSUPPORTED);
    assert_eq!(Value::Nil.add(&num(1.0), &mut heap, &arithmetic), UNSUPPORTED);
    assert_eq!(heap.live_count(), 0);
}

#[test]
fn arithmetic_asks_the_function_it_is_given() {
    let mut heap = ObjectHeap::new();
    let tag = |op: NumberOp, a: u64, b: u64| -> u64 {
        let code = match op {
            NumberOp::Add => 1,
            NumberOp::Sub => 2,
            NumberOp::Mul => 3,
            NumberOp::Div => 4,
        };
        code * 10000 + a * 100 + b
    };
    let (a, b) = (Value::Number(7), Value::Number(9));
    assert_eq!(a.add(&b, &mut heap, &tag), Ok(Value::Number(10709)));
    assert_eq!(a.sub(&b, &mut heap, &tag), Ok(Value::Number(20709)));
    assert_eq!(a.mul(&b, &mut heap, &tag), Ok(Value::Number(30709)));
    assert_eq!(a.div(&b, &mut heap, &tag), Ok(Value::Number(40709)));
    assert_eq!(a.checked_add(&b, &mut heap, &tag), Some(Ok(Value::Number(10709))));
}

#[test]
fn adding_strings_interns_the_joined_text() {
    let mut heap = ObjectHeap::new();
    let foo = heap.intern_string(EcoString::from("foo"));
    let bar = heap.intern_string(EcoString::from("bar"));
    let sum = Value::Object(foo).add(&Value::Object(bar), &mut heap, &arithmetic).unwrap();
    let Value::Object(key) = sum else { panic!("not an object: {:?}", sum) };
    assert_eq!(heap.get_object(key).unwrap().as_str(), "foobar");
    assert_eq!(heap.live_count(), 3);
    assert_eq!(heap.intern_string(EcoString::from("foobar")), key);
    let again = Value::Object(foo).add(&Value::Object(bar), &mut heap, &arithmetic);
    assert_eq!(again, Ok(Value::Object(key)));
    assert_eq!(heap.live_count(), 3);
    let other = Value::Object(bar).add(&Value::Object(foo), &mut heap, &arithmetic).unwrap();
    assert_ne!(other, Value::Object(key));
    assert_eq!(heap.get_object(foo).unwrap().as_str(), "foo");
    assert_eq!(heap.get_object(bar).unwrap().as_str(), "bar");
    assert_eq!(
        Value::Object(foo).checked_add(&Value::Object(bar), &mut heap, &arithmetic),
        Some(Ok(Value::Object(key)))
    );
}

#[test]
fn adding_an_object_that_is_not_on_the_heap_fails() {
    let mut elsewhere = ObjectHeap::new();
    let foreign = elsewhere.intern_string(EcoString::from("x"));
    let mut heap = ObjectHeap::new();
    let missing = Err(ValueError::HeapError(HeapError::ObjectNotFound));
    assert_eq!(Value::Object(foreign).add(&Value::Object(foreign), &mut heap, &arithmetic), missing);
    let mut heap = ObjectHeap::new();
    let mut other = ObjectHeap::new();
    other.intern_string(EcoString::from("pad"));
    let far = other.intern_string(EcoString::from("far"));
    let here = heap.intern_string(EcoString::from("here"));
    assert_eq!(Value::Object(here).add(&Value::Object(far), &mut heap, &arithmetic), missing);
    assert_eq!(Value::Object(far).add(&Value::Object(here), &mut heap, &arithmetic), missing);
    assert_eq!(Value::Object(here).add(&num(1.0), &mut heap, &arithmetic), UNSUPPORTED);
    assert_eq!(heap.live_count(), 1);
}

#[test]
fn and_and_or_are_on_booleans() {
    let mut heap = ObjectHeap::new();
    for a in [false, true] {
        for b in [false, true] {
            assert_eq!(
                Value::Bool(a).and(&Value::Bool(b), &mut heap),
                Ok(Value::Bool(a && b))
            );
            assert_eq!(Value::Bool(a).or(&Value::Bool(b), &mut heap), Ok(Value::Bool(a || b)));
        }
    }
    assert_eq!(Value::Bool(true).and(&Value::Nil, &mut heap), UNSUPPORTED);
    assert_eq!(Value::Nil.or(&Value::Bool(true), &mut heap), UNSUPPORTED);
    assert_eq!(num(1.0).and(&num(1.0), &mut heap), UNSUPPORTED);
}

#[test]
fn equal_compares_values_of_one_variant() {
    let mut heap = ObjectHeap::new();
    let a = heap.intern_string(EcoString::from("a"));
    let b = heap.intern_string(EcoString::from("b"));
    let yes = Ok(Value::Bool(true));
    let no = Ok(Value::Bool(false));
    assert_eq!(Value::Nil.equal(&Value::Nil, &mut heap), yes);
    assert_eq!(Value::Bool(true).equal(&Value::Bool(true), &mut heap), yes);
    assert_eq!(Value::Bool(true).equal(&Value::Bool(false), &mut heap), no);
    assert_eq!(num(2.0).equal(&num(2.0), &mut heap), yes);
    assert_eq!(num(2.0).equal(&num(2.5), &mut heap), no);
    assert_eq!(num(0.0).equal(&num(-0.0), &mut heap), yes);
    assert_eq!(num(f64::NAN).equal(&num(f64::NAN), &mut heap), no);
    assert_eq!(Value::Object(a).equal(&Value::Object(a), &mut heap), yes);
    assert_eq!(Value::Object(a).equal(&Value::Object(b), &mut heap), no);
}

#[test]
fn equal_does_not_compare_across_variants() {
    let mut heap = ObjectHeap::new();
    let a = heap.intern_string(EcoString::from("1"));
    assert_eq!(Value::Nil.equal(&Value::Bool(false), &mut heap), UNSUPPORTED);
    assert_eq!(num(1.0).equal(&Value::Bool(true), &mut heap), UNSUPPORTED);
    assert_eq!(num(1.0).equal(&Value::Object(a), &mut heap), UNSUPPORTED);
    assert_eq!(Value::Object(a).equal(&Value::Nil, &mut heap), UNSUPPORTED);
}

#[test]
fn less_and_greater_are_on_numbers() {
    let mut heap = ObjectHeap::new();
    let yes = Ok(Value::Bool(true));
    let no = Ok(Value::Bool(false));
    assert_eq!(num(1.0).less(&num(2.0), &mut heap), yes);
    assert_eq!(num(2.0).less(&num(1.0), &mut heap), no);
    assert_eq!(num(2.0).less(&num(2.0), &mut heap), no);
    assert_eq!(num(1.0).greater(&num(2.0), &mut heap), no);
    assert_eq!(num(2.0).greater(&num(1.0), &mut heap), yes);
    assert_eq!(num(-1.0).greater(&num(-2.0), &mut heap), yes);
    assert_eq!(num(f64::NAN).greater(&num(1.0), &mut heap), no);
    assert_eq!(num(f64::NAN).less(&num(1.0), &mut heap), no);
    assert_eq!(Value::Bool(false).less(&Value::Bool(true), &mut heap), UNSUPPORTED);
    assert_eq!(Value::Nil.greater(&num(1.0), &mut heap), UNSUPPORTED);
}

#[test]
fn values_are_shown_with_the_heap() {
    let mut heap = ObjectHeap::new();
    let key = heap.intern_string(EcoString::from("text"));
    assert_eq!(Value::Nil.print_with_heap(&heap), Ok(Printed::Text("nil".to_string())));
    assert_eq!(Value::Bool(true).print_with_heap(&heap), Ok(Printed::Text("true".to_string())));
    assert_eq!(
        Value::Bool(false).print_with_heap(&heap),
        Ok(Printed::Text("false".to_string()))
    );
    assert_eq!(num(2.5).print_with_heap(&heap), Ok(Printed::Number(2.5f64.to_bits())));
    assert_eq!(Value::Object(key).print_with_heap(&heap), Ok(Printed::Text("text".to_string())));
    let empty = ObjectHeap::new();
    assert_eq!(Value::Object(key).print_with_heap(&empty), Err(HeapError::ObjectNotFound));
}

#[test]
fn an_error_of_the_heap_is_an_error_of_a_value() {
    assert_eq!(
        ValueError::from(HeapError::ObjectNotFound),
        ValueError::HeapError(HeapError::ObjectNotFound)
    );
    let converted: ValueError = HeapError::GlobalVariableNotFound.into();
    assert_eq!(converted, ValueError::HeapError(HeapError::GlobalVariableNotFound));
}

#[test]
fn a_value_is_cheap_to_copy() {
    assert!(std::mem::size_of::<Value>() <= 16);
    let value = num(1.0);
    let copy = value;
    assert_eq!(value, copy);
}
