//! Values of the language and the operations of the machine on them.

use super::number::{equal, less, negate, negated, number_eq, number_lt, NumberOp};
use super::object::{HeapError, HeapView, ObjectHeap, ObjectKey};
use super::store::{byte_len, eco_joined, MAX_TEXT, SLOT_LIMIT};
use vstd::prelude::*;
use vstd::std_specs::convert::FromSpecImpl;
use vstd::string::*;

verus! {

/// Why an operation on values failed.
#[derive(Debug, Clone, Copy, PartialEq, Eq, Structural)]
pub enum ValueError {
    UnSupportedOperation,
    HeapError(HeapError),
}

/// A value of the language. A number is held by its bit pattern.
#[derive(Debug, Clone, Copy, PartialEq, Eq, Structural)]
pub enum Value {
    Nil,
    Number(u64),
    Bool(bool),
    Object(ObjectKey),
}

/// What `print` shows of a value: its text, or, for a number, the number
/// itself, which the caller writes out in decimal.
#[derive(Debug, Clone, PartialEq, Eq)]
pub enum Printed {
    Text(String),
    Number(u64),
}

/// What a `Printed` holds.
pub enum PrintedView {
    Text(Seq<char>),
    Number(u64),
}

impl View for Printed {
    type V = PrintedView;

    open spec fn view(&self) -> PrintedView {
        match self {
            Printed::Text(s) => PrintedView::Text(s@),
            Printed::Number(bits) => PrintedView::Number(*bits),
        }
    }
}

impl DeepView for Printed {
    type V = PrintedView;

    open spec fn deep_view(&self) -> PrintedView {
        self@
    }
}

/// Whether `arith` accepts every operation on every pair of numbers.
pub open spec fn is_total<F: Fn(NumberOp, u64, u64) -> u64>(arith: &F) -> bool {
    forall|op: NumberOp, a: u64, b: u64| call_requires(arith, (op, a, b))
}

/// Whether a value counts as false in a condition.
pub open spec fn falsey(v: Value) -> bool {
    v == Value::Nil || v == Value::Bool(false)
}

/// The negation of a value: numbers only.
pub open spec fn neg_of(a: Value) -> Result<Value, ValueError> {
    match a {
        Value::Number(x) => Ok(Value::Number(negated(x))),
        _ => Err(ValueError::UnSupportedOperation),
    }
}

/// The logical negation of a value: of a boolean, or of nil, which gives
/// true.
pub open spec fn not_of(a: Value) -> Result<Value, ValueError> {
    match a {
        Value::Bool(x) => Ok(Value::Bool(!x)),
        Value::Nil => Ok(Value::Bool(true)),
        _ => Err(ValueError::UnSupportedOperation),
    }
}

/// The conjunction of two values: booleans only.
pub open spec fn and_of(a: Value, b: Value) -> Result<Value, ValueError> {
    match (a, b) {
        (Value::Bool(x), Value::Bool(y)) => Ok(Value::Bool(x && y)),
        _ => Err(ValueError::UnSupportedOperation),
    }
}

/// The disjunction of two values: booleans only.
pub open spec fn or_of(a: Value, b: Value) -> Result<Value, ValueError> {
    match (a, b) {
        (Value::Bool(x), Value::Bool(y)) => Ok(Value::Bool(x || y)),
        _ => Err(ValueError::UnSupportedOperation),
    }
}

/// Whether two values of one variant are equal: numbers by IEEE equality,
/// booleans by value, objects by key. Values of different variants are not
/// compared.
pub open spec fn equal_of(a: Value, b: Value) -> Result<Value, ValueError> {
    match (a, b) {
        (Value::Number(x), Value::Number(y)) => Ok(Value::Bool(number_eq(x, y))),
        (Value::Bool(x), Value::Bool(y)) => Ok(Value::Bool(x == y)),
        (Value::Nil, Value::Nil) => Ok(Value::Bool(true)),
        (Value::Object(x), Value::Object(y)) => Ok(Value::Bool(x == y)),
        _ => Err(ValueError::UnSupportedOperation),
    }
}

/// Whether `a` is greater than `b`: numbers only.
pub open spec fn greater_of(a: Value, b: Value) -> Result<Value, ValueError> {
    match (a, b) {
        (Value::Number(x), Value::Number(y)) => Ok(Value::Bool(number_lt(y, x))),
        _ => Err(ValueError::UnSupportedOperation),
    }
}

/// Whether `a` is less than `b`: numbers only.
pub open spec fn less_of(a: Value, b: Value) -> Result<Value, ValueError> {
    match (a, b) {
        (Value::Number(x), Value::Number(y)) => Ok(Value::Bool(number_lt(x, y))),
        _ => Err(ValueError::UnSupportedOperation),
    }
}

/// Whether `r` is a result of the arithmetic `op` on `a` and `b`: for two
/// numbers, a number that `arith` returns for them; for anything else, the
/// error.
pub open spec fn arith_post<F: Fn(NumberOp, u64, u64) -> u64>(
    arith: &F,
    op: NumberOp,
    a: Value,
    b: Value,
    r: Result<Value, ValueError>,
) -> bool {
    match (a, b) {
        (Value::Number(x), Value::Number(y)) => r matches Ok(Value::Number(z)) && call_ensures(
            arith,
            (op, x, y),
            z,
        ),
        _ => r == Err::<Value, ValueError>(ValueError::UnSupportedOperation),
    }
}

/// Whether both values are live objects of the heap.
pub open spec fn both_live(a: Value, b: Value, heap: HeapView) -> bool {
    a matches Value::Object(j) && b matches Value::Object(k) && heap.objects.contains_key(j.id())
        && heap.objects.contains_key(k.id())
}

/// The text of `a` followed by the text of `b`, for two live objects.
pub open spec fn joined_text(a: Value, b: Value, heap: HeapView) -> Seq<char> {
    heap.objects[a->Object_0.id()].text() + heap.objects[b->Object_0.id()].text()
}

/// Whether adding `a` and `b` finds no room: both are live objects, and
/// their joined text is longer than a string may be, or it is not interned
/// yet and the heap is full.
pub open spec fn add_lacks_room(a: Value, b: Value, heap: HeapView) -> bool {
    &&& both_live(a, b, heap)
    &&& {
        ||| byte_len(heap.objects[a->Object_0.id()].text()) + byte_len(
            heap.objects[b->Object_0.id()].text(),
        ) > MAX_TEXT
        ||| !heap.strings.contains_key(joined_text(a, b, heap)) && heap.objects.len()
            >= SLOT_LIMIT
    }
}

/// Whether `r` and `after` are a result of adding `a` and `b` on the heap
/// `before`. Two numbers give a number that `arith` returns for them. Two
/// live objects give the interned object of their joined text. Two objects
/// of which one is not live give the heap's error. Anything else is not
/// supported. Only interning changes the heap.
pub open spec fn add_post<F: Fn(NumberOp, u64, u64) -> u64>(
    arith: &F,
    a: Value,
    b: Value,
    before: HeapView,
    after: HeapView,
    r: Result<Value, ValueError>,
) -> bool {
    match (a, b) {
        (Value::Number(x), Value::Number(y)) => {
            &&& after == before
            &&& r matches Ok(Value::Number(z)) && call_ensures(arith, (NumberOp::Add, x, y), z)
        },
        (Value::Object(j), Value::Object(k)) => {
            if both_live(a, b, before) {
                r matches Ok(Value::Object(key)) && before.interns(
                    joined_text(a, b, before),
                    after,
                    key.id(),
                )
            } else {
                &&& after == before
                &&& r == Err::<Value, ValueError>(
                    ValueError::HeapError(HeapError::ObjectNotFound),
                )
            }
        },
        _ => {
            &&& after == before
            &&& r == Err::<Value, ValueError>(ValueError::UnSupportedOperation)
        },
    }
}

/// What is shown of a value: `nil`, `true` or `false`, the number, or the
/// text of a live string object.
pub open spec fn displayed(v: Value, heap: HeapView) -> Result<PrintedView, HeapError> {
    match v {
        Value::Nil => Ok(PrintedView::Text("nil"@)),
        Value::Bool(true) => Ok(PrintedView::Text("true"@)),
        Value::Bool(false) => Ok(PrintedView::Text("false"@)),
        Value::Number(bits) => Ok(PrintedView::Number(bits)),
        Value::Object(key) => if heap.objects.contains_key(key.id()) {
            Ok(PrintedView::Text(heap.objects[key.id()].text()))
        } else {
            Err(HeapError::ObjectNotFound)
        },
    }
}

fn arith_on<F: Fn(NumberOp, u64, u64) -> u64>(arith: &F, op: NumberOp, a: &Value, b: &Value) -> (r:
    Result<Value, ValueError>)
    requires
        is_total(arith),
    ensures
        arith_post(arith, op, *a, *b, r),
{
    match (a, b) {
        (Value::Number(x), Value::Number(y)) => Ok(Value::Number(arith(op, *x, *y))),
        _ => Err(ValueError::UnSupportedOperation),
    }
}

impl Value {
    pub fn is_falsey(&self) -> (r: bool)
        ensures
            r == falsey(*self),
    {
        match self {
            Value::Nil => true,
            Value::Bool(b) => !*b,
            _ => false,
        }
    }

    pub fn neg(&self, _heap: &mut ObjectHeap) -> (r: Result<Value, ValueError>)
        ensures
            r == neg_of(*self),
            *final(_heap) == *old(_heap),
    {
        match self {
            Value::Number(a) => Ok(Value::Number(negate(*a))),
            _ => Err(ValueError::UnSupportedOperation),
        }
    }

    /// Adds two numbers, or joins two strings into an interned string, for
    /// which the heap must have room.
    pub fn add<F: Fn(NumberOp, u64, u64) -> u64>(
        &self,
        other: &Self,
        heap: &mut ObjectHeap,
        arith: &F,
    ) -> (r: Result<Value, ValueError>)
        requires
            is_total(arith),
            old(heap).wf(),
            !add_lacks_room(*self, *other, old(heap)@),
        ensures
            final(heap).wf(),
            add_post(arith, *self, *other, old(heap)@, final(heap)@, r),
    {
        match self.checked_add(other, heap, arith) {
            Some(r) => r,
            None => {
                proof {
                    assert(false);
                }
                Err(ValueError::UnSupportedOperation)
            },
        }
    }

    /// As `add`, on any heap: where the heap has no room for the joined
    /// string, nothing is done and `None` is returned.
    pub fn checked_add<F: Fn(NumberOp, u64, u64) -> u64>(
        &self,
        other: &Self,
        heap: &mut ObjectHeap,
        arith: &F,
    ) -> (r: Option<Result<Value, ValueError>>)
        requires
            is_total(arith),
            old(heap).wf(),
        ensures
            final(heap).wf(),
            r is None <==> add_lacks_room(*self, *other, old(heap)@),
            r is None ==> final(heap)@ == old(heap)@,
            r matches Some(sum) ==> add_post(arith, *self, *other, old(heap)@, final(heap)@, sum),
    {
        match (self, other) {
            (Value::Object(a), Value::Object(b)) => {
                let first = match heap.get_object(*a) {
                    Ok(object) => object,
                    Err(e) => {
                        return Some(Err(ValueError::HeapError(e)));
                    },
                };
                let second = match heap.get_object(*b) {
                    Ok(object) => object,
                    Err(e) => {
                        return Some(Err(ValueError::HeapError(e)));
                    },
                };
                let head = first.as_str();
                let tail = second.as_str();
                if head.len() > MAX_TEXT || tail.len() > MAX_TEXT - head.len() {
                    return None;
                }
                let joined = eco_joined(head, tail);
                if !heap.can_intern(&joined) {
                    return None;
                }
                let key = heap.intern_string(joined);
                Some(Ok(Value::Object(key)))
            },
            _ => Some(arith_on(arith, NumberOp::Add, self, other)),
        }
    }

    pub fn sub<F: Fn(NumberOp, u64, u64) -> u64>(
        &self,
        other: &Self,
        _heap: &mut ObjectHeap,
        arith: &F,
    ) -> (r: Result<Value, ValueError>)
        requires
            is_total(arith),
        ensures
            arith_post(arith, NumberOp::Sub, *self, *other, r),
            *final(_heap) == *old(_heap),
    {
        arith_on(arith, NumberOp::Sub, self, other)
    }

    pub fn mul<F: Fn(NumberOp, u64, u64) -> u64>(
        &self,
        other: &Self,
        _heap: &mut ObjectHeap,
        arith: &F,
    ) -> (r: Result<Value, ValueError>)
        requires
            is_total(arith),
        ensures
            arith_post(arith, NumberOp::Mul, *self, *other, r),
            *final(_heap) == *old(_heap),
    {
        arith_on(arith, NumberOp::Mul, self, other)
    }

    pub fn div<F: Fn(NumberOp, u64, u64) -> u64>(
        &self,
        other: &Self,
        _heap: &mut ObjectHeap,
        arith: &F,
    ) -> (r: Result<Value, ValueError>)
        requires
            is_total(arith),
        ensures
            arith_post(arith, NumberOp::Div, *self, *other, r),
            *final(_heap) == *old(_heap),
    {
        arith_on(arith, NumberOp::Div, self, other)
    }

    pub fn not(&self, _heap: &mut ObjectHeap) -> (r: Result<Value, ValueError>)
        ensures
            r == not_of(*self),
            *final(_heap) == *old(_heap),
    {
        match self {
            Value::Bool(val) => Ok(Value::Bool(!*val)),
            Value::Nil => Ok(Value::Bool(true)),
            _ => Err(ValueError::UnSupportedOperation),
        }
    }

    pub fn and(&self, other: &Self, _heap: &mut ObjectHeap) -> (r: Result<Value, ValueError>)
        ensures
            r == and_of(*self, *other),
            *final(_heap) == *old(_heap),
    {
        match (self, other) {
            (Value::Bool(a), Value::Bool(b)) => Ok(Value::Bool(*a && *b)),
            _ => Err(ValueError::UnSupportedOperation),
        }
    }

    pub fn or(&self, other: &Self, _heap: &mut ObjectHeap) -> (r: Result<Value, ValueError>)
        ensures
            r == or_of(*self, *other),
            *final(_heap) == *old(_heap),
    {
        match (self, other) {
            (Value::Bool(a), Value::Bool(b)) => Ok(Value::Bool(*a || *b)),
            _ => Err(ValueError::UnSupportedOperation),
        }
    }

    pub fn equal(&self, other: &Self, _heap: &mut ObjectHeap) -> (r: Result<Value, ValueError>)
        ensures
            r == equal_of(*self, *other),
            *final(_heap) == *old(_heap),
    {
        match (self, other) {
            (Value::Number(a), Value::Number(b)) => Ok(Value::Bool(equal(*a, *b))),
            (Value::Bool(a), Value::Bool(b)) => Ok(Value::Bool(*a == *b)),
            (Value::Nil, Value::Nil) => Ok(Value::Bool(true)),
            (Value::Object(a), Value::Object(b)) => Ok(Value::Bool(*a == *b)),
            _ => Err(ValueError::UnSupportedOperation),
        }
    }

    pub fn greater(&self, other: &Self, _heap: &mut ObjectHeap) -> (r: Result<Value, ValueError>)
        ensures
            r == greater_of(*self, *other),
            *final(_heap) == *old(_heap),
    {
        match (self, other) {
            (Value::Number(a), Value::Number(b)) => Ok(Value::Bool(less(*b, *a))),
            _ => Err(ValueError::UnSupportedOperation),
        }
    }

    pub fn less(&self, other: &Self, _heap: &mut ObjectHeap) -> (r: Result<Value, ValueError>)
        ensures
            r == less_of(*self, *other),
            *final(_heap) == *old(_heap),
    {
        match (self, other) {
            (Value::Number(a), Value::Number(b)) => Ok(Value::Bool(less(*a, *b))),
            _ => Err(ValueError::UnSupportedOperation),
        }
    }

    /// What `print` shows of the value, with the text of an object taken
    /// from the heap.
    pub fn print_with_heap(&self, heap: &ObjectHeap) -> (r: Result<Printed, HeapError>)
        requires
            heap.wf(),
        ensures
            match displayed(*self, heap@) {
                Ok(shown) => r matches Ok(p) && p@ == shown,
                Err(e) => r == Err::<Printed, HeapError>(e),
            },
    {
        match self {
            Value::Nil => Ok(Printed::Text(String::from_str("nil"))),
            Value::Bool(true) => Ok(Printed::Text(String::from_str("true"))),
            Value::Bool(false) => Ok(Printed::Text(String::from_str("false"))),
            Value::Number(bits) => Ok(Printed::Number(*bits)),
            Value::Object(key) => match heap.get_object(*key) {
                Ok(object) => Ok(Printed::Text(String::from_str(object.as_str()))),
                Err(e) => Err(e),
            },
        }
    }
}

impl From<HeapError> for ValueError {
    fn from(value: HeapError) -> (r: Self) {
        Self::HeapError(value)
    }
}

impl FromSpecImpl<HeapError> for ValueError {
    open spec fn obeys_from_spec() -> bool {
        true
    }

    open spec fn from_spec(value: HeapError) -> Self {
        ValueError::HeapError(value)
    }
}

} // verus!
