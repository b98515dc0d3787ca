//! The virtual machine: a loop that fetches, decodes and executes the
//! instructions of a chunk over a stack of values and a shared heap.

use super::chunk::{ChunkView, CodeChunk};
use super::number::NumberOp;
use super::object::{HeapError, HeapView, ObjectHeap, ObjectKey};
use super::opcodes::{
    is_opcode, operand_width, stack_demand, stack_effect, OP_ADD, OP_AND, OP_CONSTANT,
    OP_DEF_GLOBAL, OP_DIV, OP_EQUAL, OP_FALSE, OP_GET_GLOBAL, OP_GET_LOCAL, OP_GREATER, OP_JUMP,
    OP_JUMP_F, OP_LESS, OP_MUL, OP_NEG, OP_NIL, OP_NOT, OP_OR, OP_POP, OP_PRINT, OP_RETURN,
    OP_SET_GLOBAL, OP_SET_LOCAL, OP_SUB, OP_TRUE,
};
use super::value::{
    add_lacks_room, add_post, and_of, arith_post, displayed, equal_of, falsey, greater_of, is_total,
    less_of, neg_of, not_of, or_of, Printed, PrintedView, Value, ValueError,
};
use std::ops::Range;
use vstd::prelude::*;
use vstd::std_specs::convert::FromSpecImpl;

verus! {

/// What a step asks of the loop that runs the machine.
#[derive(Debug, Clone, Copy, PartialEq, Eq, Structural)]
pub enum RuntimeStep {
    KeepGoing,
    Halt,
}

/// Why a step failed.
#[derive(Debug, Clone, Copy, PartialEq, Eq, Structural)]
pub enum RuntimeError {
    /// The heap has no room for the string that an addition joins.
    UnknownError,
    UnexpectedEnd,
    UnknownCode,
    ConstantNotFound,
    ConstantNotIdentifier,
    EmptyStack,
    HeapError(HeapError),
    ValueError(ValueError),
}

/// The error of a value as an error of the machine: an error of the heap
/// stays one.
pub open spec fn lifted(e: ValueError) -> RuntimeError {
    match e {
        ValueError::HeapError(h) => RuntimeError::HeapError(h),
        v => RuntimeError::ValueError(v),
    }
}

/// The state of a machine.
pub struct MachineView {
    /// The offset of the next byte to read.
    pub pc: usize,
    /// The value stack, the top last.
    pub stack: Seq<Value>,
    /// What has been printed, the oldest first.
    pub output: Seq<PrintedView>,
    /// The heap.
    pub heap: HeapView,
}

/// A state together with what a step returned.
pub struct Outcome {
    pub state: MachineView,
    pub result: Result<RuntimeStep, RuntimeError>,
}

/// `pc` advanced by `by` bytes. The counter stops at the largest offset;
/// no code reaches that far.
pub open spec fn bump(pc: usize, by: int) -> usize {
    if pc + by <= usize::MAX {
        (pc + by) as usize
    } else {
        usize::MAX
    }
}

impl MachineView {
    pub open spec fn at(self, pc: usize) -> MachineView {
        MachineView { pc, ..self }
    }

    pub open spec fn with_stack(self, stack: Seq<Value>) -> MachineView {
        MachineView { stack, ..self }
    }

    pub open spec fn with_heap(self, heap: HeapView) -> MachineView {
        MachineView { heap, ..self }
    }

    /// The state goes on to the next instruction.
    pub open spec fn proceeds(self) -> Outcome {
        Outcome { state: self, result: Ok(RuntimeStep::KeepGoing) }
    }

    /// The state stops with an error.
    pub open spec fn fails(self, e: RuntimeError) -> Outcome {
        Outcome { state: self, result: Err(e) }
    }

    /// Pushes a value and goes on.
    pub open spec fn pushes(self, v: Value) -> Outcome {
        self.with_stack(self.stack.push(v)).proceeds()
    }

    /// Reads one byte of code: the byte at `pc`, if the code reaches that
    /// far. `pc` moves on either way.
    pub open spec fn read_byte(self, code: ChunkView) -> (MachineView, Option<u8>) {
        (
            self.at(bump(self.pc, 1)),
            if self.pc < code.code.len() {
                Some(code.code[self.pc as int])
            } else {
                None
            },
        )
    }

    /// Reads two bytes of code as a big-endian number, if the code reaches
    /// that far. `pc` moves on by two either way.
    pub open spec fn read_word(self, code: ChunkView) -> (MachineView, Option<u16>) {
        (
            self.at(bump(self.pc, 2)),
            if self.pc + 1 < code.code.len() {
                Some((code.code[self.pc as int] * 256 + code.code[self.pc + 1]) as u16)
            } else {
                None
            },
        )
    }

    /// Reads the index of a constant and looks the constant up.
    pub open spec fn read_constant(self, code: ChunkView) -> (
        MachineView,
        Result<Value, RuntimeError>,
    ) {
        let (next, byte) = self.read_byte(code);
        (
            next,
            match byte {
                None => Err(RuntimeError::UnexpectedEnd),
                Some(index) => if index < code.constants.len() {
                    Ok(code.constants[index as int])
                } else {
                    Err(RuntimeError::ConstantNotFound)
                },
            },
        )
    }

    /// Reads a constant that has to be the key of a name.
    pub open spec fn read_identifier(self, code: ChunkView) -> (
        MachineView,
        Result<ObjectKey, RuntimeError>,
    ) {
        let (next, constant) = self.read_constant(code);
        (
            next,
            match constant {
                Err(e) => Err(e),
                Ok(Value::Object(key)) => Ok(key),
                Ok(_) => Err(RuntimeError::ConstantNotIdentifier),
            },
        )
    }

    /// Takes the top value off the stack.
    pub open spec fn pop(self) -> (MachineView, Result<Value, RuntimeError>) {
        if self.stack.len() == 0 {
            (self, Err(RuntimeError::EmptyStack))
        } else {
            (self.with_stack(self.stack.drop_last()), Ok(self.stack.last()))
        }
    }

    /// The top value of the stack.
    pub open spec fn top(self) -> Result<Value, RuntimeError> {
        if self.stack.len() == 0 {
            Err(RuntimeError::EmptyStack)
        } else {
            Ok(self.stack.last())
        }
    }

    /// CONSTANT: pushes the constant that the operand names.
    pub open spec fn constant(self, code: ChunkView) -> Outcome {
        let (next, constant) = self.read_constant(code);
        match constant {
            Err(e) => next.fails(e),
            Ok(v) => next.pushes(v),
        }
    }

    /// POP: discards the top value.
    pub open spec fn discard(self) -> Outcome {
        let (next, top) = self.pop();
        match top {
            Err(e) => next.fails(e),
            Ok(_) => next.proceeds(),
        }
    }

    /// PRINT: takes the top value off and adds what is shown of it to the
    /// output.
    pub open spec fn print(self) -> Outcome {
        let (next, top) = self.pop();
        match top {
            Err(e) => next.fails(e),
            Ok(v) => match displayed(v, self.heap) {
                Err(e) => next.fails(RuntimeError::HeapError(e)),
                Ok(shown) => MachineView { output: self.output.push(shown), ..next }.proceeds(),
            },
        }
    }

    /// NEG and NOT: replaces the top value by its negation.
    pub open spec fn unary(self, op: u8) -> Outcome {
        let (next, top) = self.pop();
        match top {
            Err(e) => next.fails(e),
            Ok(v) => match (if op == OP_NEG {
                neg_of(v)
            } else {
                not_of(v)
            }) {
                Err(e) => next.fails(lifted(e)),
                Ok(r) => next.pushes(r),
            },
        }
    }

    /// DEF_GLOBAL: takes the top value off and binds the global that the
    /// operand names to it. The name has to be a live object.
    pub open spec fn define_global(self, code: ChunkView) -> Outcome {
        let (next, identifier) = self.read_identifier(code);
        match identifier {
            Err(e) => next.fails(e),
            Ok(key) => {
                let (popped, top) = next.pop();
                match top {
                    Err(e) => popped.fails(e),
                    Ok(v) => if self.heap.objects.contains_key(key.id()) {
                        popped.with_heap(self.heap.bind(key.id(), v)).proceeds()
                    } else {
                        popped.fails(RuntimeError::HeapError(HeapError::ObjectNotFound))
                    },
                }
            },
        }
    }

    /// GET_GLOBAL: pushes the value of the global that the operand names.
    pub open spec fn get_global(self, code: ChunkView) -> Outcome {
        let (next, identifier) = self.read_identifier(code);
        match identifier {
            Err(e) => next.fails(e),
            Ok(key) => if self.heap.globals.contains_key(key.id()) {
                next.pushes(self.heap.globals[key.id()])
            } else {
                next.fails(RuntimeError::HeapError(HeapError::GlobalVariableNotFound))
            },
        }
    }

    /// SET_GLOBAL: binds the global that the operand names, which has to be
    /// bound already, to the top value. The value stays on the stack.
    pub open spec fn set_global(self, code: ChunkView) -> Outcome {
        let (next, identifier) = self.read_identifier(code);
        match identifier {
            Err(e) => next.fails(e),
            Ok(key) => if !self.heap.globals.contains_key(key.id()) {
                next.fails(RuntimeError::HeapError(HeapError::GlobalVariableNotFound))
            } else {
                match next.top() {
                    Err(e) => next.fails(e),
                    Ok(v) => next.with_heap(self.heap.bind(key.id(), v)).proceeds(),
                }
            },
        }
    }

    /// GET_LOCAL: pushes the value in the stack slot that the operand names.
    pub open spec fn get_local(self, code: ChunkView) -> Outcome {
        let (next, byte) = self.read_byte(code);
        match byte {
            None => next.fails(RuntimeError::UnexpectedEnd),
            Some(slot) => if slot < self.stack.len() {
                next.pushes(self.stack[slot as int])
            } else {
                next.fails(RuntimeError::EmptyStack)
            },
        }
    }

    /// SET_LOCAL: stores the top value in the stack slot that the operand
    /// names. The value stays on the stack.
    pub open spec fn set_local(self, code: ChunkView) -> Outcome {
        let (next, byte) = self.read_byte(code);
        match byte {
            None => next.fails(RuntimeError::UnexpectedEnd),
            Some(slot) => match next.top() {
                Err(e) => next.fails(e),
                Ok(v) => if slot < self.stack.len() {
                    next.with_stack(self.stack.update(slot as int, v)).proceeds()
                } else {
                    next.fails(RuntimeError::EmptyStack)
                },
            },
        }
    }

    /// JUMP: moves `pc` on by the operand, counted from behind the operand.
    pub open spec fn jump(self, code: ChunkView) -> Outcome {
        let (next, word) = self.read_word(code);
        match word {
            None => next.fails(RuntimeError::UnexpectedEnd),
            Some(distance) => next.at(bump(next.pc, distance as int)).proceeds(),
        }
    }

    /// JUMP_F: as JUMP, if the top value is falsey. The value stays on the
    /// stack.
    pub open spec fn jump_if_false(self, code: ChunkView) -> Outcome {
        let (next, word) = self.read_word(code);
        match word {
            None => next.fails(RuntimeError::UnexpectedEnd),
            Some(distance) => match next.top() {
                Err(e) => next.fails(e),
                Ok(v) => if falsey(v) {
                    next.at(bump(next.pc, distance as int)).proceeds()
                } else {
                    next.proceeds()
                },
            },
        }
    }

    /// Whether `after` with `value` is a result of the binary operation `op`
    /// on `a` and `b`, in the state `self` from which both were taken.
    /// `None` stands for an addition that found no room on the heap.
    pub open spec fn combines<F: Fn(NumberOp, u64, u64) -> u64>(
        self,
        arith: &F,
        op: u8,
        a: Value,
        b: Value,
        after: HeapView,
        value: Option<Result<Value, ValueError>>,
    ) -> bool {
        if op == OP_ADD {
            match value {
                None => after == self.heap && add_lacks_room(a, b, self.heap),
                Some(sum) => add_post(arith, a, b, self.heap, after, sum) && !add_lacks_room(
                    a,
                    b,
                    self.heap,
                ),
            }
        } else {
            &&& after == self.heap
            &&& value matches Some(r) && if op == OP_SUB {
                arith_post(arith, NumberOp::Sub, a, b, r)
            } else if op == OP_MUL {
                arith_post(arith, NumberOp::Mul, a, b, r)
            } else if op == OP_DIV {
                arith_post(arith, NumberOp::Div, a, b, r)
            } else if op == OP_AND {
                r == and_of(a, b)
            } else if op == OP_OR {
                r == or_of(a, b)
            } else if op == OP_EQUAL {
                r == equal_of(a, b)
            } else if op == OP_LESS {
                r == less_of(a, b)
            } else {
                r == greater_of(a, b)
            }
        }
    }

    /// Whether `out` is a result of the binary operation `op` that computed
    /// `value` on the heap `after`: the operands are taken off, the second
    /// one first, and the value is pushed.
    pub open spec fn binary_with<F: Fn(NumberOp, u64, u64) -> u64>(
        self,
        arith: &F,
        op: u8,
        after: HeapView,
        value: Option<Result<Value, ValueError>>,
        out: Outcome,
    ) -> bool {
        let (first, b) = self.pop();
        match b {
            Err(e) => out == first.fails(e),
            Ok(b) => {
                let (second, a) = first.pop();
                match a {
                    Err(e) => out == second.fails(e),
                    Ok(a) => {
                        &&& self.combines(arith, op, a, b, after, value)
                        &&& out == match value {
                            None => second.fails(RuntimeError::UnknownError),
                            Some(Err(e)) => second.with_heap(after).fails(lifted(e)),
                            Some(Ok(v)) => second.with_heap(after).pushes(v),
                        }
                    },
                }
            },
        }
    }

    /// Whether `out` is a result of the binary operation `op`.
    pub open spec fn binary<F: Fn(NumberOp, u64, u64) -> u64>(
        self,
        arith: &F,
        op: u8,
        out: Outcome,
    ) -> bool {
        exists|after: HeapView, value: Option<Result<Value, ValueError>>| #[trigger]
            self.binary_with(arith, op, after, value, out)
    }

    /// Whether `out` is a result of executing the instruction `op`, in the
    /// state `self` that follows the reading of `op`.
    pub open spec fn executes<F: Fn(NumberOp, u64, u64) -> u64>(
        self,
        code: ChunkView,
        arith: &F,
        op: u8,
        out: Outcome,
    ) -> bool {
        if op == OP_RETURN {
            out == (Outcome { state: self, result: Ok(RuntimeStep::Halt) })
        } else if op == OP_CONSTANT {
            out == self.constant(code)
        } else if op == OP_NIL {
            out == self.pushes(Value::Nil)
        } else if op == OP_TRUE {
            out == self.pushes(Value::Bool(true))
        } else if op == OP_FALSE {
            out == self.pushes(Value::Bool(false))
        } else if op == OP_POP {
            out == self.discard()
        } else if op == OP_PRINT {
            out == self.print()
        } else if op == OP_NEG || op == OP_NOT {
            out == self.unary(op)
        } else if op == OP_ADD || op == OP_SUB || op == OP_MUL || op == OP_DIV || op == OP_AND || op
            == OP_OR || op == OP_EQUAL || op == OP_LESS || op == OP_GREATER {
            self.binary(arith, op, out)
        } else if op == OP_DEF_GLOBAL {
            out == self.define_global(code)
        } else if op == OP_GET_GLOBAL {
            out == self.get_global(code)
        } else if op == OP_SET_GLOBAL {
            out == self.set_global(code)
        } else if op == OP_GET_LOCAL {
            out == self.get_local(code)
        } else if op == OP_SET_LOCAL {
            out == self.set_local(code)
        } else if op == OP_JUMP {
            out == self.jump(code)
        } else if op == OP_JUMP_F {
            out == self.jump_if_false(code)
        } else {
            out == self.fails(RuntimeError::UnknownCode)
        }
    }

    /// Whether `out` is a result of one step: the opcode at `pc` is read
    /// and executed. Beyond the end of the code there is nothing to read.
    pub open spec fn steps<F: Fn(NumberOp, u64, u64) -> u64>(
        self,
        code: ChunkView,
        arith: &F,
        out: Outcome,
    ) -> bool {
        let (next, byte) = self.read_byte(code);
        match byte {
            None => out == next.fails(RuntimeError::UnexpectedEnd),
            Some(op) => next.executes(code, arith, op, out),
        }
    }
}

impl From<HeapError> for RuntimeError {
    fn from(value: HeapError) -> (r: Self) {
        Self::HeapError(value)
    }
}

impl FromSpecImpl<HeapError> for RuntimeError {
    open spec fn obeys_from_spec() -> bool {
        true
    }

    open spec fn from_spec(value: HeapError) -> Self {
        RuntimeError::HeapError(value)
    }
}

impl From<ValueError> for RuntimeError {
    fn from(value: ValueError) -> (r: Self) {
        match value {
            ValueError::HeapError(h) => Self::HeapError(h),
            v => Self::ValueError(v),
        }
    }
}

impl FromSpecImpl<ValueError> for RuntimeError {
    open spec fn obeys_from_spec() -> bool {
        true
    }

    open spec fn from_spec(value: ValueError) -> Self {
        lifted(value)
    }
}

/// What a step left behind: the state and what the step returned.
pub open spec fn outcome(state: MachineView, result: Result<RuntimeStep, RuntimeError>) -> Outcome {
    Outcome { state, result }
}

/// Every step that completes has executed an instruction of the machine.
/// It has found on the stack the values that the instruction needs and
/// changed the depth of the stack by its stack effect. It has moved `pc`
/// behind the instruction with its operand; a jump may have moved it
/// further, and nothing moves it back. Only RETURN halts.
pub proof fn step_has_stack_effect<F: Fn(NumberOp, u64, u64) -> u64>(
    code: ChunkView,
    arith: &F,
    before: MachineView,
    out: Outcome,
)
    requires
        code.wf(),
        before.steps(code, arith, out),
        out.result is Ok,
    ensures
        before.pc < code.code.len(),
        is_opcode(code.code[before.pc as int]),
        before.stack.len() >= stack_demand(code.code[before.pc as int]),
        out.state.stack.len() == before.stack.len() + stack_effect(code.code[before.pc as int]),
        out.state.pc >= before.pc + 1 + operand_width(code.code[before.pc as int]) || out.state.pc
            == usize::MAX,
        code.code[before.pc as int] != OP_JUMP && code.code[before.pc as int] != OP_JUMP_F
            ==> out.state.pc == before.pc + 1 + operand_width(code.code[before.pc as int]),
        out.result == Ok::<RuntimeStep, RuntimeError>(RuntimeStep::Halt) <==> code.code[before.pc as int]
            == OP_RETURN,
{
    let op = code.code[before.pc as int];
    let next = before.read_byte(code).0;
    if op == OP_ADD || op == OP_SUB || op == OP_MUL || op == OP_DIV || op == OP_AND || op == OP_OR
        || op == OP_EQUAL || op == OP_LESS || op == OP_GREATER {
        let (after, value) = choose|after: HeapView, value: Option<Result<Value, ValueError>>| #[trigger]
            next.binary_with(arith, op, after, value, out);
        assert(next.binary_with(arith, op, after, value, out));
    }
}

/// A definition that completes binds the global that its operand names to
/// the value that was on top of the stack, whatever the global was bound
/// to before, and leaves every other global as it was.
pub proof fn definition_binds<F: Fn(NumberOp, u64, u64) -> u64>(
    code: ChunkView,
    arith: &F,
    before: MachineView,
    out: Outcome,
)
    requires
        code.wf(),
        before.steps(code, arith, out),
        out.result is Ok,
        before.pc < code.code.len(),
        code.code[before.pc as int] == OP_DEF_GLOBAL,
    ensures
        before.pc + 1 < code.code.len(),
        code.code[before.pc + 1] < code.constants.len(),
        code.constants[code.code[before.pc + 1] as int] is Object,
        before.stack.len() > 0,
        out.state.heap == before.heap.bind(
            code.constants[code.code[before.pc + 1] as int]->Object_0.id(),
            before.stack.last(),
        ),
{
}

/// The offset that the jump at `at` leads to: the distance in its operand,
/// counted from behind the operand.
pub open spec fn jump_target(code: Seq<u8>, at: int) -> int {
    at + 3 + code[at + 1] * 256 + code[at + 2]
}

/// A jump that completes lands on its target, and a jump that depends on
/// the top value lands there or behind its operand. Neither touches the
/// stack.
pub proof fn jump_lands<F: Fn(NumberOp, u64, u64) -> u64>(
    code: ChunkView,
    arith: &F,
    before: MachineView,
    out: Outcome,
)
    requires
        code.wf(),
        before.steps(code, arith, out),
        out.result is Ok,
        before.pc < code.code.len(),
        code.code[before.pc as int] == OP_JUMP || code.code[before.pc as int] == OP_JUMP_F,
    ensures
        before.pc + 2 < code.code.len(),
        out.state.stack == before.stack,
        out.state.pc == bump((before.pc + 3) as usize, jump_target(code.code, before.pc as int)
            - before.pc - 3) || (code.code[before.pc as int] == OP_JUMP_F && out.state.pc
            == before.pc + 3),
{
}

/// A step keeps what the heap holds: every object stays under its key,
/// every text that was interned keeps its key, and a global that was bound
/// stays bound.
pub proof fn step_keeps_heap<F: Fn(NumberOp, u64, u64) -> u64>(
    code: ChunkView,
    arith: &F,
    before: MachineView,
    out: Outcome,
)
    requires
        before.steps(code, arith, out),
    ensures
        before.heap.grows_into(out.state.heap),
        before.heap.globals.dom().subset_of(out.state.heap.globals.dom()),
{
    if before.pc < code.code.len() {
        let op = code.code[before.pc as int];
        let next = before.read_byte(code).0;
        if op == OP_ADD || op == OP_SUB || op == OP_MUL || op == OP_DIV || op == OP_AND || op
            == OP_OR || op == OP_EQUAL || op == OP_LESS || op == OP_GREATER {
            let (after, value) = choose|after: HeapView, value: Option<Result<Value, ValueError>>| #[trigger]
                next.binary_with(arith, op, after, value, out);
            assert(next.binary_with(arith, op, after, value, out));
        }
    }
}

/// What the last step of a run returned, given what the run returned.
pub open spec fn last_step(r: Result<(), RuntimeError>) -> Result<RuntimeStep, RuntimeError> {
    match r {
        Ok(_) => Ok(RuntimeStep::Halt),
        Err(e) => Err(e),
    }
}

/// Whether state `i + 1` of `trace` is a step from state `i` that asked to
/// keep going.
pub open spec fn links<F: Fn(NumberOp, u64, u64) -> u64>(
    code: ChunkView,
    arith: &F,
    trace: Seq<MachineView>,
    i: int,
) -> bool {
    trace[i].steps(code, arith, trace[i + 1].proceeds())
}

/// Whether `trace` is a run from `before` to `out`: it starts with
/// `before`, each of its states is a step from the one before it that
/// asked to keep going, and a last step from its last state ended in
/// `out` with a halt or an error.
pub open spec fn is_run<F: Fn(NumberOp, u64, u64) -> u64>(
    code: ChunkView,
    arith: &F,
    trace: Seq<MachineView>,
    before: MachineView,
    out: Outcome,
) -> bool {
    &&& trace.len() > 0
    &&& trace[0] == before
    &&& forall|i: int| 0 <= i < trace.len() - 1 ==> #[trigger] links(code, arith, trace, i)
    &&& trace.last().steps(code, arith, out)
    &&& out.result != Ok::<RuntimeStep, RuntimeError>(RuntimeStep::KeepGoing)
}

/// Up to each of its states, a run keeps what the heap holds.
proof fn trace_keeps_heap<F: Fn(NumberOp, u64, u64) -> u64>(
    code: ChunkView,
    arith: &F,
    trace: Seq<MachineView>,
    i: int,
)
    requires
        0 <= i < trace.len(),
        forall|j: int| 0 <= j < trace.len() - 1 ==> #[trigger] links(code, arith, trace, j),
    ensures
        trace[0].heap.grows_into(trace[i].heap),
        trace[0].heap.globals.dom().subset_of(trace[i].heap.globals.dom()),
    decreases i,
{
    if i > 0 {
        trace_keeps_heap(code, arith, trace, i - 1);
        assert(links(code, arith, trace, i - 1));
        step_keeps_heap(code, arith, trace[i - 1], trace[i].proceeds());
        trace[0].heap.grows_on(trace[i - 1].heap, trace[i].heap);
    }
}

/// A run keeps what the heap holds: every object stays under its key,
/// every text that was interned keeps its key, and a global that was bound
/// stays bound. This holds of a run that ends in an error too, so that the
/// heap can go on to serve the next program.
pub proof fn run_keeps_heap<F: Fn(NumberOp, u64, u64) -> u64>(
    code: ChunkView,
    arith: &F,
    trace: Seq<MachineView>,
    before: MachineView,
    out: Outcome,
)
    requires
        is_run(code, arith, trace, before, out),
    ensures
        before.heap.grows_into(out.state.heap),
        before.heap.globals.dom().subset_of(out.state.heap.globals.dom()),
{
    trace_keeps_heap(code, arith, trace, trace.len() - 1);
    step_keeps_heap(code, arith, trace.last(), out);
    before.heap.grows_on(trace.last().heap, out.state.heap);
}

#[derive(Debug, Clone)]
struct Stack {
    stack: Vec<Value>,
}

impl View for Stack {
    type V = Seq<Value>;

    closed spec fn view(&self) -> Seq<Value> {
        self.stack@
    }
}

impl Stack {
    fn with_capacity(capacity: usize) -> (r: Self)
        ensures
            r@ == Seq::<Value>::empty(),
    {
        Self { stack: Vec::with_capacity(capacity) }
    }

    fn pop(&mut self) -> (r: Result<Value, RuntimeError>)
        ensures
            r == (if old(self)@.len() == 0 {
                Err::<Value, RuntimeError>(RuntimeError::EmptyStack)
            } else {
                Ok(old(self)@.last())
            }),
            final(self)@ == (if old(self)@.len() == 0 {
                old(self)@
            } else {
                old(self)@.drop_last()
            }),
    {
        match self.stack.pop() {
            Some(v) => Ok(v),
            None => Err(RuntimeError::EmptyStack),
        }
    }

    fn peek(&self, dist: usize) -> (r: Result<&Value, RuntimeError>)
        ensures
            r == (if dist < self@.len() {
                Ok::<&Value, RuntimeError>(&self@[self@.len() - 1 - dist])
            } else {
                Err(RuntimeError::EmptyStack)
            }),
    {
        if dist < self.stack.len() {
            Ok(&self.stack[self.stack.len() - 1 - dist])
        } else {
            Err(RuntimeError::EmptyStack)
        }
    }

    fn get_at(&self, idx: usize) -> (r: Result<&Value, RuntimeError>)
        ensures
            r == (if idx < self@.len() {
                Ok::<&Value, RuntimeError>(&self@[idx as int])
            } else {
                Err(RuntimeError::EmptyStack)
            }),
    {
        if idx < self.stack.len() {
            Ok(&self.stack[idx])
        } else {
            Err(RuntimeError::EmptyStack)
        }
    }

    fn set_at(&mut self, idx: usize, value: Value) -> (r: Result<(), RuntimeError>)
        ensures
            r == (if idx < old(self)@.len() {
                Ok::<(), RuntimeError>(())
            } else {
                Err(RuntimeError::EmptyStack)
            }),
            final(self)@ == (if idx < old(self)@.len() {
                old(self)@.update(idx as int, value)
            } else {
                old(self)@
            }),
    {
        if idx < self.stack.len() {
            self.stack[idx] = value;
            Ok(())
        } else {
            Err(RuntimeError::EmptyStack)
        }
    }

    fn push(&mut self, value: Value)
        ensures
            final(self)@ == old(self)@.push(value),
    {
        self.stack.push(value);
    }
}

/// A machine that runs one chunk on a heap.
#[derive(Debug)]
pub struct VM<'code, 'heap> {
    code: &'code CodeChunk,
    heap: &'heap mut ObjectHeap,
    stack: Stack,
    pc: usize,
    output: Vec<Printed>,
}

impl<'code, 'heap> View for VM<'code, 'heap> {
    type V = MachineView;

    closed spec fn view(&self) -> MachineView {
        MachineView {
            pc: self.pc,
            stack: self.stack@,
            output: self.output.deep_view(),
            heap: self.heap@,
        }
    }
}

impl<'code, 'heap> VM<'code, 'heap> {
    /// The code that the machine runs.
    pub closed spec fn code(&self) -> ChunkView {
        self.code@
    }

    /// The machine's invariant: its code and its heap are well formed.
    pub open spec fn wf(&self) -> bool {
        self.code().wf() && self@.heap.wf()
    }

    /// A machine at the start of `code`, with an empty stack.
    pub fn init(code: &'code CodeChunk, heap: &'heap mut ObjectHeap) -> (r: Self)
        requires
            code.wf(),
            old(heap).wf(),
        ensures
            r.wf(),
            r.code() == code@,
            r@ == (MachineView {
                pc: 0,
                stack: Seq::empty(),
                output: Seq::empty(),
                heap: old(heap)@,
            }),
    {
        let r = Self { code, stack: Stack::with_capacity(256), heap, pc: 0, output: Vec::new() };
        assert(r.output.deep_view() =~= Seq::empty());
        r
    }

    /// Steps until the machine halts or a step fails.
    pub fn run<F: Fn(NumberOp, u64, u64) -> u64>(&mut self, arith: &F) -> (r: Result<
        (),
        RuntimeError,
    >)
        requires
            old(self).wf(),
            is_total(arith),
        ensures
            final(self).wf(),
            final(self).code() == old(self).code(),
            exists|trace: Seq<MachineView>| #[trigger]
                is_run(
                    old(self).code(),
                    arith,
                    trace,
                    old(self)@,
                    outcome(final(self)@, last_step(r)),
                ),
    {
        let ghost mut trace: Seq<MachineView> = seq![self@];
        loop
            invariant
                self.wf(),
                is_total(arith),
                self.code() == old(self).code(),
                trace.len() > 0,
                trace[0] == old(self)@,
                trace.last() == self@,
                forall|i: int|
                    0 <= i < trace.len() - 1 ==> #[trigger] links(self.code(), arith, trace, i),
            decreases
                    (if self@.pc < self.code().code.len() {
                        self.code().code.len() - self@.pc
                    } else {
                        0
                    }),
        {
            let ghost before = self@;
            match self.step(arith) {
                Ok(RuntimeStep::Halt) => {
                    proof {
                        assert(is_run(
                            self.code(),
                            arith,
                            trace,
                            old(self)@,
                            outcome(self@, Ok(RuntimeStep::Halt)),
                        ));
                    }
                    return Ok(());
                },
                Err(err) => {
                    proof {
                        assert(is_run(
                            self.code(),
                            arith,
                            trace,
                            old(self)@,
                            outcome(self@, Err(err)),
                        ));
                    }
                    return Err(err);
                },
                Ok(RuntimeStep::KeepGoing) => {
                    proof {
                        let longer = trace.push(self@);
                        assert forall|i: int| 0 <= i < longer.len() - 1 implies #[trigger] links(
                            self.code(),
                            arith,
                            longer,
                            i,
                        ) by {
                            if i < trace.len() - 1 {
                                assert(links(self.code(), arith, trace, i));
                            } else {
                                assert(longer[i] == before);
                            }
                        }
                        trace = longer;
                    }
                },
            }
        }
    }

    /// The source span of the instruction that was read last.
    pub fn current_span(&self) -> (r: Range<usize>)
        requires
            self.wf(),
            self@.pc > 0,
        ensures
            r == self.code().span_of(self@.pc - 1).1,
    {
        let entry = self.code.find_span_of(self.pc - 1);
        entry.1.start..entry.1.end
    }

    /// The heap that the machine works on.
    pub fn heap(&self) -> (r: &ObjectHeap)
        ensures
            r@ == self@.heap,
    {
        &*self.heap
    }

    /// The value stack, the top last.
    pub fn stack(&self) -> (r: &Vec<Value>)
        ensures
            r@ == self@.stack,
    {
        &self.stack.stack
    }

    /// The offset of the next byte to read.
    pub fn pc(&self) -> (r: usize)
        ensures
            r == self@.pc,
    {
        self.pc
    }

    /// What the program has printed so far, the oldest first.
    pub fn output(&self) -> (r: &Vec<Printed>)
        ensures
            r.deep_view() == self@.output,
    {
        &self.output
    }

    /// Reads the opcode at `pc` and executes it.
    pub fn step<F: Fn(NumberOp, u64, u64) -> u64>(&mut self, arith: &F) -> (r: Result<
        RuntimeStep,
        RuntimeError,
    >)
        requires
            old(self).wf(),
            is_total(arith),
        ensures
            final(self).wf(),
            final(self).code() == old(self).code(),
            old(self)@.steps(old(self).code(), arith, outcome(final(self)@, r)),
            r == Ok::<RuntimeStep, RuntimeError>(RuntimeStep::KeepGoing) ==> old(self)@.pc
                < old(self).code().code.len() && old(self)@.pc < final(self)@.pc,
    {
        let op: u8 = match self.read_u8() {
            Ok(op) => op,
            Err(e) => {
                return Err(e);
            },
        };
        if op == OP_RETURN {
            Ok(RuntimeStep::Halt)
        } else if op == OP_CONSTANT {
            self.constant()
        } else if op == OP_NIL {
            self.stack.push(Value::Nil);
            Ok(RuntimeStep::KeepGoing)
        } else if op == OP_TRUE {
            self.stack.push(Value::Bool(true));
            Ok(RuntimeStep::KeepGoing)
        } else if op == OP_FALSE {
            self.stack.push(Value::Bool(false));
            Ok(RuntimeStep::KeepGoing)
        } else if op == OP_POP {
            match self.stack.pop() {
                Ok(_) => Ok(RuntimeStep::KeepGoing),
                Err(e) => Err(e),
            }
        } else if op == OP_PRINT {
            self.print()
        } else if op == OP_NEG || op == OP_NOT {
            self.unary(op)
        } else if op == OP_ADD || op == OP_SUB || op == OP_MUL || op == OP_DIV || op == OP_AND || op
            == OP_OR || op == OP_EQUAL || op == OP_LESS || op == OP_GREATER {
            self.binary(op, arith)
        } else if op == OP_DEF_GLOBAL {
            self.define_global()
        } else if op == OP_GET_GLOBAL {
            self.get_global()
        } else if op == OP_SET_GLOBAL {
            self.set_global()
        } else if op == OP_GET_LOCAL {
            self.get_local()
        } else if op == OP_SET_LOCAL {
            self.set_local()
        } else if op == OP_JUMP {
            self.jump()
        } else if op == OP_JUMP_F {
            self.jump_if_false()
        } else {
            Err(RuntimeError::UnknownCode)
        }
    }

    fn constant(&mut self) -> (r: Result<RuntimeStep, RuntimeError>)
        requires
            old(self).wf(),
        ensures
            final(self).wf(),
            final(self).code() == old(self).code(),
            outcome(final(self)@, r) == old(self)@.constant(old(self).code()),
            final(self)@.pc >= old(self)@.pc,
    {
        let value = match self.read_constant() {
            Ok(v) => v,
            Err(e) => {
                return Err(e);
            },
        };
        self.stack.push(value);
        Ok(RuntimeStep::KeepGoing)
    }

    fn print(&mut self) -> (r: Result<RuntimeStep, RuntimeError>)
        requires
            old(self).wf(),
        ensures
            final(self).wf(),
            final(self).code() == old(self).code(),
            outcome(final(self)@, r) == old(self)@.print(),
            final(self)@.pc == old(self)@.pc,
    {
        let value = match self.stack.pop() {
            Ok(v) => v,
            Err(e) => {
                return Err(e);
            },
        };
        match value.print_with_heap(self.heap) {
            Ok(shown) => {
                self.output.push(shown);
                assert(self.output.deep_view() =~= old(self).output.deep_view().push(shown@));
                Ok(RuntimeStep::KeepGoing)
            },
            Err(e) => Err(RuntimeError::HeapError(e)),
        }
    }

    fn unary(&mut self, op: u8) -> (r: Result<RuntimeStep, RuntimeError>)
        requires
            old(self).wf(),
            op == OP_NEG || op == OP_NOT,
        ensures
            final(self).wf(),
            final(self).code() == old(self).code(),
            outcome(final(self)@, r) == old(self)@.unary(op),
            final(self)@.pc == old(self)@.pc,
    {
        let value = match self.stack.pop() {
            Ok(v) => v,
            Err(e) => {
                return Err(e);
            },
        };
        let computed = if op == OP_NEG {
            value.neg(self.heap)
        } else {
            value.not(self.heap)
        };
        match computed {
            Ok(v) => {
                self.stack.push(v);
                Ok(RuntimeStep::KeepGoing)
            },
            Err(e) => Err(RuntimeError::from(e)),
        }
    }

    fn binary<F: Fn(NumberOp, u64, u64) -> u64>(&mut self, op: u8, arith: &F) -> (r: Result<
        RuntimeStep,
        RuntimeError,
    >)
        requires
            old(self).wf(),
            is_total(arith),
            op == OP_ADD || op == OP_SUB || op == OP_MUL || op == OP_DIV || op == OP_AND || op
                == OP_OR || op == OP_EQUAL || op == OP_LESS || op == OP_GREATER,
        ensures
            final(self).wf(),
            final(self).code() == old(self).code(),
            old(self)@.binary(arith, op, outcome(final(self)@, r)),
            final(self)@.pc == old(self)@.pc,
    {
        let b = match self.stack.pop() {
            Ok(v) => v,
            Err(e) => {
                assert(old(self)@.binary_with(
                    arith,
                    op,
                    self@.heap,
                    None,
                    outcome(self@, Err(e)),
                ));
                return Err(e);
            },
        };
        let a = match self.stack.pop() {
            Ok(v) => v,
            Err(e) => {
                assert(old(self)@.binary_with(
                    arith,
                    op,
                    self@.heap,
                    None,
                    outcome(self@, Err(e)),
                ));
                return Err(e);
            },
        };
        let value = if op == OP_ADD {
            a.checked_add(&b, self.heap, arith)
        } else if op == OP_SUB {
            Some(a.sub(&b, self.heap, arith))
        } else if op == OP_MUL {
            Some(a.mul(&b, self.heap, arith))
        } else if op == OP_DIV {
            Some(a.div(&b, self.heap, arith))
        } else if op == OP_AND {
            Some(a.and(&b, self.heap))
        } else if op == OP_OR {
            Some(a.or(&b, self.heap))
        } else if op == OP_EQUAL {
            Some(a.equal(&b, self.heap))
        } else if op == OP_LESS {
            Some(a.less(&b, self.heap))
        } else {
            Some(a.greater(&b, self.heap))
        };
        let r = match value {
            None => Err(RuntimeError::UnknownError),
            Some(Err(e)) => Err(RuntimeError::from(e)),
            Some(Ok(v)) => {
                self.stack.push(v);
                Ok(RuntimeStep::KeepGoing)
            },
        };
        assert(old(self)@.binary_with(arith, op, self@.heap, value, outcome(self@, r)));
        r
    }

    fn define_global(&mut self) -> (r: Result<RuntimeStep, RuntimeError>)
        requires
            old(self).wf(),
        ensures
            final(self).wf(),
            final(self).code() == old(self).code(),
            outcome(final(self)@, r) == old(self)@.define_global(old(self).code()),
            final(self)@.pc >= old(self)@.pc,
    {
        let ident = match self.read_identifier() {
            Ok(key) => key,
            Err(e) => {
                return Err(e);
            },
        };
        let variable = match self.stack.pop() {
            Ok(v) => v,
            Err(e) => {
                return Err(e);
            },
        };
        if self.heap.get_object(ident).is_err() {
            return Err(RuntimeError::HeapError(HeapError::ObjectNotFound));
        }
        self.heap.put_as_global(ident, variable);
        Ok(RuntimeStep::KeepGoing)
    }

    fn get_global(&mut self) -> (r: Result<RuntimeStep, RuntimeError>)
        requires
            old(self).wf(),
        ensures
            final(self).wf(),
            final(self).code() == old(self).code(),
            outcome(final(self)@, r) == old(self)@.get_global(old(self).code()),
            final(self)@.pc >= old(self)@.pc,
    {
        let ident = match self.read_identifier() {
            Ok(key) => key,
            Err(e) => {
                return Err(e);
            },
        };
        match self.heap.get_global(ident) {
            Ok(value) => {
                self.stack.push(value);
                Ok(RuntimeStep::KeepGoing)
            },
            Err(e) => Err(RuntimeError::HeapError(e)),
        }
    }

    fn set_global(&mut self) -> (r: Result<RuntimeStep, RuntimeError>)
        requires
            old(self).wf(),
        ensures
            final(self).wf(),
            final(self).code() == old(self).code(),
            outcome(final(self)@, r) == old(self)@.set_global(old(self).code()),
            final(self)@.pc >= old(self)@.pc,
    {
        let ident = match self.read_identifier() {
            Ok(key) => key,
            Err(e) => {
                return Err(e);
            },
        };
        match self.heap.get_global(ident) {
            Ok(_) => {},
            Err(e) => {
                return Err(RuntimeError::HeapError(e));
            },
        }
        let top = match self.stack.peek(0) {
            Ok(v) => *v,
            Err(e) => {
                return Err(e);
            },
        };
        self.heap.put_as_global(ident, top);
        Ok(RuntimeStep::KeepGoing)
    }

    fn get_local(&mut self) -> (r: Result<RuntimeStep, RuntimeError>)
        requires
            old(self).wf(),
        ensures
            final(self).wf(),
            final(self).code() == old(self).code(),
            outcome(final(self)@, r) == old(self)@.get_local(old(self).code()),
            final(self)@.pc >= old(self)@.pc,
    {
        let idx: u8 = match self.read_u8() {
            Ok(b) => b,
            Err(e) => {
                return Err(e);
            },
        };
        let local = match self.stack.get_at(idx as usize) {
            Ok(v) => *v,
            Err(e) => {
                return Err(e);
            },
        };
        self.stack.push(local);
        Ok(RuntimeStep::KeepGoing)
    }

    fn set_local(&mut self) -> (r: Result<RuntimeStep, RuntimeError>)
        requires
            old(self).wf(),
        ensures
            final(self).wf(),
            final(self).code() == old(self).code(),
            outcome(final(self)@, r) == old(self)@.set_local(old(self).code()),
            final(self)@.pc >= old(self)@.pc,
    {
        let idx: u8 = match self.read_u8() {
            Ok(b) => b,
            Err(e) => {
                return Err(e);
            },
        };
        let top = match self.stack.peek(0) {
            Ok(v) => *v,
            Err(e) => {
                return Err(e);
            },
        };
        match self.stack.set_at(idx as usize, top) {
            Ok(_) => Ok(RuntimeStep::KeepGoing),
            Err(e) => Err(e),
        }
    }

    fn jump(&mut self) -> (r: Result<RuntimeStep, RuntimeError>)
        requires
            old(self).wf(),
        ensures
            final(self).wf(),
            final(self).code() == old(self).code(),
            outcome(final(self)@, r) == old(self)@.jump(old(self).code()),
            final(self)@.pc >= old(self)@.pc,
    {
        let pos: u16 = match self.read_u16() {
            Ok(w) => w,
            Err(e) => {
                return Err(e);
            },
        };
        self.pc = self.pc.saturating_add(pos as usize);
        Ok(RuntimeStep::KeepGoing)
    }

    fn jump_if_false(&mut self) -> (r: Result<RuntimeStep, RuntimeError>)
        requires
            old(self).wf(),
        ensures
            final(self).wf(),
            final(self).code() == old(self).code(),
            outcome(final(self)@, r) == old(self)@.jump_if_false(old(self).code()),
            final(self)@.pc >= old(self)@.pc,
    {
        let pos: u16 = match self.read_u16() {
            Ok(w) => w,
            Err(e) => {
                return Err(e);
            },
        };
        let falsey = match self.stack.peek(0) {
            Ok(v) => v.is_falsey(),
            Err(e) => {
                return Err(e);
            },
        };
        if falsey {
            self.pc = self.pc.saturating_add(pos as usize);
        }
        Ok(RuntimeStep::KeepGoing)
    }

    fn read_u8(&mut self) -> (r: Result<u8, RuntimeError>)
        requires
            old(self).wf(),
        ensures
            final(self).wf(),
            final(self).code() == old(self).code(),
            final(self)@ == old(self)@.read_byte(old(self).code()).0,
            r == (match old(self)@.read_byte(old(self).code()).1 {
                Some(b) => Ok::<u8, RuntimeError>(b),
                None => Err(RuntimeError::UnexpectedEnd),
            }),
    {
        let byte = self.code.get_byte(self.pc);
        self.pc = self.pc.saturating_add(1);
        match byte {
            Some(b) => Ok(b),
            None => Err(RuntimeError::UnexpectedEnd),
        }
    }

    fn read_u16(&mut self) -> (r: Result<u16, RuntimeError>)
        requires
            old(self).wf(),
        ensures
            final(self).wf(),
            final(self).code() == old(self).code(),
            final(self)@ == old(self)@.read_word(old(self).code()).0,
            r == (match old(self)@.read_word(old(self).code()).1 {
                Some(w) => Ok::<u16, RuntimeError>(w),
                None => Err(RuntimeError::UnexpectedEnd),
            }),
    {
        let big = self.code.get_byte(self.pc);
        let little = if self.pc < usize::MAX {
            self.code.get_byte(self.pc + 1)
        } else {
            None
        };
        self.pc = self.pc.saturating_add(2);
        match (big, little) {
            (Some(b), Some(l)) => {
                let word: u16 = (b as u16) * 256 + (l as u16);
                assert(word == b * 256 + l);
                Ok(word)
            },
            _ => Err(RuntimeError::UnexpectedEnd),
        }
    }

    fn read_constant(&mut self) -> (r: Result<Value, RuntimeError>)
        requires
            old(self).wf(),
        ensures
            final(self).wf(),
            final(self).code() == old(self).code(),
            final(self)@ == old(self)@.read_constant(old(self).code()).0,
            r == old(self)@.read_constant(old(self).code()).1,
    {
        let constant_offset: u8 = match self.read_u8() {
            Ok(b) => b,
            Err(e) => {
                return Err(e);
            },
        };
        match self.code.get_constant(constant_offset as usize) {
            Some(v) => Ok(*v),
            None => Err(RuntimeError::ConstantNotFound),
        }
    }

    fn read_identifier(&mut self) -> (r: Result<ObjectKey, RuntimeError>)
        requires
            old(self).wf(),
        ensures
            final(self).wf(),
            final(self).code() == old(self).code(),
            final(self)@ == old(self)@.read_identifier(old(self).code()).0,
            r == old(self)@.read_identifier(old(self).code()).1,
    {
        match self.read_constant() {
            Ok(Value::Object(key)) => Ok(key),
            Ok(_) => Err(RuntimeError::ConstantNotIdentifier),
            Err(e) => Err(e),
        }
    }
}

} // verus!
