//! The stack effect of a stretch of code, and what it says of a machine
//! that steps through the stretch.

use super::chunk::ChunkView;
use super::number::NumberOp;
use super::opcodes::{is_opcode, operand_width, stack_effect, OP_JUMP, OP_JUMP_F, OP_RETURN};
use super::vm::{jump_lands, jump_target, links, step_has_stack_effect, MachineView};
use vstd::prelude::*;

verus! {

/// The stack effect of the code from the offset `from` up to the offset
/// `to`, along every way that leads through it: the sum of the stack
/// effects of the instructions on the way. A jump leads to its target; a
/// jump that depends on the top value leads there and behind its operand,
/// and both ways have to have the same effect. There is no effect where a
/// way meets a halt or a byte that is no opcode, where an instruction
/// reaches across `to`, or where a jump leads over it.
pub open spec fn net_effect(code: Seq<u8>, from: int, to: int) -> Option<int>
    decreases to - from,
{
    if from == to {
        Some(0)
    } else if from < 0 || from > to || to > code.len() {
        None
    } else {
        let op = code[from];
        if op == OP_JUMP || op == OP_JUMP_F {
            let target = jump_target(code, from);
            if from + 3 > to || target > to {
                None
            } else if op == OP_JUMP {
                net_effect(code, target, to)
            } else {
                let stay = net_effect(code, from + 3, to);
                let jump = net_effect(code, target, to);
                if stay is Some && stay == jump {
                    stay
                } else {
                    None
                }
            }
        } else if !is_opcode(op) || op == OP_RETURN || from + 1 + operand_width(op) > to {
            None
        } else {
            match net_effect(code, from + 1 + operand_width(op), to) {
                Some(rest) => Some(stack_effect(op) + rest),
                None => None,
            }
        }
    }
}

/// A stretch that has an effect lies within the code.
pub proof fn effect_is_within(code: Seq<u8>, from: int, to: int)
    requires
        net_effect(code, from, to) is Some,
    ensures
        0 <= from <= to <= code.len() || from == to,
{
}

/// The effect of a stretch is that of its first part and that of the rest.
pub proof fn effect_of_parts(code: Seq<u8>, from: int, middle: int, to: int)
    requires
        net_effect(code, from, middle) is Some,
        net_effect(code, middle, to) is Some,
    ensures
        net_effect(code, from, to) == Some(
            net_effect(code, from, middle)->0 + net_effect(code, middle, to)->0,
        ),
    decreases middle - from,
{
    effect_is_within(code, from, middle);
    effect_is_within(code, middle, to);
    if from != middle {
        let op = code[from];
        if op == OP_JUMP || op == OP_JUMP_F {
            effect_of_parts(code, jump_target(code, from), middle, to);
            if op == OP_JUMP_F {
                effect_of_parts(code, from + 3, middle, to);
            }
        } else {
            effect_of_parts(code, from + 1 + operand_width(op), middle, to);
        }
    }
}

/// The effect of a stretch is a matter of the bytes of the stretch alone.
pub proof fn effect_of_same_bytes(code: Seq<u8>, other: Seq<u8>, from: int, to: int)
    requires
        0 <= from <= to <= code.len(),
        to <= other.len(),
        forall|i: int| from <= i < to ==> code[i] == other[i],
    ensures
        net_effect(code, from, to) == net_effect(other, from, to),
    decreases to - from,
{
    if from != to {
        let op = code[from];
        if op == OP_JUMP || op == OP_JUMP_F {
            if from + 3 <= to {
                let target = jump_target(code, from);
                assert(target == jump_target(other, from));
                if target <= to {
                    effect_of_same_bytes(code, other, target, to);
                    effect_of_same_bytes(code, other, from + 3, to);
                }
            }
        } else {
            let next = from + 1 + operand_width(op);
            if is_opcode(op) && op != OP_RETURN && next <= to {
                effect_of_same_bytes(code, other, next, to);
            }
        }
    }
}

/// A machine that steps through a stretch of code that has an effect
/// changes the depth of its stack by that effect: if state `i` of a run
/// is at the start of the stretch and a later state `j` is at its end,
/// then in state `j` the stack is deeper by the effect than in state `i`.
pub proof fn steps_have_the_effect<F: Fn(NumberOp, u64, u64) -> u64>(
    code: ChunkView,
    arith: &F,
    trace: Seq<MachineView>,
    i: int,
    j: int,
    to: int,
)
    requires
        code.wf(),
        forall|k: int| 0 <= k < trace.len() - 1 ==> #[trigger] links(code, arith, trace, k),
        0 <= i <= j < trace.len(),
        net_effect(code.code, trace[i].pc as int, to) is Some,
        trace[j].pc == to,
    ensures
        trace[j].stack.len() == trace[i].stack.len() + net_effect(
            code.code,
            trace[i].pc as int,
            to,
        )->0,
    decreases to - trace[i].pc,
{
    if i < j {
        assert(links(code, arith, trace, i));
        step_has_stack_effect(code, arith, trace[i], trace[i + 1].proceeds());
        pc_moves_on(code, arith, trace, i + 1, j);
        if trace[i].pc != to {
            let op = code.code[trace[i].pc as int];
            if op == OP_JUMP || op == OP_JUMP_F {
                jump_lands(code, arith, trace[i], trace[i + 1].proceeds());
            }
            steps_have_the_effect(code, arith, trace, i + 1, j, to);
        }
    }
}

/// A run that ends at a halt comes by the end of a stretch of code that
/// has an effect: if state `i` of the run is at the start of the stretch,
/// some later state is at its end `to`.
pub proof fn run_comes_by<F: Fn(NumberOp, u64, u64) -> u64>(
    code: ChunkView,
    arith: &F,
    trace: Seq<MachineView>,
    i: int,
    to: int,
) -> (j: int)
    requires
        code.wf(),
        forall|k: int| 0 <= k < trace.len() - 1 ==> #[trigger] links(code, arith, trace, k),
        0 <= i < trace.len(),
        net_effect(code.code, trace[i].pc as int, to) is Some,
        trace.last().pc < code.code.len(),
        code.code[trace.last().pc as int] == OP_RETURN,
    ensures
        i <= j < trace.len(),
        trace[j].pc == to,
    decreases to - trace[i].pc,
{
    if trace[i].pc == to {
        i
    } else {
        assert(i < trace.len() - 1);
        assert(links(code, arith, trace, i));
        step_has_stack_effect(code, arith, trace[i], trace[i + 1].proceeds());
        let op = code.code[trace[i].pc as int];
        if op == OP_JUMP || op == OP_JUMP_F {
            jump_lands(code, arith, trace[i], trace[i + 1].proceeds());
        }
        run_comes_by(code, arith, trace, i + 1, to)
    }
}

/// The program counter moves on with every step of a run.
pub proof fn pc_moves_on<F: Fn(NumberOp, u64, u64) -> u64>(
    code: ChunkView,
    arith: &F,
    trace: Seq<MachineView>,
    i: int,
    j: int,
)
    requires
        code.wf(),
        forall|k: int| 0 <= k < trace.len() - 1 ==> #[trigger] links(code, arith, trace, k),
        0 <= i <= j < trace.len(),
    ensures
        trace[i].pc + (j - i) <= trace[j].pc,
    decreases j - i,
{
    if i < j {
        assert(links(code, arith, trace, i));
        step_has_stack_effect(code, arith, trace[i], trace[i + 1].proceeds());
        pc_moves_on(code, arith, trace, i + 1, j);
    }
}

} // verus!
