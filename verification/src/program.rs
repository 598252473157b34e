//! What makes a list of instructions a program: counts that are in order,
//! runs that are as long as they can be, and loop markers that pair up.

use vstd::prelude::*;
use crate::instruction::{InstructionKind, InstructionView};

verus! {

/// By how much an operator changes the nesting depth.
pub open spec fn nesting_change(kind: InstructionKind) -> int {
    match kind {
        InstructionKind::LoopStart => 1,
        InstructionKind::LoopEnd => -1,
        _ => 0,
    }
}

/// The nesting depth after a sequence of operators: its loop starts minus its
/// loop ends.
pub open spec fn depth(ops: Seq<InstructionKind>) -> int
    decreases ops.len(),
{
    if ops.len() == 0 {
        0
    } else {
        depth(ops.drop_last()) + nesting_change(ops.last())
    }
}

/// Some loop end comes before any loop start that it could close.
pub open spec fn closes_unopened(ops: Seq<InstructionKind>) -> bool {
    exists|n: int| 0 <= n <= ops.len() && #[trigger] depth(ops.take(n)) < 0
}

/// Every loop end closes a loop start, but some loop start is never closed.
pub open spec fn leaves_open(ops: Seq<InstructionKind>) -> bool {
    !closes_unopened(ops) && depth(ops) > 0
}

/// The brackets are balanced and properly nested.
pub open spec fn balanced(ops: Seq<InstructionKind>) -> bool {
    !closes_unopened(ops) && depth(ops) == 0
}

/// Whether the operator at `i` begins a run: it is the first operator, or
/// differs from the one before it, or is a loop marker, which is always a run
/// of its own.
pub open spec fn begins_run(ops: Seq<InstructionKind>, i: int) -> bool {
    i == 0 || ops[i].is_loop_marker() || ops[i - 1] != ops[i]
}

/// The number of runs in a sequence of operators.
pub open spec fn run_count(ops: Seq<InstructionKind>) -> nat
    decreases ops.len(),
{
    if ops.len() == 0 {
        0
    } else if begins_run(ops, ops.len() - 1) {
        run_count(ops.drop_last()) + 1
    } else {
        run_count(ops.drop_last())
    }
}

/// The operators that a list of instructions stands for: each kind as often
/// as its instruction counts.
pub open spec fn expansion(code: Seq<InstructionView>) -> Seq<InstructionKind>
    decreases code.len(),
{
    if code.len() == 0 {
        Seq::empty()
    } else {
        expansion(code.drop_last()) + Seq::new(code.last().repeat, |i: int| code.last().kind)
    }
}

/// No operator of the sequence is a loop marker.
pub open spec fn loop_free(ops: Seq<InstructionKind>) -> bool {
    forall|i: int| 0 <= i < ops.len() ==> !(#[trigger] ops[i]).is_loop_marker()
}

/// Two lists of instructions put together. Where the first ends with the
/// kind that the second begins with, and that is no loop marker, the two
/// instructions at the seam become one that counts for both.
pub open spec fn joined(
    first: Seq<InstructionView>,
    second: Seq<InstructionView>,
) -> Seq<InstructionView> {
    if first.len() > 0 && second.len() > 0 && first.last().kind == second.first().kind
        && !first.last().kind.is_loop_marker() {
        first.drop_last().push(
            InstructionView {
                repeat: first.last().repeat + second.first().repeat,
                ..first.last()
            },
        ) + second.drop_first()
    } else {
        first + second
    }
}

/// The index of the loop marker that the marker at `i` is paired with.
pub open spec fn partner(code: Seq<InstructionView>, i: int) -> int {
    code[i].target - 1
}

/// The instruction at `i` counts at least once, a loop marker exactly once;
/// and where it is no loop marker, it has no target.
pub open spec fn counted_at(code: Seq<InstructionView>, i: int) -> bool {
    &&& code[i].repeat >= 1
    &&& code[i].kind.is_loop_marker() ==> code[i].repeat == 1
    &&& !code[i].kind.is_loop_marker() ==> code[i].target == 0
}

/// The instruction at `i` could not have been merged into the one before it:
/// where the two have the same kind, they are loop markers.
pub open spec fn unmerged_at(code: Seq<InstructionView>, i: int) -> bool {
    0 < i && code[i - 1].kind == code[i].kind ==> code[i].kind.is_loop_marker()
}

/// A loop start at `i` is paired with a loop end after it, a loop end at `i`
/// with a loop start before it, and each is the other's partner.
pub open spec fn matched_at(code: Seq<InstructionView>, i: int) -> bool {
    match code[i].kind {
        InstructionKind::LoopStart => {
            &&& i < partner(code, i) < code.len()
            &&& code[partner(code, i)].kind == InstructionKind::LoopEnd
            &&& partner(code, partner(code, i)) == i
        },
        InstructionKind::LoopEnd => {
            &&& 0 <= partner(code, i) < i
            &&& code[partner(code, i)].kind == InstructionKind::LoopStart
            &&& partner(code, partner(code, i)) == i
        },
        _ => true,
    }
}

/// Where `k` is a loop marker inside the loop that starts at `i`, the partner
/// of `k` lies inside that loop too.
pub open spec fn nested_at(code: Seq<InstructionView>, i: int, k: int) -> bool {
    code[i].kind == InstructionKind::LoopStart && i < k < partner(code, i)
        && code[k].kind.is_loop_marker() ==> i < partner(code, k) < partner(code, i)
}

/// The invariant of a compiled program: every count is in order, no two
/// neighbours could have been merged, every loop start has exactly one loop
/// end after it and every loop end one loop start before it, and loops lie
/// inside one another or apart.
pub open spec fn well_formed(code: Seq<InstructionView>) -> bool {
    &&& forall|i: int| 0 <= i < code.len() ==> #[trigger] counted_at(code, i)
    &&& forall|i: int| 0 <= i < code.len() ==> #[trigger] unmerged_at(code, i)
    &&& forall|i: int| 0 <= i < code.len() ==> #[trigger] matched_at(code, i)
    &&& forall|i: int, k: int|
        0 <= i < code.len() && 0 <= k < code.len() ==> #[trigger] nested_at(code, i, k)
}

} // verus!
