//! The instructions that a source text compiles to.

use vstd::prelude::*;

verus! {

/// What an instruction does. The two loop markers are kinds of their own, so
/// that comparing kinds never takes one bracket for the other.
#[derive(Clone, Copy, Debug, PartialEq, Eq, Structural)]
pub enum InstructionKind {
    /// `+`: add one to the current cell.
    ValueIncrement,
    /// `-`: take one from the current cell.
    ValueDecrement,
    /// `>`: move the cell pointer one cell to the right.
    PointerIncrement,
    /// `<`: move the cell pointer one cell to the left.
    PointerDecrement,
    /// `,`: read one byte of input into the current cell.
    Input,
    /// `.`: write the current cell to the output.
    Output,
    /// `[`: skip the loop if the current cell is zero.
    LoopStart,
    /// `]`: repeat the loop unless the current cell is zero.
    LoopEnd,
}

impl InstructionKind {
    /// Loop markers are control-flow sites: they are never merged and they
    /// are the only kinds that use a target.
    pub open spec fn is_loop_marker(self) -> bool {
        self == InstructionKind::LoopStart || self == InstructionKind::LoopEnd
    }
}

/// One compiled operation.
///
/// `repeat` counts how often the primitive effect is applied; it is 1 for a
/// loop marker. `target` is used by loop markers only: for a `LoopStart` the
/// index at which execution resumes once the loop is left (one past its
/// `LoopEnd`), for a `LoopEnd` the index at which the loop body begins (one
/// past its `LoopStart`).
#[derive(Clone, Copy, Debug, PartialEq, Eq, Structural)]
pub struct Instruction {
    pub kind: InstructionKind,
    pub repeat: usize,
    pub target: usize,
}

/// The mathematical value of an [`Instruction`]: the same three parts, with
/// unbounded numbers.
pub ghost struct InstructionView {
    pub kind: InstructionKind,
    pub repeat: nat,
    pub target: nat,
}

impl InstructionView {
    /// The instruction that a single operator of the given kind stands for,
    /// before any merging or loop resolution.
    pub open spec fn single(kind: InstructionKind) -> InstructionView {
        InstructionView { kind, repeat: 1, target: 0 }
    }

    /// The instruction after one more operator of its kind was merged into it.
    /// Loop markers do not count: they stay as they are.
    pub open spec fn counted_once_more(self) -> InstructionView {
        if self.kind.is_loop_marker() {
            self
        } else {
            InstructionView { repeat: self.repeat + 1, ..self }
        }
    }

    /// The instruction with its jump target set.
    pub open spec fn aimed_at(self, target: nat) -> InstructionView {
        InstructionView { target, ..self }
    }
}

impl View for Instruction {
    type V = InstructionView;

    open spec fn view(&self) -> InstructionView {
        InstructionView {
            kind: self.kind,
            repeat: self.repeat as nat,
            target: self.target as nat,
        }
    }
}

/// The mathematical value of an instruction list.
pub open spec fn listing(instructions: Seq<Instruction>) -> Seq<InstructionView> {
    instructions.map_values(|i: Instruction| i@)
}

impl Instruction {
    /// A fresh instruction for one operator of the given kind.
    pub fn new(kind: InstructionKind) -> (instruction: Instruction)
        ensures
            instruction@ == InstructionView::single(kind),
    {
        Instruction { kind, repeat: 1, target: 0 }
    }

    /// Counts one more operator into this instruction. A loop marker is left
    /// unchanged.
    pub fn inc(&mut self)
        requires
            !old(self).kind.is_loop_marker() ==> old(self).repeat < usize::MAX,
        ensures
            final(self)@ == old(self)@.counted_once_more(),
    {
        match self.kind {
            InstructionKind::LoopStart | InstructionKind::LoopEnd => {},
            _ => {
                self.repeat = self.repeat + 1;
            },
        }
    }
}

/// Whether two instructions are of the same kind, whatever their counts and
/// targets.
pub fn variant_eq(a: &Instruction, b: &Instruction) -> (same: bool)
    ensures
        same == (a.kind == b.kind),
{
    a.kind == b.kind
}

} // verus!
