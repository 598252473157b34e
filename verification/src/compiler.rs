//! The compiler: from a source text to a list of instructions.
//!
//! Compilation reads the text once, from left to right. Characters that are
//! no operators are commentary. A run of equal operators becomes a single
//! instruction that carries the length of the run; brackets are never merged,
//! and each pair of them is resolved into two jump targets.

use vstd::prelude::*;
use vstd::string::StrSliceExecFns;
use crate::compiler_laws::{law_balanced_text_compiles, law_unbalanced_text_fails};
use crate::instruction::{listing, variant_eq, Instruction, InstructionKind, InstructionView};
use crate::program::{
    balanced, closes_unopened, expansion, leaves_open, run_count, well_formed,
};

verus! {

/// Why a source text does not compile.
#[derive(Clone, Copy, Debug, PartialEq, Eq, Structural)]
pub enum SyntaxError {
    /// A `]` was met while no `[` was waiting for it.
    UnmatchedClose,
    /// The text ended while one or more `[` were still waiting for their `]`.
    UnmatchedOpen,
}

impl SyntaxError {
    /// What there is to say of the error.
    pub open spec fn wording(self) -> Seq<char> {
        match self {
            SyntaxError::UnmatchedClose => "Unmatched ] operator"@,
            SyntaxError::UnmatchedOpen => "Not enough ] operators!"@,
        }
    }

    /// The error in words.
    pub fn message(&self) -> (text: &'static str)
        ensures
            text@ == self.wording(),
    {
        match self {
            SyntaxError::UnmatchedClose => "Unmatched ] operator",
            SyntaxError::UnmatchedOpen => "Not enough ] operators!",
        }
    }
}

/// The operator that a character stands for, if it is one of the eight.
pub open spec fn operator_kind(c: char) -> Option<InstructionKind> {
    if c == '+' {
        Some(InstructionKind::ValueIncrement)
    } else if c == '-' {
        Some(InstructionKind::ValueDecrement)
    } else if c == '>' {
        Some(InstructionKind::PointerIncrement)
    } else if c == '<' {
        Some(InstructionKind::PointerDecrement)
    } else if c == '.' {
        Some(InstructionKind::Output)
    } else if c == ',' {
        Some(InstructionKind::Input)
    } else if c == '[' {
        Some(InstructionKind::LoopStart)
    } else if c == ']' {
        Some(InstructionKind::LoopEnd)
    } else {
        None
    }
}

/// The operators of a text in their order, everything else left out.
pub open spec fn operators(text: Seq<char>) -> Seq<InstructionKind>
    decreases text.len(),
{
    if text.len() == 0 {
        Seq::empty()
    } else {
        match operator_kind(text.last()) {
            Some(kind) => operators(text.drop_last()).push(kind),
            None => operators(text.drop_last()),
        }
    }
}

/// A compilation under way: the instructions emitted so far, and the
/// positions of the loop starts that still wait for their loop end, the
/// innermost last.
pub ghost struct Assembly {
    pub code: Seq<InstructionView>,
    pub open: Seq<nat>,
}

impl Assembly {
    /// Nothing emitted, nothing open.
    pub open spec fn empty() -> Assembly {
        Assembly { code: Seq::empty(), open: Seq::empty() }
    }

    /// The assembly after one more operator, or `None` where the operator is
    /// a loop end and no loop start waits for it.
    ///
    /// A loop start is emitted unresolved and remembered. A loop end resolves
    /// the innermost waiting loop start: that one is aimed one past the loop
    /// end, and the loop end one past the loop start. Any other operator is
    /// counted into the last instruction where that has the same kind, and
    /// emitted as an instruction of its own where it has not.
    pub open spec fn emit(self, kind: InstructionKind) -> Option<Assembly> {
        match kind {
            InstructionKind::LoopStart => Some(
                Assembly {
                    code: self.code.push(InstructionView::single(kind)),
                    open: self.open.push(self.code.len()),
                },
            ),
            InstructionKind::LoopEnd => if self.open.len() == 0 {
                None
            } else {
                let start = self.open.last();
                Some(
                    Assembly {
                        code: self.code.update(
                            start as int,
                            self.code[start as int].aimed_at(self.code.len() + 1),
                        ).push(InstructionView::single(kind).aimed_at(start + 1)),
                        open: self.open.drop_last(),
                    },
                )
            },
            _ => if self.code.len() > 0 && self.code.last().kind == kind {
                Some(
                    Assembly {
                        code: self.code.update(
                            self.code.len() - 1,
                            self.code.last().counted_once_more(),
                        ),
                        open: self.open,
                    },
                )
            } else {
                Some(Assembly { code: self.code.push(InstructionView::single(kind)), open: self.open })
            },
        }
    }
}

/// The assembly after a sequence of operators, or `None` as soon as a loop
/// end had no loop start to close.
pub open spec fn assemble(ops: Seq<InstructionKind>) -> Option<Assembly>
    decreases ops.len(),
{
    if ops.len() == 0 {
        Some(Assembly::empty())
    } else {
        match assemble(ops.drop_last()) {
            Some(assembly) => assembly.emit(ops.last()),
            None => None,
        }
    }
}

/// What a source text compiles to: the instructions that its operators
/// assemble to, `UnmatchedClose` where a loop end had no loop start to close,
/// or `UnmatchedOpen` where a loop start still waits at the end of the text.
pub open spec fn compiled(text: Seq<char>) -> Result<Seq<InstructionView>, SyntaxError> {
    match assemble(operators(text)) {
        None => Err(SyntaxError::UnmatchedClose),
        Some(assembly) => if assembly.open.len() > 0 {
            Err(SyntaxError::UnmatchedOpen)
        } else {
            Ok(assembly.code)
        },
    }
}

/// The operators of the first `n` characters are the first operators of the
/// whole text.
proof fn lemma_operators_of_prefix(text: Seq<char>, n: int)
    requires
        0 <= n <= text.len(),
    ensures
        operators(text.take(n)).len() <= operators(text).len(),
        operators(text.take(n)) == operators(text).take(operators(text.take(n)).len() as int),
    decreases text.len(),
{
    if n == text.len() {
        assert(text.take(n) =~= text);
    } else {
        lemma_operators_of_prefix(text.drop_last(), n);
        assert(text.drop_last().take(n) =~= text.take(n));
    }
}

/// Once a loop end had nothing to close, no further operator mends it.
proof fn lemma_failure_is_final(ops: Seq<InstructionKind>, n: int)
    requires
        0 <= n <= ops.len(),
        assemble(ops.take(n)) is None,
    ensures
        assemble(ops) is None,
    decreases ops.len(),
{
    if n == ops.len() {
        assert(ops.take(n) =~= ops);
    } else {
        assert(ops.drop_last().take(n) =~= ops.take(n));
        lemma_failure_is_final(ops.drop_last(), n);
    }
}

/// The positions on the compiler's stack, as numbers.
spec fn positions(stack: Seq<usize>) -> Seq<nat> {
    stack.map_values(|p: usize| p as nat)
}

/// The operator that a character stands for, if it is one of the eight.
pub fn classify(c: char) -> (kind: Option<InstructionKind>)
    ensures
        kind == operator_kind(c),
{
    match c {
        '+' => Some(InstructionKind::ValueIncrement),
        '-' => Some(InstructionKind::ValueDecrement),
        '>' => Some(InstructionKind::PointerIncrement),
        '<' => Some(InstructionKind::PointerDecrement),
        '.' => Some(InstructionKind::Output),
        ',' => Some(InstructionKind::Input),
        '[' => Some(InstructionKind::LoopStart),
        ']' => Some(InstructionKind::LoopEnd),
        _ => None,
    }
}

/// Compiles a source text.
///
/// Returns exactly what [`compiled`] says of the text: the instruction list,
/// or the first syntax error. Nothing of a text that fails is handed out.
///
/// The text compiles exactly if its brackets are balanced and properly
/// nested. It fails with `UnmatchedClose` exactly if some `]` comes before any
/// `[` that it could close, and with `UnmatchedOpen` exactly if every `]`
/// closes a `[` but some `[` is never closed. What comes out is a program in
/// the sense of [`well_formed`]; it spells the operators of the text, with one
/// instruction for each run of them, which is at most one for each operator.
/// There is no other such program: see
/// [`law_compiled_is_the_only_program`](crate::program_laws::law_compiled_is_the_only_program).
pub fn preprocess(source: &str) -> (result: Result<Vec<Instruction>, SyntaxError>)
    ensures
        match result {
            Ok(instructions) => compiled(source@) == Ok::<Seq<InstructionView>, SyntaxError>(
                listing(instructions@),
            ),
            Err(error) => compiled(source@) == Err::<Seq<InstructionView>, SyntaxError>(error),
        },
        result is Ok <==> balanced(operators(source@)),
        result matches Err(SyntaxError::UnmatchedClose) <==> closes_unopened(operators(source@)),
        result matches Err(SyntaxError::UnmatchedOpen) <==> leaves_open(operators(source@)),
        result matches Ok(instructions) ==> {
            &&& well_formed(listing(instructions@))
            &&& expansion(listing(instructions@)) == operators(source@)
            &&& instructions.len() == run_count(operators(source@))
            &&& instructions.len() <= operators(source@).len()
        },
{
    // The length of the text bounds every count and every position below.
    let length: usize = source.unicode_len();
    let mut instructions: Vec<Instruction> = Vec::new();
    let mut stack: Vec<usize> = Vec::new();
    proof {
        assert(listing(instructions@) =~= Assembly::empty().code);
        assert(positions(stack@) =~= Assembly::empty().open);
    }
    for c in it: source.chars()
        invariant
            it.seq() == source@,
            source@.len() == length,
            assemble(operators(source@.take(it.index()))) == Some(
                Assembly { code: listing(instructions@), open: positions(stack@) },
            ),
            instructions.len() <= it.index(),
            forall|i: int| 0 <= i < instructions.len() ==> instructions[i].repeat <= it.index(),
            forall|i: int| 0 <= i < stack.len() ==> stack[i] < instructions.len(),
    {
        let ghost before = source@.take(it.index());
        let ghost after = source@.take(it.index() + 1);
        let ghost assembly = Assembly { code: listing(instructions@), open: positions(stack@) };
        proof {
            assert(after.drop_last() =~= before);
        }
        match classify(c) {
            None => {},
            Some(InstructionKind::LoopStart) => {
                stack.push(instructions.len());
                instructions.push(Instruction::new(InstructionKind::LoopStart));
                proof {
                    let next = assembly.emit(InstructionKind::LoopStart)->0;
                    assert(operators(after).drop_last() =~= operators(before));
                    assert(listing(instructions@) =~= next.code);
                    assert(positions(stack@) =~= next.open);
                }
            },
            Some(InstructionKind::LoopEnd) => {
                match stack.pop() {
                    None => {
                        proof {
                            assert(operators(after).drop_last() =~= operators(before));
                            lemma_operators_of_prefix(source@, it.index() + 1);
                            lemma_failure_is_final(
                                operators(source@),
                                operators(after).len() as int,
                            );
                            law_balanced_text_compiles(source@);
                            law_unbalanced_text_fails(source@);
                        }
                        return Err(SyntaxError::UnmatchedClose);
                    },
                    Some(start) => {
                        let resume: usize = instructions.len() + 1;
                        instructions[start].target = resume;
                        instructions.push(
                            Instruction {
                                kind: InstructionKind::LoopEnd,
                                repeat: 1,
                                target: start + 1,
                            },
                        );
                        proof {
                            let next = assembly.emit(InstructionKind::LoopEnd)->0;
                            assert(operators(after).drop_last() =~= operators(before));
                            assert(listing(instructions@) =~= next.code);
                            assert(positions(stack@) =~= next.open);
                        }
                    },
                }
            },
            Some(kind) => {
                let fresh = Instruction::new(kind);
                let emitted: usize = instructions.len();
                if emitted > 0 && variant_eq(&instructions[emitted - 1], &fresh) {
                    instructions[emitted - 1].inc();
                } else {
                    instructions.push(fresh);
                }
                proof {
                    let next = assembly.emit(kind)->0;
                    assert(operators(after).drop_last() =~= operators(before));
                    assert(listing(instructions@) =~= next.code);
                }
            },
        }
    }
    proof {
        assert(source@.take(source@.len() as int) =~= source@);
        law_balanced_text_compiles(source@);
        law_unbalanced_text_fails(source@);
    }
    if stack.len() > 0 {
        Err(SyntaxError::UnmatchedOpen)
    } else {
        Ok(instructions)
    }
}

} // verus!
