//! What holds of every compilation.

use vstd::prelude::*;
use crate::compiler::{assemble, compiled, operators, Assembly, SyntaxError};
use crate::instruction::{InstructionKind, InstructionView};
use crate::program::{
    balanced, begins_run, closes_unopened, counted_at, depth, expansion, joined, leaves_open,
    loop_free, matched_at, nested_at, partner, run_count, unmerged_at, well_formed,
};

verus! {

/// The `j`-th waiting position holds a loop start whose target is unset.
spec fn waiting_at(a: Assembly, j: int) -> bool {
    &&& a.open[j] < a.code.len()
    &&& a.code[a.open[j] as int].kind == InstructionKind::LoopStart
    &&& a.code[a.open[j] as int].target == 0
}

/// A loop start at `i` waits while its target is unset and is matched once it
/// is set; a loop end at `i` is matched.
spec fn settled_at(a: Assembly, i: int) -> bool {
    if a.code[i].kind == InstructionKind::LoopStart && a.code[i].target == 0 {
        a.open.contains(i as nat)
    } else {
        matched_at(a.code, i)
    }
}

/// A matched loop marker at `k` after the `j`-th waiting loop start has its
/// partner after that loop start too.
spec fn shielded_at(a: Assembly, j: int, k: int) -> bool {
    a.open[j] < k && a.code[k].kind.is_loop_marker() && a.code[k].target != 0 ==> partner(
        a.code,
        k,
    ) > a.open[j]
}

/// A loop marker at `k` inside the matched loop that starts at `i` is matched
/// inside that loop.
spec fn enclosed_at(a: Assembly, i: int, k: int) -> bool {
    a.code[i].kind == InstructionKind::LoopStart && a.code[i].target != 0 && i < k < partner(
        a.code,
        i,
    ) && a.code[k].kind.is_loop_marker() ==> a.code[k].target != 0 && i < partner(a.code, k)
        < partner(a.code, i)
}

/// What holds of an assembly at every moment of a compilation.
spec fn consistent(a: Assembly) -> bool {
    &&& forall|i: int| 0 <= i < a.code.len() ==> #[trigger] counted_at(a.code, i)
    &&& forall|i: int| 0 <= i < a.code.len() ==> #[trigger] unmerged_at(a.code, i)
    &&& forall|j: int| 0 <= j < a.open.len() ==> #[trigger] waiting_at(a, j)
    &&& forall|j: int, k: int| 0 <= j < k < a.open.len() ==> a.open[j] < a.open[k]
    &&& forall|i: int| 0 <= i < a.code.len() ==> #[trigger] settled_at(a, i)
    &&& forall|j: int, k: int|
        0 <= j < a.open.len() && 0 <= k < a.code.len() ==> #[trigger] shielded_at(a, j, k)
    &&& forall|i: int, k: int|
        0 <= i < a.code.len() && 0 <= k < a.code.len() ==> #[trigger] enclosed_at(a, i, k)
}

proof fn lemma_loop_start_keeps_consistent(a: Assembly)
    requires
        consistent(a),
    ensures
        consistent(a.emit(InstructionKind::LoopStart)->0),
{
    let b = a.emit(InstructionKind::LoopStart)->0;
    let n = a.code.len() as int;
    assert forall|i: int| 0 <= i < b.code.len() implies #[trigger] counted_at(b.code, i) by {
        if i < n {
            assert(counted_at(a.code, i));
        }
    }
    assert forall|i: int| 0 <= i < b.code.len() implies #[trigger] unmerged_at(b.code, i) by {
        if i < n {
            assert(unmerged_at(a.code, i));
        }
    }
    assert forall|j: int| 0 <= j < b.open.len() implies #[trigger] waiting_at(b, j) by {
        if j < a.open.len() {
            assert(waiting_at(a, j));
        }
    }
    assert forall|j: int, k: int| 0 <= j < k < b.open.len() implies b.open[j] < b.open[k] by {
        assert(waiting_at(a, j));
    }
    assert forall|i: int| 0 <= i < b.code.len() implies #[trigger] settled_at(b, i) by {
        if i < n {
            assert(settled_at(a, i));
            if a.code[i].kind == InstructionKind::LoopStart && a.code[i].target == 0 {
                let j = choose|j: int| 0 <= j < a.open.len() && a.open[j] == i as nat;
                assert(b.open[j] == i as nat);
            }
        } else {
            assert(b.open[a.open.len() as int] == i as nat);
        }
    }
    assert forall|j: int, k: int|
        0 <= j < b.open.len() && 0 <= k < b.code.len() implies #[trigger] shielded_at(
        b,
        j,
        k,
    ) by {
        if j < a.open.len() && k < n {
            assert(shielded_at(a, j, k));
        }
    }
    assert forall|i: int, k: int|
        0 <= i < b.code.len() && 0 <= k < b.code.len() implies #[trigger] enclosed_at(
        b,
        i,
        k,
    ) by {
        if i < n && k < n {
            assert(enclosed_at(a, i, k));
        }
        if i < n {
            assert(settled_at(a, i));
        }
    }
}

proof fn lemma_loop_end_keeps_consistent(a: Assembly)
    requires
        consistent(a),
        a.open.len() > 0,
    ensures
        consistent(a.emit(InstructionKind::LoopEnd)->0),
{
    let b = a.emit(InstructionKind::LoopEnd)->0;
    let n = a.code.len() as int;
    let top = a.open.len() - 1;
    let s = a.open[top] as int;
    assert(waiting_at(a, top));
    // Only the loop start at `s` changes, and nothing that is matched has it for a partner.
    assert forall|i: int| 0 <= i < n && i != s implies b.code[i] == a.code[i] by {}
    assert forall|i: int| 0 <= i < b.code.len() implies #[trigger] counted_at(b.code, i) by {
        if i < n {
            assert(counted_at(a.code, i));
        }
    }
    assert forall|i: int| 0 <= i < b.code.len() implies #[trigger] unmerged_at(b.code, i) by {
        if i < n {
            assert(unmerged_at(a.code, i));
        }
    }
    assert forall|j: int| 0 <= j < b.open.len() implies #[trigger] waiting_at(b, j) by {
        assert(waiting_at(a, j));
    }
    assert forall|i: int| 0 <= i < b.code.len() implies #[trigger] settled_at(b, i) by {
        if i != n && i != s {
            assert(settled_at(a, i));
            if a.code[i].kind == InstructionKind::LoopStart && a.code[i].target == 0 {
                let j = choose|j: int| 0 <= j < a.open.len() && a.open[j] == i as nat;
                assert(b.open[j] == i as nat);
            }
        }
    }
    assert forall|j: int, k: int|
        0 <= j < b.open.len() && 0 <= k < b.code.len() implies #[trigger] shielded_at(
        b,
        j,
        k,
    ) by {
        if k < n && k != s {
            assert(shielded_at(a, j, k));
        }
    }
    assert forall|i: int, k: int|
        0 <= i < b.code.len() && 0 <= k < b.code.len() implies #[trigger] enclosed_at(
        b,
        i,
        k,
    ) by {
        if i == s {
            if s < k < n && a.code[k].kind.is_loop_marker() {
                assert(settled_at(a, k));
                assert(shielded_at(a, top, k));
            }
        } else if i < n {
            assert(settled_at(a, i));
            if k < n {
                assert(enclosed_at(a, i, k));
            }
        }
    }
}

proof fn lemma_counting_keeps_consistent(a: Assembly, kind: InstructionKind)
    requires
        consistent(a),
        !kind.is_loop_marker(),
    ensures
        consistent(a.emit(kind)->0),
{
    let b = a.emit(kind)->0;
    let n = a.code.len() as int;
    assert forall|i: int| 0 <= i < n && a.code[i].kind.is_loop_marker() implies b.code[i]
        == a.code[i] by {}
    assert forall|i: int| 0 <= i < n implies (#[trigger] b.code[i]).kind == a.code[i].kind
        && b.code[i].target == a.code[i].target by {}
    assert forall|i: int| 0 <= i < b.code.len() implies #[trigger] counted_at(b.code, i) by {
        if i < n {
            assert(counted_at(a.code, i));
        }
    }
    assert forall|i: int| 0 <= i < b.code.len() implies #[trigger] unmerged_at(b.code, i) by {
        if i < n {
            assert(unmerged_at(a.code, i));
        }
    }
    assert forall|j: int| 0 <= j < b.open.len() implies #[trigger] waiting_at(b, j) by {
        assert(waiting_at(a, j));
    }
    assert forall|i: int| 0 <= i < b.code.len() implies #[trigger] settled_at(b, i) by {
        if i < n {
            assert(settled_at(a, i));
        }
    }
    assert forall|j: int, k: int|
        0 <= j < b.open.len() && 0 <= k < b.code.len() implies #[trigger] shielded_at(
        b,
        j,
        k,
    ) by {
        if k < n {
            assert(shielded_at(a, j, k));
        }
    }
    assert forall|i: int, k: int|
        0 <= i < b.code.len() && 0 <= k < b.code.len() implies #[trigger] enclosed_at(
        b,
        i,
        k,
    ) by {
        if i < n && k < n {
            assert(enclosed_at(a, i, k));
        }
    }
}

/// Every assembly that a compilation passes through is consistent.
proof fn lemma_assemble_consistent(ops: Seq<InstructionKind>)
    requires
        assemble(ops) is Some,
    ensures
        consistent(assemble(ops)->0),
    decreases ops.len(),
{
    if ops.len() > 0 {
        lemma_assemble_consistent(ops.drop_last());
        let a = assemble(ops.drop_last())->0;
        match ops.last() {
            InstructionKind::LoopStart => lemma_loop_start_keeps_consistent(a),
            InstructionKind::LoopEnd => lemma_loop_end_keeps_consistent(a),
            kind => lemma_counting_keeps_consistent(a, kind),
        }
    }
}

/// The expansion of a list looks at kinds and counts only.
proof fn lemma_expansion_ignores_targets(c: Seq<InstructionView>, d: Seq<InstructionView>)
    requires
        c.len() == d.len(),
        forall|i: int|
            0 <= i < c.len() ==> (#[trigger] c[i]).kind == d[i].kind && c[i].repeat == d[i].repeat,
    ensures
        expansion(c) == expansion(d),
    decreases c.len(),
{
    if c.len() > 0 {
        lemma_expansion_ignores_targets(c.drop_last(), d.drop_last());
        assert(Seq::new(c.last().repeat, |i: int| c.last().kind) =~= Seq::new(
            d.last().repeat,
            |i: int| d.last().kind,
        ));
    }
}

/// An assembly spells the operators that it was made from, with one
/// instruction for each of their runs.
proof fn lemma_assemble_spells_operators(ops: Seq<InstructionKind>)
    requires
        assemble(ops) is Some,
    ensures
        expansion(assemble(ops)->0.code) == ops,
        assemble(ops)->0.code.len() == run_count(ops),
        ops.len() > 0 ==> assemble(ops)->0.code.len() > 0 && assemble(ops)->0.code.last().kind
            == ops.last(),
    decreases ops.len(),
{
    if ops.len() > 0 {
        let before = ops.drop_last();
        let kind = ops.last();
        lemma_assemble_spells_operators(before);
        lemma_assemble_consistent(before);
        let a = assemble(before)->0;
        let b = assemble(ops)->0;
        let n = a.code.len() as int;
        assert(ops =~= before.push(kind));
        if kind == InstructionKind::LoopEnd {
            let s = a.open.last() as int;
            assert(waiting_at(a, a.open.len() - 1));
            let patched = a.code.update(s, a.code[s].aimed_at((n + 1) as nat));
            lemma_expansion_ignores_targets(a.code, patched);
            assert(b.code.drop_last() =~= patched);
        } else if !kind.is_loop_marker() && n > 0 && a.code.last().kind == kind {
            let count = a.code.last().repeat;
            assert(b.code.drop_last() =~= a.code.drop_last());
            assert(Seq::new(count + 1, |i: int| kind) =~= Seq::new(count, |i: int| kind).push(
                kind,
            ));
        } else {
            assert(b.code.drop_last() =~= a.code);
        }
    }
}

/// A compilation goes on exactly as long as no loop end came without a loop
/// start to close, and as many loop starts wait as the operators nest deep.
proof fn lemma_assemble_follows_depth(ops: Seq<InstructionKind>)
    ensures
        assemble(ops) is Some <==> !closes_unopened(ops),
        assemble(ops) is Some ==> assemble(ops)->0.open.len() == depth(ops),
    decreases ops.len(),
{
    if ops.len() == 0 {
        assert forall|n: int| 0 <= n <= ops.len() implies #[trigger] depth(ops.take(n)) >= 0 by {}
    } else {
        // The beginnings of `ops` are those of `before`, and `ops` itself.
        let before = ops.drop_last();
        lemma_assemble_follows_depth(before);
        assert(ops.take(ops.len() as int) =~= ops);
        assert forall|n: int| 0 <= n <= before.len() implies #[trigger] ops.take(n)
            == before.take(n) by {}
        if closes_unopened(before) {
            let n = choose|n: int| 0 <= n <= before.len() && #[trigger] depth(before.take(n)) < 0;
            assert(depth(ops.take(n)) < 0);
        } else if depth(ops) >= 0 {
            assert forall|n: int| 0 <= n <= ops.len() implies #[trigger] depth(ops.take(n))
                >= 0 by {}
        }
    }
}

/// A consistent assembly in which no loop start waits is a program.
proof fn lemma_closed_assembly_is_program(a: Assembly)
    requires
        consistent(a),
        a.open.len() == 0,
    ensures
        well_formed(a.code),
{
    assert forall|i: int| 0 <= i < a.code.len() implies #[trigger] matched_at(a.code, i) by {
        assert(settled_at(a, i));
    }
    assert forall|i: int, k: int|
        0 <= i < a.code.len() && 0 <= k < a.code.len() implies #[trigger] nested_at(
        a.code,
        i,
        k,
    ) by {
        assert(enclosed_at(a, i, k));
    }
}

/// There are at most as many runs as operators.
proof fn lemma_runs_are_operators(ops: Seq<InstructionKind>)
    ensures
        run_count(ops) <= ops.len(),
    decreases ops.len(),
{
    if ops.len() > 0 {
        lemma_runs_are_operators(ops.drop_last());
    }
}

/// A text compiles exactly if its brackets are balanced and properly nested.
/// What it compiles to is a program: its counts are in order, its runs are
/// merged as far as they go, and its loop markers pair up and nest. The
/// program spells the operators of the text, kind by kind and count by count,
/// with one instruction for each run of operators, which is at most one for
/// each operator.
pub proof fn law_balanced_text_compiles(text: Seq<char>)
    ensures
        compiled(text) is Ok <==> balanced(operators(text)),
        compiled(text) is Ok ==> {
            let code = compiled(text)->Ok_0;
            &&& well_formed(code)
            &&& expansion(code) == operators(text)
            &&& code.len() == run_count(operators(text))
            &&& code.len() <= operators(text).len()
        },
{
    let ops = operators(text);
    lemma_assemble_follows_depth(ops);
    lemma_runs_are_operators(ops);
    if assemble(ops) is Some {
        lemma_assemble_consistent(ops);
        lemma_assemble_spells_operators(ops);
        if assemble(ops)->0.open.len() == 0 {
            lemma_closed_assembly_is_program(assemble(ops)->0);
        }
    }
}

/// Compilation fails with `UnmatchedClose` exactly if some loop end comes
/// before any loop start that it could close, and with `UnmatchedOpen` exactly
/// if every loop end closes a loop start but some loop start is never closed.
pub proof fn law_unbalanced_text_fails(text: Seq<char>)
    ensures
        compiled(text) == Err::<Seq<InstructionView>, SyntaxError>(SyntaxError::UnmatchedClose)
            <==> closes_unopened(operators(text)),
        compiled(text) == Err::<Seq<InstructionView>, SyntaxError>(SyntaxError::UnmatchedOpen)
            <==> leaves_open(operators(text)),
{
    lemma_assemble_follows_depth(operators(text));
}

/// A run of equal operators that are no loop markers assembles to a single
/// instruction that counts them all.
proof fn lemma_run_assembles_to_one_instruction(ops: Seq<InstructionKind>, kind: InstructionKind)
    requires
        !kind.is_loop_marker(),
        ops.len() > 0,
        forall|i: int| 0 <= i < ops.len() ==> ops[i] == kind,
    ensures
        assemble(ops) == Some(
            Assembly {
                code: seq![InstructionView { kind, repeat: ops.len(), target: 0 }],
                open: Seq::empty(),
            },
        ),
    decreases ops.len(),
{
    let before = ops.drop_last();
    if before.len() == 0 {
        assert(Assembly::empty().emit(kind)->0.code =~= seq![
            InstructionView { kind, repeat: 1, target: 0 },
        ]);
    } else {
        lemma_run_assembles_to_one_instruction(before, kind);
        let a = assemble(before)->0;
        assert(a.emit(kind)->0.code =~= seq![
            InstructionView { kind, repeat: ops.len(), target: 0 },
        ]);
    }
}

/// Merging joins a whole run, however long: a text whose operators are all
/// the same, and no brackets, compiles to exactly one instruction, which
/// counts every one of them.
pub proof fn law_run_compiles_to_one_instruction(text: Seq<char>, kind: InstructionKind)
    requires
        !kind.is_loop_marker(),
        operators(text).len() > 0,
        forall|i: int| 0 <= i < operators(text).len() ==> operators(text)[i] == kind,
    ensures
        compiled(text) == Ok::<Seq<InstructionView>, SyntaxError>(
            seq![InstructionView { kind, repeat: operators(text).len(), target: 0 }],
        ),
{
    lemma_run_assembles_to_one_instruction(operators(text), kind);
}

/// Merging joins nothing but runs: where no operator equals the one before
/// it, unless both are brackets, every operator gets an instruction of its
/// own.
pub proof fn law_unequal_neighbours_stay_apart(text: Seq<char>)
    requires
        compiled(text) is Ok,
        forall|i: int| 0 <= i < operators(text).len() ==> begins_run(operators(text), i),
    ensures
        compiled(text)->Ok_0.len() == operators(text).len(),
{
    law_balanced_text_compiles(text);
    lemma_all_runs_of_one(operators(text));
}

/// Where every operator begins a run, there are as many runs as operators.
proof fn lemma_all_runs_of_one(ops: Seq<InstructionKind>)
    requires
        forall|i: int| 0 <= i < ops.len() ==> begins_run(ops, i),
    ensures
        run_count(ops) == ops.len(),
    decreases ops.len(),
{
    if ops.len() > 0 {
        assert forall|i: int| 0 <= i < ops.drop_last().len() implies begins_run(
            ops.drop_last(),
            i,
        ) by {
            assert(begins_run(ops, i));
        }
        lemma_all_runs_of_one(ops.drop_last());
    }
}

/// The operators of two texts in a row are the operators of the one, then
/// those of the other.
proof fn lemma_operators_of_two_texts(first: Seq<char>, second: Seq<char>)
    ensures
        operators(first + second) == operators(first) + operators(second),
    decreases second.len(),
{
    if second.len() > 0 {
        lemma_operators_of_two_texts(first, second.drop_last());
        assert((first + second).drop_last() =~= first + second.drop_last());
    }
}

/// Operators without loop markers always assemble, and no loop start waits.
proof fn lemma_loop_free_assembles(ops: Seq<InstructionKind>)
    requires
        loop_free(ops),
    ensures
        assemble(ops) is Some,
        assemble(ops)->0.open.len() == 0,
    decreases ops.len(),
{
    if ops.len() > 0 {
        lemma_loop_free_assembles(ops.drop_last());
    }
}

/// Counting one more operator into a joined list is counting it into the
/// second of the two lists.
proof fn lemma_emit_after_join(
    whole: Assembly,
    left: Seq<InstructionView>,
    right: Assembly,
    kind: InstructionKind,
)
    requires
        !kind.is_loop_marker(),
        whole.code == joined(left, right.code),
    ensures
        whole.emit(kind)->0.code == joined(left, right.emit(kind)->0.code),
{
    if right.code.len() > 1 && right.code.last().kind == kind {
        // The operator is counted into the last instruction, which is not at the seam.
        assert(right.emit(kind)->0.code.drop_first() =~= right.code.drop_first().update(
            right.code.len() - 2,
            right.code.last().counted_once_more(),
        ));
    }
}

/// Assembling two sequences in a row is assembling each and joining the two
/// lists at the seam.
proof fn lemma_assemble_joins(first: Seq<InstructionKind>, second: Seq<InstructionKind>)
    requires
        loop_free(first),
        loop_free(second),
    ensures
        assemble(first + second) is Some,
        assemble(first) is Some,
        assemble(second) is Some,
        assemble(first + second)->0.code == joined(
            assemble(first)->0.code,
            assemble(second)->0.code,
        ),
    decreases second.len(),
{
    lemma_loop_free_assembles(first);
    lemma_loop_free_assembles(second);
    if second.len() > 0 {
        let before = second.drop_last();
        lemma_assemble_joins(first, before);
        assert((first + second).drop_last() =~= first + before);
        lemma_emit_after_join(
            assemble(first + before)->0,
            assemble(first)->0.code,
            assemble(before)->0,
            second.last(),
        );
    }
}

/// Run-length merging is associative: it makes no difference where a text is
/// cut. A text without brackets compiles to what its two parts compile to,
/// joined at the seam, wherever the seam lies; and joining is associative, so
/// the same holds of any number of parts, however they are grouped.
pub proof fn law_merging_is_associative(first: Seq<char>, second: Seq<char>)
    requires
        loop_free(operators(first)),
        loop_free(operators(second)),
    ensures
        compiled(first) is Ok,
        compiled(second) is Ok,
        compiled(first + second) == Ok::<Seq<InstructionView>, SyntaxError>(
            joined(compiled(first)->Ok_0, compiled(second)->Ok_0),
        ),
{
    lemma_operators_of_two_texts(first, second);
    lemma_loop_free_assembles(operators(first));
    lemma_loop_free_assembles(operators(second));
    lemma_loop_free_assembles(operators(first) + operators(second));
    lemma_assemble_joins(operators(first), operators(second));
}

/// Joining lists of instructions is associative.
pub proof fn law_joining_is_associative(
    first: Seq<InstructionView>,
    second: Seq<InstructionView>,
    third: Seq<InstructionView>,
)
    ensures
        joined(joined(first, second), third) == joined(first, joined(second, third)),
{
}

} // verus!
