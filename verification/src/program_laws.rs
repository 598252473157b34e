//! A program is determined by the operators that it spells.

use vstd::prelude::*;
use crate::compiler::{compiled, operators, SyntaxError};
use crate::compiler_laws::law_balanced_text_compiles;
use crate::instruction::{InstructionKind, InstructionView};
use crate::program::{
    balanced, counted_at, depth, expansion, matched_at, nested_at, partner, unmerged_at,
    well_formed,
};

verus! {

/// Every count is in order, and no two neighbours could have been merged.
spec fn encoded(code: Seq<InstructionView>) -> bool {
    &&& forall|i: int| 0 <= i < code.len() ==> #[trigger] counted_at(code, i)
    &&& forall|i: int| 0 <= i < code.len() ==> #[trigger] unmerged_at(code, i)
}

/// The expansion of a list ends with the run of its last instruction.
proof fn lemma_expansion_ends_with_last_run(code: Seq<InstructionView>)
    requires
        code.len() > 0,
        code.last().repeat >= 1,
    ensures
        expansion(code).len() == expansion(code.drop_last()).len() + code.last().repeat,
        expansion(code).last() == code.last().kind,
        forall|n: int|
            expansion(code.drop_last()).len() <= n < expansion(code).len() ==> expansion(code)[n]
                == code.last().kind,
        expansion(code).take(expansion(code.drop_last()).len() as int) == expansion(
            code.drop_last(),
        ),
{
    let run = Seq::new(code.last().repeat, |i: int| code.last().kind);
    assert(expansion(code) == expansion(code.drop_last()) + run);
    assert(expansion(code).take(expansion(code.drop_last()).len() as int) =~= expansion(
        code.drop_last(),
    ));
}

/// What is encoded stays encoded without its last instruction.
proof fn lemma_encoded_without_last(code: Seq<InstructionView>)
    requires
        encoded(code),
        code.len() > 0,
    ensures
        encoded(code.drop_last()),
{
    let shorter = code.drop_last();
    assert forall|i: int| 0 <= i < shorter.len() implies #[trigger] counted_at(shorter, i) by {
        assert(counted_at(code, i));
    }
    assert forall|i: int| 0 <= i < shorter.len() implies #[trigger] unmerged_at(shorter, i) by {
        assert(unmerged_at(code, i));
    }
}

/// The last run of an encoded list is no shorter than that of another encoded
/// list with the same expansion.
proof fn lemma_last_run_is_whole(c: Seq<InstructionView>, d: Seq<InstructionView>)
    requires
        encoded(c),
        encoded(d),
        expansion(c) == expansion(d),
        c.len() > 0,
        d.len() > 0,
    ensures
        c.last().repeat >= d.last().repeat,
{
    assert(counted_at(c, c.len() - 1));
    assert(counted_at(d, d.len() - 1));
    lemma_expansion_ends_with_last_run(c);
    lemma_expansion_ends_with_last_run(d);
    if c.last().repeat < d.last().repeat {
        // The run of `d` reaches back into what `c` spells before its last instruction.
        let before = c.drop_last();
        let reach = expansion(before).len() - 1;
        assert(expansion(d)[reach] == d.last().kind);
        assert(expansion(before) =~= expansion(c).take(expansion(before).len() as int));
        assert(expansion(before)[reach] == expansion(c)[reach]);
        if before.len() == 0 {
            assert(expansion(before).len() == 0);
        } else {
            assert(counted_at(c, c.len() - 2));
            lemma_expansion_ends_with_last_run(before);
            assert(unmerged_at(c, c.len() - 1));
        }
    }
}

/// An encoded list is determined, in its kinds and counts, by its expansion.
proof fn lemma_encoding_is_unique(c: Seq<InstructionView>, d: Seq<InstructionView>)
    requires
        encoded(c),
        encoded(d),
        expansion(c) == expansion(d),
    ensures
        c.len() == d.len(),
        forall|i: int|
            0 <= i < c.len() ==> (#[trigger] c[i]).kind == d[i].kind && c[i].repeat == d[i].repeat,
    decreases c.len(),
{
    if c.len() == 0 {
        if d.len() > 0 {
            assert(counted_at(d, d.len() - 1));
            lemma_expansion_ends_with_last_run(d);
        }
    } else if d.len() == 0 {
        assert(counted_at(c, c.len() - 1));
        lemma_expansion_ends_with_last_run(c);
    } else {
        assert(counted_at(c, c.len() - 1));
        assert(counted_at(d, d.len() - 1));
        lemma_last_run_is_whole(c, d);
        lemma_last_run_is_whole(d, c);
        lemma_expansion_ends_with_last_run(c);
        lemma_expansion_ends_with_last_run(d);
        lemma_encoded_without_last(c);
        lemma_encoded_without_last(d);
        lemma_encoding_is_unique(c.drop_last(), d.drop_last());
        assert forall|i: int| 0 <= i < c.len() implies (#[trigger] c[i]).kind == d[i].kind
            && c[i].repeat == d[i].repeat by {
            if i < c.len() - 1 {
                assert(c.drop_last()[i] == c[i]);
                assert(d.drop_last()[i] == d[i]);
            }
        }
    }
}

/// The loop starts that wait for their loop end after the first `k`
/// instructions, the innermost last: each loop start joins them, and each
/// loop end lets the innermost go.
spec fn waiting(code: Seq<InstructionView>, k: int) -> Seq<int>
    decreases k,
{
    if k <= 0 {
        Seq::empty()
    } else {
        let before = waiting(code, k - 1);
        match code[k - 1].kind {
            InstructionKind::LoopStart => before.push(k - 1),
            InstructionKind::LoopEnd => if before.len() > 0 {
                before.drop_last()
            } else {
                before
            },
            _ => before,
        }
    }
}

/// The loop that starts at `i` is open after the first `k` instructions.
spec fn open_at(code: Seq<InstructionView>, k: int, i: int) -> bool {
    0 <= i < k && code[i].kind == InstructionKind::LoopStart && partner(code, i) >= k
}

/// Who waits depends on the kinds of the instructions only.
proof fn lemma_waiting_looks_at_kinds(c: Seq<InstructionView>, d: Seq<InstructionView>, k: int)
    requires
        c.len() == d.len(),
        k <= c.len(),
        forall|i: int| 0 <= i < c.len() ==> (#[trigger] c[i]).kind == d[i].kind,
    ensures
        waiting(c, k) == waiting(d, k),
    decreases k,
{
    if k > 0 {
        lemma_waiting_looks_at_kinds(c, d, k - 1);
    }
}

/// In a program the loop starts that wait are the loops that are open, and a
/// loop end is paired with the innermost of them.
proof fn lemma_waiting_are_the_open_loops(code: Seq<InstructionView>, k: int)
    requires
        well_formed(code),
        0 <= k <= code.len(),
    ensures
        forall|a: int, b: int|
            0 <= a < b < waiting(code, k).len() ==> waiting(code, k)[a] < waiting(code, k)[b],
        forall|a: int|
            0 <= a < waiting(code, k).len() ==> open_at(code, k, #[trigger] waiting(code, k)[a]),
        forall|i: int| #[trigger] open_at(code, k, i) ==> waiting(code, k).contains(i),
        k < code.len() && code[k].kind == InstructionKind::LoopEnd ==> waiting(code, k).len() > 0
            && waiting(code, k).last() == partner(code, k),
    decreases k,
{
    let now = waiting(code, k);
    if k > 0 {
        lemma_waiting_are_the_open_loops(code, k - 1);
        let before = waiting(code, k - 1);
        assert(matched_at(code, k - 1));
        assert forall|a: int| 0 <= a < now.len() implies open_at(code, k, #[trigger] now[a]) by {
            if a < before.len() {
                assert(open_at(code, k - 1, before[a]));
                assert(matched_at(code, before[a]));
            }
        }
        assert forall|i: int| #[trigger] open_at(code, k, i) implies now.contains(i) by {
            if i < k - 1 {
                assert(open_at(code, k - 1, i));
                let a = choose|a: int| 0 <= a < before.len() && before[a] == i;
                assert(now[a] == i);
            } else {
                assert(now[now.len() - 1] == i);
            }
        }
    }
    if k < code.len() && code[k].kind == InstructionKind::LoopEnd {
        assert(matched_at(code, k));
        let start = partner(code, k);
        assert(open_at(code, k, start));
        let innermost = now.last();
        assert(open_at(code, k, now[now.len() - 1]));
        if innermost != start {
            let a = choose|a: int| 0 <= a < now.len() && now[a] == start;
            assert(now[a] < now[now.len() - 1]);
            assert(matched_at(code, innermost));
            assert(nested_at(code, start, innermost));
        }
    }
}

/// A program is determined by the operators that it spells: there are no two
/// programs with the same expansion.
pub proof fn law_program_is_determined_by_its_operators(
    c: Seq<InstructionView>,
    d: Seq<InstructionView>,
)
    requires
        well_formed(c),
        well_formed(d),
        expansion(c) == expansion(d),
    ensures
        c == d,
{
    lemma_encoding_is_unique(c, d);
    assert forall|i: int| 0 <= i < c.len() implies c[i] == d[i] by {
        assert(counted_at(c, i));
        assert(counted_at(d, i));
        assert(matched_at(c, i));
        assert(matched_at(d, i));
        if c[i].kind == InstructionKind::LoopEnd {
            lemma_waiting_are_the_open_loops(c, i);
            lemma_waiting_are_the_open_loops(d, i);
            lemma_waiting_looks_at_kinds(c, d, i);
        } else if c[i].kind == InstructionKind::LoopStart {
            let end = partner(c, i);
            lemma_waiting_are_the_open_loops(c, end);
            lemma_waiting_are_the_open_loops(d, end);
            lemma_waiting_looks_at_kinds(c, d, end);
            assert(matched_at(d, end));
        }
    }
    assert(c =~= d);
}

/// A run of operators that are no loop markers leaves the depth as it is.
proof fn lemma_depth_after_counted_run(ops: Seq<InstructionKind>, kind: InstructionKind, times: nat)
    requires
        !kind.is_loop_marker(),
    ensures
        depth(ops + Seq::new(times, |i: int| kind)) == depth(ops),
    decreases times,
{
    let run = Seq::new(times, |i: int| kind);
    if times == 0 {
        assert(ops + run =~= ops);
    } else {
        let shorter = Seq::new((times - 1) as nat, |i: int| kind);
        assert((ops + run).drop_last() =~= ops + shorter);
        lemma_depth_after_counted_run(ops, kind, (times - 1) as nat);
    }
}

/// What the first `k` instructions of a program spell is as deep as loop
/// starts wait, and no beginning of it is deeper than nothing.
proof fn lemma_depth_counts_open_loops(code: Seq<InstructionView>, k: int)
    requires
        well_formed(code),
        0 <= k <= code.len(),
    ensures
        depth(expansion(code.take(k))) == waiting(code, k).len(),
        forall|n: int|
            0 <= n <= expansion(code.take(k)).len() ==> #[trigger] depth(
                expansion(code.take(k)).take(n),
            ) >= 0,
    decreases k,
{
    let longer = expansion(code.take(k));
    if k == 0 {
        assert forall|n: int| 0 <= n <= longer.len() implies #[trigger] depth(longer.take(n))
            >= 0 by {
            assert(longer.take(n) =~= longer);
        }
    } else {
        lemma_depth_counts_open_loops(code, k - 1);
        lemma_waiting_are_the_open_loops(code, k - 1);
        assert(code.take(k).drop_last() =~= code.take(k - 1));
        assert(counted_at(code, k - 1));
        let shorter = expansion(code.take(k - 1));
        let kind = code[k - 1].kind;
        let run = Seq::new(code[k - 1].repeat, |i: int| kind);
        assert(longer == shorter + run);
        assert(shorter.take(shorter.len() as int) =~= shorter);
        if kind.is_loop_marker() {
            assert(longer.drop_last() =~= shorter);
        } else {
            lemma_depth_after_counted_run(shorter, kind, code[k - 1].repeat);
        }
        assert forall|n: int| 0 <= n <= longer.len() implies #[trigger] depth(longer.take(n))
            >= 0 by {
            if n <= shorter.len() {
                assert(longer.take(n) =~= shorter.take(n));
            } else if kind.is_loop_marker() {
                assert(longer.take(n) =~= longer);
            } else {
                let part = (n - shorter.len()) as nat;
                assert(longer.take(n) =~= shorter + Seq::new(part, |i: int| kind));
                lemma_depth_after_counted_run(shorter, kind, part);
            }
        }
    }
}

/// The operators that a program spells are balanced and properly nested.
pub proof fn law_program_spells_balanced_operators(code: Seq<InstructionView>)
    requires
        well_formed(code),
    ensures
        balanced(expansion(code)),
{
    let all = code.len() as int;
    lemma_depth_counts_open_loops(code, all);
    lemma_waiting_are_the_open_loops(code, all);
    assert(code.take(all) =~= code);
    if waiting(code, all).len() > 0 {
        let start = waiting(code, all)[0];
        assert(open_at(code, all, start));
        assert(matched_at(code, start));
    }
}

/// What a text compiles to is the only program that spells its operators,
/// and a text that does not compile has no such program: a text compiles to
/// a list of instructions exactly if that list is a program whose expansion
/// is the operators of the text.
pub proof fn law_compiled_is_the_only_program(text: Seq<char>, code: Seq<InstructionView>)
    ensures
        compiled(text) == Ok::<Seq<InstructionView>, SyntaxError>(code) <==> well_formed(code)
            && expansion(code) == operators(text),
{
    law_balanced_text_compiles(text);
    if well_formed(code) && expansion(code) == operators(text) {
        law_program_spells_balanced_operators(code);
        law_program_is_determined_by_its_operators(compiled(text)->Ok_0, code);
    }
}

} // verus!
