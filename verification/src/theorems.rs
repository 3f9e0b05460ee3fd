//! What holds of every classification, proved from the definitions that the
//! contracts of the analyzers use.

use vstd::prelude::*;
use crate::base_case::base_case_reachable;
use crate::calls::{calls_of, lemma_sole_call, lemma_statement_call, only_calls, sole_call};
use crate::classifier::{classification, halting, lacks_base_case, loopy, ParadoxError, Verdict};
use crate::iteration::{
    has_endless_loop, loops_in_expr, loops_in_exprs, loops_in_stmt, loops_in_stmts,
};
use crate::paradox::{entry_point, is_self_query, paradoxical};
use crate::recursion::{
    calls_name, is_trace, lemma_no_sites, lemma_own_site, lemma_reached_site, link, reaches,
    recursion_sites, steps_to,
};
use crate::registry::Registry;
use crate::syntax::{ExprView, FnView, FunctionDefinition, NameView, StmtView};

verus! {

/// A body without calls reaches no definition.
pub proof fn lemma_no_calls_no_reach(reg: Seq<FnView>, target: NameView, from: Seq<StmtView>, j: int)
    requires
        calls_of(from).len() == 0,
    ensures
        !reaches(reg, target, from, j),
{
    assert forall|path: Seq<int>| !(#[trigger] is_trace(reg, target, from, path)) by {
        if is_trace(reg, target, from, path) {
            assert(steps_to(reg, target, from, path[0]));
        }
    }
}

/// A recursion site that no conditional encloses makes the function loopy:
/// here the site stands in the function's own body.
pub proof fn lemma_unguarded_direct_recursion(f: FnView, reg: Seq<FnView>, c: int)
    requires
        0 <= c < calls_of(f.body).len(),
        calls_of(f.body)[c].callee == f.name,
        calls_of(f.body)[c].alternatives.len() == 0,
    ensures
        lacks_base_case(f, reg),
        loopy(f, reg),
{
    let i = lemma_own_site(reg, f.name, f.body, c);
    assert(!base_case_reachable(recursion_sites(f, reg)[i], f.name, reg));
}

/// A recursion site that no conditional encloses makes the function loopy:
/// here the site stands in a definition that the function reaches.
pub proof fn lemma_unguarded_indirect_recursion(f: FnView, reg: Seq<FnView>, j: int, c: int)
    requires
        0 <= j < reg.len(),
        reaches(reg, f.name, f.body, j),
        0 <= c < calls_of(reg[j].body).len(),
        calls_of(reg[j].body)[c].callee == f.name,
        calls_of(reg[j].body)[c].alternatives.len() == 0,
    ensures
        lacks_base_case(f, reg),
        loopy(f, reg),
{
    let i = lemma_reached_site(reg, f.name, f.body, j, c);
    assert(!base_case_reachable(recursion_sites(f, reg)[i], f.name, reg));
}

/// A function with an empty body halts, whatever the registry holds.
pub proof fn lemma_empty_body_halts(f: FnView, reg: Seq<FnView>)
    requires
        f.body.len() == 0,
    ensures
        classification(f, reg) == Ok::<Verdict, ParadoxError>(Verdict::Halts),
        halting(f, reg) == Ok::<bool, ParadoxError>(true),
{
    lemma_body_without_calls_or_loops(f, reg);
}

proof fn lemma_body_without_calls_or_loops(f: FnView, reg: Seq<FnView>)
    requires
        f.body.len() == 0,
    ensures
        !paradoxical(f.body),
        !loopy(f, reg),
{
    assert(calls_of(f.body).len() == 0);
    assert forall|j: int| !(#[trigger] reaches(reg, f.name, f.body, j)) by {
        lemma_no_calls_no_reach(reg, f.name, f.body, j);
    }
    lemma_no_sites(reg, f.name, f.body);
    assert(loops_in_stmts(f.body).len() == 0);
}

/// A function whose sole statement is a call of itself loops, unless the
/// call makes it a paradox.
pub proof fn lemma_sole_self_call_loops(f: FnView, reg: Seq<FnView>, args: Seq<ExprView>)
    requires
        f.body == sole_call(f.name, args),
        !paradoxical(f.body),
    ensures
        classification(f, reg) == Ok::<Verdict, ParadoxError>(Verdict::Loops),
        halting(f, reg) == Ok::<bool, ParadoxError>(false),
{
    lemma_sole_call(f.name, args);
    lemma_unguarded_direct_recursion(f, reg, 0);
}

/// A chain of calls that starts in `f` and ends in a definition with a call
/// of `f` that no conditional encloses makes `f` loop, however long the chain
/// is.
pub proof fn lemma_call_cycle_loops(f: FnView, reg: Seq<FnView>, path: Seq<int>, c: int)
    requires
        !paradoxical(f.body),
        is_trace(reg, f.name, f.body, path),
        0 <= c < calls_of(reg[path.last()].body).len(),
        calls_of(reg[path.last()].body)[c].callee == f.name,
        calls_of(reg[path.last()].body)[c].alternatives.len() == 0,
    ensures
        classification(f, reg) == Ok::<Verdict, ParadoxError>(Verdict::Loops),
        halting(f, reg) == Ok::<bool, ParadoxError>(false),
{
    let last = path.last();
    if path.len() > 1 {
        assert(link(reg, f.name, path, path.len() - 2));
    }
    assert(reaches(reg, f.name, f.body, last));
    lemma_unguarded_indirect_recursion(f, reg, last, c);
}

/// Three functions that call each other in a cycle loop, whatever else they
/// do: `f` calls the definition at `g`, that one calls the one at `h`, and
/// that one holds a call of `f` that no conditional encloses.
pub proof fn lemma_cycle_of_three_loops(f: FnView, reg: Seq<FnView>, g: int, h: int, c: int)
    requires
        0 <= g < reg.len(),
        0 <= h < reg.len(),
        reg[g].name != f.name,
        reg[h].name != f.name,
        calls_name(calls_of(f.body), reg[g].name),
        calls_name(calls_of(reg[g].body), reg[h].name),
        0 <= c < calls_of(reg[h].body).len(),
        calls_of(reg[h].body)[c].callee == f.name,
        calls_of(reg[h].body)[c].alternatives.len() == 0,
        !paradoxical(f.body),
    ensures
        classification(f, reg) == Ok::<Verdict, ParadoxError>(Verdict::Loops),
        halting(f, reg) == Ok::<bool, ParadoxError>(false),
{
    let path = seq![g, h];
    assert(steps_to(reg, f.name, f.body, g));
    assert(steps_to(reg, f.name, reg[g].body, h));
    assert forall|k: int| 0 <= k < path.len() - 1 implies #[trigger] link(reg, f.name, path, k) by {
        assert(k == 0);
    }
    assert(is_trace(reg, f.name, f.body, path));
    lemma_call_cycle_loops(f, reg, path, c);
}

/// Three functions that call each other in a cycle, each by its sole
/// statement, loop: `f` calls the definition at `g`, that one calls the one
/// at `h`, and that one calls `f`.
pub proof fn lemma_three_cycle_loops(
    f: FnView,
    reg: Seq<FnView>,
    g: int,
    h: int,
    args_f: Seq<ExprView>,
    args_g: Seq<ExprView>,
    args_h: Seq<ExprView>,
)
    requires
        0 <= g < reg.len(),
        0 <= h < reg.len(),
        reg[g].name != f.name,
        reg[h].name != f.name,
        f.body == sole_call(reg[g].name, args_f),
        reg[g].body == sole_call(reg[h].name, args_g),
        reg[h].body == sole_call(f.name, args_h),
        !paradoxical(f.body),
    ensures
        classification(f, reg) == Ok::<Verdict, ParadoxError>(Verdict::Loops),
        halting(f, reg) == Ok::<bool, ParadoxError>(false),
{
    lemma_sole_call(reg[g].name, args_f);
    lemma_sole_call(reg[h].name, args_g);
    lemma_sole_call(f.name, args_h);
    assert(calls_of(f.body)[0].callee == reg[g].name);
    assert(calls_of(reg[g].body)[0].callee == reg[h].name);
    lemma_cycle_of_three_loops(f, reg, g, h, 0);
}

/// A chain of calls that ends halts, whatever else the functions do: every
/// call of `a` names `b`, which is neither `a` nor the entry point; `a` holds
/// no loop; every call of every definition of `b` names `c`, which is not
/// `a`; and no definition of `c` calls anything.
pub proof fn lemma_call_chain_halts(a: FnView, reg: Seq<FnView>, b: NameView, c: NameView)
    requires
        only_calls(a.body, b),
        b != a.name,
        b != entry_point(),
        c != a.name,
        loops_in_stmts(a.body).len() == 0,
        forall|j: int| 0 <= j < reg.len() && (#[trigger] reg[j]).name == b ==> only_calls(reg[j].body, c),
        forall|j: int|
            0 <= j < reg.len() && (#[trigger] reg[j]).name == c ==> calls_of(reg[j].body).len()
                == 0,
    ensures
        classification(a, reg) == Ok::<Verdict, ParadoxError>(Verdict::Halts),
        halting(a, reg) == Ok::<bool, ParadoxError>(true),
{
    assert(!paradoxical(a.body));
    assert(!calls_name(calls_of(a.body), a.name));
    assert forall|j: int|
        0 <= j < reg.len() && #[trigger] reaches(reg, a.name, a.body, j) implies !calls_name(
        calls_of(reg[j].body),
        a.name,
    ) by {
        let path = choose|path: Seq<int>| #[trigger]
            is_trace(reg, a.name, a.body, path) && path.last() == j;
        assert(steps_to(reg, a.name, a.body, path[0]));
        assert(reg[path[0]].name == b);
        assert(only_calls(reg[path[0]].body, c));
        if path.len() > 1 {
            assert(link(reg, a.name, path, 0));
            assert(reg[path[1]].name == c);
            if path.len() > 2 {
                assert(link(reg, a.name, path, 1));
                assert(false);
            }
        }
    }
    lemma_no_sites(reg, a.name, a.body);
    assert(!lacks_base_case(a, reg));
    assert(!has_endless_loop(a.body));
}

/// A straight chain of calls halts: `a` does nothing but call `b`, every
/// definition of `b` does nothing but call `c`, and no definition of `c`
/// calls anything.
pub proof fn lemma_straight_chain_halts(a: FnView, reg: Seq<FnView>, b: NameView, c: NameView)
    requires
        a.body == sole_call(b, Seq::empty()),
        b != a.name,
        c != a.name,
        forall|j: int|
            0 <= j < reg.len() && (#[trigger] reg[j]).name == b ==> reg[j].body == sole_call(
                c,
                Seq::empty(),
            ),
        forall|j: int|
            0 <= j < reg.len() && (#[trigger] reg[j]).name == c ==> calls_of(reg[j].body).len()
                == 0,
    ensures
        classification(a, reg) == Ok::<Verdict, ParadoxError>(Verdict::Halts),
        halting(a, reg) == Ok::<bool, ParadoxError>(true),
{
    lemma_sole_call(b, Seq::empty());
    lemma_sole_call(c, Seq::empty());
    let own = calls_of(a.body);
    assert(own.len() == 1);
    assert(own[0].args.len() == 0);
    assert(!paradoxical(a.body));
    assert(!calls_name(own, a.name));
    assert forall|j: int|
        0 <= j < reg.len() && #[trigger] reaches(reg, a.name, a.body, j) implies !calls_name(
        calls_of(reg[j].body),
        a.name,
    ) by {
        let path = choose|path: Seq<int>| #[trigger]
            is_trace(reg, a.name, a.body, path) && path.last() == j;
        assert(steps_to(reg, a.name, a.body, path[0]));
        assert(reg[path[0]].name == b);
        if path.len() == 1 {
            assert(calls_of(reg[j].body)[0].callee == c);
        } else {
            assert(link(reg, a.name, path, 0));
            assert(reg[path[1]].name == c);
            if path.len() > 2 {
                assert(link(reg, a.name, path, 1));
                assert(false);
            }
        }
    }
    lemma_no_sites(reg, a.name, a.body);
    assert(!lacks_base_case(a, reg));
    assert(a.body.drop_last() =~= Seq::empty());
    assert(loops_in_stmts(a.body.drop_last()) =~= Seq::empty());
    assert(loops_in_exprs(Seq::empty()) =~= Seq::empty());
    assert(a.body.last() == StmtView::Expression(ExprView::Call { callee: b, args: Seq::empty() }));
    assert(loops_in_stmt(a.body.last()) =~= Seq::empty()) by {
        assert(loops_in_expr(ExprView::Call { callee: b, args: Seq::empty() }) =~= loops_in_exprs(
            Seq::empty(),
        ));
    }
    assert(loops_in_stmts(a.body) =~= Seq::empty());
    assert(!has_endless_loop(a.body));
}

/// A function with a statement that calls the classifier's entry point on a
/// function is an inversion paradox, whatever else it does.
pub proof fn lemma_self_query_is_paradox(f: FnView, reg: Seq<FnView>, i: int)
    requires
        0 <= i < f.body.len(),
        f.body[i] is Expression,
        f.body[i]->Expression_0 is Call,
        f.body[i]->Expression_0->callee == entry_point(),
        f.body[i]->Expression_0->args.len() > 0,
    ensures
        classification(f, reg) == Err::<Verdict, ParadoxError>(ParadoxError::InversionParadox),
        halting(f, reg) == Err::<bool, ParadoxError>(ParadoxError::InversionParadox),
{
    let c = lemma_statement_call(f.body, Seq::empty(), i);
    assert(is_self_query(calls_of(f.body)[c]));
}

/// Classifying again gives the same result: two outcomes that both meet the
/// contract of the classifier, for functions and registries with the same
/// views, are equal.
pub proof fn lemma_classification_repeats(
    f: FunctionDefinition,
    f_again: FunctionDefinition,
    registry: Registry,
    registry_again: Registry,
    first: Result<Verdict, ParadoxError>,
    second: Result<Verdict, ParadoxError>,
)
    requires
        f@ == f_again@,
        registry@ == registry_again@,
        first == classification(f@, registry@),
        second == classification(f_again@, registry_again@),
    ensures
        first == second,
{
}

/// Asking the entry point again gives the same answer.
pub proof fn lemma_halting_repeats(
    f: FunctionDefinition,
    f_again: FunctionDefinition,
    registry: Registry,
    registry_again: Registry,
    first: Result<bool, ParadoxError>,
    second: Result<bool, ParadoxError>,
)
    requires
        f@ == f_again@,
        registry@ == registry_again@,
        first == halting(f@, registry@),
        second == halting(f_again@, registry_again@),
    ensures
        first == second,
{
}

} // verus!
