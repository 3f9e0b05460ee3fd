//! The iteration analyzer: the loops of a body, and which of them never end.
//!
//! A loop is endless when nothing tests whether to go on and nothing in its
//! body leaves it. What leaves a loop is a `Return` anywhere in its body, or a
//! `Break` that is not inside a loop nested in it. Statements of nested
//! function definitions belong to another function and are never counted.

use vstd::prelude::*;
use crate::syntax::{
    branches_view, exprs_view, stmts_view, Boundedness, Expr, ExprView, FunctionDefinition,
    Statement, StmtView,
};

verus! {

/// Some statement of `stmts` leaves the loop around them. `inner` says that
/// the statements stand inside a loop nested in that loop, where a `Break`
/// leaves only the nested one.
pub open spec fn has_exit(stmts: Seq<StmtView>, inner: bool) -> bool
    decreases stmts, 0nat,
{
    exists|i: int| 0 <= i < stmts.len() && stmt_has_exit(#[trigger] stmts[i], inner)
}

/// The statement leaves the loop around it, or holds a statement that does.
pub open spec fn stmt_has_exit(stmt: StmtView, inner: bool) -> bool
    decreases stmt, 0nat,
{
    match stmt {
        StmtView::Return => true,
        StmtView::Break => !inner,
        StmtView::Expression(e) => expr_has_exit(e, inner),
        _ => false,
    }
}

/// The expression holds a statement that leaves the loop around it.
pub open spec fn expr_has_exit(e: ExprView, inner: bool) -> bool
    decreases e, 0nat,
{
    match e {
        ExprView::Call { callee, args } => exists|i: int|
            0 <= i < args.len() && expr_has_exit(#[trigger] args[i], inner),
        ExprView::Loop { boundedness, body } => has_exit(body, true),
        ExprView::Conditional { branches } => exists|k: int|
            0 <= k < branches.len() && has_exit(#[trigger] branches[k], inner),
        _ => false,
    }
}

/// The expression is a loop that never ends: it is unconditional and nothing
/// in its body leaves it.
pub open spec fn is_endless(e: ExprView) -> bool {
    match e {
        ExprView::Loop { boundedness, body } => boundedness == Boundedness::Unconditional
            && !has_exit(body, false),
        _ => false,
    }
}

/// The loops of a statement list, in source order, an outer loop before the
/// loops inside it.
pub open spec fn loops_in_stmts(stmts: Seq<StmtView>) -> Seq<ExprView>
    decreases stmts, 0nat,
{
    if stmts.len() == 0 {
        Seq::empty()
    } else {
        loops_in_stmts(stmts.drop_last()) + loops_in_stmt(stmts.last())
    }
}

/// The loops of one statement.
pub open spec fn loops_in_stmt(stmt: StmtView) -> Seq<ExprView>
    decreases stmt, 0nat,
{
    match stmt {
        StmtView::Expression(e) => loops_in_expr(e),
        _ => Seq::empty(),
    }
}

/// The loops of one expression.
pub open spec fn loops_in_expr(e: ExprView) -> Seq<ExprView>
    decreases e, 0nat,
{
    match e {
        ExprView::Call { callee, args } => loops_in_exprs(args),
        ExprView::Loop { boundedness, body } => seq![e] + loops_in_stmts(body),
        ExprView::Conditional { branches } => loops_in_branches(branches, branches.len()),
        _ => Seq::empty(),
    }
}

/// The loops of a list of expressions.
pub open spec fn loops_in_exprs(es: Seq<ExprView>) -> Seq<ExprView>
    decreases es, 0nat,
{
    if es.len() == 0 {
        Seq::empty()
    } else {
        loops_in_exprs(es.drop_last()) + loops_in_expr(es.last())
    }
}

/// The loops of the first `n` branches of a conditional.
pub open spec fn loops_in_branches(branches: Seq<Seq<StmtView>>, n: nat) -> Seq<ExprView>
    decreases branches, n,
{
    if n == 0 || n > branches.len() {
        Seq::empty()
    } else {
        loops_in_branches(branches, (n - 1) as nat) + loops_in_stmts(branches[n - 1])
    }
}

/// Some loop of the body never ends.
pub open spec fn has_endless_loop(body: Seq<StmtView>) -> bool {
    exists|i: int|
        0 <= i < loops_in_stmts(body).len() && is_endless(#[trigger] loops_in_stmts(body)[i])
}

/// The views of a list of expressions held by reference.
pub open spec fn expr_refs_view(s: Seq<&Expr>) -> Seq<ExprView> {
    Seq::new(s.len(), |i: int| s[i]@)
}

proof fn lemma_argument_exit(e: ExprView, inner: bool, i: int)
    requires
        e is Call,
        0 <= i < e->args.len(),
        expr_has_exit(e->args[i], inner),
    ensures
        expr_has_exit(e, inner),
{
}

proof fn lemma_branch_exit(e: ExprView, inner: bool, k: int)
    requires
        e is Conditional,
        0 <= k < e->branches.len(),
        has_exit(e->branches[k], inner),
    ensures
        expr_has_exit(e, inner),
{
}

#[verifier::loop_isolation(false)]
fn stmts_have_exit(stmts: &Vec<Statement>, inner: bool) -> (found: bool)
    ensures
        found == has_exit(stmts_view(stmts@), inner),
    decreases stmts,
{
    let ghost sv = stmts_view(stmts@);
    let mut i: usize = 0;
    while i < stmts.len()
        invariant
            i <= stmts.len(),
            forall|k: int| 0 <= k < i ==> !stmt_has_exit(#[trigger] sv[k], inner),
        decreases stmts.len() - i,
    {
        let leaves = match &stmts[i] {
            Statement::Return => true,
            Statement::Break => !inner,
            Statement::Expression(e) => expr_has_exit_exec(e, inner),
            _ => false,
        };
        assert(sv[i as int] == stmts@[i as int]@);
        if leaves {
            return true;
        }
        i += 1;
    }
    false
}

#[verifier::loop_isolation(false)]
fn expr_has_exit_exec(e: &Expr, inner: bool) -> (found: bool)
    ensures
        found == expr_has_exit(e@, inner),
    decreases e,
{
    match e {
        Expr::Call { callee, args } => {
            let ghost av = exprs_view(args@);
            let mut i: usize = 0;
            while i < args.len()
                invariant
                    i <= args.len(),
                    forall|k: int| 0 <= k < i ==> !expr_has_exit(#[trigger] av[k], inner),
                decreases args.len() - i,
            {
                assert(av[i as int] == args@[i as int]@);
                if expr_has_exit_exec(&args[i], inner) {
                    proof {
                        lemma_argument_exit(e@, inner, i as int);
                    }
                    return true;
                }
                i += 1;
            }
            false
        },
        Expr::Loop { boundedness, body } => stmts_have_exit(body, true),
        Expr::Conditional { branches } => {
            let ghost bv = branches_view(branches@);
            let mut k: usize = 0;
            while k < branches.len()
                invariant
                    k <= branches.len(),
                    forall|j: int| 0 <= j < k ==> !has_exit(#[trigger] bv[j], inner),
                decreases branches.len() - k,
            {
                assert(bv[k as int] == stmts_view(branches@[k as int]@));
                if stmts_have_exit(&branches[k], inner) {
                    proof {
                        lemma_branch_exit(e@, inner, k as int);
                    }
                    return true;
                }
                k += 1;
            }
            false
        },
        _ => false,
    }
}

/// Whether `iteration` is a loop that never ends: an unconditional loop with
/// no `Break` of its own and no `Return` in its body. Anything that is not a
/// loop is not endless.
pub fn is_endless_loop(iteration: &Expr) -> (endless: bool)
    ensures
        endless == is_endless(iteration@),
{
    match iteration {
        Expr::Loop { boundedness, body } => {
            match boundedness {
                Boundedness::Unconditional => !stmts_have_exit(body, false),
                _ => false,
            }
        },
        _ => false,
    }
}

#[verifier::loop_isolation(false)]
fn collect_loops_stmts<'a>(stmts: &'a Vec<Statement>, out: &mut Vec<&'a Expr>)
    ensures
        expr_refs_view(final(out)@) == expr_refs_view(old(out)@) + loops_in_stmts(
            stmts_view(stmts@),
        ),
    decreases stmts,
{
    let ghost sv = stmts_view(stmts@);
    let ghost start = expr_refs_view(out@);
    let mut i: usize = 0;
    assert(expr_refs_view(out@) =~= start + loops_in_stmts(sv.take(0)));
    while i < stmts.len()
        invariant
            i <= stmts.len(),
            expr_refs_view(out@) == start + loops_in_stmts(sv.take(i as int)),
        decreases stmts.len() - i,
    {
        let ghost before = expr_refs_view(out@);
        match &stmts[i] {
            Statement::Expression(e) => {
                collect_loops_expr(e, out);
            },
            _ => {
                assert(expr_refs_view(out@) =~= before + loops_in_stmt(sv[i as int]));
            },
        }
        proof {
            assert(sv[i as int] == stmts@[i as int]@);
            assert(expr_refs_view(out@) == before + loops_in_stmt(sv[i as int]));
            assert(sv.take(i + 1).drop_last() =~= sv.take(i as int));
            assert(sv.take(i + 1).last() == sv[i as int]);
            assert(loops_in_stmts(sv.take(i + 1)) == loops_in_stmts(sv.take(i as int))
                + loops_in_stmt(sv[i as int]));
            assert(expr_refs_view(out@) =~= start + loops_in_stmts(sv.take(i + 1)));
        }
        i += 1;
    }
    assert(sv.take(stmts.len() as int) =~= sv);
}

#[verifier::loop_isolation(false)]
fn collect_loops_expr<'a>(e: &'a Expr, out: &mut Vec<&'a Expr>)
    ensures
        expr_refs_view(final(out)@) == expr_refs_view(old(out)@) + loops_in_expr(e@),
    decreases e,
{
    let ghost start = expr_refs_view(out@);
    match e {
        Expr::Call { callee, args } => {
            let ghost ev = exprs_view(args@);
            let mut i: usize = 0;
            assert(expr_refs_view(out@) =~= start + loops_in_exprs(ev.take(0)));
            while i < args.len()
                invariant
                    i <= args.len(),
                    expr_refs_view(out@) == start + loops_in_exprs(ev.take(i as int)),
                decreases args.len() - i,
            {
                collect_loops_expr(&args[i], out);
                proof {
                    assert(ev.take(i + 1).drop_last() =~= ev.take(i as int));
                    assert(ev.take(i + 1).last() == ev[i as int]);
                    assert(expr_refs_view(out@) =~= start + loops_in_exprs(ev.take(i + 1)));
                }
                i += 1;
            }
            assert(ev.take(args.len() as int) =~= ev);
        },
        Expr::Loop { boundedness, body } => {
            out.push(e);
            assert(expr_refs_view(out@) =~= start + seq![e@]);
            collect_loops_stmts(body, out);
            assert(expr_refs_view(out@) =~= start + loops_in_expr(e@));
        },
        Expr::Conditional { branches } => {
            let ghost bv = branches_view(branches@);
            let mut k: usize = 0;
            assert(expr_refs_view(out@) =~= start + loops_in_branches(bv, 0));
            while k < branches.len()
                invariant
                    k <= branches.len(),
                    expr_refs_view(out@) == start + loops_in_branches(bv, k as nat),
                decreases branches.len() - k,
            {
                collect_loops_stmts(&branches[k], out);
                proof {
                    assert(expr_refs_view(out@) =~= start + loops_in_branches(bv, (k + 1) as nat));
                }
                k += 1;
            }
        },
        _ => {
            assert(expr_refs_view(out@) =~= start + loops_in_expr(e@));
        },
    }
}

/// The loops of `f`'s body, in source order, an outer loop before the loops
/// inside it. Loops of nested function definitions are not among them.
pub fn iter_iterations<'a>(f: &'a FunctionDefinition) -> (iterations: Vec<&'a Expr>)
    ensures
        expr_refs_view(iterations@) == loops_in_stmts(f@.body),
{
    let mut iterations: Vec<&'a Expr> = Vec::new();
    collect_loops_stmts(&f.body, &mut iterations);
    assert(expr_refs_view(iterations@) =~= loops_in_stmts(f@.body));
    iterations
}

/// Whether some loop of `f`'s body never ends.
pub fn find_endless_loops(f: &FunctionDefinition) -> (endless: bool)
    ensures
        endless == has_endless_loop(f@.body),
{
    let iterations = iter_iterations(f);
    let ghost loops = loops_in_stmts(f@.body);
    let mut i: usize = 0;
    while i < iterations.len()
        invariant
            i <= iterations.len(),
            expr_refs_view(iterations@) == loops,
            loops == loops_in_stmts(f@.body),
            forall|k: int| 0 <= k < i ==> !is_endless(#[trigger] loops[k]),
        decreases iterations.len() - i,
    {
        assert(loops[i as int] == iterations@[i as int]@);
        if is_endless_loop(iterations[i]) {
            return true;
        }
        i += 1;
    }
    false
}

} // verus!

