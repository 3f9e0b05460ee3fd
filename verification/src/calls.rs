//! Call sites: every call expression of a body, with the branches it could
//! have taken instead.
//!
//! The walk covers the whole body: statements, loop bodies, the branches of
//! conditionals and the arguments of calls. It never enters a nested function
//! definition, which is a function of its own.

use vstd::prelude::*;
use crate::syntax::{
    branches_view, exprs_view, stmts_view, Expr, ExprView, NameView, QualifiedName, Statement,
    StmtView,
};

verus! {

/// The mathematical model of a [`CallSite`].
pub struct CallView {
    /// The name that is called.
    pub callee: NameView,
    /// The arguments of the call.
    pub args: Seq<ExprView>,
    /// For every conditional that encloses the call, from the outermost in,
    /// the branches of it that do not hold the call.
    pub alternatives: Seq<Seq<StmtView>>,
}

/// A call expression inside a body, together with the sibling branches of the
/// conditionals around it.
pub struct CallSite<'a> {
    pub callee: &'a QualifiedName,
    pub args: &'a Vec<Expr>,
    pub alternatives: Vec<&'a Vec<Statement>>,
}

/// The views of a list of branches held by reference.
pub open spec fn alternatives_view(a: Seq<&Vec<Statement>>) -> Seq<Seq<StmtView>> {
    Seq::new(a.len(), |i: int| stmts_view(a[i]@))
}

impl<'a> View for CallSite<'a> {
    type V = CallView;

    open spec fn view(&self) -> CallView {
        CallView {
            callee: self.callee@,
            args: exprs_view(self.args@),
            alternatives: alternatives_view(self.alternatives@),
        }
    }
}

/// The views of a list of call sites.
pub open spec fn sites_view(s: Seq<CallSite>) -> Seq<CallView> {
    Seq::new(s.len(), |i: int| s[i]@)
}

/// The call sites of a statement list, in source order. `alts` holds the
/// alternatives collected from the conditionals around the list.
pub open spec fn calls_in_stmts(stmts: Seq<StmtView>, alts: Seq<Seq<StmtView>>) -> Seq<CallView>
    decreases stmts, 0nat,
{
    if stmts.len() == 0 {
        Seq::empty()
    } else {
        calls_in_stmts(stmts.drop_last(), alts) + calls_in_stmt(stmts.last(), alts)
    }
}

/// The call sites of one statement. A nested function definition has none:
/// its body belongs to another function.
pub open spec fn calls_in_stmt(stmt: StmtView, alts: Seq<Seq<StmtView>>) -> Seq<CallView>
    decreases stmt, 0nat,
{
    match stmt {
        StmtView::Expression(e) => calls_in_expr(e, alts),
        _ => Seq::empty(),
    }
}

/// The call sites of one expression: a call comes before the calls among its
/// arguments.
pub open spec fn calls_in_expr(e: ExprView, alts: Seq<Seq<StmtView>>) -> Seq<CallView>
    decreases e, 0nat,
{
    match e {
        ExprView::Call { callee, args } => seq![CallView { callee, args, alternatives: alts }]
            + calls_in_exprs(args, alts),
        ExprView::Loop { boundedness, body } => calls_in_stmts(body, alts),
        ExprView::Conditional { branches } => calls_in_branches(branches, branches.len(), alts),
        _ => Seq::empty(),
    }
}

/// The call sites of a list of expressions, in order.
pub open spec fn calls_in_exprs(es: Seq<ExprView>, alts: Seq<Seq<StmtView>>) -> Seq<CallView>
    decreases es, 0nat,
{
    if es.len() == 0 {
        Seq::empty()
    } else {
        calls_in_exprs(es.drop_last(), alts) + calls_in_expr(es.last(), alts)
    }
}

/// The call sites of the first `n` branches of a conditional. A call in one
/// branch has every other branch as an alternative.
pub open spec fn calls_in_branches(
    branches: Seq<Seq<StmtView>>,
    n: nat,
    alts: Seq<Seq<StmtView>>,
) -> Seq<CallView>
    decreases branches, n,
{
    if n == 0 || n > branches.len() {
        Seq::empty()
    } else {
        calls_in_branches(branches, (n - 1) as nat, alts) + calls_in_stmts(
            branches[n - 1],
            alts + branches.remove(n - 1),
        )
    }
}

/// The call sites of a function body.
pub open spec fn calls_of(body: Seq<StmtView>) -> Seq<CallView> {
    calls_in_stmts(body, Seq::empty())
}

/// A body that is one statement, a call of `callee` with `args`.
pub open spec fn sole_call(callee: NameView, args: Seq<ExprView>) -> Seq<StmtView> {
    seq![StmtView::Expression(ExprView::Call { callee, args })]
}

/// Every call of `body` names `callee`.
pub open spec fn only_calls(body: Seq<StmtView>, callee: NameView) -> bool {
    forall|k: int| 0 <= k < calls_of(body).len() ==> (#[trigger] calls_of(body)[k]).callee == callee
}

/// A call that is itself a statement of `stmts` is among the call sites of
/// `stmts`, with the alternatives of the list.
pub proof fn lemma_statement_call(stmts: Seq<StmtView>, alts: Seq<Seq<StmtView>>, i: int) -> (c: int)
    requires
        0 <= i < stmts.len(),
        stmts[i] is Expression,
        stmts[i]->Expression_0 is Call,
    ensures
        0 <= c < calls_in_stmts(stmts, alts).len(),
        calls_in_stmts(stmts, alts)[c] == (CallView {
            callee: stmts[i]->Expression_0->callee,
            args: stmts[i]->Expression_0->args,
            alternatives: alts,
        }),
    decreases stmts.len(),
{
    let head = calls_in_stmts(stmts.drop_last(), alts);
    let tail = calls_in_stmt(stmts.last(), alts);
    assert(calls_in_stmts(stmts, alts) == head + tail);
    if i == stmts.len() - 1 {
        let e = stmts[i]->Expression_0;
        assert(tail == calls_in_expr(e, alts));
        assert(tail[0] == (CallView { callee: e->callee, args: e->args, alternatives: alts }));
        head.len() as int
    } else {
        let c = lemma_statement_call(stmts.drop_last(), alts, i);
        assert((head + tail)[c] == head[c]);
        c
    }
}

/// The call sites of a body that is one call: the call itself, which no
/// conditional encloses, then the calls among its arguments.
pub proof fn lemma_sole_call(callee: NameView, args: Seq<ExprView>)
    ensures
        calls_of(sole_call(callee, args)) == seq![
            CallView { callee, args, alternatives: Seq::empty() },
        ] + calls_in_exprs(args, Seq::empty()),
        calls_in_exprs(Seq::empty(), Seq::empty()) == Seq::<CallView>::empty(),
{
    let body = sole_call(callee, args);
    assert(body.drop_last() =~= Seq::empty());
    assert(calls_in_stmts(body.drop_last(), Seq::empty()) =~= Seq::empty());
    assert(calls_of(body) =~= calls_in_stmt(body.last(), Seq::empty()));
}

/// `alts` followed by every branch but the one at `skip`.
fn with_siblings<'a>(
    alts: &Vec<&'a Vec<Statement>>,
    branches: &'a Vec<Vec<Statement>>,
    skip: usize,
) -> (all: Vec<&'a Vec<Statement>>)
    requires
        skip < branches.len(),
    ensures
        alternatives_view(all@) == alternatives_view(alts@) + branches_view(branches@).remove(
            skip as int,
        ),
{
    let mut all: Vec<&'a Vec<Statement>> = Vec::new();
    let mut i: usize = 0;
    while i < alts.len()
        invariant
            i <= alts.len(),
            all@ == alts@.take(i as int),
        decreases alts.len() - i,
    {
        all.push(alts[i]);
        assert(alts@.take(i + 1) =~= alts@.take(i as int).push(alts@[i as int]));
        i += 1;
    }
    assert(alts@.take(alts.len() as int) =~= alts@);
    let mut j: usize = 0;
    while j < branches.len()
        invariant
            j <= branches.len(),
            skip < branches.len(),
            all@.len() == alts@.len() + (if j <= skip { j as int } else { j - 1 }),
            all@.take(alts@.len() as int) == alts@,
            forall|k: int|
                0 <= k < all@.len() - alts@.len() ==> *(#[trigger] all@[alts@.len() + k])
                    == branches@[if k < skip { k } else { k + 1 }],
        decreases branches.len() - j,
    {
        if j != skip {
            let ghost before = all@;
            all.push(&branches[j]);
            assert(all@.take(alts@.len() as int) =~= before.take(alts@.len() as int));
        }
        j += 1;
    }
    proof {
        let lhs = alternatives_view(all@);
        let rhs = alternatives_view(alts@) + branches_view(branches@).remove(skip as int);
        assert(lhs.len() == rhs.len());
        assert forall|k: int| 0 <= k < lhs.len() implies lhs[k] == rhs[k] by {
            if k < alts@.len() {
                assert(all@[k] == all@.take(alts@.len() as int)[k]);
            } else {
                assert(all@[k] == all@[alts@.len() + (k - alts@.len())]);
            }
        }
        assert(lhs =~= rhs);
    }
    all
}

/// Appends the call sites of `stmts` to `out`.
#[verifier::loop_isolation(false)]
fn collect_stmts<'a>(
    stmts: &'a Vec<Statement>,
    alts: &Vec<&'a Vec<Statement>>,
    out: &mut Vec<CallSite<'a>>,
)
    ensures
        sites_view(final(out)@) == sites_view(old(out)@) + calls_in_stmts(
            stmts_view(stmts@),
            alternatives_view(alts@),
        ),
    decreases stmts,
{
    let ghost sv = stmts_view(stmts@);
    let ghost av = alternatives_view(alts@);
    let mut i: usize = 0;
    assert(sites_view(out@) =~= sites_view(old(out)@) + calls_in_stmts(sv.take(0), av));
    while i < stmts.len()
        invariant
            i <= stmts.len(),
            sites_view(out@) == sites_view(old(out)@) + calls_in_stmts(sv.take(i as int), av),
        decreases stmts.len() - i,
    {
        let ghost before = sites_view(out@);
        match &stmts[i] {
            Statement::Expression(e) => {
                collect_expr(e, alts, out);
            },
            _ => {
                assert(sites_view(out@) =~= before + calls_in_stmt(sv[i as int], av));
            },
        }
        proof {
            assert(sv[i as int] == stmts@[i as int]@);
            assert(sites_view(out@) == before + calls_in_stmt(sv[i as int], av));
            assert(sv.take(i + 1).drop_last() =~= sv.take(i as int));
            assert(sv.take(i + 1).last() == sv[i as int]);
            assert(calls_in_stmts(sv.take(i + 1), av) == calls_in_stmts(sv.take(i as int), av)
                + calls_in_stmt(sv[i as int], av));
            assert(sites_view(out@) =~= sites_view(old(out)@) + calls_in_stmts(sv.take(i + 1), av));
        }
        i += 1;
    }
    assert(sv.take(stmts.len() as int) =~= sv);
}

/// Appends the call sites of `e` to `out`.
#[verifier::loop_isolation(false)]
fn collect_expr<'a>(e: &'a Expr, alts: &Vec<&'a Vec<Statement>>, out: &mut Vec<CallSite<'a>>)
    ensures
        sites_view(final(out)@) == sites_view(old(out)@) + calls_in_expr(
            e@,
            alternatives_view(alts@),
        ),
    decreases e,
{
    let ghost av = alternatives_view(alts@);
    let ghost start = sites_view(out@);
    match e {
        Expr::Call { callee, args } => {
            let mut own: Vec<&'a Vec<Statement>> = Vec::new();
            let mut c: usize = 0;
            while c < alts.len()
                invariant
                    c <= alts.len(),
                    own@ == alts@.take(c as int),
                decreases alts.len() - c,
            {
                own.push(alts[c]);
                assert(alts@.take(c + 1) =~= alts@.take(c as int).push(alts@[c as int]));
                c += 1;
            }
            assert(alts@.take(alts.len() as int) =~= alts@);
            let site = CallSite { callee, args, alternatives: own };
            out.push(site);
            let ghost ev = exprs_view(args@);
            assert(sites_view(out@) =~= start + seq![site@] + calls_in_exprs(ev.take(0), av));
            let mut i: usize = 0;
            while i < args.len()
                invariant
                    i <= args.len(),
                    sites_view(out@) == start + seq![site@] + calls_in_exprs(ev.take(i as int), av),
                decreases args.len() - i,
            {
                collect_expr(&args[i], alts, out);
                proof {
                    assert(ev.take(i + 1).drop_last() =~= ev.take(i as int));
                    assert(ev.take(i + 1).last() == ev[i as int]);
                    assert(sites_view(out@) =~= start + seq![site@] + calls_in_exprs(
                        ev.take(i + 1),
                        av,
                    ));
                }
                i += 1;
            }
            assert(ev.take(args.len() as int) =~= ev);
            assert(sites_view(out@) =~= start + calls_in_expr(e@, av));
        },
        Expr::Loop { boundedness, body } => {
            collect_stmts(body, alts, out);
        },
        Expr::Conditional { branches } => {
            let ghost bv = branches_view(branches@);
            let mut k: usize = 0;
            assert(sites_view(out@) =~= start + calls_in_branches(bv, 0, av));
            while k < branches.len()
                invariant
                    k <= branches.len(),
                    sites_view(out@) == start + calls_in_branches(bv, k as nat, av),
                decreases branches.len() - k,
            {
                let inner = with_siblings(alts, branches, k);
                collect_stmts(&branches[k], &inner, out);
                proof {
                    assert(sites_view(out@) =~= start + calls_in_branches(bv, (k + 1) as nat, av));
                }
                k += 1;
            }
        },
        _ => {
            assert(sites_view(out@) =~= start + calls_in_expr(e@, av));
        },
    }
}

/// Every call expression of `body`, in source order, each with the branches
/// that stand beside it in the conditionals around it.
pub fn call_sites<'a>(body: &'a Vec<Statement>) -> (sites: Vec<CallSite<'a>>)
    ensures
        sites_view(sites@) == calls_of(stmts_view(body@)),
{
    let alts: Vec<&'a Vec<Statement>> = Vec::new();
    let mut sites: Vec<CallSite<'a>> = Vec::new();
    assert(alternatives_view(alts@) =~= Seq::empty());
    collect_stmts(body, &alts, &mut sites);
    assert(sites_view(sites@) =~= calls_of(stmts_view(body@)));
    sites
}

} // verus!
