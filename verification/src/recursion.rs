//! The recursion finder: which calls lead back to the function under analysis.
//!
//! Calls are followed through the registry with a worklist and a visited
//! flag per definition, so every definition is entered at most once and the
//! work is bounded by the size of the registry, whatever cycles the call graph
//! holds. A call of the analysed name is a recursion site and is never
//! followed.

use vstd::prelude::*;
use crate::calls::{call_sites, calls_of, sites_view, CallSite, CallView};
use crate::registry::{distinct_names, Registry};
use crate::syntax::{
    stmts_view, FnView, FunctionDefinition, NameView, QualifiedName, Statement, StmtView,
};

verus! {

/// A recursion site: a call of the analysed function, found in its own body
/// or in the body of a function that it reaches.
pub type RecursionSite<'a> = CallSite<'a>;

/// Some call in `calls` names `name`.
pub open spec fn calls_name(calls: Seq<CallView>, name: NameView) -> bool {
    exists|c: int| 0 <= c < calls.len() && (#[trigger] calls[c]).callee == name
}

/// A call in `from` resolves to the definition at `j`, which is not a
/// definition of `target`.
pub open spec fn steps_to(reg: Seq<FnView>, target: NameView, from: Seq<StmtView>, j: int) -> bool {
    &&& 0 <= j < reg.len()
    &&& reg[j].name != target
    &&& calls_name(calls_of(from), reg[j].name)
}

/// The definition at `path[k]` calls the one at `path[k + 1]`.
pub open spec fn link(reg: Seq<FnView>, target: NameView, path: Seq<int>, k: int) -> bool {
    &&& 0 <= path[k] < reg.len()
    &&& steps_to(reg, target, reg[path[k]].body, path[k + 1])
}

/// `path` is a chain of calls that starts in `from` and never passes through
/// a definition of `target`.
pub open spec fn is_trace(
    reg: Seq<FnView>,
    target: NameView,
    from: Seq<StmtView>,
    path: Seq<int>,
) -> bool {
    &&& path.len() > 0
    &&& steps_to(reg, target, from, path[0])
    &&& forall|k: int| 0 <= k < path.len() - 1 ==> #[trigger] link(reg, target, path, k)
}

/// The definition at `j` is reached from `from` by some chain of calls.
pub open spec fn reaches(reg: Seq<FnView>, target: NameView, from: Seq<StmtView>, j: int) -> bool {
    exists|path: Seq<int>| #[trigger] is_trace(reg, target, from, path) && path.last() == j
}

/// The calls of `target` among `calls`, in order.
pub open spec fn calls_to(calls: Seq<CallView>, target: NameView) -> Seq<CallView>
    decreases calls.len(),
{
    if calls.len() == 0 {
        Seq::empty()
    } else if calls.last().callee == target {
        calls_to(calls.drop_last(), target).push(calls.last())
    } else {
        calls_to(calls.drop_last(), target)
    }
}

/// The calls of `target` in the bodies of the first `n` definitions, taking
/// only the definitions that `from` reaches.
pub open spec fn sites_reached(
    reg: Seq<FnView>,
    target: NameView,
    from: Seq<StmtView>,
    n: nat,
) -> Seq<CallView>
    decreases n,
{
    if n == 0 || n > reg.len() {
        Seq::empty()
    } else if reaches(reg, target, from, n - 1) {
        sites_reached(reg, target, from, (n - 1) as nat) + calls_to(
            calls_of(reg[n - 1].body),
            target,
        )
    } else {
        sites_reached(reg, target, from, (n - 1) as nat)
    }
}

/// Every call of `target` that execution starting in `from` can come to: the
/// calls in `from` itself, in source order, then those in each reached
/// definition, in registry order.
pub open spec fn recursion_sites_from(
    from: Seq<StmtView>,
    target: NameView,
    reg: Seq<FnView>,
) -> Seq<CallView> {
    calls_to(calls_of(from), target) + sites_reached(reg, target, from, reg.len())
}

/// The recursion sites of `f`: every call of `f`'s name in `f`'s body and in
/// the bodies of the definitions that `f` reaches.
pub open spec fn recursion_sites(f: FnView, reg: Seq<FnView>) -> Seq<CallView> {
    recursion_sites_from(f.body, f.name, reg)
}

/// The number of `false` entries.
spec fn count_unflagged(flags: Seq<bool>) -> nat
    decreases flags.len(),
{
    if flags.len() == 0 {
        0
    } else {
        count_unflagged(flags.drop_last()) + if flags.last() {
            0nat
        } else {
            1nat
        }
    }
}

/// `x` stands in the worklist.
spec fn is_pending(pending: Seq<usize>, x: int) -> bool {
    exists|k: int| 0 <= k < pending.len() && #[trigger] pending[k] == x
}

/// Every definition that the one at `i` calls is flagged.
spec fn closed_at(reg: Seq<FnView>, target: NameView, flags: Seq<bool>, i: int) -> bool {
    forall|j: int| #[trigger] steps_to(reg, target, reg[i].body, j) ==> flags[j]
}

proof fn lemma_unflagged_set(flags: Seq<bool>, j: int)
    requires
        0 <= j < flags.len(),
        !flags[j],
    ensures
        count_unflagged(flags.update(j, true)) + 1 == count_unflagged(flags),
    decreases flags.len(),
{
    let after = flags.update(j, true);
    if j == flags.len() - 1 {
        assert(after.drop_last() =~= flags.drop_last());
    } else {
        lemma_unflagged_set(flags.drop_last(), j);
        assert(after.drop_last() =~= flags.drop_last().update(j, true));
    }
}

/// A definition called from `from` is reached.
pub proof fn lemma_reaches_root(reg: Seq<FnView>, target: NameView, from: Seq<StmtView>, j: int)
    requires
        steps_to(reg, target, from, j),
    ensures
        reaches(reg, target, from, j),
{
    let path = seq![j];
    assert(is_trace(reg, target, from, path));
    assert(path.last() == j);
}

/// A definition called from a reached definition is reached.
pub proof fn lemma_reaches_step(
    reg: Seq<FnView>,
    target: NameView,
    from: Seq<StmtView>,
    i: int,
    j: int,
)
    requires
        reaches(reg, target, from, i),
        0 <= i < reg.len(),
        steps_to(reg, target, reg[i].body, j),
    ensures
        reaches(reg, target, from, j),
{
    let path = choose|path: Seq<int>| #[trigger] is_trace(reg, target, from, path) && path.last() == i;
    let longer = path.push(j);
    assert forall|k: int| 0 <= k < longer.len() - 1 implies #[trigger] link(
        reg,
        target,
        longer,
        k,
    ) by {
        if k < path.len() - 1 {
            assert(link(reg, target, path, k));
        }
    }
    assert(is_trace(reg, target, from, longer));
    assert(longer.last() == j);
}

/// A call of `target` among `calls` is among the calls that [`calls_to`]
/// keeps.
pub proof fn lemma_calls_to_member(calls: Seq<CallView>, target: NameView, c: int) -> (i: int)
    requires
        0 <= c < calls.len(),
        calls[c].callee == target,
    ensures
        0 <= i < calls_to(calls, target).len(),
        calls_to(calls, target)[i] == calls[c],
    decreases calls.len(),
{
    if c == calls.len() - 1 {
        calls_to(calls.drop_last(), target).len() as int
    } else {
        lemma_calls_to_member(calls.drop_last(), target, c)
    }
}

/// Where no call names `target`, [`calls_to`] keeps nothing.
pub proof fn lemma_calls_to_none(calls: Seq<CallView>, target: NameView)
    requires
        !calls_name(calls, target),
    ensures
        calls_to(calls, target) == Seq::<CallView>::empty(),
    decreases calls.len(),
{
    if calls.len() > 0 {
        assert(calls[calls.len() - 1].callee != target);
        assert forall|c: int| 0 <= c < calls.drop_last().len() implies (
        #[trigger] calls.drop_last()[c]).callee != target by {
            assert(calls[c].callee != target);
        }
        lemma_calls_to_none(calls.drop_last(), target);
    }
}

/// A call of `target` in a reached definition is a recursion site.
pub proof fn lemma_reached_site(
    reg: Seq<FnView>,
    target: NameView,
    from: Seq<StmtView>,
    j: int,
    c: int,
) -> (i: int)
    requires
        0 <= j < reg.len(),
        reaches(reg, target, from, j),
        0 <= c < calls_of(reg[j].body).len(),
        calls_of(reg[j].body)[c].callee == target,
    ensures
        0 <= i < recursion_sites_from(from, target, reg).len(),
        recursion_sites_from(from, target, reg)[i] == calls_of(reg[j].body)[c],
{
    let k = lemma_sites_reached_member(reg, target, from, reg.len(), j, c);
    calls_to(calls_of(from), target).len() + k
}

proof fn lemma_sites_reached_member(
    reg: Seq<FnView>,
    target: NameView,
    from: Seq<StmtView>,
    n: nat,
    j: int,
    c: int,
) -> (i: int)
    requires
        0 <= j < n <= reg.len(),
        reaches(reg, target, from, j),
        0 <= c < calls_of(reg[j].body).len(),
        calls_of(reg[j].body)[c].callee == target,
    ensures
        0 <= i < sites_reached(reg, target, from, n).len(),
        sites_reached(reg, target, from, n)[i] == calls_of(reg[j].body)[c],
    decreases n,
{
    if j == n - 1 {
        let k = lemma_calls_to_member(calls_of(reg[j].body), target, c);
        sites_reached(reg, target, from, (n - 1) as nat).len() + k
    } else {
        lemma_sites_reached_member(reg, target, from, (n - 1) as nat, j, c)
    }
}

/// A call of `target` in `from` itself is a recursion site.
pub proof fn lemma_own_site(reg: Seq<FnView>, target: NameView, from: Seq<StmtView>, c: int) -> (i:
    int)
    requires
        0 <= c < calls_of(from).len(),
        calls_of(from)[c].callee == target,
    ensures
        0 <= i < recursion_sites_from(from, target, reg).len(),
        recursion_sites_from(from, target, reg)[i] == calls_of(from)[c],
{
    lemma_calls_to_member(calls_of(from), target, c)
}

/// Where neither `from` nor any definition that it reaches calls `target`,
/// there is no recursion site.
pub proof fn lemma_no_sites(reg: Seq<FnView>, target: NameView, from: Seq<StmtView>)
    requires
        !calls_name(calls_of(from), target),
        forall|j: int|
            0 <= j < reg.len() && #[trigger] reaches(reg, target, from, j) ==> !calls_name(
                calls_of(reg[j].body),
                target,
            ),
    ensures
        recursion_sites_from(from, target, reg) == Seq::<CallView>::empty(),
{
    lemma_calls_to_none(calls_of(from), target);
    lemma_sites_reached_none(reg, target, from, reg.len());
}

proof fn lemma_sites_reached_none(reg: Seq<FnView>, target: NameView, from: Seq<StmtView>, n: nat)
    requires
        n <= reg.len(),
        forall|j: int|
            0 <= j < reg.len() && #[trigger] reaches(reg, target, from, j) ==> !calls_name(
                calls_of(reg[j].body),
                target,
            ),
    ensures
        sites_reached(reg, target, from, n) == Seq::<CallView>::empty(),
    decreases n,
{
    if n > 0 {
        lemma_sites_reached_none(reg, target, from, (n - 1) as nat);
        if reaches(reg, target, from, n - 1) {
            lemma_calls_to_none(calls_of(reg[n - 1].body), target);
        }
    }
}

/// Flags that hold the roots and are closed under calls hold every
/// definition on a chain of calls.
proof fn lemma_closed_covers(
    reg: Seq<FnView>,
    target: NameView,
    from: Seq<StmtView>,
    flags: Seq<bool>,
    path: Seq<int>,
    k: int,
)
    requires
        flags.len() == reg.len(),
        is_trace(reg, target, from, path),
        forall|j: int| #[trigger] steps_to(reg, target, from, j) ==> flags[j],
        forall|i: int| 0 <= i < reg.len() && flags[i] ==> #[trigger] closed_at(reg, target, flags, i),
        0 <= k < path.len(),
    ensures
        0 <= path[k] < reg.len(),
        flags[path[k]],
    decreases k,
{
    if k > 0 {
        lemma_closed_covers(reg, target, from, flags, path, k - 1);
        assert(link(reg, target, path, k - 1));
        assert(closed_at(reg, target, flags, path[k - 1]));
    }
}

/// Flags and queues every definition that a call in `body` resolves to and
/// that was not flagged before.
fn mark_callees(
    body: &Vec<Statement>,
    target: &QualifiedName,
    registry: &Registry,
    reached: &mut Vec<bool>,
    pending: &mut Vec<usize>,
)
    requires
        registry.wf(),
        old(reached).len() == registry@.len(),
    ensures
        final(reached).len() == registry@.len(),
        forall|j: int| 0 <= j < registry@.len() && old(reached)[j] ==> final(reached)[j],
        forall|j: int|
            #[trigger] steps_to(registry@, target@, stmts_view(body@), j) ==> final(reached)[j],
        forall|j: int|
            0 <= j < registry@.len() && final(reached)[j] && !old(reached)[j] ==> steps_to(
                registry@,
                target@,
                stmts_view(body@),
                j,
            ) && is_pending(final(pending)@, j),
        final(pending)@.len() >= old(pending)@.len(),
        final(pending)@.take(old(pending)@.len() as int) == old(pending)@,
        forall|k: int|
            old(pending)@.len() <= k < final(pending)@.len() ==> (#[trigger] final(pending)@[k])
                < registry@.len() && final(reached)[final(pending)@[k] as int],
        count_unflagged(final(reached)@) + final(pending)@.len() == count_unflagged(old(reached)@) + old(
            pending,
        )@.len(),
{
    let sites = call_sites(body);
    let ghost calls = calls_of(stmts_view(body@));
    let ghost reg = registry@;
    let mut c: usize = 0;
    assert(pending@.take(old(pending)@.len() as int) =~= old(pending)@);
    while c < sites.len()
        invariant
            c <= sites.len(),
            sites_view(sites@) == calls,
            calls == calls_of(stmts_view(body@)),
            reg == registry@,
            registry.wf(),
            reached.len() == reg.len(),
            forall|j: int| 0 <= j < reg.len() && old(reached)[j] ==> reached[j],
            forall|j: int|
                0 <= j < reg.len() && reg[j].name != target@ && calls_name(
                    calls.take(c as int),
                    #[trigger] reg[j].name,
                ) ==> reached[j],
            forall|j: int|
                0 <= j < reg.len() && reached[j] && !old(reached)[j] ==> steps_to(
                    reg,
                    target@,
                    stmts_view(body@),
                    j,
                ) && is_pending(pending@, j),
            pending@.len() >= old(pending)@.len(),
            pending@.take(old(pending)@.len() as int) == old(pending)@,
            forall|k: int|
                old(pending)@.len() <= k < pending@.len() ==> (#[trigger] pending@[k]) < reg.len()
                    && reached[pending@[k] as int],
            count_unflagged(reached@) + pending@.len() == count_unflagged(old(reached)@) + old(pending)@.len(),
        decreases sites.len() - c,
    {
        let callee = sites[c].callee;
        let ghost before_reached = reached@;
        let ghost before_pending = pending@;
        assert(calls[c as int] == sites@[c as int]@);
        assert(calls[c as int].callee == callee@);
        if !callee.same_as(target) {
            match registry.lookup(callee) {
                Some(j) => {
                    if !reached[j] {
                        reached.set(j, true);
                        pending.push(j);
                        proof {
                            lemma_unflagged_set(before_reached, j as int);
                            assert(pending@.take(old(pending)@.len() as int) =~= before_pending.take(
                                old(pending)@.len() as int,
                            ));
                            assert(pending@[before_pending.len() as int] == j);
                            assert forall|x: int|
                                0 <= x < reg.len() && reached[x] && !old(reached)[x] implies steps_to(
                                reg,
                                target@,
                                stmts_view(body@),
                                x,
                            ) && is_pending(pending@, x) by {
                                if x == j {
                                    assert(calls_name(calls, reg[x].name));
                                } else {
                                    let k = choose|k: int|
                                        0 <= k < before_pending.len() && #[trigger] before_pending[k]
                                            == x;
                                    assert(pending@[k] == x);
                                }
                            }
                        }
                    }
                },
                None => {},
            }
        }
        proof {
            assert forall|j: int|
                0 <= j < reg.len() && reg[j].name != target@ && calls_name(
                    calls.take(c + 1),
                    #[trigger] reg[j].name,
                ) implies reached[j] by {
                let w = choose|w: int|
                    0 <= w < calls.take(c + 1).len() && (#[trigger] calls.take(c + 1)[w]).callee
                        == reg[j].name;
                if w < c {
                    assert(calls.take(c as int)[w] == calls.take(c + 1)[w]);
                    assert(calls_name(calls.take(c as int), reg[j].name));
                } else {
                    assert(calls.take(c + 1)[w] == calls[c as int]);
                    assert(callee@ == reg[j].name);
                    assert(distinct_names(reg));
                }
            }
        }
        c += 1;
    }
    proof {
        assert(calls.take(sites.len() as int) =~= calls);
    }
}

/// For each definition of the registry, whether some chain of calls that
/// starts in `from` comes to it. Calls of `target` are not followed.
pub fn reachable(from: &Vec<Statement>, target: &QualifiedName, registry: &Registry) -> (reached:
    Vec<bool>)
    requires
        registry.wf(),
    ensures
        reached.len() == registry@.len(),
        forall|j: int|
            0 <= j < registry@.len() ==> reached[j] == reaches(
                registry@,
                target@,
                stmts_view(from@),
                j,
            ),
{
    let ghost reg = registry@;
    let ghost roots = stmts_view(from@);
    let n = registry.len();
    let mut reached: Vec<bool> = Vec::new();
    let mut i: usize = 0;
    while i < n
        invariant
            i <= n,
            reached.len() == i,
            forall|k: int| 0 <= k < i ==> !reached[k],
        decreases n - i,
    {
        reached.push(false);
        i += 1;
    }
    let mut pending: Vec<usize> = Vec::new();
    mark_callees(from, target, registry, &mut reached, &mut pending);
    proof {
        assert forall|j: int| 0 <= j < reg.len() && reached[j] implies reaches(
            reg,
            target@,
            roots,
            j,
        ) by {
            lemma_reaches_root(reg, target@, roots, j);
        }
    }
    while pending.len() > 0
        invariant
            registry.wf(),
            reg == registry@,
            roots == stmts_view(from@),
            reached.len() == reg.len(),
            forall|j: int| 0 <= j < reg.len() && reached[j] ==> reaches(reg, target@, roots, j),
            forall|j: int| #[trigger] steps_to(reg, target@, roots, j) ==> reached[j],
            forall|x: int|
                0 <= x < reg.len() && reached[x] && !is_pending(pending@, x) ==> #[trigger] closed_at(
                    reg,
                    target@,
                    reached@,
                    x,
                ),
            forall|k: int|
                0 <= k < pending@.len() ==> (#[trigger] pending@[k]) < reg.len()
                    && reached[pending@[k] as int],
        decreases count_unflagged(reached@) + pending@.len(),
    {
        let ghost reached0 = reached@;
        let ghost pending0 = pending@;
        let current = pending.pop().unwrap();
        let ghost pending1 = pending@;
        assert(pending0[pending0.len() - 1] == current);
        match registry.get(current) {
            Some(def) => {
                mark_callees(&def.body, target, registry, &mut reached, &mut pending);
                proof {
                    assert(stmts_view(def.body@) == reg[current as int].body);
                    assert forall|j: int| 0 <= j < reg.len() && reached[j] implies reaches(
                        reg,
                        target@,
                        roots,
                        j,
                    ) by {
                        if !reached0[j] {
                            lemma_reaches_step(reg, target@, roots, current as int, j);
                        }
                    }
                    assert forall|x: int|
                        0 <= x < reg.len() && reached[x] && !is_pending(
                            pending@,
                            x,
                        ) implies #[trigger] closed_at(reg, target@, reached@, x) by {
                        if x == current {
                        } else {
                            assert(reached0[x]);
                            if is_pending(pending0, x) {
                                let k = choose|k: int|
                                    0 <= k < pending0.len() && #[trigger] pending0[k] == x;
                                assert(k < pending1.len());
                                assert(pending@.take(pending1.len() as int)[k] == pending1[k]);
                                assert(pending@[k] == x);
                                assert(false);
                            }
                            assert(closed_at(reg, target@, reached0, x));
                        }
                    }
                    assert forall|k: int| 0 <= k < pending@.len() implies (
                    #[trigger] pending@[k]) < reg.len() && reached[pending@[k] as int] by {
                        if k < pending1.len() {
                            assert(pending@.take(pending1.len() as int)[k] == pending1[k]);
                            assert(pending1[k] == pending0[k]);
                        }
                    }
                }
            },
            None => {
                assert(false);
            },
        }
    }
    proof {
        assert forall|j: int| 0 <= j < reg.len() implies reached[j] == reaches(
            reg,
            target@,
            roots,
            j,
        ) by {
            if reaches(reg, target@, roots, j) {
                let path = choose|path: Seq<int>| #[trigger]
                    is_trace(reg, target@, roots, path) && path.last() == j;
                assert forall|i: int| 0 <= i < reg.len() && reached@[i] implies #[trigger] closed_at(
                    reg,
                    target@,
                    reached@,
                    i,
                ) by {
                    assert(!is_pending(pending@, i));
                }
                lemma_closed_covers(reg, target@, roots, reached@, path, path.len() - 1);
            }
        }
    }
    reached
}

/// A copy of `site` that refers to the same call.
fn copy_site<'a>(site: &CallSite<'a>) -> (copy: CallSite<'a>)
    ensures
        copy@ == site@,
{
    let mut alternatives: Vec<&'a Vec<Statement>> = Vec::new();
    let mut i: usize = 0;
    while i < site.alternatives.len()
        invariant
            i <= site.alternatives.len(),
            alternatives@ == site.alternatives@.take(i as int),
        decreases site.alternatives.len() - i,
    {
        alternatives.push(site.alternatives[i]);
        assert(site.alternatives@.take(i + 1) =~= site.alternatives@.take(i as int).push(
            site.alternatives@[i as int],
        ));
        i += 1;
    }
    assert(site.alternatives@.take(site.alternatives.len() as int) =~= site.alternatives@);
    CallSite { callee: site.callee, args: site.args, alternatives }
}

/// Appends to `out` the calls of `target` in `body`.
fn keep_calls_to<'a>(body: &'a Vec<Statement>, target: &QualifiedName, out: &mut Vec<CallSite<'a>>)
    ensures
        sites_view(final(out)@) == sites_view(old(out)@) + calls_to(
            calls_of(stmts_view(body@)),
            target@,
        ),
{
    let sites = call_sites(body);
    let ghost calls = calls_of(stmts_view(body@));
    let mut c: usize = 0;
    assert(sites_view(out@) =~= sites_view(old(out)@) + calls_to(calls.take(0), target@));
    while c < sites.len()
        invariant
            c <= sites.len(),
            sites_view(sites@) == calls,
            sites_view(out@) == sites_view(old(out)@) + calls_to(calls.take(c as int), target@),
        decreases sites.len() - c,
    {
        let ghost before = sites_view(out@);
        assert(calls[c as int] == sites@[c as int]@);
        assert(calls.take(c + 1).drop_last() =~= calls.take(c as int));
        assert(calls.take(c + 1).last() == calls[c as int]);
        if sites[c].callee.same_as(target) {
            let copy = copy_site(&sites[c]);
            out.push(copy);
            assert(sites_view(out@) =~= before.push(calls[c as int]));
        }
        assert(sites_view(out@) =~= sites_view(old(out)@) + calls_to(calls.take(c + 1), target@));
        c += 1;
    }
    assert(calls.take(sites.len() as int) =~= calls);
}

/// Every call of `target` that execution starting in `from` can come to,
/// directly or through the definitions of `registry`.
pub fn trace_from<'a>(
    from: &'a Vec<Statement>,
    target: &QualifiedName,
    registry: &'a Registry,
) -> (sites: Vec<RecursionSite<'a>>)
    requires
        registry.wf(),
    ensures
        sites_view(sites@) == recursion_sites_from(stmts_view(from@), target@, registry@),
{
    let ghost reg = registry@;
    let ghost roots = stmts_view(from@);
    let reached = reachable(from, target, registry);
    let mut sites: Vec<CallSite<'a>> = Vec::new();
    keep_calls_to(from, target, &mut sites);
    let ghost own = sites_view(sites@);
    assert(own =~= calls_to(calls_of(roots), target@));
    let n = registry.len();
    let mut j: usize = 0;
    assert(sites_view(sites@) =~= own + sites_reached(reg, target@, roots, 0));
    while j < n
        invariant
            j <= n,
            n == reg.len(),
            reg == registry@,
            roots == stmts_view(from@),
            reached.len() == n,
            forall|k: int| 0 <= k < n ==> reached[k] == reaches(reg, target@, roots, k),
            sites_view(sites@) == own + sites_reached(reg, target@, roots, j as nat),
        decreases n - j,
    {
        if reached[j] {
            match registry.get(j) {
                Some(def) => {
                    keep_calls_to(&def.body, target, &mut sites);
                    assert(stmts_view(def.body@) == reg[j as int].body);
                },
                None => {
                    assert(false);
                },
            }
        }
        assert(sites_view(sites@) =~= own + sites_reached(reg, target@, roots, (j + 1) as nat));
        j += 1;
    }
    sites
}

/// The recursion sites of `f`: every call of `f`'s own name in its body
/// (direct recursion) and in the bodies of the definitions that its calls
/// reach through `registry` (indirect recursion). The list is empty when no
/// call leads back to `f`.
pub fn find_recursions<'a>(f: &'a FunctionDefinition, registry: &'a Registry) -> (sites: Vec<
    RecursionSite<'a>,
>)
    requires
        registry.wf(),
    ensures
        sites_view(sites@) == recursion_sites(f@, registry@),
{
    trace_from(&f.body, &f.name, registry)
}

} // verus!
