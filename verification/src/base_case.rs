//! The base-case analyzer: whether a recursion site has a way round it.
//!
//! A site has a reachable base case when some conditional around the call has
//! another branch from which no call leads back to the analysed function,
//! neither directly nor through the registry. A call that no conditional
//! encloses has no alternative at all.

use vstd::prelude::*;
use crate::calls::CallView;
use crate::recursion::{recursion_sites_from, trace_from, RecursionSite};
use crate::registry::Registry;
use crate::syntax::{
    stmts_view, FnView, FunctionDefinition, NameView, QualifiedName, Statement, StmtView,
};

verus! {

/// Some call in `stmts`, or in a definition reached from them, is a call of
/// `target`.
pub open spec fn leads_back(stmts: Seq<StmtView>, target: NameView, reg: Seq<FnView>) -> bool {
    recursion_sites_from(stmts, target, reg).len() > 0
}

/// Some alternative of the site does not lead back to `target`.
pub open spec fn base_case_reachable(site: CallView, target: NameView, reg: Seq<FnView>) -> bool {
    exists|k: int|
        0 <= k < site.alternatives.len() && !leads_back(
            #[trigger] site.alternatives[k],
            target,
            reg,
        )
}

/// Whether some call in `stmts` leads back to `target`, directly or through
/// the definitions of `registry`.
pub fn stmts_lead_back(stmts: &Vec<Statement>, target: &QualifiedName, registry: &Registry) -> (back:
    bool)
    requires
        registry.wf(),
    ensures
        back == leads_back(stmts_view(stmts@), target@, registry@),
{
    let sites = trace_from(stmts, target, registry);
    sites.len() > 0
}

/// Whether the call stands inside a conditional at all, so that there is
/// another branch to take.
pub fn has_base_case(recursion: &RecursionSite) -> (has: bool)
    ensures
        has == (recursion@.alternatives.len() > 0),
{
    recursion.alternatives.len() > 0
}

/// Whether the recursion at `site` can be avoided: some conditional around
/// the call has a sibling branch whose statements do not lead back to `f`.
pub fn is_base_case_reachable(site: &RecursionSite, f: &FunctionDefinition, registry: &Registry) -> (
    reachable: bool)
    requires
        registry.wf(),
    ensures
        reachable == base_case_reachable(site@, f@.name, registry@),
{
    let ghost alts = site@.alternatives;
    let mut k: usize = 0;
    while k < site.alternatives.len()
        invariant
            k <= site.alternatives.len(),
            registry.wf(),
            alts == site@.alternatives,
            forall|j: int| 0 <= j < k ==> leads_back(#[trigger] alts[j], f@.name, registry@),
        decreases site.alternatives.len() - k,
    {
        assert(alts[k as int] == stmts_view(site.alternatives@[k as int]@));
        if !stmts_lead_back(site.alternatives[k], &f.name, registry) {
            return true;
        }
        k += 1;
    }
    false
}

} // verus!
