//! The paradox detector: a function that asks the classifier about a function
//! and can then do the opposite of the answer has no consistent verdict.

use vstd::prelude::*;
use crate::calls::{call_sites, calls_of, sites_view, CallView};
use crate::syntax::{FunctionDefinition, NameView, QualifiedName, StmtView};

verus! {

/// The name of the classifier's own entry point. It is reserved: a call of
/// it from an analysed body is a question about the analysis itself.
pub const ENTRY_POINT: &'static str = "halts";

/// The qualified name that [`ENTRY_POINT`] stands for.
pub open spec fn entry_point() -> NameView {
    seq![ENTRY_POINT@]
}

/// The call asks the classifier about a function: it names the entry point
/// and passes at least one argument. Every argument of the entry point stands
/// for a function.
pub open spec fn is_self_query(call: CallView) -> bool {
    call.callee == entry_point() && call.args.len() > 0
}

/// Some call of the body asks the classifier about a function.
pub open spec fn paradoxical(body: Seq<StmtView>) -> bool {
    exists|c: int| 0 <= c < calls_of(body).len() && is_self_query(#[trigger] calls_of(body)[c])
}

/// Whether `f`'s own body calls the classifier's entry point with a function
/// as an argument. Only `f`'s body is searched, all of it but the nested
/// function definitions; no call is followed into its callee.
pub fn detect_paradox(f: &FunctionDefinition) -> (found: bool)
    ensures
        found == paradoxical(f@.body),
{
    let entry = QualifiedName::simple(ENTRY_POINT);
    let sites = call_sites(&f.body);
    let ghost calls = calls_of(f@.body);
    let mut c: usize = 0;
    while c < sites.len()
        invariant
            c <= sites.len(),
            entry@ == entry_point(),
            sites_view(sites@) == calls,
            calls == calls_of(f@.body),
            forall|k: int| 0 <= k < c ==> !is_self_query(#[trigger] calls[k]),
        decreases sites.len() - c,
    {
        assert(calls[c as int] == sites@[c as int]@);
        if sites[c].args.len() > 0 && sites[c].callee.same_as(&entry) {
            return true;
        }
        c += 1;
    }
    false
}

} // verus!
