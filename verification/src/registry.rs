//! The function registry: the definitions that one analysis session can
//! resolve a call to.
//!
//! A registry is filled once and then only read. It never holds two
//! definitions of one qualified name, and never more than [`MAX_FUNCTIONS`]
//! definitions, which bounds every traversal that resolves calls through it.

use vstd::prelude::*;
use crate::syntax::{
    stmts_view, FnView, FunctionDefinition, NameView, QualifiedName, Statement, StmtView,
};

verus! {

/// The most definitions a registry accepts.
pub const MAX_FUNCTIONS: usize = 4096;

/// Why a definition was not registered.
#[derive(Clone, Copy, Debug, PartialEq, Eq, Structural)]
pub enum RegistryError {
    /// The registry already holds a definition of that qualified name.
    Duplicate,
    /// The registry already holds [`MAX_FUNCTIONS`] definitions.
    ResourceLimitExceeded,
}

/// The definitions of one session, in the order in which they were registered.
#[derive(Debug)]
pub struct Registry {
    functions: Vec<FunctionDefinition>,
}

/// No two definitions share a qualified name.
pub open spec fn distinct_names(reg: Seq<FnView>) -> bool {
    forall|i: int, j: int| 0 <= i < j < reg.len() ==> reg[i].name != reg[j].name
}

/// Some definition in `reg` has the qualified name `name`.
pub open spec fn defines(reg: Seq<FnView>, name: NameView) -> bool {
    exists|i: int| 0 <= i < reg.len() && reg[i].name == name
}

/// What every registry satisfies: distinct names, and the size limit.
pub open spec fn valid_registry(reg: Seq<FnView>) -> bool {
    &&& distinct_names(reg)
    &&& reg.len() <= MAX_FUNCTIONS
}

/// The function definitions that are statements of `body` itself, in order.
pub open spec fn nested_defs(body: Seq<StmtView>) -> Seq<FnView>
    decreases body.len(),
{
    if body.len() == 0 {
        Seq::empty()
    } else {
        match body.last() {
            StmtView::NestedFunctionDef(def) => nested_defs(body.drop_last()).push(def),
            _ => nested_defs(body.drop_last()),
        }
    }
}

/// The definitions that the analysis of `f` alone can resolve a call to: `f`
/// itself, then the functions defined in its body.
pub open spec fn session_defs(f: FnView) -> Seq<FnView> {
    seq![f] + nested_defs(f.body)
}

/// The definitions that registration comes to before it can run into the
/// size limit: all of them, or the first `MAX_FUNCTIONS + 1`.
pub open spec fn up_to_limit(defs: Seq<FnView>) -> Seq<FnView> {
    if defs.len() > MAX_FUNCTIONS {
        defs.take(MAX_FUNCTIONS + 1)
    } else {
        defs
    }
}

/// The views of a list of definitions held by reference.
pub open spec fn defs_view(defs: Seq<&FunctionDefinition>) -> Seq<FnView> {
    Seq::new(defs.len(), |i: int| defs[i]@)
}

impl View for Registry {
    type V = Seq<FnView>;

    closed spec fn view(&self) -> Seq<FnView> {
        Seq::new(self.functions@.len(), |i: int| self.functions@[i]@)
    }
}

impl Registry {
    /// Well-formedness: distinct names, and the size limit. [`Registry::new`]
    /// establishes it and [`Registry::register`] preserves it, and the
    /// definitions cannot be reached in any other way.
    pub open spec fn wf(&self) -> bool {
        valid_registry(self@)
    }

    /// A registry without definitions.
    pub fn new() -> (registry: Registry)
        ensures
            registry.wf(),
            registry@ == Seq::<FnView>::empty(),
    {
        let registry = Registry { functions: Vec::new() };
        assert(registry@ =~= Seq::<FnView>::empty());
        registry
    }

    /// The number of definitions.
    pub fn len(&self) -> (n: usize)
        ensures
            n == self@.len(),
    {
        self.functions.len()
    }

    /// The definition at position `index`, if there is one.
    pub fn get(&self, index: usize) -> (found: Option<&FunctionDefinition>)
        ensures
            match found {
                Some(def) => index < self@.len() && def@ == self@[index as int],
                None => index >= self@.len(),
            },
    {
        if index < self.functions.len() {
            Some(&self.functions[index])
        } else {
            None
        }
    }

    /// The position of the definition named `name`, if the registry holds one.
    pub fn lookup(&self, name: &QualifiedName) -> (found: Option<usize>)
        ensures
            match found {
                Some(index) => index < self@.len() && self@[index as int].name == name@,
                None => !defines(self@, name@),
            },
    {
        let mut i: usize = 0;
        while i < self.functions.len()
            invariant
                i <= self.functions.len(),
                forall|k: int| 0 <= k < i ==> self@[k].name != name@,
            decreases self.functions.len() - i,
        {
            if self.functions[i].name.same_as(name) {
                return Some(i);
            }
            i += 1;
        }
        None
    }

    /// The definition named `name`, if the registry holds one.
    pub fn resolve(&self, name: &QualifiedName) -> (found: Option<&FunctionDefinition>)
        ensures
            match found {
                Some(def) => def@.name == name@ && self@.contains(def@),
                None => !defines(self@, name@),
            },
    {
        match self.lookup(name) {
            Some(index) => {
                assert(self@[index as int] == self.functions@[index as int]@);
                Some(&self.functions[index])
            },
            None => None,
        }
    }

    /// Adds `def` at the end. A second definition of a name is refused, and so
    /// is any definition once the registry is full; a refusal leaves the
    /// registry as it was.
    pub fn register(&mut self, def: FunctionDefinition) -> (outcome: Result<(), RegistryError>)
        requires
            old(self).wf(),
        ensures
            final(self).wf(),
            match outcome {
                Ok(_) => {
                    &&& !defines(old(self)@, def@.name)
                    &&& old(self)@.len() < MAX_FUNCTIONS
                    &&& final(self)@ == old(self)@.push(def@)
                },
                Err(RegistryError::Duplicate) => {
                    &&& defines(old(self)@, def@.name)
                    &&& final(self)@ == old(self)@
                },
                Err(RegistryError::ResourceLimitExceeded) => {
                    &&& !defines(old(self)@, def@.name)
                    &&& old(self)@.len() >= MAX_FUNCTIONS
                    &&& final(self)@ == old(self)@
                },
            },
    {
        if self.lookup(&def.name).is_some() {
            return Err(RegistryError::Duplicate);
        }
        if self.functions.len() >= MAX_FUNCTIONS {
            return Err(RegistryError::ResourceLimitExceeded);
        }
        let ghost before = self@;
        self.functions.push(def);
        proof {
            assert(self@ =~= before.push(def@));
            assert forall|i: int, j: int| 0 <= i < j < self@.len() implies self@[i].name
                != self@[j].name by {
                if j < before.len() {
                    assert(before[i].name != before[j].name);
                } else {
                    assert(before[i].name != def@.name);
                }
            }
        }
        Ok(())
    }

    /// The registry of `defs`, registered in order. It fails at the first
    /// definition that cannot be registered.
    pub fn of_definitions(defs: &Vec<&FunctionDefinition>) -> (outcome: Result<
        Registry,
        RegistryError,
    >)
        ensures
            match outcome {
                Ok(registry) => {
                    &&& registry.wf()
                    &&& registry@ == defs_view(defs@)
                },
                Err(RegistryError::Duplicate) => !distinct_names(up_to_limit(defs_view(defs@))),
                Err(RegistryError::ResourceLimitExceeded) => {
                    &&& distinct_names(up_to_limit(defs_view(defs@)))
                    &&& defs_view(defs@).len() > MAX_FUNCTIONS
                },
            },
    {
        let ghost all = defs_view(defs@);
        let mut registry = Registry::new();
        let mut i: usize = 0;
        assert(registry@ =~= all.take(0));
        while i < defs.len()
            invariant
                i <= defs.len(),
                all == defs_view(defs@),
                registry.wf(),
                registry@ == all.take(i as int),
            decreases defs.len() - i,
        {
            let ghost before = registry@;
            let ghost grown = all.take(i + 1);
            proof {
                assert(all[i as int] == defs@[i as int]@);
                assert(grown =~= before.push(all[i as int]));
            }
            match registry.register(defs[i].clone()) {
                Ok(_) => {},
                Err(RegistryError::Duplicate) => {
                    proof {
                        let d = choose|d: int|
                            0 <= d < before.len() && before[d].name == all[i as int].name;
                        let part = up_to_limit(all);
                        assert(part[d] == grown[d]);
                        assert(part[i as int] == grown[i as int]);
                        assert(part[d].name == part[i as int].name);
                    }
                    return Err(RegistryError::Duplicate);
                },
                Err(RegistryError::ResourceLimitExceeded) => {
                    proof {
                        let part = up_to_limit(all);
                        assert(part =~= grown);
                        assert forall|a: int, b: int| 0 <= a < b < part.len() implies part[a].name
                            != part[b].name by {
                            if b < before.len() {
                                assert(before[a].name != before[b].name);
                            } else {
                                assert(before[a].name != all[i as int].name);
                            }
                        }
                    }
                    return Err(RegistryError::ResourceLimitExceeded);
                },
            }
            i += 1;
        }
        proof {
            assert(all.take(defs.len() as int) =~= all);
        }
        Ok(registry)
    }

    /// The registry for analysing `f` with the functions defined in its own
    /// body: `f`, then each function defined by a statement of its body, in
    /// order. It fails at the first definition that cannot be registered.
    pub fn session(f: &FunctionDefinition) -> (outcome: Result<Registry, RegistryError>)
        ensures
            match outcome {
                Ok(registry) => {
                    &&& registry.wf()
                    &&& registry@ == session_defs(f@)
                },
                Err(RegistryError::Duplicate) => !distinct_names(up_to_limit(session_defs(f@))),
                Err(RegistryError::ResourceLimitExceeded) => {
                    &&& distinct_names(up_to_limit(session_defs(f@)))
                    &&& session_defs(f@).len() > MAX_FUNCTIONS
                },
            },
    {
        let ghost body = stmts_view(f.body@);
        let mut defs: Vec<&FunctionDefinition> = Vec::new();
        defs.push(f);
        let mut i: usize = 0;
        assert(body.take(0) =~= Seq::<StmtView>::empty());
        assert(defs_view(defs@) =~= seq![f@] + nested_defs(body.take(0)));
        while i < f.body.len()
            invariant
                i <= f.body.len(),
                body == stmts_view(f.body@),
                defs_view(defs@) == seq![f@] + nested_defs(body.take(i as int)),
            decreases f.body.len() - i,
        {
            let ghost before = defs_view(defs@);
            proof {
                assert(body.take(i + 1).drop_last() =~= body.take(i as int));
                assert(body.take(i + 1).last() == f.body@[i as int]@);
            }
            match &f.body[i] {
                Statement::NestedFunctionDef(def) => {
                    defs.push(def);
                    assert(defs_view(defs@) =~= before.push(def@));
                },
                _ => {},
            }
            assert(defs_view(defs@) =~= seq![f@] + nested_defs(body.take(i + 1)));
            i += 1;
        }
        proof {
            assert(body.take(f.body.len() as int) =~= body);
        }
        Registry::of_definitions(&defs)
    }
}

} // verus!
