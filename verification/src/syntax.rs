//! The syntax model: the closed set of node kinds that make up a function body.
//!
//! Every analysis in this crate walks these trees and nothing else. Each
//! executable type has a mathematical view made of sequences, and every
//! contract in the crate is stated over those views.

use vstd::prelude::*;

verus! {

/// The view of an identifier: its characters.
pub type IdentView = Seq<char>;

/// The view of a qualified name: its identifiers, outermost scope first.
pub type NameView = Seq<Seq<char>>;

/// How a loop decides whether to run another round.
#[derive(Clone, Copy, Debug, PartialEq, Eq, Structural)]
pub enum Boundedness {
    /// No test at all: `loop { .. }`.
    Unconditional,
    /// A condition is tested before each round: `while c { .. }`.
    ConditionChecked,
    /// The rounds are driven by an iterator: `for x in xs { .. }`.
    IteratorDriven,
}

/// The full scope path that identifies a function.
#[derive(Debug, PartialEq, Eq, Hash)]
pub struct QualifiedName {
    pub segments: Vec<String>,
}

/// An expression of the supported grammar.
#[derive(Debug, PartialEq, Eq)]
pub enum Expr {
    /// A call of `callee` with `args`.
    Call { callee: QualifiedName, args: Vec<Expr> },
    /// A loop around `body`.
    Loop { boundedness: Boundedness, body: Vec<Statement> },
    /// A choice between `branches`, of which exactly one runs.
    Conditional { branches: Vec<Vec<Statement>> },
    /// A literal value.
    Literal,
    /// Any expression the analyses do not look into.
    Other,
}

/// A statement of the supported grammar.
#[derive(Debug, PartialEq, Eq)]
pub enum Statement {
    /// An expression in statement position.
    Expression(Expr),
    /// A function defined inside the body.
    NestedFunctionDef(FunctionDefinition),
    /// Leaves the function.
    Return,
    /// Leaves the innermost enclosing loop.
    Break,
    /// Any statement the analyses do not look into.
    Other,
}

/// A function: its name, its parameters and its body.
#[derive(Debug, PartialEq, Eq)]
pub struct FunctionDefinition {
    pub name: QualifiedName,
    pub params: Vec<String>,
    pub body: Vec<Statement>,
}

/// The mathematical model of an [`Expr`].
pub enum ExprView {
    Call { callee: NameView, args: Seq<ExprView> },
    Loop { boundedness: Boundedness, body: Seq<StmtView> },
    Conditional { branches: Seq<Seq<StmtView>> },
    Literal,
    Other,
}

/// The mathematical model of a [`Statement`].
pub enum StmtView {
    Expression(ExprView),
    NestedFunctionDef(FnView),
    Return,
    Break,
    Other,
}

/// The mathematical model of a [`FunctionDefinition`].
pub struct FnView {
    pub name: NameView,
    pub params: Seq<IdentView>,
    pub body: Seq<StmtView>,
}

/// The views of a sequence of identifiers.
pub open spec fn idents_view(s: Seq<String>) -> Seq<IdentView> {
    Seq::new(s.len(), |i: int| s[i]@)
}

/// The views of a sequence of expressions.
pub open spec fn exprs_view(s: Seq<Expr>) -> Seq<ExprView>
    decreases s,
{
    Seq::new(
        s.len(),
        |i: int|
            if 0 <= i < s.len() {
                s[i]@
            } else {
                ExprView::Other
            },
    )
}

/// The views of a sequence of statements.
pub open spec fn stmts_view(s: Seq<Statement>) -> Seq<StmtView>
    decreases s,
{
    Seq::new(
        s.len(),
        |i: int|
            if 0 <= i < s.len() {
                s[i]@
            } else {
                StmtView::Other
            },
    )
}

/// The views of the branches of a conditional.
pub open spec fn branches_view(s: Seq<Vec<Statement>>) -> Seq<Seq<StmtView>>
    decreases s,
{
    Seq::new(
        s.len(),
        |i: int|
            if 0 <= i < s.len() {
                stmts_view(s[i]@)
            } else {
                Seq::empty()
            },
    )
}

/// The view of the second branch of a choice between two: nothing, where the
/// source has none.
pub open spec fn else_view(else_branch: Option<Vec<Statement>>) -> Seq<StmtView> {
    match else_branch {
        Some(stmts) => stmts_view(stmts@),
        None => Seq::empty(),
    }
}

impl View for QualifiedName {
    type V = NameView;

    open spec fn view(&self) -> NameView {
        idents_view(self.segments@)
    }
}

impl View for Expr {
    type V = ExprView;

    open spec fn view(&self) -> ExprView
        decreases self,
    {
        match self {
            Expr::Call { callee, args } => ExprView::Call {
                callee: callee@,
                args: exprs_view(args@),
            },
            Expr::Loop { boundedness, body } => ExprView::Loop {
                boundedness: *boundedness,
                body: stmts_view(body@),
            },
            Expr::Conditional { branches } => ExprView::Conditional {
                branches: branches_view(branches@),
            },
            Expr::Literal => ExprView::Literal,
            Expr::Other => ExprView::Other,
        }
    }
}

impl View for Statement {
    type V = StmtView;

    open spec fn view(&self) -> StmtView
        decreases self,
    {
        match self {
            Statement::Expression(e) => StmtView::Expression(e@),
            Statement::NestedFunctionDef(f) => StmtView::NestedFunctionDef(f@),
            Statement::Return => StmtView::Return,
            Statement::Break => StmtView::Break,
            Statement::Other => StmtView::Other,
        }
    }
}

impl View for FunctionDefinition {
    type V = FnView;

    open spec fn view(&self) -> FnView
        decreases self,
    {
        FnView { name: self.name@, params: idents_view(self.params@), body: stmts_view(self.body@) }
    }
}

impl QualifiedName {
    /// A name made of the given identifiers, outermost scope first.
    pub fn new(segments: Vec<String>) -> (name: QualifiedName)
        ensures
            name@ == idents_view(segments@),
    {
        QualifiedName { segments }
    }

    /// A name of one identifier.
    pub fn simple(ident: &str) -> (name: QualifiedName)
        ensures
            name@ == seq![ident@],
    {
        let mut segments: Vec<String> = Vec::new();
        segments.push(ident.to_string());
        assert(idents_view(segments@) =~= seq![ident@]);
        QualifiedName { segments }
    }

    /// Exact sequence equality: same number of identifiers, each the same.
    pub fn same_as(&self, other: &QualifiedName) -> (same: bool)
        ensures
            same == (self@ == other@),
    {
        if self.segments.len() != other.segments.len() {
            assert(self@.len() != other@.len());
            return false;
        }
        let mut i: usize = 0;
        while i < self.segments.len()
            invariant
                i <= self.segments.len(),
                self.segments.len() == other.segments.len(),
                forall|k: int| 0 <= k < i ==> self.segments[k]@ == other.segments[k]@,
            decreases self.segments.len() - i,
        {
            if self.segments[i] != other.segments[i] {
                assert(self@[i as int] != other@[i as int]);
                return false;
            }
            i += 1;
        }
        assert(self@ =~= other@);
        true
    }

    /// The identifiers of the name, outermost scope first.
    pub fn identifiers(&self) -> (idents: Vec<String>)
        ensures
            idents_view(idents@) == self@,
    {
        let mut idents: Vec<String> = Vec::new();
        let mut i: usize = 0;
        while i < self.segments.len()
            invariant
                i <= self.segments.len(),
                idents.len() == i,
                forall|k: int| 0 <= k < i ==> idents[k]@ == self.segments[k]@,
            decreases self.segments.len() - i,
        {
            idents.push(self.segments[i].clone());
            i += 1;
        }
        assert(idents_view(idents@) =~= self@);
        idents
    }
}

fn copy_idents(idents: &Vec<String>) -> (copy: Vec<String>)
    ensures
        idents_view(copy@) == idents_view(idents@),
{
    let mut copy: Vec<String> = Vec::new();
    let mut i: usize = 0;
    while i < idents.len()
        invariant
            i <= idents.len(),
            copy.len() == i,
            forall|k: int| 0 <= k < i ==> copy[k]@ == idents[k]@,
        decreases idents.len() - i,
    {
        copy.push(idents[i].clone());
        i += 1;
    }
    assert(idents_view(copy@) =~= idents_view(idents@));
    copy
}

#[verifier::loop_isolation(false)]
fn copy_exprs(exprs: &Vec<Expr>) -> (copy: Vec<Expr>)
    ensures
        exprs_view(copy@) == exprs_view(exprs@),
    decreases exprs,
{
    let mut copy: Vec<Expr> = Vec::new();
    let mut i: usize = 0;
    while i < exprs.len()
        invariant
            i <= exprs.len(),
            copy.len() == i,
            forall|k: int| 0 <= k < i ==> copy[k]@ == exprs[k]@,
        decreases exprs.len() - i,
    {
        copy.push(copy_expr(&exprs[i]));
        i += 1;
    }
    assert(exprs_view(copy@) =~= exprs_view(exprs@));
    copy
}

#[verifier::loop_isolation(false)]
fn copy_stmts(stmts: &Vec<Statement>) -> (copy: Vec<Statement>)
    ensures
        stmts_view(copy@) == stmts_view(stmts@),
    decreases stmts,
{
    let mut copy: Vec<Statement> = Vec::new();
    let mut i: usize = 0;
    while i < stmts.len()
        invariant
            i <= stmts.len(),
            copy.len() == i,
            forall|k: int| 0 <= k < i ==> copy[k]@ == stmts[k]@,
        decreases stmts.len() - i,
    {
        copy.push(copy_stmt(&stmts[i]));
        i += 1;
    }
    assert(stmts_view(copy@) =~= stmts_view(stmts@));
    copy
}

#[verifier::loop_isolation(false)]
fn copy_branches(branches: &Vec<Vec<Statement>>) -> (copy: Vec<Vec<Statement>>)
    ensures
        branches_view(copy@) == branches_view(branches@),
    decreases branches,
{
    let mut copy: Vec<Vec<Statement>> = Vec::new();
    let mut i: usize = 0;
    while i < branches.len()
        invariant
            i <= branches.len(),
            copy.len() == i,
            forall|k: int| 0 <= k < i ==> stmts_view(copy[k]@) == stmts_view(branches[k]@),
        decreases branches.len() - i,
    {
        copy.push(copy_stmts(&branches[i]));
        i += 1;
    }
    assert(branches_view(copy@) =~= branches_view(branches@));
    copy
}

fn copy_expr(e: &Expr) -> (copy: Expr)
    ensures
        copy@ == e@,
    decreases e,
{
    match e {
        Expr::Call { callee, args } => Expr::Call {
            callee: QualifiedName { segments: copy_idents(&callee.segments) },
            args: copy_exprs(args),
        },
        Expr::Loop { boundedness, body } => Expr::Loop {
            boundedness: *boundedness,
            body: copy_stmts(body),
        },
        Expr::Conditional { branches } => Expr::Conditional { branches: copy_branches(branches) },
        Expr::Literal => Expr::Literal,
        Expr::Other => Expr::Other,
    }
}

fn copy_stmt(stmt: &Statement) -> (copy: Statement)
    ensures
        copy@ == stmt@,
    decreases stmt,
{
    match stmt {
        Statement::Expression(e) => Statement::Expression(copy_expr(e)),
        Statement::NestedFunctionDef(f) => Statement::NestedFunctionDef(copy_function(f)),
        Statement::Return => Statement::Return,
        Statement::Break => Statement::Break,
        Statement::Other => Statement::Other,
    }
}

fn copy_function(f: &FunctionDefinition) -> (copy: FunctionDefinition)
    ensures
        copy@ == f@,
    decreases f,
{
    FunctionDefinition {
        name: QualifiedName { segments: copy_idents(&f.name.segments) },
        params: copy_idents(&f.params),
        body: copy_stmts(&f.body),
    }
}

impl Clone for QualifiedName {
    /// A copy with the same view.
    fn clone(&self) -> (copy: Self)
        ensures
            copy@ == self@,
    {
        QualifiedName { segments: copy_idents(&self.segments) }
    }
}

impl Clone for Expr {
    /// A copy with the same view.
    fn clone(&self) -> (copy: Self)
        ensures
            copy@ == self@,
    {
        copy_expr(self)
    }
}

impl Clone for Statement {
    /// A copy with the same view.
    fn clone(&self) -> (copy: Self)
        ensures
            copy@ == self@,
    {
        copy_stmt(self)
    }
}

impl Clone for FunctionDefinition {
    /// A copy with the same view.
    fn clone(&self) -> (copy: Self)
        ensures
            copy@ == self@,
    {
        copy_function(self)
    }
}

impl Expr {
    /// A block of statements that always runs: a choice with one branch.
    pub fn block(stmts: Vec<Statement>) -> (e: Expr)
        ensures
            e@ == (ExprView::Conditional { branches: seq![stmts_view(stmts@)] }),
    {
        let mut branches: Vec<Vec<Statement>> = Vec::new();
        branches.push(stmts);
        assert(branches_view(branches@) =~= seq![stmts_view(stmts@)]);
        Expr::Conditional { branches }
    }

    /// A choice between two branches. Where the source has no second branch,
    /// the choice is between the first and doing nothing.
    pub fn if_else(then_branch: Vec<Statement>, else_branch: Option<Vec<Statement>>) -> (e: Expr)
        ensures
            e@ == (ExprView::Conditional {
                branches: seq![stmts_view(then_branch@), else_view(else_branch)],
            }),
    {
        let ghost first = stmts_view(then_branch@);
        let ghost second = else_view(else_branch);
        let otherwise: Vec<Statement> = match else_branch {
            Some(stmts) => stmts,
            None => Vec::new(),
        };
        assert(stmts_view(otherwise@) =~= second);
        let mut branches: Vec<Vec<Statement>> = Vec::new();
        branches.push(then_branch);
        branches.push(otherwise);
        assert(branches_view(branches@) =~= seq![first, second]);
        Expr::Conditional { branches }
    }
}

impl FunctionDefinition {
    /// A function with the given name, parameters and body.
    pub fn new(name: QualifiedName, params: Vec<String>, body: Vec<Statement>) -> (f:
        FunctionDefinition)
        ensures
            f@ == (FnView { name: name@, params: idents_view(params@), body: stmts_view(body@) }),
    {
        FunctionDefinition { name, params, body }
    }
}

} // verus!

