//! Sample functions, one for each way an analysis can end.
//!
//! Each sample is the syntax model of a small function. They serve as
//! ready-made subjects for the classifier and document, by their contracts,
//! what the model of a given source text looks like.

use vstd::prelude::*;
use crate::paradox::ENTRY_POINT;
use crate::syntax::{
    branches_view, exprs_view, stmts_view, Boundedness, Expr, ExprView, FnView,
    FunctionDefinition, QualifiedName, Statement, StmtView,
};

verus! {

/// The statement that calls `callee` with `args`.
pub open spec fn call_stmt(callee: Seq<char>, args: Seq<ExprView>) -> StmtView {
    StmtView::Expression(ExprView::Call { callee: seq![callee], args })
}

/// The model of a function named `name`, without parameters, whose body is
/// `body`.
pub open spec fn plain_fn(name: Seq<char>, body: Seq<StmtView>) -> FnView {
    FnView { name: seq![name], params: Seq::empty(), body }
}

/// The model of a function whose whole body is one call of `callee` without
/// arguments.
pub open spec fn forwarder(name: Seq<char>, callee: Seq<char>) -> FnView {
    plain_fn(name, seq![call_stmt(callee, Seq::empty())])
}

fn call_without_args(callee: &str) -> (stmt: Statement)
    ensures
        stmt@ == call_stmt(callee@, Seq::empty()),
{
    let args: Vec<Expr> = Vec::new();
    assert(exprs_view(args@) =~= Seq::empty());
    Statement::Expression(Expr::Call { callee: QualifiedName::simple(callee), args })
}

fn function_of(name: &str, body: Vec<Statement>) -> (f: FunctionDefinition)
    ensures
        f@ == plain_fn(name@, stmts_view(body@)),
{
    let params: Vec<String> = Vec::new();
    let f = FunctionDefinition::new(QualifiedName::simple(name), params, body);
    assert(f@.params =~= Seq::empty());
    f
}

fn forwarder_of(name: &str, callee: &str) -> (f: FunctionDefinition)
    ensures
        f@ == forwarder(name@, callee@),
{
    let mut body: Vec<Statement> = Vec::new();
    body.push(call_without_args(callee));
    assert(stmts_view(body@) =~= seq![call_stmt(callee@, Seq::empty())]);
    function_of(name, body)
}

/// A function that does nothing: `fn unit() {}`.
pub fn unit() -> (f: FunctionDefinition)
    ensures
        f@ == plain_fn("unit"@, Seq::empty()),
{
    let body: Vec<Statement> = Vec::new();
    assert(stmts_view(body@) =~= Seq::empty());
    function_of("unit", body)
}

/// The body of [`loop_forever`]: one unconditional loop around a statement
/// that does not leave it.
pub open spec fn loop_forever_body() -> Seq<StmtView> {
    seq![
        StmtView::Expression(
            ExprView::Loop { boundedness: Boundedness::Unconditional, body: seq![StmtView::Other] },
        ),
    ]
}

/// A function that loops forever: `fn loop_forever() { loop { .. } }`.
pub fn loop_forever() -> (f: FunctionDefinition)
    ensures
        f@ == plain_fn("loop_forever"@, loop_forever_body()),
{
    let mut inner: Vec<Statement> = Vec::new();
    inner.push(Statement::Other);
    assert(stmts_view(inner@) =~= seq![StmtView::Other]);
    let mut body: Vec<Statement> = Vec::new();
    body.push(
        Statement::Expression(Expr::Loop { boundedness: Boundedness::Unconditional, body: inner }),
    );
    assert(stmts_view(body@) =~= loop_forever_body());
    function_of("loop_forever", body)
}

/// The body of [`g`]: it asks the classifier about a function, then takes
/// the branch that contradicts the answer.
pub open spec fn g_body() -> Seq<StmtView> {
    seq![
        call_stmt(ENTRY_POINT@, seq![ExprView::Other]),
        StmtView::Expression(
            ExprView::Conditional {
                branches: seq![
                    seq![call_stmt("loop_forever"@, Seq::empty())],
                    seq![call_stmt("unit"@, Seq::empty())],
                ],
            },
        ),
    ]
}

/// A function that asks whether it halts and then does the opposite:
/// `fn g() { match halts(g) { Err(_) | Ok(true) => loop_forever(), Ok(false) => unit() } }`.
pub fn g() -> (f: FunctionDefinition)
    ensures
        f@ == plain_fn("g"@, g_body()),
{
    let mut args: Vec<Expr> = Vec::new();
    args.push(Expr::Other);
    assert(exprs_view(args@) =~= seq![ExprView::Other]);
    let query = Statement::Expression(
        Expr::Call { callee: QualifiedName::simple(ENTRY_POINT), args },
    );
    let mut looping: Vec<Statement> = Vec::new();
    looping.push(call_without_args("loop_forever"));
    assert(stmts_view(looping@) =~= seq![call_stmt("loop_forever"@, Seq::empty())]);
    let mut halting: Vec<Statement> = Vec::new();
    halting.push(call_without_args("unit"));
    assert(stmts_view(halting@) =~= seq![call_stmt("unit"@, Seq::empty())]);
    let mut branches: Vec<Vec<Statement>> = Vec::new();
    branches.push(looping);
    branches.push(halting);
    assert(branches_view(branches@) =~= seq![
        seq![call_stmt("loop_forever"@, Seq::empty())],
        seq![call_stmt("unit"@, Seq::empty())],
    ]);
    let mut body: Vec<Statement> = Vec::new();
    body.push(query);
    body.push(Statement::Expression(Expr::Conditional { branches }));
    assert(stmts_view(body@) =~= g_body());
    function_of("g", body)
}

/// A function that calls itself and does nothing else:
/// `fn recurse_unconditionally() { recurse_unconditionally() }`.
pub fn recurse_unconditionally() -> (f: FunctionDefinition)
    ensures
        f@ == forwarder("recurse_unconditionally"@, "recurse_unconditionally"@),
{
    forwarder_of("recurse_unconditionally", "recurse_unconditionally")
}

/// The first step of a chain of calls that ends.
pub fn recursive_chain_start() -> (f: FunctionDefinition)
    ensures
        f@ == forwarder("recursive_chain_start"@, "recursive_chain_middle"@),
{
    forwarder_of("recursive_chain_start", "recursive_chain_middle")
}

/// The middle step of a chain of calls that ends.
pub fn recursive_chain_middle() -> (f: FunctionDefinition)
    ensures
        f@ == forwarder("recursive_chain_middle"@, "recursive_chain_end"@),
{
    forwarder_of("recursive_chain_middle", "recursive_chain_end")
}

/// The last step of a chain of calls that ends: it calls [`unit`].
pub fn recursive_chain_end() -> (f: FunctionDefinition)
    ensures
        f@ == forwarder("recursive_chain_end"@, "unit"@),
{
    forwarder_of("recursive_chain_end", "unit")
}

/// The first step of a cycle of calls.
pub fn recursive_cycle_a() -> (f: FunctionDefinition)
    ensures
        f@ == forwarder("recursive_cycle_a"@, "recursive_cycle_b"@),
{
    forwarder_of("recursive_cycle_a", "recursive_cycle_b")
}

/// The second step of a cycle of calls.
pub fn recursive_cycle_b() -> (f: FunctionDefinition)
    ensures
        f@ == forwarder("recursive_cycle_b"@, "recursive_cycle_c"@),
{
    forwarder_of("recursive_cycle_b", "recursive_cycle_c")
}

/// The last step of a cycle of calls: it calls the first.
pub fn recursive_cycle_c() -> (f: FunctionDefinition)
    ensures
        f@ == forwarder("recursive_cycle_c"@, "recursive_cycle_a"@),
{
    forwarder_of("recursive_cycle_c", "recursive_cycle_a")
}

} // verus!
