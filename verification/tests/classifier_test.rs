use halts::cases::{
    g, loop_forever, recurse_unconditionally, recursive_chain_end, recursive_chain_middle,
    recursive_chain_start, recursive_cycle_a, recursive_cycle_b, recursive_cycle_c, unit,
};
use halts::registry::Registry;
use halts::syntax::{Boundedness, Expr, FunctionDefinition, QualifiedName, Statement};
use halts::{classify, halts, loops, ParadoxError, Verdict};

fn cl_call(name: &str) -> Statement {
    Statement::Expression(Expr::Call { callee: QualifiedName::simple(name), args: vec![] })
}

fn cl_fn(name: &str, body: Vec<Statement>) -> FunctionDefinition {
    FunctionDefinition::new(QualifiedName::simple(name), vec![], body)
}

fn cl_registry(defs: Vec<FunctionDefinition>) -> Registry {
    let mut registry = Registry::new();
    for def in defs {
        registry.register(def).unwrap();
    }
    registry
}

fn cl_samples() -> Registry {
    cl_registry(vec![
        unit(),
        loop_forever(),
        g(),
        recurse_unconditionally(),
        recursive_chain_start(),
        recursive_chain_middle(),
        recursive_chain_end(),
        recursive_cycle_a(),
        recursive_cycle_b(),
        recursive_cycle_c(),
    ])
}

#[test]
fn empty_body_halts() {
    let registry = cl_samples();
    assert_eq!(classify(&unit(), &registry), Ok(Verdict::Halts));
    assert_eq!(classify(&unit(), &Registry::new()), Ok(Verdict::Halts));
    let nameless = FunctionDefinition::new(QualifiedName::new(vec![]), vec![], vec![]);
    assert_eq!(classify(&nameless, &registry), Ok(Verdict::Halts));
    assert_eq!(halts(&nameless, &registry), Ok(true));
    assert_eq!(halts(&unit(), &registry), Ok(true));
}

#[test]
fn sole_self_call_loops() {
    let registry = cl_samples();
    assert_eq!(classify(&recurse_unconditionally(), &registry), Ok(Verdict::Loops));
    assert_eq!(classify(&recurse_unconditionally(), &Registry::new()), Ok(Verdict::Loops));
    assert_eq!(halts(&recurse_unconditionally(), &registry), Ok(false));
    assert_eq!(halts(&recurse_unconditionally(), &Registry::new()), Ok(false));
}

#[test]
fn three_cycle_loops() {
    let registry = cl_samples();
    assert_eq!(classify(&recursive_cycle_a(), &registry), Ok(Verdict::Loops));
    assert_eq!(classify(&recursive_cycle_b(), &registry), Ok(Verdict::Loops));
    assert_eq!(classify(&recursive_cycle_c(), &registry), Ok(Verdict::Loops));
    assert_eq!(halts(&recursive_cycle_a(), &registry), Ok(false));
    assert_eq!(halts(&recursive_cycle_b(), &registry), Ok(false));
    assert_eq!(halts(&recursive_cycle_c(), &registry), Ok(false));
}

#[test]
fn cycle_is_seen_only_through_the_registry() {
    // In an empty registry the call of the first step resolves to nothing.
    assert_eq!(classify(&recursive_cycle_a(), &Registry::new()), Ok(Verdict::Halts));
    assert_eq!(halts(&recursive_cycle_a(), &Registry::new()), Ok(true));
    // With the second step alone the chain breaks off before it comes back.
    let partial = cl_registry(vec![recursive_cycle_b()]);
    assert_eq!(halts(&recursive_cycle_a(), &partial), Ok(true));
}

#[test]
fn straight_chain_halts() {
    let registry = cl_samples();
    assert_eq!(classify(&recursive_chain_start(), &registry), Ok(Verdict::Halts));
    assert_eq!(classify(&recursive_chain_middle(), &registry), Ok(Verdict::Halts));
    assert_eq!(classify(&recursive_chain_end(), &registry), Ok(Verdict::Halts));
    assert_eq!(halts(&recursive_chain_start(), &registry), Ok(true));
    assert_eq!(halts(&recursive_chain_middle(), &registry), Ok(true));
    assert_eq!(halts(&recursive_chain_end(), &registry), Ok(true));
}

#[test]
fn call_chain_with_other_statements_halts() {
    // a calls b twice, once under a condition and once with arguments; b
    // calls c inside a bounded loop; c calls nothing.
    let a = cl_fn(
        "a",
        vec![
            Statement::Other,
            Statement::Expression(Expr::Conditional {
                branches: vec![vec![cl_call("b")], vec![Statement::Return]],
            }),
            Statement::Expression(Expr::Call {
                callee: QualifiedName::simple("b"),
                args: vec![Expr::Literal, Expr::Other],
            }),
            Statement::Return,
        ],
    );
    let b = cl_fn(
        "b",
        vec![Statement::Expression(Expr::Loop {
            boundedness: Boundedness::IteratorDriven,
            body: vec![cl_call("c")],
        })],
    );
    let c = cl_fn("c", vec![Statement::Other, Statement::Return]);
    let registry = cl_registry(vec![a.clone(), b, c]);
    assert_eq!(classify(&a, &registry), Ok(Verdict::Halts));
    assert_eq!(halts(&a, &registry), Ok(true));
}

#[test]
fn self_query_is_an_inversion_paradox() {
    let registry = cl_samples();
    assert_eq!(classify(&g(), &registry), Err(ParadoxError::InversionParadox));
    assert_eq!(halts(&g(), &registry), Err(ParadoxError::InversionParadox));
    assert_eq!(halts(&g(), &Registry::new()), Err(ParadoxError::InversionParadox));
}

#[test]
fn paradox_comes_before_every_other_analysis() {
    // An endless loop and an unconditional recursion: the self-query still
    // decides.
    let f = cl_fn(
        "f",
        vec![
            Statement::Expression(Expr::Loop {
                boundedness: Boundedness::Unconditional,
                body: vec![],
            }),
            Statement::Expression(Expr::Call {
                callee: QualifiedName::simple("halts"),
                args: vec![Expr::Other],
            }),
            cl_call("f"),
        ],
    );
    assert_eq!(halts(&f, &Registry::new()), Err(ParadoxError::InversionParadox));
    assert_eq!(classify(&f, &Registry::new()), Err(ParadoxError::InversionParadox));
}

#[test]
fn loop_forever_loops() {
    assert_eq!(classify(&loop_forever(), &cl_samples()), Ok(Verdict::Loops));
    assert_eq!(halts(&loop_forever(), &Registry::new()), Ok(false));
    assert!(loops(&loop_forever(), &Registry::new()));
    assert!(!loops(&unit(), &Registry::new()));
}

#[test]
fn long_call_cycle_is_traced_to_its_end() {
    let n = 1000;
    let mut defs = Vec::new();
    for i in 1..n {
        let next = if i + 1 == n { "node0".to_string() } else { format!("node{}", i + 1) };
        defs.push(cl_fn(&format!("node{}", i), vec![cl_call(&next)]));
    }
    let registry = cl_registry(defs);
    let start = cl_fn("node0", vec![cl_call("node1")]);
    assert_eq!(classify(&start, &registry), Ok(Verdict::Loops));
    let outside = cl_fn("outside", vec![cl_call("node1")]);
    assert_eq!(classify(&outside, &registry), Ok(Verdict::Halts));
}

#[test]
fn classification_is_repeatable() {
    let registry = cl_samples();
    for f in [unit(), loop_forever(), g(), recursive_chain_start(), recursive_cycle_a()] {
        let first = classify(&f, &registry);
        let second = classify(&f, &registry);
        let of_copy = classify(&f.clone(), &registry);
        assert_eq!(first, second);
        assert_eq!(first, of_copy);
        assert_eq!(halts(&f, &registry), halts(&f, &registry));
        assert_eq!(halts(&f, &registry), halts(&f.clone(), &registry));
    }
}

#[test]
fn recursion_with_a_base_case_halts() {
    let f = cl_fn(
        "countdown",
        vec![Statement::Expression(Expr::Conditional {
            branches: vec![vec![Statement::Return], vec![cl_call("countdown")]],
        })],
    );
    assert_eq!(classify(&f, &Registry::new()), Ok(Verdict::Halts));
    assert_eq!(halts(&f, &Registry::new()), Ok(true));
}

#[test]
fn one_site_without_base_case_is_enough_to_loop() {
    let f = cl_fn(
        "f",
        vec![
            Statement::Expression(Expr::Conditional {
                branches: vec![vec![Statement::Return], vec![cl_call("f")]],
            }),
            cl_call("f"),
        ],
    );
    assert_eq!(classify(&f, &Registry::new()), Ok(Verdict::Loops));
}

#[test]
fn mutual_recursion_with_a_base_case_in_the_callee_halts() {
    let helper = cl_fn(
        "helper",
        vec![Statement::Expression(Expr::Conditional {
            branches: vec![vec![cl_call("f")], vec![]],
        })],
    );
    let f = cl_fn("f", vec![cl_call("helper")]);
    assert_eq!(classify(&f, &cl_registry(vec![helper])), Ok(Verdict::Halts));
}

#[test]
fn halts_agrees_with_classify() {
    let registry = cl_samples();
    for f in [
        unit(),
        loop_forever(),
        g(),
        recurse_unconditionally(),
        recursive_chain_start(),
        recursive_cycle_a(),
    ] {
        let expected = match classify(&f, &registry) {
            Ok(verdict) => Ok(verdict == Verdict::Halts),
            Err(error) => Err(error),
        };
        assert_eq!(halts(&f, &registry), expected);
    }
}

#[test]
fn calls_resolve_among_the_nested_definitions_of_a_session() {
    let back = cl_fn("back", vec![cl_call("f")]);
    let f = cl_fn("f", vec![Statement::NestedFunctionDef(back), cl_call("back")]);
    assert_eq!(halts(&f, &Registry::session(&f).unwrap()), Ok(false));
    assert_eq!(halts(&f, &Registry::new()), Ok(true));
    let idle = cl_fn("back", vec![]);
    let f = cl_fn("f", vec![Statement::NestedFunctionDef(idle), cl_call("back")]);
    assert_eq!(halts(&f, &Registry::session(&f).unwrap()), Ok(true));
}

#[test]
fn error_messages() {
    assert_eq!(ParadoxError::CompileError.message(), "Compile error");
    assert_eq!(ParadoxError::InversionParadox.message(), "Inversion paradox detected");
}
