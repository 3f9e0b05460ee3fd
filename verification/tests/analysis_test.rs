use halts::base_case::{has_base_case, is_base_case_reachable, stmts_lead_back};
use halts::calls::call_sites;
use halts::iteration::{find_endless_loops, is_endless_loop, iter_iterations};
use halts::paradox::{detect_paradox, ENTRY_POINT};
use halts::recursion::{find_recursions, reachable, trace_from};
use halts::registry::Registry;
use halts::syntax::{Boundedness, Expr, FunctionDefinition, QualifiedName, Statement};

fn an_name(name: &str) -> QualifiedName {
    QualifiedName::simple(name)
}

fn an_call(name: &str) -> Statement {
    Statement::Expression(an_call_expr(name, vec![]))
}

fn an_call_expr(name: &str, args: Vec<Expr>) -> Expr {
    Expr::Call { callee: an_name(name), args }
}

fn an_if(branches: Vec<Vec<Statement>>) -> Statement {
    Statement::Expression(Expr::Conditional { branches })
}

fn an_loop(boundedness: Boundedness, body: Vec<Statement>) -> Statement {
    Statement::Expression(Expr::Loop { boundedness, body })
}

fn an_fn(name: &str, body: Vec<Statement>) -> FunctionDefinition {
    FunctionDefinition::new(an_name(name), vec![], body)
}

fn an_registry(defs: Vec<FunctionDefinition>) -> Registry {
    let mut registry = Registry::new();
    for def in defs {
        registry.register(def).unwrap();
    }
    registry
}

#[test]
fn call_sites_come_in_source_order() {
    let body = vec![
        Statement::Expression(an_call_expr(
            "outer",
            vec![Expr::Literal, an_call_expr("arg", vec![])],
        )),
        an_loop(Boundedness::ConditionChecked, vec![an_call("in_loop")]),
        Statement::NestedFunctionDef(an_fn("nested", vec![an_call("hidden")])),
        Statement::Return,
        an_call("last"),
    ];
    let sites = call_sites(&body);
    let names: Vec<Vec<String>> = sites.iter().map(|s| s.callee.identifiers()).collect();
    assert_eq!(
        names,
        vec![
            vec!["outer".to_string()],
            vec!["arg".to_string()],
            vec!["in_loop".to_string()],
            vec!["last".to_string()],
        ]
    );
    assert_eq!(sites[0].args.len(), 2);
    assert_eq!(sites[1].args.len(), 0);
    assert!(sites.iter().all(|s| s.alternatives.is_empty()));
}

#[test]
fn call_sites_carry_the_sibling_branches() {
    let inner_then = vec![an_call("deep")];
    let inner_else = vec![Statement::Return];
    let first = vec![an_call("a"), an_if(vec![inner_then.clone(), inner_else.clone()])];
    let second = vec![an_call("b")];
    let third: Vec<Statement> = vec![];
    let body = vec![an_if(vec![first.clone(), second.clone(), third.clone()])];
    let sites = call_sites(&body);
    assert_eq!(sites.len(), 3);

    assert_eq!(sites[0].callee, &an_name("a"));
    assert_eq!(sites[0].alternatives, vec![&second, &third]);

    assert_eq!(sites[1].callee, &an_name("deep"));
    assert_eq!(sites[1].alternatives, vec![&second, &third, &inner_else]);

    assert_eq!(sites[2].callee, &an_name("b"));
    assert_eq!(sites[2].alternatives, vec![&first, &third]);
}

#[test]
fn reachable_follows_calls_through_the_registry() {
    // f -> a -> b -> a, c is never called, d is called by c only
    let registry = an_registry(vec![
        an_fn("a", vec![an_call("b")]),
        an_fn("b", vec![an_call("a"), an_call("missing")]),
        an_fn("c", vec![an_call("d")]),
        an_fn("d", vec![]),
    ]);
    let from = vec![an_call("a")];
    assert_eq!(
        reachable(&from, &an_name("f"), &registry),
        vec![true, true, false, false]
    );
    let from = vec![an_call("c")];
    assert_eq!(
        reachable(&from, &an_name("f"), &registry),
        vec![false, false, true, true]
    );
    let from: Vec<Statement> = vec![];
    assert_eq!(
        reachable(&from, &an_name("f"), &registry),
        vec![false, false, false, false]
    );
}

#[test]
fn reachable_never_passes_through_the_target() {
    // f -> t -> a: the call of t is a recursion site of t, not a step.
    let registry = an_registry(vec![an_fn("t", vec![an_call("a")]), an_fn("a", vec![])]);
    let from = vec![an_call("t")];
    assert_eq!(reachable(&from, &an_name("t"), &registry), vec![false, false]);
    assert_eq!(reachable(&from, &an_name("x"), &registry), vec![true, true]);
}

#[test]
fn direct_recursion_is_found_with_its_arguments() {
    let f = an_fn(
        "f",
        vec![
            an_call("other"),
            Statement::Expression(an_call_expr("f", vec![Expr::Literal, Expr::Other])),
        ],
    );
    let registry = Registry::new();
    let sites = find_recursions(&f, &registry);
    assert_eq!(sites.len(), 1);
    assert_eq!(sites[0].callee, &an_name("f"));
    assert_eq!(sites[0].args, &vec![Expr::Literal, Expr::Other]);
    assert!(sites[0].alternatives.is_empty());
}

#[test]
fn indirect_recursion_is_found_in_the_reached_definitions() {
    // f -> b -> a -> f, and a also calls f under a condition
    let a_else = vec![Statement::Return];
    let a = an_fn(
        "a",
        vec![
            an_if(vec![
                vec![Statement::Expression(an_call_expr("f", vec![Expr::Literal]))],
                a_else.clone(),
            ]),
            an_call("f"),
        ],
    );
    let b = an_fn("b", vec![an_call("a")]);
    let unused = an_fn("unused", vec![an_call("f")]);
    let f = an_fn("f", vec![an_call("b"), an_call("f")]);
    let registry = an_registry(vec![a, unused, b]);
    let sites = find_recursions(&f, &registry);
    // own site first, then the sites of `a` (position 0); `unused` is not
    // reached and `b` holds no call of `f`.
    assert_eq!(sites.len(), 3);
    assert_eq!(sites[0].args.len(), 0);
    assert!(sites[0].alternatives.is_empty());
    assert_eq!(sites[1].args, &vec![Expr::Literal]);
    assert_eq!(sites[1].alternatives, vec![&a_else]);
    assert_eq!(sites[2].args.len(), 0);
    assert!(sites[2].alternatives.is_empty());
}

#[test]
fn reached_sites_come_in_registry_order() {
    let x = an_fn("x", vec![Statement::Expression(an_call_expr("f", vec![Expr::Literal]))]);
    let y = an_fn(
        "y",
        vec![Statement::Expression(an_call_expr("f", vec![Expr::Other, Expr::Other]))],
    );
    let f = an_fn("f", vec![an_call("y"), an_call("x")]);
    let registry = an_registry(vec![x, y]);
    let sites = find_recursions(&f, &registry);
    assert_eq!(sites.len(), 2);
    assert_eq!(sites[0].args.len(), 1);
    assert_eq!(sites[1].args.len(), 2);
}

#[test]
fn no_call_back_gives_no_site() {
    let registry = an_registry(vec![
        an_fn("b", vec![an_call("c")]),
        an_fn("c", vec![]),
    ]);
    let a = an_fn("a", vec![an_call("b")]);
    assert_eq!(find_recursions(&a, &registry).len(), 0);
}

#[test]
fn trace_from_starts_at_any_statement_list() {
    let registry = an_registry(vec![an_fn("b", vec![an_call("f")])]);
    let from = vec![an_call("b")];
    assert_eq!(trace_from(&from, &an_name("f"), &registry).len(), 1);
    assert_eq!(trace_from(&from, &an_name("g"), &registry).len(), 0);
    assert!(stmts_lead_back(&from, &an_name("f"), &registry));
    assert!(!stmts_lead_back(&from, &an_name("g"), &registry));
    let direct = vec![an_call("g")];
    assert!(stmts_lead_back(&direct, &an_name("g"), &registry));
}

#[test]
fn unconditional_recursion_has_no_base_case() {
    let f = an_fn("f", vec![an_call("f")]);
    let registry = Registry::new();
    let sites = find_recursions(&f, &registry);
    assert!(!has_base_case(&sites[0]));
    assert!(!is_base_case_reachable(&sites[0], &f, &registry));
}

#[test]
fn a_sibling_branch_without_recursion_is_a_base_case() {
    let f = an_fn("f", vec![an_if(vec![vec![an_call("f")], vec![Statement::Return]])]);
    let registry = Registry::new();
    let sites = find_recursions(&f, &registry);
    assert_eq!(sites.len(), 1);
    assert!(has_base_case(&sites[0]));
    assert!(is_base_case_reachable(&sites[0], &f, &registry));
}

#[test]
fn siblings_that_all_recurse_are_no_base_case() {
    let f = an_fn("f", vec![an_if(vec![vec![an_call("f")], vec![an_call("f")]])]);
    let registry = Registry::new();
    let sites = find_recursions(&f, &registry);
    assert_eq!(sites.len(), 2);
    assert!(has_base_case(&sites[0]));
    assert!(!is_base_case_reachable(&sites[0], &f, &registry));
    assert!(!is_base_case_reachable(&sites[1], &f, &registry));
}

#[test]
fn a_sibling_that_leads_back_through_the_registry_is_no_base_case() {
    let f = an_fn("f", vec![an_if(vec![vec![an_call("f")], vec![an_call("back")]])]);
    let with_back = an_registry(vec![an_fn("back", vec![an_call("f")])]);
    let sites = find_recursions(&f, &with_back);
    assert!(!is_base_case_reachable(&sites[0], &f, &with_back));

    let harmless = an_registry(vec![an_fn("back", vec![])]);
    let sites = find_recursions(&f, &harmless);
    assert!(is_base_case_reachable(&sites[0], &f, &harmless));
}

#[test]
fn an_outer_conditional_can_hold_the_base_case() {
    let f = an_fn(
        "f",
        vec![an_if(vec![
            vec![an_if(vec![vec![an_call("f")], vec![an_call("f")]])],
            vec![],
        ])],
    );
    let registry = Registry::new();
    let sites = find_recursions(&f, &registry);
    assert_eq!(sites.len(), 2);
    assert!(is_base_case_reachable(&sites[0], &f, &registry));
    assert!(is_base_case_reachable(&sites[1], &f, &registry));
}

#[test]
fn only_unconditional_loops_without_exit_are_endless() {
    let plain = Expr::Loop { boundedness: Boundedness::Unconditional, body: vec![Statement::Other] };
    assert!(is_endless_loop(&plain));
    let empty = Expr::Loop { boundedness: Boundedness::Unconditional, body: vec![] };
    assert!(is_endless_loop(&empty));
    let checked = Expr::Loop { boundedness: Boundedness::ConditionChecked, body: vec![] };
    assert!(!is_endless_loop(&checked));
    let driven = Expr::Loop { boundedness: Boundedness::IteratorDriven, body: vec![] };
    assert!(!is_endless_loop(&driven));
    let breaking = Expr::Loop {
        boundedness: Boundedness::Unconditional,
        body: vec![Statement::Other, Statement::Break],
    };
    assert!(!is_endless_loop(&breaking));
    let returning = Expr::Loop {
        boundedness: Boundedness::Unconditional,
        body: vec![an_if(vec![vec![Statement::Return], vec![]])],
    };
    assert!(!is_endless_loop(&returning));
    assert!(!is_endless_loop(&Expr::Literal));
    assert!(!is_endless_loop(&an_call_expr("f", vec![])));
}

#[test]
fn a_break_of_an_inner_loop_does_not_end_the_outer_one() {
    let inner_break = Expr::Loop {
        boundedness: Boundedness::Unconditional,
        body: vec![an_loop(Boundedness::Unconditional, vec![Statement::Break])],
    };
    assert!(is_endless_loop(&inner_break));
    let inner_return = Expr::Loop {
        boundedness: Boundedness::Unconditional,
        body: vec![an_loop(Boundedness::ConditionChecked, vec![Statement::Return])],
    };
    assert!(!is_endless_loop(&inner_return));
}

#[test]
fn exits_of_nested_definitions_do_not_count() {
    let looping = Expr::Loop {
        boundedness: Boundedness::Unconditional,
        body: vec![Statement::NestedFunctionDef(an_fn(
            "inner",
            vec![Statement::Return, Statement::Break],
        ))],
    };
    assert!(is_endless_loop(&looping));
}

#[test]
fn an_exit_among_the_arguments_of_a_call_counts() {
    let looping = Expr::Loop {
        boundedness: Boundedness::Unconditional,
        body: vec![Statement::Expression(an_call_expr(
            "f",
            vec![Expr::Conditional { branches: vec![vec![Statement::Break], vec![]] }],
        ))],
    };
    assert!(!is_endless_loop(&looping));
}

#[test]
fn iterations_are_listed_outer_before_inner() {
    let f = an_fn(
        "f",
        vec![
            an_loop(
                Boundedness::ConditionChecked,
                vec![an_loop(Boundedness::Unconditional, vec![Statement::Break])],
            ),
            Statement::NestedFunctionDef(an_fn(
                "nested",
                vec![an_loop(Boundedness::Unconditional, vec![])],
            )),
            an_if(vec![vec![], vec![an_loop(Boundedness::IteratorDriven, vec![])]]),
        ],
    );
    let loops = iter_iterations(&f);
    let kinds: Vec<Boundedness> = loops
        .iter()
        .map(|e| match e {
            Expr::Loop { boundedness, .. } => *boundedness,
            _ => panic!("not a loop"),
        })
        .collect();
    assert_eq!(
        kinds,
        vec![
            Boundedness::ConditionChecked,
            Boundedness::Unconditional,
            Boundedness::IteratorDriven
        ]
    );
    assert!(!find_endless_loops(&f));
}

#[test]
fn an_endless_loop_anywhere_in_the_body_is_found() {
    let in_branch = an_fn(
        "f",
        vec![an_if(vec![vec![], vec![an_loop(Boundedness::Unconditional, vec![])]])],
    );
    assert!(find_endless_loops(&in_branch));
    let inside_bounded = an_fn(
        "f",
        vec![an_loop(
            Boundedness::IteratorDriven,
            vec![an_loop(Boundedness::Unconditional, vec![Statement::Other])],
        )],
    );
    assert!(find_endless_loops(&inside_bounded));
    let in_nested_definition = an_fn(
        "f",
        vec![Statement::NestedFunctionDef(an_fn(
            "inner",
            vec![an_loop(Boundedness::Unconditional, vec![])],
        ))],
    );
    assert!(!find_endless_loops(&in_nested_definition));
    assert!(!find_endless_loops(&an_fn("f", vec![])));
}

#[test]
fn reserved_entry_point_is_halts() {
    assert_eq!(ENTRY_POINT, "halts");
}

#[test]
fn a_call_of_the_entry_point_with_an_argument_is_a_paradox() {
    let direct = an_fn(
        "f",
        vec![Statement::Expression(an_call_expr(ENTRY_POINT, vec![Expr::Other]))],
    );
    assert!(detect_paradox(&direct));
    let in_branch = an_fn(
        "f",
        vec![an_if(vec![
            vec![],
            vec![Statement::Expression(an_call_expr(ENTRY_POINT, vec![Expr::Other]))],
        ])],
    );
    assert!(detect_paradox(&in_branch));
    let as_argument = an_fn(
        "f",
        vec![Statement::Expression(an_call_expr(
            "print",
            vec![an_call_expr(ENTRY_POINT, vec![Expr::Other])],
        ))],
    );
    assert!(detect_paradox(&as_argument));
}

#[test]
fn other_calls_are_no_paradox() {
    assert!(!detect_paradox(&an_fn("f", vec![])));
    assert!(!detect_paradox(&an_fn("f", vec![an_call("unit")])));
    let without_argument = an_fn("f", vec![an_call(ENTRY_POINT)]);
    assert!(!detect_paradox(&without_argument));
    let longer_name = an_fn(
        "f",
        vec![Statement::Expression(Expr::Call {
            callee: QualifiedName::new(vec!["m".to_string(), ENTRY_POINT.to_string()]),
            args: vec![Expr::Other],
        })],
    );
    assert!(!detect_paradox(&longer_name));
    let in_nested_definition = an_fn(
        "f",
        vec![Statement::NestedFunctionDef(an_fn(
            "inner",
            vec![Statement::Expression(an_call_expr(ENTRY_POINT, vec![Expr::Other]))],
        ))],
    );
    assert!(!detect_paradox(&in_nested_definition));
}
