use halts::cases::{g, loop_forever, unit};
use halts::syntax::{Boundedness, Expr, FunctionDefinition, QualifiedName, Statement};

fn syntax_name(parts: &[&str]) -> QualifiedName {
    QualifiedName::new(parts.iter().map(|p| p.to_string()).collect())
}

#[test]
fn simple_name_has_one_identifier() {
    let name = QualifiedName::simple("unit");
    assert_eq!(name.segments, vec!["unit".to_string()]);
    assert_eq!(name.identifiers(), vec!["unit".to_string()]);
}

#[test]
fn same_as_is_exact_sequence_equality() {
    let a = syntax_name(&["m", "f"]);
    assert!(a.same_as(&syntax_name(&["m", "f"])));
    assert!(!a.same_as(&syntax_name(&["m"])));
    assert!(!a.same_as(&syntax_name(&["f", "m"])));
    assert!(!a.same_as(&syntax_name(&["m", "g"])));
    assert!(!a.same_as(&syntax_name(&["m", "f", "f"])));
    assert!(syntax_name(&[]).same_as(&syntax_name(&[])));
}

#[test]
fn same_as_agrees_with_equality() {
    let a = syntax_name(&["a", "b"]);
    let b = syntax_name(&["a", "b"]);
    let c = syntax_name(&["a", "c"]);
    assert_eq!(a.same_as(&b), a == b);
    assert_eq!(a.same_as(&c), a == c);
}

#[test]
fn clone_of_a_name_is_equal() {
    let a = syntax_name(&["outer", "inner", "f"]);
    assert_eq!(a.clone(), a);
}

#[test]
fn clone_of_a_tree_is_equal() {
    let nested = FunctionDefinition::new(
        syntax_name(&["inner"]),
        vec!["x".to_string()],
        vec![Statement::Return],
    );
    let f = FunctionDefinition::new(
        syntax_name(&["outer"]),
        vec!["a".to_string(), "b".to_string()],
        vec![
            Statement::NestedFunctionDef(nested),
            Statement::Expression(Expr::Loop {
                boundedness: Boundedness::ConditionChecked,
                body: vec![
                    Statement::Break,
                    Statement::Expression(Expr::Conditional {
                        branches: vec![
                            vec![Statement::Expression(Expr::Call {
                                callee: syntax_name(&["inner"]),
                                args: vec![Expr::Literal, Expr::Other],
                            })],
                            vec![],
                        ],
                    }),
                ],
            }),
            Statement::Other,
        ],
    );
    let copy = f.clone();
    assert_eq!(copy, f);
    assert_eq!(g().clone(), g());
}

#[test]
fn new_function_keeps_its_parts() {
    let f = FunctionDefinition::new(
        syntax_name(&["f"]),
        vec!["x".to_string()],
        vec![Statement::Return],
    );
    assert_eq!(f.name, syntax_name(&["f"]));
    assert_eq!(f.params, vec!["x".to_string()]);
    assert_eq!(f.body, vec![Statement::Return]);
}

#[test]
fn unit_sample_has_an_empty_body() {
    let f = unit();
    assert_eq!(f.name, syntax_name(&["unit"]));
    assert!(f.params.is_empty());
    assert!(f.body.is_empty());
}

#[test]
fn loop_forever_sample_is_one_unconditional_loop() {
    let f = loop_forever();
    assert_eq!(f.name, syntax_name(&["loop_forever"]));
    assert_eq!(
        f.body,
        vec![Statement::Expression(Expr::Loop {
            boundedness: Boundedness::Unconditional,
            body: vec![Statement::Other],
        })]
    );
}

#[test]
fn g_sample_asks_the_classifier_then_branches() {
    let f = g();
    assert_eq!(f.name, syntax_name(&["g"]));
    assert_eq!(
        f.body,
        vec![
            Statement::Expression(Expr::Call {
                callee: syntax_name(&["halts"]),
                args: vec![Expr::Other],
            }),
            Statement::Expression(Expr::Conditional {
                branches: vec![
                    vec![Statement::Expression(Expr::Call {
                        callee: syntax_name(&["loop_forever"]),
                        args: vec![],
                    })],
                    vec![Statement::Expression(Expr::Call {
                        callee: syntax_name(&["unit"]),
                        args: vec![],
                    })],
                ],
            }),
        ]
    );
}
