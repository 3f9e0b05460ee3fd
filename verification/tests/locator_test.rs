use halts::cases::{loop_forever, unit};
use halts::locator::{
    check_path_text, find_function, locate, parse_name, split_locator, Item, LocateError,
};
use halts::registry::{Registry, RegistryError, MAX_FUNCTIONS};
use halts::syntax::{FunctionDefinition, QualifiedName};

fn loc_fn(name: &[&str]) -> FunctionDefinition {
    FunctionDefinition::new(
        QualifiedName::new(name.iter().map(|p| p.to_string()).collect()),
        vec![],
        vec![],
    )
}

fn loc_module(name: &str, items: Vec<Item>) -> Item {
    Item::Module { name: name.to_string(), items }
}

fn loc_path(parts: &[&str]) -> QualifiedName {
    QualifiedName::new(parts.iter().map(|p| p.to_string()).collect())
}

fn loc_tree() -> Vec<Item> {
    vec![
        Item::Other,
        Item::Function(loc_fn(&["test_function"])),
        loc_module(
            "nested",
            vec![
                Item::Function(loc_fn(&["nested", "nested_test_function"])),
                loc_module(
                    "deeply",
                    vec![Item::Function(loc_fn(&["deeply_nested_test_function"]))],
                ),
            ],
        ),
        Item::Function(loc_fn(&["nested"])),
        loc_module("nested", vec![Item::Function(loc_fn(&["shadowed"]))]),
    ]
}

#[test]
fn split_locator_splits_at_the_first_separator() {
    assert_eq!(
        split_locator("tests/ast_from_path_test.rs::test_function"),
        Some(("tests/ast_from_path_test.rs".to_string(), "test_function".to_string()))
    );
    assert_eq!(
        split_locator("a.rs::nested::deeply::f"),
        Some(("a.rs".to_string(), "nested::deeply::f".to_string()))
    );
    assert_eq!(split_locator("::f"), Some(("".to_string(), "f".to_string())));
    assert_eq!(split_locator("a::"), Some(("a".to_string(), "".to_string())));
    assert_eq!(split_locator("a:::b"), Some(("a".to_string(), ":b".to_string())));
}

#[test]
fn split_locator_takes_the_quotes_off_both_ends() {
    assert_eq!(
        split_locator("\"src/lib.rs::f\""),
        Some(("src/lib.rs".to_string(), "f".to_string()))
    );
    assert_eq!(
        split_locator("\"\"a\"b::c\"\"\""),
        Some(("a\"b".to_string(), "c".to_string()))
    );
}

#[test]
fn split_locator_needs_a_separator() {
    assert_eq!(split_locator(""), None);
    assert_eq!(split_locator("no_separator"), None);
    assert_eq!(split_locator("a:b"), None);
    assert_eq!(split_locator(":"), None);
    assert_eq!(split_locator("\"\"\""), None);
    assert_eq!(split_locator("\":\":\""), None);
}

#[test]
fn split_locator_counts_characters_not_bytes() {
    assert_eq!(
        split_locator("dés/ü.rs::größe"),
        Some(("dés/ü.rs".to_string(), "größe".to_string()))
    );
}

#[test]
fn parse_name_reads_the_segments_of_a_path() {
    assert_eq!(parse_name("f"), Some(loc_path(&["f"])));
    assert_eq!(parse_name("nested::deeply::f"), Some(loc_path(&["nested", "deeply", "f"])));
    assert_eq!(parse_name(" a :: b "), Some(loc_path(&["a", "b"])));
    assert_eq!(parse_name("::std::mem::swap"), Some(loc_path(&["std", "mem", "swap"])));
    assert_eq!(parse_name("r#type::f"), Some(loc_path(&["r#type", "f"])));
}

#[test]
fn parse_name_refuses_what_is_no_path() {
    assert_eq!(parse_name(""), None);
    assert_eq!(parse_name("a::"), None);
    assert_eq!(parse_name("a b"), None);
    assert_eq!(parse_name("1a"), None);
    assert_eq!(parse_name("a::'"), None);
}

#[test]
fn parse_name_reads_long_paths() {
    let long = format!("{}f", "m::".repeat(100));
    assert_eq!(long.chars().count(), 301);
    assert_eq!(parse_name(&long).map(|n| n.segments.len()), Some(101));
    let name = "n".repeat(400);
    assert_eq!(parse_name(&name), Some(loc_path(&[&name])));
}

#[test]
fn parse_name_refuses_brackets_unread() {
    assert_eq!(parse_name("Vec::<u8>::new"), None);
    assert_eq!(parse_name("f(x)"), None);
    assert_eq!(parse_name("a[0]"), None);
    assert_eq!(parse_name("m::{f}"), None);
    let nested = format!("{}a{}", "a<".repeat(85), ">".repeat(85));
    assert_eq!(parse_name(&nested), None);
    assert!(!check_path_text(&nested));
    assert!(check_path_text("a::b"));
    assert!(check_path_text(""));
    assert!(check_path_text("not a path >)]}"));
    assert!(check_path_text(&"m::".repeat(1000)));
}

#[test]
fn find_function_walks_the_modules() {
    let items = loc_tree();
    assert_eq!(
        find_function(&items, &loc_path(&["test_function"])),
        Some(&loc_fn(&["test_function"]))
    );
    assert_eq!(
        find_function(&items, &loc_path(&["nested", "nested_test_function"])),
        Some(&loc_fn(&["nested", "nested_test_function"]))
    );
    assert_eq!(
        find_function(&items, &loc_path(&["nested", "deeply", "deeply_nested_test_function"])),
        Some(&loc_fn(&["deeply_nested_test_function"]))
    );
}

#[test]
fn find_function_tells_functions_from_modules() {
    let items = loc_tree();
    // As a last segment `nested` is the function, before it the module.
    assert_eq!(find_function(&items, &loc_path(&["nested"])), Some(&loc_fn(&["nested"])));
    assert_eq!(find_function(&items, &loc_path(&["nested", "deeply"])), None);
    assert_eq!(find_function(&items, &loc_path(&["test_function", "x"])), None);
}

#[test]
fn find_function_enters_the_first_module_of_a_name() {
    let items = loc_tree();
    assert_eq!(find_function(&items, &loc_path(&["nested", "shadowed"])), None);
}

#[test]
fn find_function_finds_nothing_for_other_paths() {
    let items = loc_tree();
    assert_eq!(find_function(&items, &loc_path(&[])), None);
    assert_eq!(find_function(&items, &loc_path(&["missing"])), None);
    assert_eq!(find_function(&items, &loc_path(&["deeply", "deeply_nested_test_function"])), None);
    assert_eq!(find_function(&Vec::new(), &loc_path(&["f"])), None);
    let nameless = vec![Item::Function(loc_fn(&[]))];
    assert_eq!(find_function(&nameless, &loc_path(&["f"])), None);
}

#[test]
fn locate_parses_then_finds() {
    let items = vec![
        Item::Function(unit()),
        loop_module(),
    ];
    assert_eq!(locate(&items, "unit"), Ok(&unit()));
    assert_eq!(locate(&items, "cases::loop_forever"), Ok(&loop_forever()));
    assert_eq!(locate(&items, "cases::unit"), Err(LocateError::NotFoundError));
    assert_eq!(locate(&items, "loop_forever"), Err(LocateError::NotFoundError));
    assert_eq!(locate(&items, "cases::"), Err(LocateError::ParseError));
    assert_eq!(locate(&items, ""), Err(LocateError::ParseError));
    let long = format!("{}unit", "cases::".repeat(40));
    assert_eq!(locate(&items, &long), Err(LocateError::NotFoundError));
    assert_eq!(locate(&items, "unit::<T>"), Err(LocateError::ParseError));
}

fn loop_module() -> Item {
    loc_module("cases", vec![Item::Function(loop_forever())])
}

#[test]
fn registry_of_items_holds_every_function_in_source_order() {
    let items = loc_tree();
    let registry = Registry::of_items(&items).unwrap();
    assert_eq!(registry.len(), 5);
    assert_eq!(registry.get(0), Some(&loc_fn(&["test_function"])));
    assert_eq!(registry.get(1), Some(&loc_fn(&["nested", "nested_test_function"])));
    assert_eq!(registry.get(2), Some(&loc_fn(&["deeply_nested_test_function"])));
    assert_eq!(registry.get(3), Some(&loc_fn(&["nested"])));
    assert_eq!(registry.get(4), Some(&loc_fn(&["shadowed"])));
    assert_eq!(Registry::of_items(&Vec::new()).unwrap().len(), 0);
    assert_eq!(Registry::of_items(&vec![Item::Other]).unwrap().len(), 0);
}

#[test]
fn registry_of_items_refuses_two_functions_of_one_name() {
    let items = vec![
        Item::Function(loc_fn(&["f"])),
        loc_module("m", vec![Item::Function(loc_fn(&["m", "f"]))]),
        loc_module("n", vec![Item::Other, Item::Function(loc_fn(&["f"]))]),
    ];
    assert_eq!(Registry::of_items(&items).err(), Some(RegistryError::Duplicate));
}

#[test]
fn registry_of_items_refuses_too_many_functions() {
    let mut inner = Vec::new();
    for i in 0..MAX_FUNCTIONS {
        inner.push(Item::Function(loc_fn(&[&format!("f{}", i)])));
    }
    let items = vec![loc_module("m", inner), Item::Function(loc_fn(&["last"]))];
    assert_eq!(
        Registry::of_items(&items).err(),
        Some(RegistryError::ResourceLimitExceeded)
    );
}
