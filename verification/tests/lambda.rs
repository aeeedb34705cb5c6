use cellrune::lambda::{
    canonical_local_name, definition_from_args, is_local_name, validate_local_name, walk_local_scope, Expr,
    LocalNamePolicy,
};

fn map_expression() -> Expr {
    Expr::Call {
        name: "MAP".to_owned(),
        args: vec![
            Expr::Name("outside".to_owned()),
            Expr::Call {
                name: "LAMBDA".to_owned(),
                args: vec![Expr::Name("_xlpm.Item".to_owned()), Expr::Name("item".to_owned())],
            },
        ],
    }
}

fn observed(visits: Vec<(&Expr, Vec<String>)>) -> Vec<(String, Vec<String>)> {
    visits
        .into_iter()
        .map(|(expr, active_scope)| {
            let Expr::Name(name) = expr else {
                panic!("fixture visits names");
            };
            (name.clone(), active_scope)
        })
        .collect()
}

#[test]
fn local_scope_walks_map_arguments_before_the_scoped_body() {
    let Expr::Call { name, args } = map_expression() else {
        unreachable!("fixture is a call");
    };
    let mut scope = vec!["outer".to_owned()];

    let (handled, visits) = walk_local_scope(&name, &args, &mut scope, true);
    assert!(handled);

    assert_eq!(
        observed(visits),
        vec![
            ("outside".to_owned(), vec!["outer".to_owned()]),
            ("item".to_owned(), vec!["outer".to_owned(), "item".to_owned()]),
        ]
    );
    assert_eq!(scope, vec!["outer"]);
}

#[test]
fn local_scope_walks_let_values_sequentially() {
    let args = vec![
        Expr::Name("first".to_owned()),
        Expr::Name("outside".to_owned()),
        Expr::Name("second".to_owned()),
        Expr::Name("first".to_owned()),
        Expr::Name("second".to_owned()),
    ];
    let mut scope = vec!["outer".to_owned()];

    let (handled, visits) = walk_local_scope("LET", &args, &mut scope, true);
    assert!(handled);

    assert_eq!(
        observed(visits),
        vec![
            ("outside".to_owned(), vec!["outer".to_owned()]),
            ("first".to_owned(), vec!["outer".to_owned(), "first".to_owned()]),
            ("second".to_owned(), vec!["outer".to_owned(), "first".to_owned(), "second".to_owned()]),
        ]
    );
    assert_eq!(scope, vec!["outer"]);
}

#[test]
fn unreachable_arguments_open_a_scope_without_visits() {
    let args = vec![Expr::Name("x".to_owned()), Expr::Name("x".to_owned())];
    let mut scope = Vec::new();
    let (handled, visits) = walk_local_scope("LAMBDA", &args, &mut scope, false);
    assert!(handled);
    assert!(visits.is_empty());
    let (handled, visits) = walk_local_scope("SUM", &args, &mut scope, true);
    assert!(!handled);
    assert!(visits.is_empty());
}

#[test]
fn local_matching_is_case_insensitive_and_prefix_agnostic() {
    let scope = vec!["item".to_owned()];

    assert!(is_local_name("ITEM", &scope));
    assert!(is_local_name("_xlpm.Item", &scope));
    assert!(!is_local_name("other", &scope));
}

#[test]
fn local_name_validation_rejects_reference_conflicts_and_policy_violations() {
    for invalid in ["A1", "XFD1048576", "R1C1", "RC", "R", "c", "1name", "has space"] {
        assert!(validate_local_name(invalid, LocalNamePolicy::Let).is_none());
    }
    assert!(validate_local_name("XFE1", LocalNamePolicy::Let).is_some());
    assert!(validate_local_name("_xlpm.total.value", LocalNamePolicy::Let).is_some());
    assert!(validate_local_name("total.value", LocalNamePolicy::Lambda).is_none());
    assert_eq!(
        validate_local_name("_xlpm.Total", LocalNamePolicy::Lambda).expect("valid parameter").into_string(),
        "total"
    );
}

#[test]
fn lambda_definitions_refuse_duplicate_or_missing_parts() {
    let duplicate = vec![Expr::Name("x".to_owned()), Expr::Name("X".to_owned()), Expr::Name("x".to_owned())];
    assert!(definition_from_args(&duplicate).is_none());
    let missing_body = vec![Expr::Name("x".to_owned()), Expr::Missing];
    assert!(definition_from_args(&missing_body).is_none());
    let valid = vec![Expr::Name("_xlpm.X".to_owned()), Expr::Name("y".to_owned()), Expr::Other];
    let lambda = definition_from_args(&valid).expect("valid");
    assert_eq!(lambda.parameters(), ["x".to_owned(), "y".to_owned()]);
    assert!(matches!(lambda.body(), Expr::Other));
    assert_eq!(canonical_local_name("_XLPM.Value"), "value");
}

#[test]
fn ascii_local_names_lowercase_character_by_character() {
    assert_eq!(canonical_local_name("_xlpm.TaxRate"), "taxrate");
    assert!(is_local_name("TAXRATE", &["taxrate".to_owned()]));
    assert!(!is_local_name("TAXRATES", &["taxrate".to_owned()]));
}
