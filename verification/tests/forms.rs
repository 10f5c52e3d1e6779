//! Expressions and errors as messages show them.

use wa2::kernel::ast::{
    AddExpr, AsExpr, Axis, Expr, Literal, MatchArm, MatchExpr, MatchPattern, QualifiedName, QueryExpr,
    QueryPath, QueryPredicate, QueryStep,
};
use wa2::kernel::forms::{show_expr, show_literal, show_name, show_path};
use wa2::kernel::rules::{not_an_entity, RuleEngine};
use wa2::kernel::values::Env;
use wa2::model::{Model, ModelError};
use wa2::shown::{show_field, show_list, show_option, show_range, show_record, show_tuple};
use wa2::vendor::{model_error_to_diags, show_error};

fn name(namespace: Option<&str>, local: &str) -> QualifiedName {
    QualifiedName { namespace: namespace.map(|s| s.to_string()), name: local.to_string(), span: 1..12 }
}

fn path(conditions: Vec<QueryPredicate>) -> QueryPath {
    QueryPath {
        steps: vec![
            QueryStep { axis: Axis::Child, node_test: Some(name(Some("core"), "a")), predicates: vec![], span: 0..4 },
            QueryStep { axis: Axis::Descendant, node_test: None, predicates: conditions, span: 4..9 },
            QueryStep { axis: Axis::DescendantOrSelf, node_test: Some(name(None, "b")), predicates: vec![], span: 9..10 },
        ],
        span: 0..10,
    }
}

fn text(s: &str) -> Expr {
    Expr::String(s.to_string(), 3..8)
}

#[test]
fn parts_of_forms() {
    let items = vec!["a".to_string(), "b".to_string()];
    assert_eq!(show_field("x", "1"), "x: 1");
    assert_eq!(show_record("R", &items), "R { a, b }");
    assert_eq!(show_tuple("T", &items), "T(a, b)");
    assert_eq!(show_list(&items), "[a, b]");
    assert_eq!(show_list(&vec![]), "[]");
    assert_eq!(show_option(Some("a".to_string())), "Some(a)");
    assert_eq!(show_option(None), "None");
    assert_eq!(show_range(&(0..12)), "0..12");
}

#[test]
fn small_expressions() {
    assert_eq!(show_expr(&text("v")), "String(\"v\", 3..8)");
    assert_eq!(show_expr(&Expr::Bool(false, 0..5)), "Bool(false, 0..5)");
    assert_eq!(
        show_expr(&Expr::Empty(Box::new(Expr::Var("x".to_string(), 6..7)), 0..8)),
        "Empty(Var(\"x\", 6..7), 0..8)"
    );
    assert_eq!(
        show_name(&name(Some("core"), "Error")),
        "QualifiedName { namespace: Some(\"core\"), name: \"Error\", span: 1..12 }"
    );
    assert_eq!(show_literal(&Literal::Number(-7)), "Number(-7)");
    // What cannot stand in quotes is escaped
    assert_eq!(show_expr(&text("a\"b\\c\nd")), "String(\"a\\\"b\\\\c\\nd\", 3..8)");
}

/// The form of every kind of expression is the debug form.
#[test]
fn forms_are_debug_forms() {
    let conditions = vec![
        QueryPredicate::Exists(path(vec![])),
        QueryPredicate::Eq(path(vec![]), Literal::String("it's \t \u{1F600} \u{301} \u{7f}".to_string())),
        QueryPredicate::In(path(vec![]), vec![Literal::Bool(true), Literal::Number(i64::MIN)]),
        QueryPredicate::In(path(vec![]), vec![]),
    ];
    let full = path(conditions);
    assert_eq!(show_path(&full), format!("{:?}", full));
    let expressions = vec![
        Expr::Var("x".to_string(), 0..1),
        Expr::Blank(2..2),
        Expr::Query(QueryExpr { path: full, span: 5..6 }),
        Expr::Add(Box::new(AddExpr {
            subject: Expr::Blank(0..1),
            predicate: name(Some("a:b"), "c"),
            object: text(""),
            span: 0..20,
        })),
        Expr::QName(name(None, "n")),
        Expr::String("say \"hi\"".to_string(), 0..usize::MAX),
        Expr::Bool(true, 0..0),
        Expr::Empty(Box::new(text("x")), 0..0),
        Expr::Match(Box::new(MatchExpr {
            value: text("v"),
            arms: vec![
                MatchArm {
                    patterns: vec![MatchPattern::Variant("a".to_string()), MatchPattern::Else],
                    result: Expr::Bool(true, 1..2),
                    span: 3..4,
                },
                MatchArm { patterns: vec![], result: text("r"), span: 5..6 },
            ],
            span: 7..8,
        })),
        Expr::As(Box::new(AsExpr { inner: text("i"), target_type: name(Some("core"), "T"), span: 0..9 })),
    ];
    for e in &expressions {
        assert_eq!(show_expr(e), format!("{:?}", e));
    }
}

#[test]
fn expressions_that_denote_no_entity() {
    let engine = RuleEngine::new();
    let mut model = Model::bootstrap();
    let env = Env::new();
    assert_eq!(not_an_entity("X").message, "expression cannot be converted to entity: X");
    for e in [
        text("v"),
        Expr::Bool(true, 0..4),
        Expr::Empty(Box::new(text("x")), 0..9),
        Expr::Match(Box::new(MatchExpr { value: text("v"), arms: vec![], span: 0..1 })),
    ] {
        let message = format!("expression cannot be converted to entity: {:?}", e);
        assert_eq!(engine.eval_expr_to_entity(&mut model, &e, &env, false).unwrap_err().message, message);
    }
}

#[test]
fn errors_of_a_graph() {
    assert_eq!(show_error("\"m\""), "ModelError { message: \"m\" }");
    let e = ModelError { message: "no \"x\"".to_string() };
    let message = format!("Model error: {:?}", e);
    assert_eq!(message, "Model error: ModelError { message: \"no \\\"x\\\"\" }");
    assert_eq!(model_error_to_diags(&e)[0].message, message);
}
