//! Derives, rules and policies on small graphs.

use wa2::kernel::analysis::{all_rules, Kernel, Source};
use wa2::kernel::ast::{
    AddExpr, AddStmt, AsExpr, AssertStmt, Axis, Derive, Expr, ForStmt, IfStmt, LetStmt, Literal, MatchArm,
    MatchExpr, MatchPattern, Modal, ModalMetadata, ModalStmt, QualifiedName, QueryExpr, QueryPath,
    QueryPredicate, QueryStep, Rule, Statement,
};
use wa2::kernel::query::QueryEngine;
use wa2::kernel::rules::{OrderedBinding, RuleEngine, MAX_ITERATIONS};
use wa2::kernel::semantics::PolicyOutcome;
use wa2::kernel::values::{Env, EvalResult};
use wa2::model::{entity_id, EntityId, Model};
use wa2::names::NameMap;

fn name(text: &str) -> QualifiedName {
    match text.rfind(':') {
        Some(i) => QualifiedName {
            namespace: Some(text[..i].to_string()),
            name: text[i + 1..].to_string(),
            span: 0..0,
        },
        None => QualifiedName { namespace: None, name: text.to_string(), span: 0..0 },
    }
}

fn step(axis: Axis, test: &str) -> QueryStep {
    QueryStep {
        axis,
        node_test: if test == "*" { None } else { Some(name(test)) },
        predicates: vec![],
        span: 0..0,
    }
}

fn path(tests: &[&str]) -> QueryPath {
    QueryPath {
        steps: tests.iter().map(|t| step(Axis::Child, t)).collect(),
        span: 0..0,
    }
}

fn query_path(path: QueryPath) -> Expr {
    Expr::Query(QueryExpr { path, span: 0..0 })
}

fn query(tests: &[&str]) -> Expr {
    query_path(path(tests))
}

fn var(name: &str) -> Expr {
    Expr::Var(name.to_string(), 0..0)
}

fn text(s: &str) -> Expr {
    Expr::String(s.to_string(), 0..0)
}

fn let_stmt(name: &str, value: Expr) -> Statement {
    Statement::Let(LetStmt { name: name.to_string(), value, span: 0..0 })
}

fn for_stmt(name: &str, collection: Expr, body: Vec<Statement>) -> Statement {
    Statement::For(ForStmt { var: name.to_string(), collection, body, span: 0..0 })
}

fn if_stmt(condition: Expr, then_body: Vec<Statement>, else_body: Option<Vec<Statement>>) -> Statement {
    Statement::If(IfStmt { condition, then_body, else_body, span: 0..0 })
}

fn add_stmt(subject: Expr, predicate: &str, object: Expr) -> Statement {
    Statement::Add(AddStmt { subject, predicate: name(predicate), object, span: 0..0 })
}

fn add_expr(subject: Expr, predicate: &str, object: Expr) -> Expr {
    Expr::Add(Box::new(AddExpr { subject, predicate: name(predicate), object, span: 0..0 }))
}

fn modal_stmt(modal: Modal, expr: Expr, metadata: Option<ModalMetadata>) -> Statement {
    Statement::Modal(ModalStmt { modal, expr, metadata, span: 0..0 })
}

fn qname(text: &str) -> Expr {
    Expr::QName(name(text))
}

fn rule(title: &str, body: Vec<Statement>) -> Rule {
    Rule { name: title.to_string(), body, span: 0..0 }
}

fn derive(title: &str, body: Vec<Statement>) -> Derive {
    Derive { name: title.to_string(), body, span: 0..0 }
}

fn binding(policy: &str, modal: Modal, title: &str) -> OrderedBinding {
    OrderedBinding {
        policy_name: policy.to_string(),
        modal,
        rule_name: title.to_string(),
    }
}

fn by_name(rules: Vec<Rule>) -> NameMap<Rule> {
    let mut map = NameMap::new();
    for r in rules {
        map.insert(r.name.clone(), r);
    }
    map
}

fn with_type(model: &Model, kind: &str) -> Vec<EntityId> {
    match model.resolve(kind) {
        Some(t) => (0..model.entity_count())
            .map(entity_id)
            .filter(|id| model.has_type(*id, t))
            .collect(),
        None => vec![],
    }
}

/// A stack with one bucket, with a tag or without.
fn stack(tag: Option<(&str, &str)>) -> Model {
    let mut model = Model::bootstrap();
    for ns in ["core", "aws", "aws:cfn", "data", "cfn"] {
        model.ensure_namespace(ns).unwrap();
    }
    model.apply("aws:cfn:Resource", "wa2:type", "wa2:Type").unwrap();
    let bucket = model.ensure_raw("DataBucket");
    model.apply_to(bucket, "wa2:type", "aws:cfn:Resource").unwrap();
    model.apply_to(bucket, "aws:type", "\"AWS::S3::Bucket\"").unwrap();
    if let Some((key, value)) = tag {
        let tags = model.blank();
        model.apply_entity(bucket, "aws:Tags", tags).unwrap();
        let item = model.blank();
        model.apply_entity(tags, "wa2:contains", item).unwrap();
        model.apply_literal(item, "aws:Key", key).unwrap();
        model.apply_literal(item, "aws:Value", value).unwrap();
    }
    model
}

fn classified() -> Rule {
    rule(
        "classified",
        vec![
            let_stmt("resources", query(&["aws:cfn:Resource"])),
            for_stmt(
                "r",
                var("resources"),
                vec![modal_stmt(
                    Modal::Must,
                    query(&["r", "data:Criticality"]),
                    Some(ModalMetadata {
                        subject: Some(var("r")),
                        area: None,
                        message: Some("Resource must be classified".to_string()),
                    }),
                )],
            ),
        ],
    )
}

fn classification_from_tag() -> Derive {
    let mut tag_path = path(&["r", "aws:Tags", "*"]);
    tag_path.steps[2].predicates.push(QueryPredicate::Eq(
        path(&["aws:Key"]),
        Literal::String("DataCriticality".to_string()),
    ));
    derive(
        "classification_from_tag",
        vec![
            let_stmt("resources", query(&["aws:cfn:Resource"])),
            for_stmt(
                "r",
                var("resources"),
                vec![
                    let_stmt("tag", query_path(tag_path)),
                    if_stmt(
                        var("tag"),
                        vec![add_stmt(
                            var("r"),
                            "data:Criticality",
                            add_expr(Expr::Blank(0..0), "core:source", var("r")),
                        )],
                        None,
                    ),
                ],
            ),
        ],
    )
}

#[test]
fn test_derive_stores_rule() {
    // A derive that makes a store of each bucket, and attaches it to the workload
    let mut arms = Vec::new();
    arms.push(MatchArm {
        patterns: vec![
            MatchPattern::Variant("AWS::S3::Bucket".to_string()),
            MatchPattern::Variant("AWS::EFS::FileSystem".to_string()),
        ],
        result: Expr::Bool(true, 0..0),
        span: 0..0,
    });
    arms.push(MatchArm {
        patterns: vec![MatchPattern::Else],
        result: Expr::Bool(false, 0..0),
        span: 0..0,
    });
    let is_store = Expr::Match(Box::new(MatchExpr {
        value: query(&["r", "aws:type"]),
        arms,
        span: 0..0,
    }));
    let derives = vec![derive(
        "derive_stores",
        vec![for_stmt(
            "r",
            query(&["cfn:Resource"]),
            vec![
                let_stmt("is_store", is_store),
                if_stmt(
                    var("is_store"),
                    vec![
                        let_stmt(
                            "store",
                            add_expr(Expr::Blank(0..0), "wa2:type", qname("core:Store")),
                        ),
                        add_stmt(var("store"), "core:source", var("r")),
                        add_stmt(qname("core:workload"), "wa2:contains", var("store")),
                    ],
                    None,
                ),
            ],
        )],
    )];

    let mut model = Model::bootstrap();
    model.ensure_namespace("core").unwrap();
    model.apply("core:Store", "wa2:type", "wa2:Type").unwrap();
    model.apply("core:Workload", "wa2:type", "wa2:Type").unwrap();

    // Manually create CFN structure
    model.ensure_namespace("cfn").unwrap();
    model.ensure_namespace("aws").unwrap();

    model.apply("cfn:Resource", "wa2:type", "wa2:Type").unwrap();
    model.apply("cfn:Template", "wa2:type", "wa2:Type").unwrap();

    let workload = model.ensure_entity("core:workload").unwrap();
    model
        .apply_to(workload, "wa2:type", "core:Workload")
        .unwrap();
    model.set_root(workload);

    let template = model.blank();
    model
        .apply_to(template, "wa2:type", "cfn:Template")
        .unwrap();
    model
        .apply_entity(workload, "core:source", template)
        .unwrap();

    let resources = model.blank();
    model
        .apply_entity(template, "cfn:resources", resources)
        .unwrap();

    let bucket = model.ensure_raw("MyBucket");
    model.apply_to(bucket, "wa2:type", "cfn:Resource").unwrap();
    model
        .apply_to(bucket, "aws:type", "\"AWS::S3::Bucket\"")
        .unwrap();
    model
        .apply_entity(resources, "wa2:contains", bucket)
        .unwrap();

    // Run rules
    let mut engine = RuleEngine::new();
    engine.run_derives(&mut model, &derives).expect("run rules");

    // Verify core:Store was created
    let store_type = model
        .resolve("core:Store")
        .expect("core:Store should exist");

    // Find entities with type core:Store
    let stores: Vec<_> = (0..model.entity_count())
        .map(|i| EntityId(i as u32))
        .filter(|&id| model.has_type(id, store_type))
        .collect();

    assert_eq!(stores.len(), 1, "Should have created one Store node");

    // Verify it's attached to workload
    let children = model.children(workload);
    let store_in_children = children.iter().any(|&c| model.has_type(c, store_type));
    assert!(store_in_children, "Store should be child of workload");
}

#[test]
fn stack_without_evidence_fails_its_policy() {
    let mut model = stack(None);
    let mut engine = RuleEngine::new();
    let result = engine
        .run_with_policy(
            &mut model,
            &[classification_from_tag()],
            &by_name(vec![classified()]),
            &[binding("require_classification", Modal::Must, "classified")],
        )
        .unwrap();
    assert_eq!(result.outcome, PolicyOutcome::Fail);
    assert_eq!(result.trace[0].policy_name, "require_classification");
    assert_eq!(result.trace[0].finding_count, 1);

    let failures = Kernel::new(String::new()).collect_failures(&model);
    assert_eq!(failures.len(), 1);
    assert_eq!(failures[0].assertion, "classified: must obligation not satisfied");
    assert_eq!(failures[0].message.as_deref(), Some("Resource must be classified"));
    assert_eq!(model.qualified_name(failures[0].subject.unwrap()), "DataBucket");
}

#[test]
fn stack_with_evidence_passes_its_policy() {
    let mut model = stack(Some(("DataCriticality", "Important")));
    let mut engine = RuleEngine::new();
    let result = engine
        .run_with_policy(
            &mut model,
            &[classification_from_tag()],
            &by_name(vec![classified()]),
            &[binding("require_classification", Modal::Must, "classified")],
        )
        .unwrap();
    assert_eq!(result.outcome, PolicyOutcome::Pass);
    assert!(result.trace[0].passed);
    assert!(Kernel::new(String::new()).collect_failures(&model).is_empty());
}

#[test]
fn another_tag_is_no_evidence() {
    let mut model = stack(Some(("Owner", "me")));
    let mut engine = RuleEngine::new();
    let result = engine
        .run_with_policy(
            &mut model,
            &[classification_from_tag()],
            &by_name(vec![classified()]),
            &[binding("p", Modal::Must, "classified")],
        )
        .unwrap();
    assert_eq!(result.outcome, PolicyOutcome::Fail);
}

#[test]
fn derives_feed_each_other_until_nothing_is_new() {
    // The second derive needs what the first one adds, and comes before it
    let mut model = stack(None);
    let second = derive(
        "second",
        vec![for_stmt(
            "r",
            query(&["aws:cfn:Resource"]),
            vec![if_stmt(
                query(&["r", "data:First"]),
                vec![add_stmt(var("r"), "data:Second", text("yes"))],
                None,
            )],
        )],
    );
    let first = derive(
        "first",
        vec![add_stmt(qname("DataBucket"), "data:First", qname("wa2:Type"))],
    );
    // A loop body runs once for each entity: `second` is spent in the first pass
    let mut engine = RuleEngine::new();
    engine.run_derives(&mut model, &[second, first]).unwrap();
    let bucket = model.resolve("DataBucket").unwrap();
    assert_eq!(model.get_literal(bucket, "data:Second"), None);

    // A derive without a loop sees it in the next pass
    let mut model = stack(None);
    let second = derive(
        "second",
        vec![if_stmt(
            query(&["DataBucket", "data:First"]),
            vec![add_stmt(qname("DataBucket"), "data:Second", text("yes"))],
            None,
        )],
    );
    let first = derive(
        "first",
        vec![add_stmt(qname("DataBucket"), "data:First", qname("wa2:Type"))],
    );
    let derives = vec![second, first];
    let mut engine = RuleEngine::new();
    engine.run_derives(&mut model, &derives).unwrap();
    let bucket = model.resolve("DataBucket").unwrap();
    assert_eq!(model.get_literal(bucket, "data:Second").as_deref(), Some("yes"));

    // And a further run adds nothing
    let count = model.statement_count();
    engine.run_derives(&mut model, &derives).unwrap();
    assert_eq!(model.statement_count(), count);
}

#[test]
fn derives_that_never_settle_end_after_the_limit() {
    let mut model = stack(None);
    let endless = derive(
        "endless",
        vec![add_stmt(
            qname("DataBucket"),
            "data:More",
            add_expr(Expr::Blank(0..0), "data:Of", qname("DataBucket")),
        )],
    );
    let before = model.statement_count();
    RuleEngine::new().run_derives(&mut model, &[endless]).unwrap();
    assert_eq!(MAX_ITERATIONS, 100);
    assert_eq!(model.statement_count() - before, 200);
}

#[test]
fn rules_leave_the_graph_but_for_findings() {
    let mut model = stack(Some(("DataCriticality", "Important")));
    let statements = model.statement_count();
    let entities = model.entity_count();
    let quiet = rule(
        "quiet",
        vec![for_stmt("r", query(&["aws:cfn:Resource"]), vec![if_stmt(
            query(&["r", "data:Criticality"]),
            vec![],
            Some(vec![let_stmt("x", text("y"))]),
        )])],
    );
    RuleEngine::new().run(&mut model, &[quiet]).unwrap();
    assert_eq!(model.statement_count(), statements);
    assert_eq!(model.entity_count(), entities);
}

#[test]
fn a_guard_skips_the_rest_and_may_goes_on() {
    for (modal, expected) in [(Modal::Must, 1), (Modal::Should, 1), (Modal::May, 2)] {
        let mut model = stack(None);
        let both = rule(
            "both",
            vec![for_stmt(
                "r",
                query(&["aws:cfn:Resource"]),
                vec![
                    modal_stmt(modal, query(&["r", "data:A"]), None),
                    modal_stmt(modal, query(&["r", "data:B"]), None),
                ],
            )],
        );
        RuleEngine::new().run(&mut model, &[both]).unwrap();
        assert_eq!(with_type(&model, "core:AssertFailure").len(), expected);
    }
}

#[test]
fn findings_carry_subject_area_message_and_severity() {
    for (modal, severity, word) in [
        (Modal::Must, "core:Error", "must"),
        (Modal::Should, "core:Warning", "should"),
        (Modal::May, "core:Info", "may"),
    ] {
        let mut model = stack(None);
        model.ensure_entity("core:Resilience").unwrap();
        let r = rule(
            "resilient",
            vec![for_stmt(
                "r",
                query(&["aws:cfn:Resource"]),
                vec![modal_stmt(
                    modal,
                    Expr::Bool(false, 0..0),
                    Some(ModalMetadata {
                        subject: None,
                        area: Some(name("core:Resilience")),
                        message: Some("Back it up".to_string()),
                    }),
                )],
            )],
        );
        RuleEngine::new().run(&mut model, &[r]).unwrap();
        let failure = with_type(&model, "core:AssertFailure")[0];
        assert_eq!(
            model.get_literal(failure, "core:assertion").unwrap(),
            format!("resilient: {} obligation not satisfied", word)
        );
        assert_eq!(model.get_linked(failure, "core:subject"), model.resolve("DataBucket"));
        assert_eq!(model.get_linked(failure, "core:area"), model.resolve("core:Resilience"));
        assert_eq!(model.get_literal(failure, "core:message").as_deref(), Some("Back it up"));
        assert_eq!(model.get_linked(failure, "core:severity"), model.resolve(severity));
    }
}

#[test]
fn an_assertion_is_reported_without_subject_or_severity() {
    let mut model = stack(None);
    let r = rule(
        "checked",
        vec![
            Statement::Assert(AssertStmt { expr: Expr::Bool(false, 0..0), span: 0..0 }),
            Statement::Assert(AssertStmt { expr: text("yes"), span: 0..0 }),
            Statement::Assert(AssertStmt { expr: text(""), span: 0..0 }),
        ],
    );
    RuleEngine::new().run(&mut model, &[r]).unwrap();
    let failures = with_type(&model, "core:AssertFailure");
    assert_eq!(failures.len(), 2);
    assert_eq!(
        model.get_literal(failures[0], "core:assertion").as_deref(),
        Some("checked: assertion failed")
    );
    assert_eq!(model.get_linked(failures[0], "core:subject"), None);
    assert_eq!(model.get_linked(failures[0], "core:severity"), None);
}

#[test]
fn findings_need_their_namespace() {
    let mut model = Model::bootstrap();
    let r = rule("r", vec![modal_stmt(Modal::Must, Expr::Bool(false, 0..0), None)]);
    let e = RuleEngine::new().run(&mut model, &[r]).unwrap_err();
    assert_eq!(e.message, "failed to create failure node: unknown namespace: core");
}

#[test]
fn may_bindings_neither_stop_nor_degrade() {
    let mut model = stack(None);
    let result = RuleEngine::new()
        .run_with_policy(
            &mut model,
            &[],
            &by_name(vec![classified()]),
            &[binding("p", Modal::May, "classified"), binding("p", Modal::Must, "unknown")],
        )
        .unwrap();
    assert_eq!(result.outcome, PolicyOutcome::Pass);
    assert_eq!(result.trace.len(), 1);
    assert!(!result.trace[0].passed);
}

#[test]
fn run_with_modals_takes_rules_that_have_a_modal() {
    let mut model = stack(None);
    let mut modals: NameMap<Modal> = NameMap::new();
    modals.insert("classified".to_string(), Modal::Should);
    let other = rule("other", vec![modal_stmt(Modal::Must, Expr::Bool(false, 0..0), None)]);
    RuleEngine::new()
        .run_with_modals(&mut model, &[], &[classified(), other], &modals)
        .unwrap();
    assert_eq!(with_type(&model, "core:AssertFailure").len(), 1);
}

#[test]
fn faults_of_evaluation_are_named() {
    let engine = RuleEngine::new();
    let mut model = stack(Some(("DataCriticality", "Important")));
    let mut env = Env::new();
    env.bind("set".to_string(), EvalResult::EntitySet(vec![EntityId(0), EntityId(1)]));
    env.bind("none".to_string(), EvalResult::Empty);
    env.bind("b".to_string(), EvalResult::Entity(model.resolve("DataBucket").unwrap()));
    let matching = |value: Expr| {
        Expr::Match(Box::new(MatchExpr { value, arms: vec![], span: 0..0 }))
    };
    let check = |inner: Expr, kind: &str| {
        Expr::As(Box::new(AsExpr { inner, target_type: name(kind), span: 0..0 }))
    };
    let faults = vec![
        (var("x"), "undefined variable: x"),
        (Expr::Blank(0..0), "blank nodes not allowed in rules"),
        (add_expr(var("b"), "data:A", text("x")), "add expressions not allowed in rules"),
        (qname("data:Nothing"), "unresolved name: data:Nothing"),
        (matching(query(&[])), "match query is empty"),
        (matching(query(&["*"])), "match query must start with variable"),
        (matching(query(&["data:A"])), "match on qualified name not supported"),
        (matching(query(&["x", "data:A"])), "undefined variable in match: x"),
        (matching(query(&["b"])), "match on variable without path not supported"),
        (matching(query(&["b", "aws:type"])), "no matching arm for value: AWS::S3::Bucket"),
        (matching(var("set")), "match value must be a literal"),
        (check(query(&[]), "wa2:Type"), "as() query is empty"),
        (check(query(&["*"]), "wa2:Type"), "as() query must start with variable"),
        (check(query(&["data:A"]), "wa2:Type"), "as() on qualified name not supported"),
        (check(query(&["x"]), "wa2:Type"), "undefined variable in as(): x"),
        (check(var("set"), "wa2:Type"), "as() requires literal value"),
        (check(text("v"), "data:Kind"), "type 'data:Kind' not found for as() conversion"),
    ];
    for (expr, message) in faults {
        let e = engine.eval_expr(&mut model, &expr, &env, false).unwrap_err();
        assert_eq!(e.message, message);
    }
    let e = engine.eval_expr(&mut model, &Expr::Blank(0..0), &env, true).unwrap_err();
    assert_eq!(e.message, "blank node in eval context - should be handled in add");
    for (object, message) in [
        (var("set"), "cannot use set as object"),
        (var("none"), "cannot use empty as object"),
    ] {
        let e = engine
            .eval_expr(&mut model, &add_expr(var("b"), "data:A", object), &env, true)
            .unwrap_err();
        assert_eq!(e.message, message);
    }
    let e = engine
        .eval_expr(&mut model, &add_expr(var("b"), "other:A", text("x")), &env, true)
        .unwrap_err();
    assert_eq!(e.message, "failed to add statement: unknown namespace: other");

    let faults = vec![
        (var("set"), "variable 'set' is a set with 2 elements, expected single entity"),
        (var("none"), "variable 'none' is not an entity"),
        (var("x"), "undefined variable: x"),
        (query(&["data:Nothing"]), "query returned no results, expected single entity"),
        (query(&["wa2:Type"]), "query returned 3 results, expected single entity"),
        (qname("data:Nothing"), "unresolved name: data:Nothing"),
        (check(text("v"), "wa2:Type"), "as() expression cannot be converted to entity"),
        (text("v"), "expression cannot be converted to entity: String(\"v\", 0..0)"),
    ];
    for (expr, message) in faults {
        let e = engine.eval_expr_to_entity(&mut model, &expr, &env, false).unwrap_err();
        assert_eq!(e.message, message);
    }
    assert_eq!(
        engine.eval_expr_to_entity(&mut model, &query(&["DataBucket"]), &env, false).unwrap(),
        model.resolve("DataBucket").unwrap()
    );
    let made = engine.eval_expr_to_entity(&mut model, &Expr::Blank(0..0), &env, true).unwrap();
    assert!(model.is_blank(made));
}

#[test]
fn choices_and_checks_settle_without_text() {
    let engine = RuleEngine::new();
    let mut model = stack(None);
    model.apply("data:Level", "wa2:type", "wa2:Type").unwrap();
    model.apply("data:High", "wa2:subTypeOf", "data:Level").unwrap();
    let mut env = Env::new();
    env.bind("b".to_string(), EvalResult::Entity(model.resolve("DataBucket").unwrap()));
    env.bind("none".to_string(), EvalResult::Empty);
    let matching = |value: Expr| {
        Expr::Match(Box::new(MatchExpr {
            value,
            arms: vec![
                MatchArm {
                    patterns: vec![MatchPattern::Variant("High".to_string())],
                    result: text("first"),
                    span: 0..0,
                },
                MatchArm { patterns: vec![MatchPattern::Else], result: text("other"), span: 0..0 },
            ],
            span: 0..0,
        }))
    };
    let check = |inner: Expr| {
        Expr::As(Box::new(AsExpr { inner, target_type: name("data:Level"), span: 0..0 }))
    };
    let value = |model: &mut Model, e: Expr| engine.eval_expr(model, &e, &env, false).unwrap();
    assert!(matches!(value(&mut model, matching(query(&["b", "data:Level"]))), EvalResult::Literal(s) if s == "false"));
    assert!(matches!(value(&mut model, matching(var("none"))), EvalResult::Literal(s) if s == "false"));
    assert!(matches!(value(&mut model, matching(text("\"High\""))), EvalResult::Literal(s) if s == "first"));
    assert!(matches!(value(&mut model, matching(text("Low"))), EvalResult::Literal(s) if s == "other"));
    assert!(matches!(value(&mut model, check(query(&["b"]))), EvalResult::Empty));
    assert!(matches!(value(&mut model, check(query(&["b", "data:Level"]))), EvalResult::Empty));
    assert!(matches!(value(&mut model, check(var("none"))), EvalResult::Empty));
    assert!(matches!(value(&mut model, check(text("Low"))), EvalResult::Empty));
    assert!(matches!(value(&mut model, check(text("\"High\""))), EvalResult::Literal(s) if s == "High"));
}

#[test]
fn several_texts_are_a_fault() {
    let engine = RuleEngine::new();
    let mut model = stack(None);
    let bucket = model.resolve("DataBucket").unwrap();
    model.apply_literal(bucket, "data:Level", "a").unwrap();
    model.apply_literal(bucket, "data:Level", "b").unwrap();
    let mut env = Env::new();
    env.bind("b".to_string(), EvalResult::Entity(bucket));
    let choice = Expr::Match(Box::new(MatchExpr {
        value: query(&["b", "data:Level"]),
        arms: vec![],
        span: 0..0,
    }));
    let e = engine.eval_expr(&mut model, &choice, &env, false).unwrap_err();
    assert_eq!(e.message, "match requires single value, got 2");
    let check = Expr::As(Box::new(AsExpr {
        inner: query(&["b", "data:Level"]),
        target_type: name("wa2:Type"),
        span: 0..0,
    }));
    let e = engine.eval_expr(&mut model, &check, &env, false).unwrap_err();
    assert_eq!(e.message, "as() requires single value, got 2");
}

#[test]
fn the_entity_bound_last_is_the_context() {
    let mut env = Env::new();
    assert_eq!(env.last_entity(), None);
    env.bind("a".to_string(), EvalResult::Entity(EntityId(1)));
    env.bind("b".to_string(), EvalResult::Entity(EntityId(2)));
    env.bind("c".to_string(), EvalResult::Literal("x".to_string()));
    assert_eq!(env.last_entity(), Some(EntityId(2)));
    env.bind("a".to_string(), EvalResult::Entity(EntityId(3)));
    assert_eq!(env.last_entity(), Some(EntityId(3)));
    assert!(matches!(env.get("b"), Some(EvalResult::Entity(EntityId(2)))));
    assert!(env.get("d").is_none());
    assert!(EvalResult::Empty.is_empty());
    assert!(!EvalResult::Entity(EntityId(0)).is_empty());
}

#[test]
fn conditions_choose_nodes() {
    let engine = RuleEngine::new();
    let mut model = stack(Some(("DataCriticality", "Important")));
    let env = Env::new();
    let mut count = |condition: QueryPredicate| {
        let mut p = path(&["aws:cfn:Resource"]);
        p.steps[0].predicates.push(condition);
        match engine.eval_expr(&mut model, &query_path(p), &env, false).unwrap() {
            EvalResult::EntitySet(ids) => ids.len(),
            _ => panic!("a query gives a set"),
        }
    };
    let bucket = || Literal::String("AWS::S3::Bucket".to_string());
    assert_eq!(count(QueryPredicate::Exists(path(&["aws:type"]))), 1);
    assert_eq!(count(QueryPredicate::Exists(path(&["aws:other"]))), 0);
    assert_eq!(count(QueryPredicate::Eq(path(&["aws:type"]), bucket())), 1);
    assert_eq!(count(QueryPredicate::Eq(path(&["aws:type"]), Literal::Number(3))), 0);
    assert_eq!(count(QueryPredicate::In(path(&["aws:type"]), vec![Literal::Bool(true), bucket()])), 1);
    assert_eq!(count(QueryPredicate::In(path(&["aws:type"]), vec![])), 0);
}

#[test]
fn one_of_some_constants_is_enough() {
    let engine = RuleEngine::new();
    let mut model = stack(Some(("DataCriticality", "Important")));
    let env = Env::new();
    let mut holds = |condition: QueryPredicate| {
        let mut p = path(&["aws:cfn:Resource"]);
        p.steps[0].predicates.push(condition);
        match engine.eval_expr(&mut model, &query_path(p), &env, false).unwrap() {
            EvalResult::EntitySet(ids) => ids.len() == 1,
            _ => panic!("a query gives a set"),
        }
    };
    let lit = |s: &str| Literal::String(s.to_string());
    let kind = || path(&["aws:type"]);
    // A single constant
    assert!(holds(QueryPredicate::In(kind(), vec![lit("AWS::S3::Bucket")])));
    assert!(!holds(QueryPredicate::In(kind(), vec![lit("AWS::SQS::Queue")])));
    assert!(!holds(QueryPredicate::Eq(kind(), lit("AWS::SQS::Queue"))));
    // Whatever their order, and however often one is named
    assert!(holds(QueryPredicate::In(kind(), vec![lit("AWS::S3::Bucket"), lit("x")])));
    assert!(holds(QueryPredicate::In(kind(), vec![lit("x"), lit("AWS::S3::Bucket"), lit("x")])));
    // A path that leads nowhere leads to no constant
    let other = || path(&["aws:other"]);
    assert!(!holds(QueryPredicate::Exists(other())));
    assert!(!holds(QueryPredicate::Eq(other(), lit("AWS::S3::Bucket"))));
    assert!(!holds(QueryPredicate::In(other(), vec![lit("AWS::S3::Bucket"), lit("")])));
}

#[test]
fn only_an_unmet_must_counts() {
    let counts = |statement: Statement| {
        let mut model = Model::bootstrap();
        model.ensure_namespace("core").unwrap();
        let rule = Rule { name: "rule".to_string(), body: vec![statement], span: 0..0 };
        let mut rules = NameMap::new();
        rules.insert("rule".to_string(), rule);
        // The second time the rule starts from the findings of the first
        let binding = || OrderedBinding {
            policy_name: "policy".to_string(),
            modal: Modal::May,
            rule_name: "rule".to_string(),
        };
        let result = RuleEngine::new()
            .run_with_policy(&mut model, &[], &rules, &vec![binding(), binding()])
            .unwrap();
        (result.trace[0].finding_count, result.trace[1].finding_count)
    };
    let unmet = || Expr::Bool(false, 0..0);
    assert_eq!(counts(modal_stmt(Modal::Must, unmet(), None)), (1, 1));
    assert_eq!(counts(modal_stmt(Modal::Should, unmet(), None)), (0, 0));
    assert_eq!(counts(modal_stmt(Modal::May, unmet(), None)), (0, 0));
    assert_eq!(counts(Statement::Assert(AssertStmt { expr: unmet(), span: 0..0 })), (0, 0));
    assert_eq!(counts(modal_stmt(Modal::Must, Expr::Bool(true, 0..0), None)), (0, 0));
}

#[test]
fn findings_are_counted_by_their_severity() {
    let engine = RuleEngine::new();
    let mut model = Model::bootstrap();
    assert_eq!(engine.count_error_findings(&model), 0);
    assert!(engine.create_rich_failure(&mut model, "rule", None, None, None, Modal::Must).is_err());
    model.ensure_namespace("core").unwrap();
    let subject = model.ensure_entity("core:thing").unwrap();
    let words = "why".to_string();
    for (modal, count) in [(Modal::Must, 1), (Modal::Should, 1), (Modal::May, 1), (Modal::Must, 2)] {
        engine
            .create_rich_failure(&mut model, "rule", Some(subject), Some(subject), Some(&words), modal)
            .unwrap();
        assert_eq!(engine.count_error_findings(&model), count);
    }
    engine.create_failure_with_context(&mut model, "rule", "message", Some(subject)).unwrap();
    engine.create_failure_with_context(&mut model, "rule", "message", None).unwrap();
    assert_eq!(engine.count_error_findings(&model), 2);

    // A statement on an entity that is still to come makes it count
    let mut model = Model::bootstrap();
    model.ensure_namespace("core").unwrap();
    for name in ["core:AssertFailure", "core:severity", "core:Error"] {
        model.ensure_entity(name).unwrap();
    }
    let next = entity_id(model.entity_count());
    model.apply_to(next, "core:severity", "core:Error").unwrap();
    engine.create_rich_failure(&mut model, "rule", None, None, None, Modal::Should).unwrap();
    assert_eq!(engine.count_error_findings(&model), 1);
}

#[test]
fn conditions_are_checked_one_by_one() {
    let engine = QueryEngine::new();
    let mut model = stack(None);
    model.ensure_namespace("data").unwrap();
    let node = model.blank();
    model.apply_literal(node, "data:size", "3").unwrap();
    let size = || path(&["data:size"]);
    assert!(engine.check_predicate(&model, node, &QueryPredicate::Exists(size())));
    assert!(engine.check_predicate(&model, node, &QueryPredicate::Eq(size(), Literal::Number(3))));
    assert!(engine.check_predicate(&model, node, &QueryPredicate::In(size(), vec![Literal::Number(3)])));
    assert!(!engine.check_predicate(&model, node, &QueryPredicate::Eq(size(), Literal::Number(4))));
    assert!(!engine.check_predicate(&model, node, &QueryPredicate::In(size(), vec![Literal::Number(4)])));
    assert!(!engine.check_predicate(&model, node, &QueryPredicate::In(size(), vec![])));
}

#[test]
fn descendants_are_found_at_any_depth() {
    let engine = RuleEngine::new();
    let mut model = stack(None);
    model.apply("data:Thing", "wa2:type", "wa2:Type").unwrap();
    let a = model.ensure_raw("a");
    let b = model.ensure_raw("b");
    let c = model.ensure_raw("c");
    model.apply_entity(a, "wa2:contains", b).unwrap();
    model.apply_entity(b, "wa2:contains", c).unwrap();
    model.apply_entity(c, "wa2:contains", a).unwrap();
    model.apply_to(c, "wa2:type", "data:Thing").unwrap();
    let mut env = Env::new();
    env.bind("top".to_string(), EvalResult::Entity(a));
    let found = |model: &mut Model, axis: Axis| {
        let p = QueryPath {
            steps: vec![step(Axis::Child, "top"), step(axis, "data:Thing")],
            span: 0..0,
        };
        match engine.eval_expr(model, &query_path(p), &env, false).unwrap() {
            EvalResult::EntitySet(ids) => ids,
            _ => panic!("a query gives a set"),
        }
    };
    assert_eq!(found(&mut model, Axis::Child), vec![]);
    assert_eq!(found(&mut model, Axis::Descendant), vec![c]);
}

#[test]
fn an_analysis_runs_both_phases() {
    let kernel = Kernel::new(String::new());
    let (rules, _) = all_rules(vec![classified()]);
    let result = kernel
        .analyse(Source::Ready {
            model: stack(None),
            derives: vec![classification_from_tag()],
            rules,
            bindings: vec![binding("p", Modal::Must, "classified")],
            document: "stack.yaml".to_string(),
        })
        .unwrap();
    assert_eq!(result.outcome, PolicyOutcome::Fail);
    assert_eq!(result.failures.len(), 1);
    assert_eq!(result.trace.len(), 1);
    assert_eq!(result.document, "stack.yaml");
}

#[test]
fn an_analysis_reports_what_went_wrong_before() {
    let kernel = Kernel::new(String::new());
    let parse = kernel.analyse(Source::ParseFailed("line 3".to_string())).unwrap_err();
    assert_eq!(parse.len(), 1);
    assert_eq!(parse[0].message, "Parse error: line 3");
    let lower = kernel.analyse(Source::LowerFailed("no type".to_string())).unwrap_err();
    assert_eq!(lower[0].message, "Lower error: no type");
    let bad = rule("bad", vec![let_stmt("x", var("y"))]);
    let (rules, bindings) = all_rules(vec![bad]);
    let run = kernel
        .analyse(Source::Ready {
            model: Model::bootstrap(),
            derives: vec![],
            rules,
            bindings,
            document: String::new(),
        })
        .unwrap_err();
    assert_eq!(run[0].message, "Rule error: undefined variable: y");
}
