//! Truthiness, the `empty` expression, the order of policies and the two phases.

use wa2::kernel::ast::{
    AddStmt, Axis, Expr, ForStmt, Modal, ModalStmt, QualifiedName, QueryExpr, QueryPath, QueryStep, Rule,
    Statement,
};
use wa2::kernel::rules::{OrderedBinding, RuleEngine};
use wa2::kernel::semantics::PolicyOutcome;
use wa2::kernel::values::{Env, EvalResult};
use wa2::model::{EntityId, Model};
use wa2::names::NameMap;

fn by_name(rules: Vec<(String, Rule)>) -> NameMap<Rule> {
    let mut map = NameMap::new();
    for (name, rule) in rules {
        map.insert(name, rule);
    }
    map
}

// Truthiness

#[test]
fn entity_always_true() {
    let engine = RuleEngine::new();
    let result = EvalResult::Entity(EntityId(42));
    assert!(
        engine.is_satisfied(&result),
        "Entity should always be truthy"
    );
}

#[test]
fn set_non_empty_is_true() {
    let engine = RuleEngine::new();

    let result = EvalResult::EntitySet(vec![EntityId(1), EntityId(2)]);
    assert!(
        engine.is_satisfied(&result),
        "Non-empty set should be truthy"
    );

    let result = EvalResult::EntitySet(vec![EntityId(1)]);
    assert!(
        engine.is_satisfied(&result),
        "Single element set should be truthy"
    );
}

#[test]
fn set_empty_is_false() {
    let engine = RuleEngine::new();
    let result = EvalResult::EntitySet(vec![]);
    assert!(!engine.is_satisfied(&result), "Empty set should be falsy");
}

#[test]
fn literal_non_empty_is_true() {
    let engine = RuleEngine::new();

    let result = EvalResult::Literal("hello".to_string());
    assert!(
        engine.is_satisfied(&result),
        "Non-empty literal should be truthy"
    );

    let result = EvalResult::Literal("true".to_string());
    assert!(
        engine.is_satisfied(&result),
        "Literal 'true' should be truthy"
    );

    let result = EvalResult::Literal("some value".to_string());
    assert!(
        engine.is_satisfied(&result),
        "Literal 'some value' should be truthy"
    );
}

#[test]
fn literal_empty_is_false() {
    let engine = RuleEngine::new();
    let result = EvalResult::Literal("".to_string());
    assert!(
        !engine.is_satisfied(&result),
        "Empty literal should be falsy"
    );
}

#[test]
fn literal_false_is_false() {
    let engine = RuleEngine::new();
    let result = EvalResult::Literal("false".to_string());
    assert!(
        !engine.is_satisfied(&result),
        "Literal 'false' should be falsy"
    );
}

#[test]
fn empty_always_false() {
    let engine = RuleEngine::new();
    let result = EvalResult::Empty;
    assert!(
        !engine.is_satisfied(&result),
        "Empty should always be falsy"
    );
}

// Empty Expression

#[test]
fn on_empty_set_returns_true() {
    let engine = RuleEngine::new();
    let mut model = Model::bootstrap();
    model.ensure_namespace("core").unwrap();
    let env = Env::new();

    let inner = Expr::Query(QueryExpr {
        path: QueryPath {
            steps: vec![QueryStep {
                axis: Axis::Child,
                node_test: Some(QualifiedName {
                    namespace: Some("core".to_string()),
                    name: "NonExistent".to_string(),
                    span: 0..0,
                }),
                predicates: vec![],
                span: 0..0,
            }],
            span: 0..0,
        },
        span: 0..0,
    });

    let expr = Expr::Empty(Box::new(inner), 0..0);
    let result = engine.eval_expr(&mut model, &expr, &env, false).unwrap();

    assert!(
        matches!(result, EvalResult::Literal(s) if s == "true"),
        "empty(empty set) should return 'true'"
    );
}

#[test]
fn on_non_empty_set_returns_empty() {
    let engine = RuleEngine::new();
    let mut model = Model::bootstrap();
    model.ensure_namespace("core").unwrap();

    let thing_type = model.ensure_entity("core:Thing").unwrap();
    model.apply_to(thing_type, "wa2:type", "wa2:Type").unwrap();

    let entity = model.blank();
    model.apply_entity(entity, "wa2:type", thing_type).unwrap();

    let env = Env::new();

    let inner = Expr::Query(QueryExpr {
        path: QueryPath {
            steps: vec![QueryStep {
                axis: Axis::Child,
                node_test: Some(QualifiedName {
                    namespace: Some("core".to_string()),
                    name: "Thing".to_string(),
                    span: 0..0,
                }),
                predicates: vec![],
                span: 0..0,
            }],
            span: 0..0,
        },
        span: 0..0,
    });

    let expr = Expr::Empty(Box::new(inner), 0..0);
    let result = engine.eval_expr(&mut model, &expr, &env, false).unwrap();

    assert!(
        matches!(result, EvalResult::Empty),
        "empty(non-empty set) should return Empty"
    );
}

#[test]
fn on_empty_literal_returns_true() {
    let engine = RuleEngine::new();
    let mut model = Model::bootstrap();
    let env = Env::new();

    let expr = Expr::Empty(Box::new(Expr::String("".to_string(), 0..0)), 0..0);
    let result = engine.eval_expr(&mut model, &expr, &env, false).unwrap();

    assert!(
        matches!(result, EvalResult::Literal(s) if s == "true"),
        "empty('') should return 'true'"
    );
}

#[test]
fn on_non_empty_literal_returns_empty() {
    let engine = RuleEngine::new();
    let mut model = Model::bootstrap();
    let env = Env::new();

    let expr = Expr::Empty(Box::new(Expr::String("hello".to_string(), 0..0)), 0..0);
    let result = engine.eval_expr(&mut model, &expr, &env, false).unwrap();

    assert!(
        matches!(result, EvalResult::Empty),
        "empty('hello') should return Empty"
    );
}

#[test]
fn on_false_literal_returns_true() {
    let engine = RuleEngine::new();
    let mut model = Model::bootstrap();
    let env = Env::new();

    let expr = Expr::Empty(Box::new(Expr::Bool(false, 0..0)), 0..0);
    let result = engine.eval_expr(&mut model, &expr, &env, false).unwrap();

    assert!(
        matches!(result, EvalResult::Literal(s) if s == "true"),
        "empty(false) should return 'true' because false is falsy"
    );
}

#[test]
fn on_entity_returns_empty() {
    let engine = RuleEngine::new();
    let mut model = Model::bootstrap();

    let entity = model.blank();
    let mut env = Env::new();
    env.bind("x".to_string(), EvalResult::Entity(entity));

    let expr = Expr::Empty(Box::new(Expr::Var("x".to_string(), 0..0)), 0..0);
    let result = engine.eval_expr(&mut model, &expr, &env, false).unwrap();

    assert!(
        matches!(result, EvalResult::Empty),
        "empty(entity) should return Empty"
    );
}

// Policy Ordering

#[test]
fn must_rule_failure_stops_policy() {
    let mut model = Model::bootstrap();
    model.ensure_namespace("core").unwrap();
    model.ensure_namespace("test").unwrap();

    let item_type = model.ensure_entity("test:Item").unwrap();
    model.apply_to(item_type, "wa2:type", "wa2:Type").unwrap();

    let item = model.blank();
    model.apply_entity(item, "wa2:type", item_type).unwrap();

    // First rule - will fail
    let rule1 = Rule {
        name: "first_rule".to_string(),
        body: vec![Statement::For(ForStmt {
            var: "x".to_string(),
            collection: Expr::Query(QueryExpr {
                path: QueryPath {
                    steps: vec![QueryStep {
                        axis: Axis::Child,
                        node_test: Some(QualifiedName {
                            namespace: Some("test".to_string()),
                            name: "Item".to_string(),
                            span: 0..0,
                        }),
                        predicates: vec![],
                        span: 0..0,
                    }],
                    span: 0..0,
                },
                span: 0..0,
            }),
            body: vec![Statement::Modal(ModalStmt {
                modal: Modal::Must,
                expr: Expr::Query(QueryExpr {
                    path: QueryPath {
                        steps: vec![QueryStep {
                            axis: Axis::Child,
                            node_test: Some(QualifiedName {
                                namespace: Some("core".to_string()),
                                name: "NonExistent".to_string(),
                                span: 0..0,
                            }),
                            predicates: vec![],
                            span: 0..0,
                        }],
                        span: 0..0,
                    },
                    span: 0..0,
                }),
                metadata: None,
                span: 0..0,
            })],
            span: 0..0,
        })],
        span: 0..0,
    };

    // Second rule - should not run if first fails with must
    let rule2 = Rule {
        name: "second_rule".to_string(),
        body: vec![Statement::For(ForStmt {
            var: "x".to_string(),
            collection: Expr::Query(QueryExpr {
                path: QueryPath {
                    steps: vec![QueryStep {
                        axis: Axis::Child,
                        node_test: Some(QualifiedName {
                            namespace: Some("test".to_string()),
                            name: "Item".to_string(),
                            span: 0..0,
                        }),
                        predicates: vec![],
                        span: 0..0,
                    }],
                    span: 0..0,
                },
                span: 0..0,
            }),
            body: vec![Statement::Modal(ModalStmt {
                modal: Modal::Must,
                expr: Expr::Query(QueryExpr {
                    path: QueryPath {
                        steps: vec![QueryStep {
                            axis: Axis::Child,
                            node_test: Some(QualifiedName {
                                namespace: Some("core".to_string()),
                                name: "AlsoNonExistent".to_string(),
                                span: 0..0,
                            }),
                            predicates: vec![],
                            span: 0..0,
                        }],
                        span: 0..0,
                    },
                    span: 0..0,
                }),
                metadata: None,
                span: 0..0,
            })],
            span: 0..0,
        })],
        span: 0..0,
    };

    let rules_map = by_name(vec![
        ("first_rule".to_string(), rule1),
        ("second_rule".to_string(), rule2),
    ]);

    let bindings = vec![
        OrderedBinding {
            policy_name: "test_policy".to_string(),
            modal: Modal::Must,
            rule_name: "first_rule".to_string(),
        },
        OrderedBinding {
            policy_name: "test_policy".to_string(),
            modal: Modal::Must,
            rule_name: "second_rule".to_string(),
        },
    ];

    let mut engine = RuleEngine::new();
    let result = engine
        .run_with_policy(&mut model, &[], &rules_map, &bindings)
        .unwrap();

    assert_eq!(result.outcome, PolicyOutcome::Fail);

    // Should only have one failure (from first rule)
    let failure_type = model.resolve("core:AssertFailure").unwrap();
    let failures: Vec<_> = (0..model.entity_count())
        .filter(|i| {
            let e = EntityId(*i as u32);
            model.has_type(e, failure_type)
        })
        .collect();

    assert_eq!(
        failures.len(),
        1,
        "Only first rule should have run before guard stopped policy"
    );

    // Verify trace
    assert_eq!(result.trace.len(), 1, "Trace should have one entry");
    assert_eq!(result.trace[0].rule_name, "first_rule");
    assert!(!result.trace[0].passed);
}

#[test]
fn should_rule_failure_continues_policy() {
    let mut model = Model::bootstrap();
    model.ensure_namespace("core").unwrap();
    model.ensure_namespace("test").unwrap();

    let item_type = model.ensure_entity("test:Item").unwrap();
    model.apply_to(item_type, "wa2:type", "wa2:Type").unwrap();

    let item = model.blank();
    model.apply_entity(item, "wa2:type", item_type).unwrap();

    // First rule - will fail but is should
    let rule1 = Rule {
        name: "first_rule".to_string(),
        body: vec![Statement::For(ForStmt {
            var: "x".to_string(),
            collection: Expr::Query(QueryExpr {
                path: QueryPath {
                    steps: vec![QueryStep {
                        axis: Axis::Child,
                        node_test: Some(QualifiedName {
                            namespace: Some("test".to_string()),
                            name: "Item".to_string(),
                            span: 0..0,
                        }),
                        predicates: vec![],
                        span: 0..0,
                    }],
                    span: 0..0,
                },
                span: 0..0,
            }),
            body: vec![Statement::Modal(ModalStmt {
                modal: Modal::Must, // Error-level finding
                expr: Expr::Query(QueryExpr {
                    path: QueryPath {
                        steps: vec![QueryStep {
                            axis: Axis::Child,
                            node_test: Some(QualifiedName {
                                namespace: Some("core".to_string()),
                                name: "NonExistent".to_string(),
                                span: 0..0,
                            }),
                            predicates: vec![],
                            span: 0..0,
                        }],
                        span: 0..0,
                    },
                    span: 0..0,
                }),
                metadata: None,
                span: 0..0,
            })],
            span: 0..0,
        })],
        span: 0..0,
    };

    // Second rule - should run even though first failed
    let rule2 = Rule {
        name: "second_rule".to_string(),
        body: vec![Statement::For(ForStmt {
            var: "x".to_string(),
            collection: Expr::Query(QueryExpr {
                path: QueryPath {
                    steps: vec![QueryStep {
                        axis: Axis::Child,
                        node_test: Some(QualifiedName {
                            namespace: Some("test".to_string()),
                            name: "Item".to_string(),
                            span: 0..0,
                        }),
                        predicates: vec![],
                        span: 0..0,
                    }],
                    span: 0..0,
                },
                span: 0..0,
            }),
            body: vec![Statement::Modal(ModalStmt {
                modal: Modal::Must,
                expr: Expr::Query(QueryExpr {
                    path: QueryPath {
                        steps: vec![QueryStep {
                            axis: Axis::Child,
                            node_test: Some(QualifiedName {
                                namespace: Some("core".to_string()),
                                name: "AlsoNonExistent".to_string(),
                                span: 0..0,
                            }),
                            predicates: vec![],
                            span: 0..0,
                        }],
                        span: 0..0,
                    },
                    span: 0..0,
                }),
                metadata: None,
                span: 0..0,
            })],
            span: 0..0,
        })],
        span: 0..0,
    };

    let rules_map = by_name(vec![
        ("first_rule".to_string(), rule1),
        ("second_rule".to_string(), rule2),
    ]);

    let bindings = vec![
        OrderedBinding {
            policy_name: "test_policy".to_string(),
            modal: Modal::Should, // should at policy level means continue even on error
            rule_name: "first_rule".to_string(),
        },
        OrderedBinding {
            policy_name: "test_policy".to_string(),
            modal: Modal::Must,
            rule_name: "second_rule".to_string(),
        },
    ];

    let mut engine = RuleEngine::new();
    let result = engine
        .run_with_policy(&mut model, &[], &rules_map, &bindings)
        .unwrap();

    // Second rule also fails with must, so policy fails
    assert_eq!(result.outcome, PolicyOutcome::Fail);

    // Should have two failures (both rules ran)
    let failure_type = model.resolve("core:AssertFailure").unwrap();
    let failures: Vec<_> = (0..model.entity_count())
        .filter(|i| {
            let e = EntityId(*i as u32);
            model.has_type(e, failure_type)
        })
        .collect();

    assert_eq!(
        failures.len(),
        2,
        "Both rules should have run because first was 'should' at policy level"
    );

    // Verify trace has both rules
    assert_eq!(result.trace.len(), 2);
}

#[test]
fn all_rules_pass_returns_pass() {
    let mut model = Model::bootstrap();
    model.ensure_namespace("core").unwrap();
    model.ensure_namespace("test").unwrap();

    let item_type = model.ensure_entity("test:Item").unwrap();
    model.apply_to(item_type, "wa2:type", "wa2:Type").unwrap();

    let item = model.blank();
    model.apply_entity(item, "wa2:type", item_type).unwrap();

    // Rule that passes
    let rule = Rule {
        name: "passing_rule".to_string(),
        body: vec![Statement::For(ForStmt {
            var: "x".to_string(),
            collection: Expr::Query(QueryExpr {
                path: QueryPath {
                    steps: vec![QueryStep {
                        axis: Axis::Child,
                        node_test: Some(QualifiedName {
                            namespace: Some("test".to_string()),
                            name: "Item".to_string(),
                            span: 0..0,
                        }),
                        predicates: vec![],
                        span: 0..0,
                    }],
                    span: 0..0,
                },
                span: 0..0,
            }),
            body: vec![Statement::Modal(ModalStmt {
                modal: Modal::Must,
                expr: Expr::Query(QueryExpr {
                    path: QueryPath {
                        steps: vec![QueryStep {
                            axis: Axis::Child,
                            node_test: Some(QualifiedName {
                                namespace: Some("test".to_string()),
                                name: "Item".to_string(), // This type exists
                                span: 0..0,
                            }),
                            predicates: vec![],
                            span: 0..0,
                        }],
                        span: 0..0,
                    },
                    span: 0..0,
                }),
                metadata: None,
                span: 0..0,
            })],
            span: 0..0,
        })],
        span: 0..0,
    };

    let rules_map = by_name(vec![("passing_rule".to_string(), rule)]);

    let bindings = vec![OrderedBinding {
        policy_name: "test_policy".to_string(),
        modal: Modal::Must,
        rule_name: "passing_rule".to_string(),
    }];

    let mut engine = RuleEngine::new();
    let result = engine
        .run_with_policy(&mut model, &[], &rules_map, &bindings)
        .unwrap();

    assert_eq!(result.outcome, PolicyOutcome::Pass);
    assert_eq!(result.trace.len(), 1);
    assert!(result.trace[0].passed);
}

#[test]
fn degraded_when_should_fails_but_no_must_fails() {
    let mut model = Model::bootstrap();
    model.ensure_namespace("core").unwrap();
    model.ensure_namespace("test").unwrap();

    let item_type = model.ensure_entity("test:Item").unwrap();
    model.apply_to(item_type, "wa2:type", "wa2:Type").unwrap();

    let item = model.blank();
    model.apply_entity(item, "wa2:type", item_type).unwrap();

    // Rule that creates Error-level finding
    let failing_rule = Rule {
        name: "failing_rule".to_string(),
        body: vec![Statement::For(ForStmt {
            var: "x".to_string(),
            collection: Expr::Query(QueryExpr {
                path: QueryPath {
                    steps: vec![QueryStep {
                        axis: Axis::Child,
                        node_test: Some(QualifiedName {
                            namespace: Some("test".to_string()),
                            name: "Item".to_string(),
                            span: 0..0,
                        }),
                        predicates: vec![],
                        span: 0..0,
                    }],
                    span: 0..0,
                },
                span: 0..0,
            }),
            body: vec![Statement::Modal(ModalStmt {
                modal: Modal::Must, // Creates Error finding
                expr: Expr::Query(QueryExpr {
                    path: QueryPath {
                        steps: vec![QueryStep {
                            axis: Axis::Child,
                            node_test: Some(QualifiedName {
                                namespace: Some("core".to_string()),
                                name: "NonExistent".to_string(),
                                span: 0..0,
                            }),
                            predicates: vec![],
                            span: 0..0,
                        }],
                        span: 0..0,
                    },
                    span: 0..0,
                }),
                metadata: None,
                span: 0..0,
            })],
            span: 0..0,
        })],
        span: 0..0,
    };

    let rules_map = by_name(vec![("failing_rule".to_string(), failing_rule)]);

    // Rule bound with should at policy level
    let bindings = vec![OrderedBinding {
        policy_name: "test_policy".to_string(),
        modal: Modal::Should,
        rule_name: "failing_rule".to_string(),
    }];

    let mut engine = RuleEngine::new();
    let result = engine
        .run_with_policy(&mut model, &[], &rules_map, &bindings)
        .unwrap();

    assert_eq!(
        result.outcome,
        PolicyOutcome::Degraded,
        "Should return Degraded when should-bound rule fails"
    );
}

#[test]
fn empty_bindings_returns_pass() {
    let mut model = Model::bootstrap();
    model.ensure_namespace("core").unwrap();

    let rules_map: NameMap<Rule> = NameMap::new();
    let bindings: Vec<OrderedBinding> = vec![];

    let mut engine = RuleEngine::new();
    let result = engine
        .run_with_policy(&mut model, &[], &rules_map, &bindings)
        .unwrap();

    assert_eq!(
        result.outcome,
        PolicyOutcome::Pass,
        "Empty policy should pass"
    );
    assert!(result.trace.is_empty());
}

#[test]
fn trace_captures_finding_count() {
    let mut model = Model::bootstrap();
    model.ensure_namespace("core").unwrap();
    model.ensure_namespace("test").unwrap();

    let item_type = model.ensure_entity("test:Item").unwrap();
    model.apply_to(item_type, "wa2:type", "wa2:Type").unwrap();

    // Create multiple items
    for _ in 0..3 {
        let item = model.blank();
        model.apply_entity(item, "wa2:type", item_type).unwrap();
    }

    // Rule that fails on each item
    let rule = Rule {
        name: "multi_fail_rule".to_string(),
        body: vec![Statement::For(ForStmt {
            var: "x".to_string(),
            collection: Expr::Query(QueryExpr {
                path: QueryPath {
                    steps: vec![QueryStep {
                        axis: Axis::Child,
                        node_test: Some(QualifiedName {
                            namespace: Some("test".to_string()),
                            name: "Item".to_string(),
                            span: 0..0,
                        }),
                        predicates: vec![],
                        span: 0..0,
                    }],
                    span: 0..0,
                },
                span: 0..0,
            }),
            body: vec![Statement::Modal(ModalStmt {
                modal: Modal::Must,
                expr: Expr::Query(QueryExpr {
                    path: QueryPath {
                        steps: vec![QueryStep {
                            axis: Axis::Child,
                            node_test: Some(QualifiedName {
                                namespace: Some("core".to_string()),
                                name: "NonExistent".to_string(),
                                span: 0..0,
                            }),
                            predicates: vec![],
                            span: 0..0,
                        }],
                        span: 0..0,
                    },
                    span: 0..0,
                }),
                metadata: None,
                span: 0..0,
            })],
            span: 0..0,
        })],
        span: 0..0,
    };

    let rules_map = by_name(vec![("multi_fail_rule".to_string(), rule)]);

    // Use should so we don't stop early
    let bindings = vec![OrderedBinding {
        policy_name: "test_policy".to_string(),
        modal: Modal::Should,
        rule_name: "multi_fail_rule".to_string(),
    }];

    let mut engine = RuleEngine::new();
    let result = engine
        .run_with_policy(&mut model, &[], &rules_map, &bindings)
        .unwrap();

    assert_eq!(result.trace.len(), 1);
    // Should have 3 findings (one per item)
    assert_eq!(result.trace[0].finding_count, 3);
    assert!(!result.trace[0].passed);
}

// Two-Phase Execution

#[test]
fn add_statement_rejected_in_rules() {
    let mut model = Model::bootstrap();
    model.ensure_namespace("test").unwrap();

    let item_type = model.ensure_entity("test:Item").unwrap();
    model.apply_to(item_type, "wa2:type", "wa2:Type").unwrap();

    let item = model.blank();
    model.apply_entity(item, "wa2:type", item_type).unwrap();

    // Rule with add statement (should fail)
    let rule = Rule {
        name: "bad_rule".to_string(),
        body: vec![Statement::For(ForStmt {
            var: "x".to_string(),
            collection: Expr::Query(QueryExpr {
                path: QueryPath {
                    steps: vec![QueryStep {
                        axis: Axis::Child,
                        node_test: Some(QualifiedName {
                            namespace: Some("test".to_string()),
                            name: "Item".to_string(),
                            span: 0..0,
                        }),
                        predicates: vec![],
                        span: 0..0,
                    }],
                    span: 0..0,
                },
                span: 0..0,
            }),
            body: vec![Statement::Add(AddStmt {
                subject: Expr::Var("x".to_string(), 0..0),
                predicate: QualifiedName {
                    namespace: Some("test".to_string()),
                    name: "tag".to_string(),
                    span: 0..0,
                },
                object: Expr::String("value".to_string(), 0..0),
                span: 0..0,
            })],
            span: 0..0,
        })],
        span: 0..0,
    };

    let mut engine = RuleEngine::new();
    let result = engine.run(&mut model, &[rule]);

    assert!(result.is_err());
    assert!(result.unwrap_err().message.contains("not allowed in rules"));
}

#[test]
fn blank_node_rejected_in_rules() {
    let engine = RuleEngine::new();
    let mut model = Model::bootstrap();
    model.ensure_namespace("test").unwrap();

    let env = Env::new();

    // Blank node expression should fail in rule context
    let result = engine.eval_expr_to_entity(&mut model, &Expr::Blank(0..0), &env, false);

    assert!(result.is_err());
    assert!(result.unwrap_err().message.contains("not allowed in rules"));
}
