//! Texts, names, graphs and searches.

use wa2::kernel::ast::{Axis, QualifiedName, QueryPath, QueryStep};
use wa2::kernel::query::QueryEngine;
use wa2::model::search::{Axis as SearchAxis, Query};
use wa2::model::{EntityId, Model, Term};
use wa2::names::NameMap;
use wa2::text;

#[test]
fn comparisons_of_texts() {
    assert!(text::same_text("aß", "aß"));
    assert!(!text::same_text("a", "b"));
    assert!(text::is_empty(""));
    assert!(!text::is_empty(" "));
    assert!(text::starts_with("wa2:type", "wa2:"));
    assert!(!text::starts_with("wa", "wa2"));
    assert!(text::ends_with("a.json", ".json"));
    assert!(!text::ends_with("json", ".json"));
    assert!(text::contains_text("abcd", "bc"));
    assert!(text::contains_text("abcd", ""));
    assert!(!text::contains_text("abcd", "cb"));
    assert_eq!(text::chars_of("aß").len(), 2);
}

#[test]
fn texts_are_put_together() {
    assert_eq!(text::cat2("a", "b"), "ab");
    assert_eq!(text::cat3("a", "", "c"), "ac");
    assert_eq!(text::cat4("a", "b", "c", "d"), "abcd");
    assert_eq!(text::cat5("a", "b", "c", "d", "e"), "abcde");
    let parts: Vec<String> = ["x", "y", "z"].iter().map(|s| s.to_string()).collect();
    assert_eq!(text::join_text(&parts, ", "), "x, y, z");
    assert_eq!(text::join_text(&vec![], ", "), "");
    assert_eq!(text::repeat_text("ab", 3), "ababab");
    assert_eq!(text::repeat_text("ab", 0), "");
}

#[test]
fn numbers_as_texts() {
    for n in [0u64, 7, 10, 99, 100, 12345, u64::MAX] {
        assert_eq!(text::decimal_text(n), n.to_string());
    }
    for n in [0i64, 5, -5, i64::MAX, i64::MIN] {
        assert_eq!(text::signed_text(n), n.to_string());
    }
    assert_eq!(text::truth_text(true), "true");
    assert_eq!(text::truth_text(false), "false");
}

#[test]
fn parts_of_names() {
    assert_eq!(text::local_text("aws:cfn:Ref"), "Ref");
    assert_eq!(text::local_text("Ref"), "Ref");
    assert_eq!(text::namespace_text("aws:cfn:Ref").as_deref(), Some("aws:cfn"));
    assert_eq!(text::namespace_text("Ref"), None);
}

#[test]
fn quotes_are_stripped() {
    assert_eq!(text::strip_quotes("\"a\""), "a");
    assert_eq!(text::strip_quotes("\"\""), "");
    assert_eq!(text::strip_quotes("\""), "\"");
    assert_eq!(text::strip_quotes("\"a"), "\"a");
    assert!(text::quoted("\"a\""));
    assert!(!text::quoted("\""));
}

#[test]
fn texts_are_split_and_trimmed() {
    for s in ["", "a", "a\n\nb", "\n\na\n\n", "a\n\n\nb", "\n\n\n\n"] {
        let expected: Vec<&str> = s.split("\n\n").collect();
        assert_eq!(text::split_text(s, "\n\n"), expected);
    }
    for s in ["", "  ", " a b ", "\u{3000}a\u{85}", "\u{200b}a"] {
        assert_eq!(text::trim_text(s), s.trim());
    }
}

#[test]
fn white_space_is_that_of_unicode() {
    for c in '\0'..=char::MAX {
        assert_eq!(text::white(c), c.is_whitespace(), "{:?}", c);
    }
}

#[test]
fn names_map_to_values() {
    let mut map: NameMap<u32> = NameMap::new();
    assert_eq!(map.get("a"), None);
    map.insert("a".to_string(), 1);
    map.insert("b".to_string(), 2);
    map.insert("a".to_string(), 3);
    assert_eq!(map.get("a"), Some(&3));
    assert_eq!(map.get("b"), Some(&2));
    if let Some(v) = map.get_mut("b") {
        *v = 5;
    }
    assert_eq!(map.get("b"), Some(&5));
    assert!(map.get_mut("c").is_none());
}

#[test]
fn the_vocabulary_comes_first() {
    let model = Model::bootstrap();
    assert_eq!(model.entity_count(), 7);
    assert_eq!(model.statement_count(), 7);
    let kind = model.resolve("wa2:Type").unwrap();
    let predicate = model.resolve("wa2:Predicate").unwrap();
    assert!(model.has_type(kind, kind));
    assert!(model.has_type(model.resolve("wa2:contains").unwrap(), predicate));
    assert_eq!(model.resolve("wa2:Nothing"), None);
    assert_eq!(model.root(), None);
}

#[test]
fn namespaces_are_registered_from_the_outside_in() {
    let mut model = Model::bootstrap();
    let e = model.ensure_namespace("aws:cfn").unwrap_err();
    assert_eq!(e.message, "unknown namespace: aws");
    assert!(!model.has_namespace("aws:cfn"));
    model.ensure_namespace("aws").unwrap();
    model.ensure_namespace("aws:cfn").unwrap();
    model.ensure_namespace("aws:cfn").unwrap();
    assert!(model.has_namespace("aws:cfn"));
    let e = model.ensure_entity("other:Thing").unwrap_err();
    assert_eq!(e.message, "unknown namespace: other");
    assert_eq!(model.entity_count(), 7);
    let id = model.ensure_entity("aws:cfn:Ref").unwrap();
    assert_eq!(model.ensure_entity("aws:cfn:Ref").unwrap(), id);
    assert_eq!(model.resolve("aws:cfn:Ref"), Some(id));
    assert_eq!(model.ensure_raw("plain"), model.ensure_entity("plain").unwrap());
}

#[test]
fn statements_are_made_once() {
    let mut model = Model::bootstrap();
    model.ensure_namespace("core").unwrap();
    let a = model.ensure_raw("a");
    let before = model.statement_count();
    model.apply_literal(a, "core:name", "x").unwrap();
    model.apply_literal(a, "core:name", "x").unwrap();
    model.apply_to(a, "core:name", "\"x\"").unwrap();
    assert_eq!(model.statement_count(), before + 1);
    model.apply_literal(a, "core:name", "y").unwrap();
    assert_eq!(model.get_literal(a, "core:name").as_deref(), Some("x"));
    let p = model.resolve("core:name").unwrap();
    assert_eq!(model.literals(a, p), vec!["x", "y"]);
    assert_eq!(model.get_all(a, p).len(), 2);
    assert!(model.has(a, p, &Term::Literal("y".to_string())));
    assert!(!model.has(a, p, &Term::Literal("z".to_string())));
    let e = model.apply("b", "none:p", "c").unwrap_err();
    assert_eq!(e.message, "unknown namespace: none");
    assert!(model.apply_to(a, "core:link", "none:c").is_err());
}

#[test]
fn links_and_outgoing_statements() {
    let mut model = Model::bootstrap();
    model.ensure_namespace("core").unwrap();
    let a = model.ensure_raw("a");
    let b = model.blank();
    assert!(model.is_blank(b));
    assert_eq!(model.qualified_name(b), "_:8");
    model.apply_entity(a, "core:link", b).unwrap();
    model.apply_literal(a, "core:name", "x").unwrap();
    assert_eq!(model.get_linked(a, "core:link"), Some(b));
    assert_eq!(model.get_linked(a, "core:none"), None);
    assert_eq!(model.linked_entities(a, model.resolve("core:link").unwrap()), vec![b]);
    let out = model.outgoing(a);
    assert_eq!(out.len(), 2);
    assert_eq!(model.statement(out[0]).object.as_entity(), Some(b));
    assert_eq!(model.statement(out[1]).object.as_entity(), None);
    assert!(Term::Number(3).same(&Term::Number(3)));
    assert!(!Term::Number(3).same(&Term::Literal("3".to_string())));
    assert_eq!(model.get_literal(EntityId(999), "core:name"), None);
    assert_eq!(model.qualified_name(EntityId(999)), "_:999");
}

#[test]
fn searches_go_step_by_step() {
    let mut model = Model::bootstrap();
    model.ensure_namespace("core").unwrap();
    let a = model.ensure_raw("a");
    let b = model.ensure_raw("b");
    let c = model.ensure_raw("c");
    model.apply_entity(a, "wa2:contains", b).unwrap();
    model.apply_entity(b, "wa2:contains", c).unwrap();
    model.apply_to(c, "wa2:type", "core:Leaf").unwrap();
    model.apply_literal(c, "core:name", "x").unwrap();
    assert_eq!(model.query(&Query::descendant("core:Leaf")), vec![c]);
    let named = |value: &str| {
        Query::descendant("core:Leaf").filter("core:name", Term::Literal(value.to_string()))
    };
    assert_eq!(model.query_from(vec![a], &named("x")), vec![c]);
    assert!(model.query_from(vec![a], &named("y")).is_empty());
    assert!(model.query_from(vec![c], &named("x")).is_empty());
    let steps = Query::follow("wa2:contains").then_follow("wa2:contains");
    assert_eq!(model.query_from(vec![a], &steps), vec![c]);
    let steps = Query::follow("wa2:contains").then_step(SearchAxis::Child, Some("core:Leaf"));
    assert_eq!(model.query_from(vec![a, a], &steps), vec![c]);
    let steps = Query::follow("wa2:contains").then_step(SearchAxis::Child, None);
    assert_eq!(model.query_from(vec![a], &steps), vec![c]);
    assert!(model.query(&Query::descendant("core:Nothing")).is_empty());
}

fn step(axis: Axis, namespace: Option<&str>, name: &str) -> QueryStep {
    QueryStep {
        axis,
        node_test: Some(QualifiedName {
            namespace: namespace.map(|n| n.to_string()),
            name: name.to_string(),
            span: 0..0,
        }),
        predicates: vec![],
        span: 0..0,
    }
}

#[test]
fn queries_begin_anywhere_and_follow_links() {
    let mut model = Model::bootstrap();
    model.ensure_namespace("core").unwrap();
    model.apply("core:Thing", "wa2:type", "wa2:Type").unwrap();
    let a = model.blank();
    let b = model.ensure_raw("b");
    model.apply_to(a, "wa2:type", "core:Thing").unwrap();
    model.apply_to(b, "wa2:type", "core:Thing").unwrap();
    model.apply_entity(a, "core:link", b).unwrap();
    let engine = QueryEngine::new();
    let things = QueryPath { steps: vec![step(Axis::Child, Some("core"), "Thing")], span: 0..0 };
    assert_eq!(engine.execute(&model, &things).unwrap(), vec![a, b]);
    let linked = QueryPath {
        steps: vec![step(Axis::Child, Some("core"), "Thing"), step(Axis::Child, Some("core"), "link")],
        span: 0..0,
    };
    assert_eq!(engine.execute(&model, &linked).unwrap(), vec![b]);
    let by_name = QueryPath { steps: vec![step(Axis::Child, None, "b")], span: 0..0 };
    assert_eq!(engine.execute(&model, &by_name).unwrap(), vec![b]);
    let unknown = QueryPath { steps: vec![step(Axis::Child, Some("core"), "None")], span: 0..0 };
    assert!(engine.execute(&model, &unknown).unwrap().is_empty());
    let nothing = QueryPath { steps: vec![], span: 0..0 };
    assert!(engine.execute(&model, &nothing).unwrap().is_empty());
    assert!(engine.descendants(&model, a).is_empty());
    let name = QualifiedName { namespace: Some("a:b".to_string()), name: "c".to_string(), span: 0..0 };
    assert_eq!(name.to_text(), "a:b:c");
}
