//! What a check prints.

use wa2::kernel::analysis::{AnalysisResult, AssertFailure, AssertSeverity};
use wa2::kernel::ast::Modal;
use wa2::kernel::rules::RuleExecution;
use wa2::kernel::semantics::PolicyOutcome;
use wa2::model::{EntityId, Model, Position, Range};
use wa2::report::graph::{classify_graph_node, graph_kind_for_link_ref, print_model_graph};
use wa2::report::layout::{GraphNodeKind, Reporter, Status};
use wa2::report::results::{
    find_failures_for_rule, group_trace_by_policy, policy_status, print_failures_for_rule, print_results,
    rule_status,
};
use wa2::report::session::{
    run_validation, Action, CheckOptions, CheckRun, EntryOutcome, TargetOutcome, ValidationOutcome,
    ValidationReport,
};

fn plain() -> Reporter {
    Reporter::new(false, None)
}

fn colourful() -> Reporter {
    Reporter::new(true, Some(80))
}

#[test]
fn the_width_is_that_of_the_terminal() {
    assert_eq!(plain().width, 100);
    assert_eq!(colourful().width, 80);
    assert!(!plain().interactive);
}

#[test]
fn sections_are_underlined() {
    assert_eq!(plain().section("PREPARE"), vec!["", "PREPARE", "-------"]);
}

#[test]
fn markers_follow_the_status() {
    for (status, marker, colour) in [
        (Status::Pass, "✓", "\x1b[32m✓\x1b[39m"),
        (Status::Warn, "⚠", "\x1b[33m⚠\x1b[39m"),
        (Status::Fail, "✗", "\x1b[31m✗\x1b[39m"),
        (Status::Blocked, "•", "\x1b[2m•\x1b[0m"),
        (Status::Info, "ℹ", "\x1b[34mℹ\x1b[39m"),
    ] {
        assert_eq!(plain().prepare(status, "x", None), vec![format!("{} x", marker)]);
        assert_eq!(colourful().prepare(status, "x", None), vec![format!("{} x", colour)]);
    }
}

#[test]
fn graph_markers_follow_the_kind() {
    for (kind, marker) in [
        (GraphNodeKind::Workload, "\x1b[94m◎\x1b[39m"),
        (GraphNodeKind::Run, "\x1b[91m●\x1b[39m"),
        (GraphNodeKind::Store, "\x1b[94m■\x1b[39m"),
        (GraphNodeKind::Move, "\x1b[95m▶\x1b[39m"),
        (GraphNodeKind::Evidence, "\x1b[93m◌\x1b[39m"),
        (GraphNodeKind::Template, "📦"),
        (GraphNodeKind::Resource, "🧱"),
        (GraphNodeKind::Parameter, "⚙"),
        (GraphNodeKind::PseudoParameter, "🔧"),
        (GraphNodeKind::Output, "📤"),
        (GraphNodeKind::Ref, "🔗"),
        (GraphNodeKind::GetAtt, "📎"),
        (GraphNodeKind::Sub, "🧩"),
        (GraphNodeKind::Intrinsic, "\x1b[96mƒ\x1b[39m"),
        (GraphNodeKind::Blank, "\x1b[2m•\x1b[0m"),
        (GraphNodeKind::Entity, "\x1b[2m·\x1b[0m"),
    ] {
        assert_eq!(colourful().graph_tree("", true, kind, "x", None), vec![format!("{} x", marker)]);
        assert_eq!(plain().graph_tree("", true, kind, "x", None), vec!["x"]);
    }
}

#[test]
fn branches_and_details_are_indented() {
    let out = plain();
    assert_eq!(
        out.tree("   ", false, Status::Warn, "label", Some("detail")),
        vec!["   ├─ ⚠ label", "   │  detail"]
    );
    assert_eq!(
        out.tree("   ", true, Status::Warn, "label", Some("one\n\n\n\n  two  ")),
        vec!["   └─ ⚠ label", "      one", "      ", "      two"]
    );
    assert_eq!(out.tree("", false, Status::Pass, "label", Some("detail")), vec!["✓ label", "   detail"]);
    assert_eq!(out.tree("", false, Status::Pass, "label", Some(" \n\n ")), vec!["✓ label"]);
    assert_eq!(Reporter::child_prefix("", true), "   ");
    assert_eq!(Reporter::child_prefix("", false), "│  ");
    assert_eq!(Reporter::child_prefix("   ", true), "      ");
    assert_eq!(Reporter::child_prefix("   ", false), "   │  ");
}

#[test]
fn details_are_wrapped_to_the_width() {
    let out = Reporter::new(false, Some(30));
    assert_eq!(
        out.prepare(Status::Info, "x", Some("aaaa bbbb cccc dddd eeee ffff gggg")),
        vec!["ℹ x", "   aaaa bbbb cccc dddd eeee", "   ffff gggg"]
    );
    // Never less than twenty columns
    let out = Reporter::new(false, Some(5));
    assert_eq!(
        out.prepare(Status::Info, "x", Some("aaaa bbbb cccc dddd eeee")),
        vec!["ℹ x", "   aaaa bbbb cccc dddd", "   eeee"]
    );
}

fn exec(policy: &str, rule: &str, modal: Modal, passed: bool) -> RuleExecution {
    RuleExecution {
        policy_name: policy.to_string(),
        rule_name: rule.to_string(),
        modal,
        passed,
        finding_count: if passed { 0 } else { 1 },
    }
}

fn failure(assertion: &str, severity: AssertSeverity, subject: Option<EntityId>) -> AssertFailure {
    AssertFailure {
        entity: EntityId(0),
        assertion: assertion.to_string(),
        severity,
        subject,
        area: None,
        message: None,
    }
}

#[test]
fn traces_are_grouped_by_policy() {
    let trace = vec![
        exec("a", "r1", Modal::Must, true),
        exec("a", "r2", Modal::Must, true),
        exec("", "r3", Modal::Must, true),
        exec("a", "r4", Modal::Must, true),
    ];
    let groups = group_trace_by_policy(&trace);
    let shown: Vec<(String, usize)> = groups.iter().map(|g| (g.name.clone(), g.rules.len())).collect();
    assert_eq!(
        shown,
        vec![("a".to_string(), 2), ("(no policy)".to_string(), 1), ("a".to_string(), 1)]
    );
    assert_eq!(groups[2].rules[0].rule_name, "r4");
    assert!(group_trace_by_policy(&[]).is_empty());
}

#[test]
fn statuses_follow_the_modals() {
    assert_eq!(rule_status(&exec("", "r", Modal::Must, true)), Status::Pass);
    assert_eq!(rule_status(&exec("", "r", Modal::Must, false)), Status::Fail);
    assert_eq!(rule_status(&exec("", "r", Modal::Should, false)), Status::Warn);
    assert_eq!(rule_status(&exec("", "r", Modal::May, false)), Status::Info);
    let must = exec("", "r", Modal::Must, false);
    let should = exec("", "r", Modal::Should, false);
    let may = exec("", "r", Modal::May, false);
    assert_eq!(policy_status(&vec![&should, &must]), Status::Fail);
    assert_eq!(policy_status(&vec![&should, &may]), Status::Warn);
    assert_eq!(policy_status(&vec![&may]), Status::Pass);
    assert_eq!(policy_status(&vec![]), Status::Pass);
    assert_eq!(Status::from(AssertSeverity::Error), Status::Fail);
    assert_eq!(Status::from(AssertSeverity::Warning), Status::Warn);
    assert_eq!(Status::from(AssertSeverity::Info), Status::Pass);
}

#[test]
fn failures_belong_to_rules_by_their_beginning() {
    let failures = vec![
        failure("rule: x", AssertSeverity::Error, None),
        failure("other: x", AssertSeverity::Error, None),
        failure("rule2: x", AssertSeverity::Error, None),
    ];
    let found = find_failures_for_rule("rule", &failures);
    assert_eq!(found.len(), 1);
    assert_eq!(found[0].assertion, "rule: x");
    assert_eq!(find_failures_for_rule("rule2", &failures).len(), 1);
    assert_eq!(find_failures_for_rule("none", &failures).len(), 0);
}

fn analysis(outcome: PolicyOutcome, trace: Vec<RuleExecution>, failures: Vec<AssertFailure>) -> AnalysisResult {
    let mut model = Model::bootstrap();
    let bucket = model.ensure_raw("DataBucket");
    model.set_range(
        bucket,
        Range {
            start: Position { line: 2, character: 0 },
            end: Position { line: 4, character: 0 },
        },
    );
    AnalysisResult { model, failures, outcome, trace, document: "stack.yaml".to_string() }
}

#[test]
fn a_success_is_one_line() {
    let a = analysis(PolicyOutcome::Pass, vec![exec("p", "r", Modal::Must, true)], vec![]);
    assert_eq!(
        print_results(&plain(), "quick", &a, false),
        (vec!["✓ Profile: quick [1/1]".to_string()], true)
    );
    assert_eq!(
        print_results(&plain(), "quick", &a, true),
        (
            vec![
                "✓ Profile: quick [1/1]".to_string(),
                "   └─ ✓ Policy: p [1/1]".to_string(),
                "      └─ ✓ must r".to_string(),
            ],
            true
        )
    );
}

#[test]
fn failures_are_shown_under_their_rules() {
    let bucket = analysis(PolicyOutcome::Pass, vec![], vec![]).model.resolve("DataBucket").unwrap();
    let mut first = failure("bad: must obligation not satisfied", AssertSeverity::Error, Some(bucket));
    first.area = Some(EntityId(1));
    first.message = Some("Fix it".to_string());
    let second = failure("bad: must obligation not satisfied", AssertSeverity::Warning, None);
    let a = analysis(
        PolicyOutcome::Fail,
        vec![
            exec("fine", "good", Modal::Must, true),
            exec("p", "good", Modal::Must, true),
            exec("p", "bad", Modal::Must, false),
        ],
        vec![first, second],
    );
    let (lines, success) = print_results(&plain(), "quick", &a, false);
    assert!(!success);
    assert_eq!(
        lines,
        vec![
            "✗ Profile: quick [1/2]",
            "   └─ ✗ Policy: p [1/2]",
            "      └─ ✗ must bad (2 findings)",
            "         ├─ ✗ DataBucket",
            "         │  Location: stack.yaml: line 3",
            "         │  Area: wa2:Type",
            "         │  Message: Fix it",
            "         └─ ⚠ (unknown subject)",
        ]
    );
    let (lines, _) = print_results(&plain(), "quick", &a, true);
    assert_eq!(lines[1], "   ├─ ✓ Policy: fine [1/1]");
    assert_eq!(lines[2], "   │  └─ ✓ must good");
    assert_eq!(lines[4], "      ├─ ✓ must good");
}

#[test]
fn one_finding_is_singular() {
    let a = analysis(
        PolicyOutcome::Degraded,
        vec![exec("p", "weak", Modal::Should, false)],
        vec![failure("weak: x", AssertSeverity::Warning, None)],
    );
    let (lines, success) = print_results(&plain(), "quick", &a, false);
    assert!(success);
    assert_eq!(lines[0], "⚠ Profile: quick [0/1]");
    assert_eq!(lines[2], "      └─ ⚠ should weak (1 finding)");
}

#[test]
fn findings_of_rules_that_may_fail_are_not_in_the_terse_form() {
    let a = analysis(
        PolicyOutcome::Pass,
        vec![exec("p", "nice", Modal::May, false)],
        vec![failure("nice: x", AssertSeverity::Info, None)],
    );
    let (lines, _) = print_results(&plain(), "quick", &a, false);
    assert_eq!(lines, vec!["✓ Profile: quick [1/1]"]);
    let (lines, _) = print_results(&plain(), "quick", &a, true);
    assert_eq!(lines[2], "      └─ ℹ may nice (1 finding)");
}

#[test]
fn failures_for_a_rule_without_details() {
    let a = analysis(PolicyOutcome::Fail, vec![], vec![]);
    let one = failure("r: x", AssertSeverity::Info, None);
    assert_eq!(
        print_failures_for_rule(&plain(), "   ", &vec![&one], &a),
        vec!["   └─ ✓ (unknown subject)"]
    );
    assert_eq!(a.resolve_failure_location(&one), None);
}

fn workload() -> Model {
    let mut model = Model::bootstrap();
    for ns in ["core", "aws", "aws:cfn"] {
        model.ensure_namespace(ns).unwrap();
    }
    model
}

#[test]
fn kinds_of_graph_nodes() {
    for (name, kind) in [
        ("core:Run", GraphNodeKind::Run),
        ("core:Store", GraphNodeKind::Store),
        ("core:Move", GraphNodeKind::Move),
        ("core:Workload", GraphNodeKind::Workload),
        ("core:Evidence", GraphNodeKind::Evidence),
        ("aws:cfn:Template", GraphNodeKind::Template),
        ("aws:cfn:Resource", GraphNodeKind::Resource),
        ("aws:cfn:Parameter", GraphNodeKind::Parameter),
        ("aws:cfn:PseudoParameter", GraphNodeKind::PseudoParameter),
        ("aws:cfn:Output", GraphNodeKind::Output),
        ("aws:cfn:Ref", GraphNodeKind::Ref),
        ("aws:cfn:GetAtt", GraphNodeKind::GetAtt),
        ("aws:cfn:Sub", GraphNodeKind::Sub),
        ("aws:cfn:Join", GraphNodeKind::Intrinsic),
    ] {
        let mut model = workload();
        let node = model.blank();
        model.apply_to(node, "wa2:type", name).unwrap();
        assert_eq!(classify_graph_node(&model, node), kind);
        assert_eq!(graph_kind_for_link_ref(&model, node), kind);
    }
    let mut model = workload();
    let blank = model.blank();
    let named = model.ensure_raw("x");
    assert_eq!(classify_graph_node(&model, blank), GraphNodeKind::Blank);
    assert_eq!(classify_graph_node(&model, named), GraphNodeKind::Entity);
    // What runs comes first
    model.apply_to(named, "wa2:type", "aws:cfn:Resource").unwrap();
    model.apply_to(named, "wa2:type", "core:Run").unwrap();
    assert_eq!(classify_graph_node(&model, named), GraphNodeKind::Run);
}

#[test]
fn a_graph_is_drawn_from_its_root() {
    let mut model = workload();
    assert_eq!(print_model_graph(&plain(), &model), vec!["(no root set)"]);
    let root = model.ensure_entity("core:workload").unwrap();
    model.apply_to(root, "wa2:type", "core:Workload").unwrap();
    model.set_root(root);
    let template = model.blank();
    model.apply_entity(root, "core:source", template).unwrap();
    let store = model.ensure_raw("Store");
    model.apply_to(store, "wa2:type", "core:Store").unwrap();
    model.apply_literal(store, "aws:name", "b").unwrap();
    model.apply_entity(root, "wa2:contains", store).unwrap();
    model.apply_entity(store, "core:source", root).unwrap();
    model.apply_entity(template, "wa2:contains", store).unwrap();
    assert_eq!(
        print_model_graph(&plain(), &model),
        vec![
            "core:workload : core:Workload".to_string(),
            "   ├─ -core:source-".to_string(),
            format!("   │  └─ {}", model.qualified_name(template)),
            "   │     └─ Store : core:Store".to_string(),
            "   │        aws:name=\"b\"".to_string(),
            "   │        └─ -core:source- core:workload : core:Workload (→)".to_string(),
            "   └─ Store : core:Store (→)".to_string(),
            "      aws:name=\"b\"".to_string(),
        ]
    );
}

fn options(validate: bool, entry: Option<&str>) -> CheckOptions {
    CheckOptions {
        profile: "quick".to_string(),
        target: "stack.yaml".to_string(),
        entry: entry.map(|e| e.to_string()),
        graph: false,
        validate,
        verbose: false,
    }
}

#[test]
fn a_check_goes_step_by_step() {
    let run = CheckRun::new(plain(), options(false, None));
    let step = run.start();
    assert_eq!(step.lines, vec!["", "PREPARE", "-------"]);
    assert_eq!(step.next, Action::ReadTarget);
    let step = run.on_target(TargetOutcome::Read);
    assert_eq!(
        step.lines,
        vec![
            "✓ Read target stack.yaml",
            "• CloudFormation validation",
            "   Disabled with --novalidation.",
            "✓ Initialise kernel",
        ]
    );
    assert_eq!(step.next, Action::SelectProfile);
    let step = run.on_profile(Ok(()));
    assert_eq!(step.lines, vec!["✓ Select profile quick"]);
    assert_eq!(step.next, Action::Analyse);
    let step = run.on_analysis(&Ok(analysis(PolicyOutcome::Pass, vec![], vec![])));
    assert_eq!(
        step.lines,
        vec!["✓ Run analysis", "", "RESULTS", "-------", "✓ Profile: quick [0/0]"]
    );
    assert_eq!(step.next, Action::Exit(true));
    let step = run.on_analysis(&Ok(analysis(PolicyOutcome::Fail, vec![], vec![])));
    assert_eq!(step.next, Action::Exit(false));
}

#[test]
fn a_check_with_all_options() {
    let mut options = options(true, Some("my.wa2"));
    options.graph = true;
    let run = CheckRun::new(plain(), options);
    let step = run.on_target(TargetOutcome::Read);
    assert_eq!(step.lines[1], "• Schedule CloudFormation validation");
    assert_eq!(step.lines[2], "   Validation will run concurrently and report after results.");
    assert_eq!(step.next, Action::LoadEntry);
    let step = run.on_entry("my.wa2", EntryOutcome::Loaded);
    assert_eq!(step.lines, vec!["✓ Parse intent entry my.wa2"]);
    assert_eq!(step.next, Action::SelectProfile);
    let step = run.on_analysis(&Ok(analysis(PolicyOutcome::Pass, vec![], vec![])));
    assert_eq!(step.lines[5..], ["", "GRAPH", "-----", "(no root set)"]);
    assert_eq!(step.next, Action::AwaitValidation(true));
    let report = run_validation(ValidationOutcome::Checked(vec![]));
    let step = run.on_validation(true, Ok(report));
    assert_eq!(
        step.lines,
        vec!["", "VALIDATION", "----------", "✓ Validate CloudFormation against specification"]
    );
    assert_eq!(step.next, Action::Exit(true));
    let report = run_validation(ValidationOutcome::Checked(vec![]));
    assert_eq!(run.on_validation(false, Ok(report)).next, Action::Exit(false));
}

#[test]
fn faults_end_a_check() {
    let run = CheckRun::new(plain(), options(true, Some("my.wa2")));
    let step = run.on_target(TargetOutcome::Missing);
    assert_eq!(step.lines, vec!["✗ Read target stack.yaml", "   Target file not found."]);
    assert_eq!(step.next, Action::Exit(false));
    let step = run.on_target(TargetOutcome::Unreadable("denied".to_string()));
    assert_eq!(step.lines[1], "   denied");
    assert_eq!(step.next, Action::Exit(false));
    let step = run.on_entry("my.wa2", EntryOutcome::Missing);
    assert_eq!(step.lines, vec!["✗ Read intent entry my.wa2", "   Entry file not found."]);
    assert_eq!(step.next, Action::Exit(false));
    let step = run.on_entry("my.wa2", EntryOutcome::Rejected("line 1".to_string()));
    assert_eq!(step.lines, vec!["✗ Parse intent entry my.wa2", "   line 1"]);
    let step = run.on_profile(Err("no such profile".to_string()));
    assert_eq!(step.lines, vec!["✗ Select profile quick", "   no such profile"]);
    assert_eq!(step.next, Action::Exit(false));
    let step = run.on_analysis(&Err(vec!["one".to_string(), "two".to_string()]));
    assert_eq!(step.lines, vec!["✗ Run analysis", "   one", "   ", "   two"]);
    assert_eq!(step.next, Action::Exit(false));
    let step = run.on_validation(true, Err("cancelled".to_string()));
    assert_eq!(step.lines[3..], ["✗ Run CloudFormation validation", "   cancelled"]);
    assert_eq!(step.next, Action::Exit(false));
}

fn shown(r: ValidationReport) -> (Status, String, Option<String>) {
    (r.status, r.label, r.detail)
}

#[test]
fn validations_are_reported() {
    assert_eq!(
        shown(run_validation(ValidationOutcome::ParseFailed(vec!["a".to_string(), "b".to_string()]))),
        (Status::Fail, "Parse CloudFormation template".to_string(), Some("a\n\nb".to_string()))
    );
    assert_eq!(
        shown(run_validation(ValidationOutcome::SpecFailed("offline".to_string()))),
        (Status::Fail, "Load CloudFormation specification".to_string(), Some("offline".to_string()))
    );
    assert_eq!(
        shown(run_validation(ValidationOutcome::Checked(vec![]))),
        (Status::Pass, "Validate CloudFormation against specification".to_string(), None)
    );
    assert_eq!(
        shown(run_validation(ValidationOutcome::Checked(vec!["bad".to_string()]))),
        (
            Status::Fail,
            "Validate CloudFormation against specification".to_string(),
            Some("bad".to_string())
        )
    );
}
