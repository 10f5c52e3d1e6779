//! Open documents: quick and thorough analysis, definitions and hovers.

use wa2::advice;
use wa2::core_engine::{find_definition, hover_text, CfnTemplate, CoreEngine};
use wa2::diagnostics::{error_diagnostic, Diagnostic, DiagnosticSeverity};
use wa2::documents::DocumentFormat;
use wa2::guidance::{guidance, has_evidence, FocusTaxonomy, GuideLevel};
use wa2::model::{position_in_range, EntityId, Model, Position, Range};
use wa2::vendor::{
    add_template, derive_evidence, derive_wa2_type, ensure_aws_types, ensure_cfn_types, ensure_core_types,
    model_error_to_diags,
};

const URI: &str = "file:///tmp/test.yaml";

fn at(line: u32, character: u32) -> Position {
    Position { line, character }
}

fn span(line: u32, from: u32, to: u32) -> Range {
    Range { start: at(line, from), end: at(line, to) }
}

fn engine() -> CoreEngine<String> {
    CoreEngine::new()
}

/// A graph with the vocabulary of references.
fn references() -> Model {
    let mut model = Model::bootstrap();
    for ns in ["core", "aws", "cfn"] {
        model.ensure_namespace(ns).unwrap();
    }
    for name in ["cfn:Ref", "cfn:GetAtt", "cfn:Sub", "cfn:SubVarRef"] {
        model.apply(name, "wa2:type", "wa2:Type").unwrap();
    }
    model.apply("cfn:target", "wa2:type", "wa2:Predicate").unwrap();
    model
}

fn reference(model: &mut Model, kind: &str, range: Range, target: EntityId) -> EntityId {
    let node = model.blank();
    model.apply_to(node, "wa2:type", kind).unwrap();
    model.apply_entity(node, "cfn:target", target).unwrap();
    model.set_range(node, range);
    node
}

#[test]
fn goto_def_ref_to_resource() {
    let mut engine = engine();
    let text = r#"
Resources:
  DataBucket:
    Type: AWS::S3::Bucket
  Consumer:
    Type: AWS::Lambda::Function
    Properties:
      BucketName: !Ref DataBucket
"#;
    engine.on_open(URI, text.to_string(), "cloudformation-yaml");

    let mut model = references();
    let bucket = model.ensure_raw("DataBucket");
    model.set_range(bucket, span(2, 2, 12));
    let consumer = model.ensure_raw("Consumer");
    model.set_range(consumer, span(4, 2, 10));
    reference(&mut model, "cfn:Ref", span(7, 18, 33), bucket);

    // Position cursor on "DataBucket" in the !Ref (line 7, somewhere in "DataBucket")
    let position = Position {
        line: 7,
        character: 25,
    };

    let result = engine.goto_definition(URI, position, Some(&model));

    assert!(result.is_some(), "Should find definition");
    let location = result.unwrap();
    assert_eq!(location.uri, URI);
    // Should point to line 2 where DataBucket is defined
    assert_eq!(
        location.range.start.line, 2,
        "Should jump to DataBucket definition"
    );
}

#[test]
fn goto_def_ref_to_parameter() {
    let mut engine = engine();
    let text = r#"
Parameters:
  Environment:
    Type: String

Resources:
  Bucket:
    Type: AWS::S3::Bucket
    Properties:
      BucketName: !Ref Environment
"#;
    engine.on_open(URI, text.to_string(), "cloudformation-yaml");

    let mut model = references();
    let environment = model.ensure_raw("Environment");
    model.set_range(environment, span(2, 2, 13));
    let bucket = model.ensure_raw("Bucket");
    model.set_range(bucket, span(6, 2, 8));
    reference(&mut model, "cfn:Ref", span(9, 18, 34), environment);

    engine.analyse_document_slow(URI, Ok(model));

    // Position on "Environment" in !Ref
    let position = Position {
        line: 9,
        character: 30,
    };

    // The graph of the analysis is remembered
    let result = engine.goto_definition(URI, position, None);

    assert!(result.is_some(), "Should find parameter definition");
    let location = result.unwrap();
    // Should point to line 2 where Environment parameter is defined
    assert_eq!(
        location.range.start.line, 2,
        "Should jump to Environment parameter"
    );
}

#[test]
fn other_references_lead_to_their_targets_too() {
    for kind in ["cfn:GetAtt", "cfn:Sub", "cfn:SubVarRef"] {
        let mut model = references();
        let role = model.ensure_raw("MyRole");
        model.set_range(role, span(2, 2, 8));
        reference(&mut model, kind, span(9, 15, 33), role);
        assert_eq!(find_definition(&model, at(9, 20)), Some(span(2, 2, 8)));
        // What is no reference is its own definition
        assert_eq!(find_definition(&model, at(2, 5)), Some(span(2, 2, 8)));
        // Nothing stands there
        assert_eq!(find_definition(&model, at(5, 5)), None);
    }
}

#[test]
fn definitions_need_target_range_and_vocabulary() {
    let mut model = references();
    let lone = model.blank();
    model.apply_to(lone, "wa2:type", "cfn:Ref").unwrap();
    model.set_range(lone, span(1, 0, 9));
    assert_eq!(find_definition(&model, at(1, 3)), None);
    model.apply_literal(lone, "cfn:target", "text").unwrap();
    assert_eq!(find_definition(&model, at(1, 3)), None);

    let mut bare = Model::bootstrap();
    let thing = bare.ensure_raw("Thing");
    bare.set_range(thing, span(1, 0, 9));
    assert_eq!(find_definition(&bare, at(1, 3)), None);

    let mut model = references();
    let unplaced = model.ensure_raw("Unplaced");
    reference(&mut model, "cfn:Ref", span(1, 0, 9), unplaced);
    assert_eq!(find_definition(&model, at(1, 3)), None);
}

#[test]
fn definitions_need_an_open_document() {
    let mut engine = engine();
    let mut model = references();
    let bucket = model.ensure_raw("B");
    model.set_range(bucket, span(0, 0, 5));
    assert!(engine.goto_definition(URI, at(0, 1), Some(&model)).is_none());
    engine.on_open(URI, String::new(), "");
    assert!(engine.goto_definition(URI, at(0, 1), None).is_none());
    assert!(engine.goto_definition(URI, at(0, 1), Some(&model)).is_some());
}

#[test]
fn the_range_recorded_last_counts() {
    let mut model = Model::bootstrap();
    let a = model.ensure_raw("a");
    let b = model.ensure_raw("b");
    model.set_range(a, span(1, 0, 20));
    model.set_range(b, span(1, 5, 10));
    assert_eq!(model.entity_at_position(at(1, 7)), Some(b));
    assert_eq!(model.entity_at_position(at(1, 12)), Some(a));
    assert_eq!(model.entity_at_position(at(2, 0)), None);
    model.set_range(b, span(3, 0, 1));
    assert_eq!(model.get_range(b), Some(span(3, 0, 1)));
}

#[test]
fn ranges_hold_their_ends() {
    let r = Range { start: at(2, 4), end: at(4, 6) };
    assert!(position_in_range(at(2, 4), r));
    assert!(position_in_range(at(4, 6), r));
    assert!(position_in_range(at(3, 0), r));
    assert!(position_in_range(at(3, 99), r));
    assert!(!position_in_range(at(2, 3), r));
    assert!(!position_in_range(at(4, 7), r));
    assert!(!position_in_range(at(1, 9), r));
    assert!(!position_in_range(at(5, 0), r));
}

#[test]
fn formats_follow_the_language_and_then_the_path() {
    let of = DocumentFormat::from_language_id_or_path;
    assert_eq!(of(Some("cloudformation-json"), "file:///a.yaml"), DocumentFormat::Json);
    assert_eq!(of(Some("cloudformation-yaml"), "file:///a.json"), DocumentFormat::Yaml);
    assert_eq!(of(Some("plaintext"), "file:///a.json"), DocumentFormat::Json);
    assert_eq!(of(None, "file:///dir/a.json"), DocumentFormat::Json);
    assert_eq!(of(None, "file:///dir/a.template"), DocumentFormat::Yaml);
    // The query is no part of the path
    assert_eq!(of(None, "https://host/a.json?x=1"), DocumentFormat::Json);
    assert_eq!(of(None, "https://host/a.yaml?x=.json"), DocumentFormat::Yaml);
    assert_eq!(of(None, "no address.json"), DocumentFormat::Yaml);
    let path = Some("/a.json".to_string());
    assert_eq!(DocumentFormat::from_language_id_or_suffix(None, &path), DocumentFormat::Json);
    assert_eq!(DocumentFormat::from_language_id_or_suffix(None, &None), DocumentFormat::Yaml);
}

#[test]
fn a_change_keeps_the_format_and_forgets_the_rest() {
    let mut engine = engine();
    let mut model = references();
    let bucket = model.ensure_raw("B");
    model.set_range(bucket, span(0, 0, 5));
    engine.on_open(URI, "old".to_string(), "cloudformation-json");
    engine.on_open("file:///b.yaml", "other".to_string(), "");
    engine.analyse_document_slow(URI, Ok(model));
    assert!(engine.goto_definition(URI, at(0, 1), None).is_some());
    engine.on_change(URI, "new".to_string());
    assert_eq!(engine.text(URI), Some("new"));
    assert_eq!(engine.format(URI), Some(DocumentFormat::Json));
    assert!(engine.goto_definition(URI, at(0, 1), None).is_none());
    assert_eq!(engine.text("file:///b.yaml"), Some("other"));

    // A document that was not open is opened
    assert!(!engine.is_open("file:///c.json"));
    engine.on_change("file:///c.json", "{}".to_string());
    assert!(engine.is_open("file:///c.json"));
    assert_eq!(engine.format("file:///c.json"), Some(DocumentFormat::Json));
    engine.on_save("file:///c.json");
    assert_eq!(engine.text("file:///c.json"), Some("{}"));
}

fn template(resources: &[&str]) -> Result<CfnTemplate, Vec<Diagnostic>> {
    Ok(CfnTemplate { resources: resources.iter().map(|r| r.to_string()).collect() })
}

#[test]
fn a_quick_look_reports_missing_resources() {
    let mut engine = engine();
    engine.on_open(URI, "AWSTemplateFormatVersion: \"2010-09-09\"".to_string(), "cloudformation-yaml");
    let diags = engine.analyse_document_fast(URI, template(&[]), vec![]).unwrap_err();
    assert_eq!(diags.len(), 1);
    assert_eq!(diags[0].code.as_deref(), Some("WA2_CFN_RESOURCES_MISSING"));
    assert_eq!(diags[0].severity, Some(DiagnosticSeverity::Warning));
    assert_eq!(diags[0].source.as_deref(), Some("wa2-lsp"));
    assert_eq!(diags[0].range, span(0, 0, 1));
    assert_eq!(
        diags[0].message,
        "Template has no top-level `Resources` section; most CloudFormation templates define at least one resource."
    );
}

#[test]
fn a_quick_look_ignores_what_is_no_template() {
    let mut engine = engine();
    engine.on_open(URI, "a: b".to_string(), "cloudformation-yaml");
    engine.set_spec_store("spec".to_string());
    let disagreement = error_diagnostic("unknown".to_string());
    let parsed = engine.analyse_document_fast(URI, template(&[]), vec![disagreement]).unwrap();
    assert!(parsed.resources.is_empty());
}

#[test]
fn a_quick_look_needs_the_specification_for_disagreements() {
    let mut engine = engine();
    engine.on_open(URI, "Resources:".to_string(), "cloudformation-yaml");
    assert!(engine.spec_store().is_none());
    let found = vec![error_diagnostic("unknown resource type".to_string())];
    let parsed = engine.analyse_document_fast(URI, template(&["MyBucket"]), found).unwrap();
    assert_eq!(parsed.resources, vec!["MyBucket"]);
    engine.set_spec_store("spec".to_string());
    assert_eq!(engine.spec_store().map(|s| s.as_str()), Some("spec"));
    let found = vec![error_diagnostic("unknown resource type".to_string())];
    let diags = engine.analyse_document_fast(URI, template(&["MyBucket"]), found).unwrap_err();
    assert_eq!(diags.len(), 1);
    assert_eq!(diags[0].message, "unknown resource type");
    assert!(engine.analyse_document_fast(URI, template(&["MyBucket"]), vec![]).is_ok());
}

#[test]
fn a_quick_look_hands_on_what_the_parser_reports() {
    let mut engine = engine();
    engine.on_open(URI, "{".to_string(), "cloudformation-json");
    let diags = engine
        .analyse_document_fast(URI, Err(vec![error_diagnostic("unexpected end".to_string())]), vec![])
        .unwrap_err();
    assert_eq!(diags[0].message, "unexpected end");
    assert_eq!(diags[0].severity, Some(DiagnosticSeverity::Error));
}

/// A graph with a bucket that is a store, with some tags.
fn bucket(tags: &[(&str, &str)]) -> (Model, EntityId) {
    let mut model = Model::bootstrap();
    for ns in ["core", "aws", "cfn"] {
        model.ensure_namespace(ns).unwrap();
    }
    model.apply("wa2:Store", "wa2:type", "wa2:Type").unwrap();
    model.apply("wa2:Evidence", "wa2:type", "wa2:Type").unwrap();
    let bucket = model.ensure_raw("DataBucket");
    model.apply_to(bucket, "aws:type", "\"AWS::S3::Bucket\"").unwrap();
    model.apply_to(bucket, "aws:logicalId", "\"DataBucket\"").unwrap();
    derive_wa2_type(&mut model, bucket).unwrap();
    model.set_range(bucket, span(3, 2, 12));
    let list = model.blank();
    model.apply_entity(bucket, "aws:Tags", list).unwrap();
    for (key, value) in tags {
        let tag = model.blank();
        model.apply_entity(list, "wa2:contains", tag).unwrap();
        model.apply_literal(tag, "aws:Key", key).unwrap();
        model.apply_literal(tag, "aws:Value", value).unwrap();
    }
    (model, bucket)
}

fn foci(model: &Model) -> Vec<FocusTaxonomy> {
    guidance(model).iter().map(|g| g.focus).collect()
}

#[test]
fn stores_need_their_tags() {
    let (model, id) = bucket(&[]);
    let guides = guidance(&model);
    assert_eq!(foci(&model), vec![FocusTaxonomy::DataSensitivity, FocusTaxonomy::DataCriticality]);
    assert_eq!(guides[0].entity, id);
    assert_eq!(guides[0].logical_id, "DataBucket");
    assert_eq!(guides[0].level, GuideLevel::Required);
    assert_eq!(guides[0].tldr, "Tag this resource for DataSensitivity");
    assert_eq!(guides[0].message, "All stores of information should have data sensitivity.");
    assert_eq!(guides[1].tldr, "Tag this resource for DataCriticality");
    assert_eq!(guides[1].message, "All stores of information should have a data criticality.");

    let (model, _) = bucket(&[("DataSensitivity", "Public")]);
    assert_eq!(foci(&model), vec![FocusTaxonomy::DataCriticality]);
    let (model, _) = bucket(&[("DataSensitivity", "Public"), ("DataCriticality", "Low")]);
    assert_eq!(foci(&model), vec![]);
}

#[test]
fn a_tag_counts_whatever_its_value_is() {
    let (mut model, id) = bucket(&[("DataSensitivity", "Public")]);
    let list = model.get_linked(id, "aws:Tags").unwrap();
    let tag = model.blank();
    model.apply_entity(list, "wa2:contains", tag).unwrap();
    model.apply_literal(tag, "aws:Key", "DataCriticality").unwrap();
    let reference = model.blank();
    model.apply_entity(tag, "aws:Value", reference).unwrap();
    assert_eq!(foci(&model), vec![]);
}

#[test]
fn critical_stores_need_a_backup() {
    for level in ["MissionCritical", "BusinessCritical"] {
        let (mut model, id) = bucket(&[("DataSensitivity", "Public"), ("DataCriticality", level)]);
        let guides = guidance(&model);
        assert_eq!(foci(&model), vec![FocusTaxonomy::DataResiliance]);
        assert_eq!(guides[0].level, GuideLevel::Action);
        assert_eq!(guides[0].tldr, "Backup this resource");
        assert!(guides[0].why.contains("Backup, Snapshots or Replication"));

        // Replication is evidence
        let config = model.blank();
        let rules = model.blank();
        let rule = model.blank();
        model.apply_entity(id, "aws:ReplicationConfiguration", config).unwrap();
        model.apply_entity(config, "aws:Rules", rules).unwrap();
        model.apply_entity(rules, "wa2:contains", rule).unwrap();
        derive_evidence(&mut model, id).unwrap();
        assert!(!has_evidence(&model, id, "DataResiliance"));
        model.apply_literal(rule, "aws:Status", "Enabled").unwrap();
        derive_evidence(&mut model, id).unwrap();
        assert!(has_evidence(&model, id, "DataResiliance"));
        assert!(!has_evidence(&model, id, "Other"));
        assert_eq!(foci(&model), vec![]);
    }
}

#[test]
fn a_store_without_identifier_is_called_by_its_name() {
    let mut model = Model::bootstrap();
    model.apply("wa2:Store", "wa2:type", "wa2:Type").unwrap();
    let store = model.ensure_raw("Plain");
    model.apply_to(store, "wa2:type", "wa2:Store").unwrap();
    assert_eq!(guidance(&model)[0].logical_id, "Plain");
}

#[test]
fn abstract_types_follow_the_resource_type() {
    for (aws, kind) in [
        ("AWS::EC2::Instance", Some("wa2:Run")),
        ("AWS::Lambda::Function", Some("wa2:Run")),
        ("AWS::S3::Bucket", Some("wa2:Store")),
        ("AWS::EC2::Volume", Some("wa2:Store")),
        ("AWS::EFS::FileSystem", Some("wa2:Store")),
        ("AWS::SQS::Queue", Some("wa2:Move")),
        ("AWS::Kinesis::Stream", Some("wa2:Move")),
        ("AWS::IAM::Role", None),
    ] {
        let mut model = Model::bootstrap();
        model.ensure_namespace("aws").unwrap();
        let r = model.ensure_raw("R");
        model.apply_literal(r, "aws:type", aws).unwrap();
        derive_wa2_type(&mut model, r).unwrap();
        let types: Vec<String> = model.types(r).iter().map(|t| model.qualified_name(*t)).collect();
        assert_eq!(types, kind.map(|k| k.to_string()).into_iter().collect::<Vec<_>>());
    }
    let mut model = Model::bootstrap();
    let r = model.ensure_raw("R");
    let before = model.statement_count();
    derive_wa2_type(&mut model, r).unwrap();
    assert_eq!(model.statement_count(), before);
}

#[test]
fn vendor_types_are_stated() {
    let mut model = Model::bootstrap();
    let e = ensure_core_types(&mut model).unwrap_err();
    assert_eq!(e.message, "unknown namespace: aws:cfn");
    assert_eq!(model_error_to_diags(&e)[0].message, "Model error: ModelError { message: \"unknown namespace: aws:cfn\" }");

    let mut model = Model::bootstrap();
    ensure_cfn_types(&mut model, &vec!["Ref".to_string(), "GetAtt".to_string()]).unwrap();
    ensure_aws_types(&mut model).unwrap();
    ensure_core_types(&mut model).unwrap();
    let kind = model.resolve("wa2:Type").unwrap();
    for name in ["aws:cfn:Ref", "aws:cfn:GetAtt", "aws:cfn:Template", "core:Store", "core:Workload"] {
        assert!(model.has_type(model.resolve(name).unwrap(), kind), "{}", name);
    }
    let predicate = model.resolve("wa2:Predicate").unwrap();
    for name in ["aws:cfn:target", "aws:cfn:conditionName", "core:nodes"] {
        assert!(model.has_type(model.resolve(name).unwrap(), predicate), "{}", name);
    }
    assert!(model.resolve("aws:cfn:varRef").is_some());

    // Once more changes nothing
    let count = model.statement_count();
    ensure_core_types(&mut model).unwrap();
    assert_eq!(model.statement_count(), count);

    model.ensure_namespace("cfn").unwrap();
    let template = add_template(&mut model).unwrap();
    let workload = model.root().unwrap();
    assert_eq!(model.qualified_name(workload), "core:workload");
    assert_eq!(model.get_linked(workload, "core:source"), Some(template));
}

#[test]
fn a_thorough_look_turns_guides_into_diagnostics() {
    let mut engine = engine();
    let (model, _) = bucket(&[("DataSensitivity", "Public"), ("DataCriticality", "MissionCritical")]);
    assert!(engine.analyse_document_slow(URI, Ok(model)).is_empty());
    engine.on_open(URI, String::new(), "cloudformation-yaml");
    let (model, _) = bucket(&[("DataSensitivity", "Public"), ("DataCriticality", "MissionCritical")]);
    let diags = engine.analyse_document_slow(URI, Ok(model));
    assert_eq!(diags.len(), 1);
    assert_eq!(diags[0].severity, Some(DiagnosticSeverity::Warning));
    assert_eq!(diags[0].code.as_deref(), Some("WA2_GUIDE"));
    assert_eq!(diags[0].source.as_deref(), Some("wa2"));
    assert_eq!(diags[0].message, "Backup this resource");
    assert_eq!(diags[0].range, span(3, 2, 12));
    let data = diags[0].data.as_ref().unwrap();
    assert_eq!(data["kind"], "wa2_guide");
    assert_eq!(data["message"], "All critical stores of information should be backed up.");

    let hover = engine.get_hover_content(URI, at(3, 5)).unwrap();
    assert_eq!(
        hover,
        "## Backup this resource\n\nAll critical stores of information should be backed up.\n\n**Why?** This data's criticality indicates we don't want to lose it, so we need to apply a mechanism to ensure its backed up. Backup, Snapshots or Replication are common solutions."
    );
    assert_eq!(engine.get_hover_content(URI, at(4, 0)), None);
    assert_eq!(engine.get_hover_content("file:///other", at(3, 5)), None);

    // A graph that could not be made is reported, and what was known stays
    let list = engine.analyse_document_slow(URI, Err(vec![error_diagnostic("bad".to_string())]));
    assert_eq!(list[0].message, "bad");
    assert!(engine.get_hover_content(URI, at(3, 5)).is_some());

    // A quick look forgets the guides
    assert!(engine.analyse_document_fast(URI, template(&["DataBucket"]), vec![]).is_ok());
    assert_eq!(engine.get_hover_content(URI, at(3, 5)), None);
}

#[test]
fn the_first_of_two_guides_is_shown() {
    let mut engine = engine();
    engine.on_open(URI, String::new(), "cloudformation-yaml");
    let (model, _) = bucket(&[]);
    let diags = engine.analyse_document_slow(URI, Ok(model));
    assert_eq!(diags.len(), 2);
    assert_eq!(diags[0].severity, Some(DiagnosticSeverity::Error));
    let hover = engine.get_hover_content(URI, at(3, 2)).unwrap();
    assert!(hover.starts_with("## Tag this resource for DataSensitivity\n\n"));
}

#[test]
fn guides_without_a_place_are_left_out() {
    let mut engine = engine();
    engine.on_open(URI, String::new(), "cloudformation-yaml");
    let mut model = Model::bootstrap();
    let store = model.ensure_raw("Plain");
    model.apply_to(store, "wa2:type", "wa2:Store").unwrap();
    assert_eq!(guidance(&model).len(), 2);
    assert!(engine.analyse_document_slow(URI, Ok(model)).is_empty());
}

fn with_data(data: Option<serde_json::Value>) -> Vec<Diagnostic> {
    let mut d = error_diagnostic("x".to_string());
    d.data = data;
    vec![d]
}

#[test]
fn only_guides_are_shown() {
    let here = at(0, 0);
    assert_eq!(hover_text(&vec![], here), None);
    assert_eq!(hover_text(&with_data(None), here), None);
    assert_eq!(hover_text(&with_data(Some(serde_json::Value::Null)), here), None);
    assert_eq!(hover_text(&with_data(Some(serde_json::Value::from("wa2_guide"))), here), None);
    let mut object = serde_json::Map::new();
    object.insert("kind".to_string(), serde_json::Value::from("other"));
    assert_eq!(hover_text(&with_data(Some(serde_json::Value::Object(object.clone()))), here), None);
    object.insert("kind".to_string(), serde_json::Value::from(7));
    assert_eq!(hover_text(&with_data(Some(serde_json::Value::Object(object.clone()))), here), None);
    object.insert("kind".to_string(), serde_json::Value::from("wa2_guide"));
    object.insert("message".to_string(), serde_json::Value::from("m"));
    object.insert("why".to_string(), serde_json::Value::from(7));
    let list = with_data(Some(serde_json::Value::Object(object)));
    assert_eq!(hover_text(&list, here).as_deref(), Some("## \n\nm\n\n**Why?** "));
}

#[test]
fn advice_analyses_the_graph() {
    let (model, _) = bucket(&[]);
    let kernel = advice::Kernel::new();
    assert_eq!(kernel.analyse(Ok(model)).unwrap().guides.len(), 2);
    let list = kernel.analyse(Err(vec![error_diagnostic("bad".to_string())])).unwrap_err();
    assert_eq!(list[0].message, "bad");
}
