//! Systems in the graph database.

use wa2::guidance::{FocusTaxonomy, GuideLevel};
use wa2::system::pretty::{graph_text, PrettySystem};
use wa2::system::store::Found;
use wa2::system::{
    answer, find_property, first_id, first_value, found_ids, guides_about, NodeError, NodeKind, Provider, System,
};

fn attrs(pairs: &[(&str, &str)]) -> Vec<(String, String)> {
    pairs.iter().map(|(k, v)| (k.to_string(), v.to_string())).collect()
}

/// A deployment with one bucket, with some tags and evidence.
fn deployment(tags: &[(&str, &str)], evidence: Option<&str>) -> (System, i64) {
    let mut system = System::new().unwrap();
    let root = system.add_node("Deployment", "AWS", &attrs(&[("name", "stack")])).unwrap();
    let bucket = system
        .add_node(
            "Resource",
            "AWS",
            &attrs(&[
                ("logical_id", "DataBucket"),
                ("type", "AWS::S3::Bucket"),
                ("wa2_kind", "Store"),
            ]),
        )
        .unwrap();
    system.add_edge("Contains", root, bucket).unwrap();
    let list = system.add_node("Property", "AWS", &attrs(&[("name", "tags")])).unwrap();
    system.add_edge("Contains", bucket, list).unwrap();
    for (key, value) in tags {
        let tag = system.add_node("Value", "AWS", &attrs(&[("key", key), ("value", value)])).unwrap();
        system.add_edge("Contains", list, tag).unwrap();
    }
    if let Some(name) = evidence {
        let node = system.add_node("Evidence", "wa2", &attrs(&[("value", name)])).unwrap();
        system.add_edge("Contains", bucket, node).unwrap();
    }
    (system, bucket)
}

#[test]
fn names_of_kinds_and_providers() {
    assert_eq!(Provider::AWS.as_str(), "AWS");
    assert_eq!(Provider::Azure.as_str(), "Azure");
    assert_eq!(Provider::GCP.as_str(), "GCP");
    assert_eq!(NodeKind::Deployment.as_str(), "Deployment");
    assert_eq!(NodeKind::Resource.as_str(), "Resource");
    assert_eq!(NodeKind::Property.as_str(), "Property");
    assert_eq!(NodeKind::Value.as_str(), "Value");
    assert_eq!(NodeKind::Export.as_str(), "Export");
    assert_ne!(NodeError::InvalidNode, NodeError::GuidanceRequired);
}

#[test]
fn identifiers_count_elements() {
    let mut system = System::new().unwrap();
    assert_eq!(system.add_node("Deployment", "AWS", &vec![]).unwrap(), 1);
    assert_eq!(system.add_node("Resource", "AWS", &vec![]).unwrap(), 2);
    assert_eq!(system.add_edge("Contains", 1, 2).unwrap(), -3);
    assert_eq!(system.add_node("Resource", "AWS", &vec![]).unwrap(), 4);
    assert_eq!(system.add_edge("Contains", 1, 4).unwrap(), -5);
}

#[test]
fn edges_need_their_nodes() {
    let mut system = System::new().unwrap();
    system.add_node("Deployment", "AWS", &vec![]).unwrap();
    assert!(!system.add_edge("Contains", 1, 2).unwrap_err().cause.description.is_empty());
    assert!(system.add_edge("Contains", 7, 1).is_err());
    // Nothing was added
    assert_eq!(system.add_node("Resource", "AWS", &vec![]).unwrap(), 2);
}

#[test]
fn nodes_are_read_back() {
    let mut system = System::new().unwrap();
    let id = system
        .add_node("Resource", "AWS", &attrs(&[("logical_id", "B"), ("size", "3"), ("kind", "other")]))
        .unwrap();
    assert_eq!(system.get_attr(id, "kind").unwrap().as_deref(), Some("Resource"));
    assert_eq!(system.get_attr(id, "provider").unwrap().as_deref(), Some("AWS"));
    assert_eq!(system.get_attr(id, "size").unwrap().as_deref(), Some("3"));
    assert_eq!(system.get_logical_id(id).unwrap().as_deref(), Some("B"));
    assert!(system.get_attr(id, "missing").is_err());
    assert!(system.get_attr(9, "kind").is_err());
    let other = system.add_node("Resource", "AWS", &vec![]).unwrap();
    let edge = system.add_edge("References", id, other).unwrap();
    assert_eq!(system.get_attr(edge, "kind").unwrap().as_deref(), Some("References"));
    assert_eq!(system.get_attr(id, "size").unwrap().as_deref(), Some("3"));
}

#[test]
fn the_first_property_with_a_key_counts() {
    let values = attrs(&[("a", "1"), ("b", "2"), ("a", "3")]);
    assert_eq!(find_property(&values, "a").as_deref(), Some("1"));
    assert_eq!(find_property(&values, "b").as_deref(), Some("2"));
    assert_eq!(find_property(&values, "c"), None);
}

#[test]
fn tags_are_found_below_a_resource() {
    let (system, bucket) = deployment(&[("Owner", "me"), ("DataCriticality", "Low")], None);
    assert_eq!(system.get_tag(bucket, "Owner").unwrap().as_deref(), Some("me"));
    assert_eq!(system.get_tag(bucket, "DataCriticality").unwrap().as_deref(), Some("Low"));
    assert_eq!(system.get_tag(bucket, "Other").unwrap(), None);
    // A tag has no tags below it
    assert_eq!(system.get_tag(6, "Owner").unwrap(), None);
    assert!(system.get_tag(99, "Owner").is_err());
}

#[test]
fn evidence_is_found_below_a_resource() {
    let (system, bucket) = deployment(&[], Some("DataResiliance"));
    assert!(system.has_evidence(bucket, "DataResiliance").unwrap());
    assert!(!system.has_evidence(bucket, "Other").unwrap());
    let (system, bucket) = deployment(&[("x", "DataResiliance")], None);
    assert!(!system.has_evidence(bucket, "DataResiliance").unwrap());
}

#[test]
fn nodes_are_found_by_kind_and_property() {
    let (mut system, bucket) = deployment(&[], None);
    let loose = system.add_node("Resource", "AWS", &attrs(&[("wa2_kind", "Store")])).unwrap();
    // Only what the first node leads to is found
    assert_eq!(system.find_nodes("Resource", "wa2_kind", "Store").unwrap(), vec![bucket]);
    system.add_edge("Contains", 1, loose).unwrap();
    let mut found = system.find_nodes("Resource", "wa2_kind", "Store").unwrap();
    found.sort();
    assert_eq!(found, vec![bucket, loose]);
    assert!(system.find_nodes("Property", "wa2_kind", "Store").unwrap().is_empty());
    assert!(System::new().unwrap().find_nodes("Resource", "a", "b").is_err());
}

#[test]
fn what_edges_lead_to_is_found_once() {
    let mut system = System::new().unwrap();
    let ids: Vec<i64> = (0..5)
        .map(|i| {
            let size = i.to_string();
            system.add_node("Resource", "AWS", &attrs(&[("size", size.as_str()), ("all", "yes")])).unwrap()
        })
        .collect();
    // A ring of three with two ways to the fourth; nothing leads to the last
    system.add_edge("Contains", ids[0], ids[1]).unwrap();
    system.add_edge("Contains", ids[1], ids[2]).unwrap();
    system.add_edge("Contains", ids[2], ids[0]).unwrap();
    system.add_edge("Contains", ids[0], ids[3]).unwrap();
    system.add_edge("Contains", ids[2], ids[3]).unwrap();
    system.add_edge("Contains", ids[4], ids[0]).unwrap();
    let mut found = system.find_nodes("Resource", "all", "yes").unwrap();
    found.sort();
    assert_eq!(found, ids[..4].to_vec());
    assert_eq!(system.find_nodes("Resource", "size", "3").unwrap(), vec![ids[3]]);
    assert!(system.find_nodes("Resource", "size", "4").unwrap().is_empty());

    // Evidence is found at any depth, from every node that leads to it
    let evidence = system.add_node("Evidence", "wa2", &attrs(&[("value", "Sealed")])).unwrap();
    assert!(!system.has_evidence(ids[4], "Sealed").unwrap());
    system.add_edge("Contains", ids[3], evidence).unwrap();
    for id in &ids {
        assert!(system.has_evidence(*id, "Sealed").unwrap());
    }
    assert!(system.has_evidence(evidence, "Sealed").unwrap());
    assert!(system.has_evidence(99, "Sealed").is_err());
}

#[test]
fn stores_of_a_system_get_guides() {
    let (system, bucket) = deployment(&[], None);
    let guides = system.guidance().unwrap();
    assert_eq!(guides.len(), 2);
    assert_eq!(guides[0].node, bucket);
    assert_eq!(guides[0].logical_id, "DataBucket");
    assert_eq!(guides[0].focus, FocusTaxonomy::DataSensitivity);
    assert_eq!(guides[0].level, GuideLevel::Required);
    assert_eq!(guides[1].focus, FocusTaxonomy::DataCriticality);

    let tags = [("DataSensitivity", "Public"), ("DataCriticality", "BusinessCritical")];
    let (system, _) = deployment(&tags, None);
    let guides = system.guidance().unwrap();
    assert_eq!(guides.len(), 1);
    assert_eq!(guides[0].tldr, "Backup this resource");
    assert_eq!(guides[0].level, GuideLevel::Action);

    let (system, _) = deployment(&tags, Some("DataResiliance"));
    assert!(system.guidance().unwrap().is_empty());
    let (system, _) = deployment(&[("DataSensitivity", "Public"), ("DataCriticality", "Low")], None);
    assert!(system.guidance().unwrap().is_empty());
}

#[test]
fn guides_need_a_logical_identifier() {
    let mut system = System::new().unwrap();
    let root = system.add_node("Deployment", "AWS", &vec![]).unwrap();
    let store = system.add_node("Resource", "AWS", &attrs(&[("wa2_kind", "Store")])).unwrap();
    system.add_edge("Contains", root, store).unwrap();
    assert!(system.guidance().is_err());
    assert!(System::new().unwrap().guidance().is_err());
}

#[test]
fn annotations_change_nothing() {
    let (mut system, bucket) = deployment(&[], None);
    let before = PrettySystem { system: &system }.to_text().unwrap();
    assert!(system.annotate(bucket, "note").is_ok());
    assert_eq!(PrettySystem { system: &system }.to_text().unwrap(), before);
}

#[test]
fn a_system_as_text() {
    let (system, _) = deployment(&[("Owner", "me")], None);
    let text = PrettySystem { system: &system }.to_text().unwrap();
    assert_eq!(
        text,
        " 0-> 1\\stack = AWS:Deployment(#1): , WA2 -> (none)\n 1-> 2 +DataBucket = AWS:Resource(#2): AWS::S3::Bucket, WA2 -> Store\n 2-> 4  +tags = AWS:Property(#4): , WA2 -> (none)\n 4-> 6   + = AWS:Value(#6): , WA2 -> #Owner=me\n"
    );
    assert!(PrettySystem { system: &System::new().unwrap() }.to_text().is_err());
}

fn node(id: i64, name: &str) -> Found {
    Found { id, from: 0, to: 0, values: attrs(&[("name", name)]) }
}

fn edge(id: i64, from: i64, to: i64) -> Found {
    Found { id, from, to, values: vec![] }
}

#[test]
fn elements_as_text() {
    assert_eq!(graph_text(&vec![]), " 0-> 1");
    let list = vec![node(1, "a"), node(12, "b"), edge(-3, 1, 12), edge(-4, 1, 12), edge(-5, 1, 7)];
    assert_eq!(
        graph_text(&list),
        " 0-> 1\\a = :(#1): , WA2 -> (none)\n 1->12 +b = :(#12): , WA2 -> (none)\n 1->12 +b = :(#12): , WA2 -> (none)\n 1-> 7"
    );
    // A cycle is followed no further than there are elements
    let list = vec![node(1, "a"), edge(-2, 1, 1)];
    assert_eq!(graph_text(&list).matches(" = ").count(), 2);
}

#[test]
fn answers_are_handed_on() {
    assert_eq!(answer(Ok(7)).unwrap(), 7);
    let cause = System::new().unwrap().get_attr(1, "kind").unwrap_err().cause;
    let words = cause.description.clone();
    assert_eq!(answer::<i64>(Err(cause)).unwrap_err().cause.description, words);
}

#[test]
fn what_is_made_of_found_elements() {
    let list = vec![node(4, "a"), node(2, "b")];
    assert_eq!(first_id(&list), Some(4));
    assert_eq!(first_value(&list, "name").as_deref(), Some("a"));
    assert_eq!(first_value(&list, "value"), None);
    assert_eq!(found_ids(&list), vec![4, 2]);
    assert_eq!(first_id(&vec![]), None);
    assert_eq!(first_value(&vec![], "name"), None);
    assert!(found_ids(&vec![]).is_empty());
    let guides = guides_about(3, "B", &vec![FocusTaxonomy::DataResiliance, FocusTaxonomy::DataSensitivity]);
    assert_eq!(guides.len(), 2);
    assert_eq!((guides[0].node, guides[0].logical_id.as_str()), (3, "B"));
    assert_eq!(guides[0].level, GuideLevel::Action);
    assert_eq!(guides[1].tldr, "Tag this resource for DataSensitivity");
}
