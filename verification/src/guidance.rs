//! Guidance on the stores of information in a graph.

use vstd::prelude::*;

use crate::kernel::paths;
use crate::kernel::query_laws;
use crate::kernel::traversal;
use crate::model::search::{self, Axis, Query, StepView};
use crate::model::view::{self, ModelView, ValueView};
use crate::model::{EntityId, Model, Term};
use crate::text;

verus! {

// ---------------------------------------------------------------------------
// Guides
// ---------------------------------------------------------------------------

/// How binding a guide is.
#[derive(Debug, Clone, Copy, PartialEq, Eq, Structural)]
pub enum GuideLevel {
    Required,
    Action,
}

/// What a guide is about.
#[derive(Debug, Clone, Copy, PartialEq, Eq, Structural)]
pub enum FocusTaxonomy {
    DataSensitivity,
    DataCriticality,
    DataResiliance,
}

/// Advice on an entity.
#[derive(Debug)]
pub struct Guide {
    pub entity: EntityId,
    pub logical_id: String,
    pub level: GuideLevel,
    pub focus: FocusTaxonomy,
    pub tldr: String,
    pub message: String,
    pub why: String,
}

/// What a guide says.
pub struct GuideView {
    pub entity: EntityId,
    pub logical_id: Seq<char>,
    pub level: GuideLevel,
    pub focus: FocusTaxonomy,
    pub tldr: Seq<char>,
    pub message: Seq<char>,
    pub why: Seq<char>,
}

impl View for Guide {
    type V = GuideView;

    open spec fn view(&self) -> GuideView {
        GuideView {
            entity: self.entity,
            logical_id: self.logical_id@,
            level: self.level,
            focus: self.focus,
            tldr: self.tldr@,
            message: self.message@,
            why: self.why@,
        }
    }
}

/// What some guides say.
pub open spec fn guide_views(list: Seq<Guide>) -> Seq<GuideView> {
    Seq::new(list.len(), |i: int| list[i]@)
}

/// The wording of a guide: what to do, the rule, and the reason.
pub struct Wording {
    pub tldr: &'static str,
    pub message: &'static str,
    pub why: &'static str,
}

/// How binding a guide on a subject is.
pub open spec fn level_of(focus: FocusTaxonomy) -> GuideLevel {
    match focus {
        FocusTaxonomy::DataResiliance => GuideLevel::Action,
        _ => GuideLevel::Required,
    }
}

/// What a guide on a subject says is to be done.
pub open spec fn tldr_of(focus: FocusTaxonomy) -> Seq<char> {
    match focus {
        FocusTaxonomy::DataSensitivity => "Tag this resource for DataSensitivity"@,
        FocusTaxonomy::DataCriticality => "Tag this resource for DataCriticality"@,
        FocusTaxonomy::DataResiliance => "Backup this resource"@,
    }
}

/// The rule behind a guide on a subject.
pub open spec fn message_of(focus: FocusTaxonomy) -> Seq<char> {
    match focus {
        FocusTaxonomy::DataSensitivity => "All stores of information should have data sensitivity."@,
        FocusTaxonomy::DataCriticality => "All stores of information should have a data criticality."@,
        FocusTaxonomy::DataResiliance => "All critical stores of information should be backed up."@,
    }
}

/// The reason for a guide on a subject.
pub open spec fn why_of(focus: FocusTaxonomy) -> Seq<char> {
    match focus {
        FocusTaxonomy::DataSensitivity => "Tagging store with sensitivity speeds up design decisions, we can apply the same designs for all data of the same class. For example website assets don't need encryption, whilst a healthcare record needs encryption and access restricted."@,
        FocusTaxonomy::DataCriticality => "Tagging store with criticality speeds up design decisions, we can apply the same designs for all data of the same class. For example easily recreated data does not need backing up, whilst employment records need protection against loss."@,
        FocusTaxonomy::DataResiliance => "This data's criticality indicates we don't want to lose it, so we need to apply a mechanism to ensure its backed up. Backup, Snapshots or Replication are common solutions."@,
    }
}

/// The wording of a guide on a subject.
pub fn wording(focus: FocusTaxonomy) -> (r: Wording)
    ensures
        r.tldr@ == tldr_of(focus),
        r.message@ == message_of(focus),
        r.why@ == why_of(focus),
{
    match focus {
        FocusTaxonomy::DataSensitivity => Wording {
            tldr: "Tag this resource for DataSensitivity",
            message: "All stores of information should have data sensitivity.",
            why: "Tagging store with sensitivity speeds up design decisions, we can apply the same designs for all data of the same class. For example website assets don't need encryption, whilst a healthcare record needs encryption and access restricted.",
        },
        FocusTaxonomy::DataCriticality => Wording {
            tldr: "Tag this resource for DataCriticality",
            message: "All stores of information should have a data criticality.",
            why: "Tagging store with criticality speeds up design decisions, we can apply the same designs for all data of the same class. For example easily recreated data does not need backing up, whilst employment records need protection against loss.",
        },
        FocusTaxonomy::DataResiliance => Wording {
            tldr: "Backup this resource",
            message: "All critical stores of information should be backed up.",
            why: "This data's criticality indicates we don't want to lose it, so we need to apply a mechanism to ensure its backed up. Backup, Snapshots or Replication are common solutions.",
        },
    }
}

/// How binding a guide on a subject is.
pub fn level_for(focus: FocusTaxonomy) -> (r: GuideLevel)
    ensures
        r == level_of(focus),
{
    match focus {
        FocusTaxonomy::DataResiliance => GuideLevel::Action,
        _ => GuideLevel::Required,
    }
}

/// Whether data of some criticality is critical.
pub open spec fn is_critical(criticality: Option<Seq<char>>) -> bool {
    criticality == Some("MissionCritical"@) || criticality == Some("BusinessCritical"@)
}

/// Whether data of some criticality is critical.
pub fn critical(criticality: &Option<String>) -> (r: bool)
    ensures
        r == is_critical(criticality.deep_view()),
{
    match criticality {
        Some(c) => text::same_text(c.as_str(), "MissionCritical") || text::same_text(
            c.as_str(),
            "BusinessCritical",
        ),
        None => false,
    }
}

/// Which guides a store needs, in order: one for each tag that it lacks, and one
/// on backup where its data is critical and nothing shows that it is backed up.
pub open spec fn needed(
    has_sensitivity: bool,
    has_criticality: bool,
    criticality: Option<Seq<char>>,
    has_resiliance: bool,
) -> Seq<FocusTaxonomy> {
    let first = if has_sensitivity {
        seq![]
    } else {
        seq![FocusTaxonomy::DataSensitivity]
    };
    let tags = if has_criticality {
        first
    } else {
        first.push(FocusTaxonomy::DataCriticality)
    };
    if is_critical(criticality) && !has_resiliance {
        tags.push(FocusTaxonomy::DataResiliance)
    } else {
        tags
    }
}

/// Which guides a store needs, in order.
pub fn needed_guides(
    has_sensitivity: bool,
    has_criticality: bool,
    criticality: &Option<String>,
    has_resiliance: bool,
) -> (r: Vec<FocusTaxonomy>)
    ensures
        r@ == needed(has_sensitivity, has_criticality, criticality.deep_view(), has_resiliance),
{
    let mut out: Vec<FocusTaxonomy> = Vec::new();
    if !has_sensitivity {
        out.push(FocusTaxonomy::DataSensitivity);
    }
    if !has_criticality {
        out.push(FocusTaxonomy::DataCriticality);
    }
    if critical(criticality) && !has_resiliance {
        out.push(FocusTaxonomy::DataResiliance);
    }
    assert(out@ =~= needed(
        has_sensitivity,
        has_criticality,
        criticality.deep_view(),
        has_resiliance,
    ));
    out
}

// ---------------------------------------------------------------------------
// What the graph says of a resource
// ---------------------------------------------------------------------------

/// The search for the tags of a resource with a key.
pub open spec fn tag_steps(key: Seq<char>) -> Seq<StepView> {
    seq![
        StepView { axis: Axis::Follow, name: Some("aws:Tags"@), filters: seq![] },
        StepView {
            axis: Axis::Child,
            name: None,
            filters: seq![("aws:Key"@, ValueView::Literal(key))],
        },
    ]
}

/// The tags of a resource with a key.
pub open spec fn tags_with(m: ModelView, resource: EntityId, key: Seq<char>) -> Seq<EntityId> {
    search::search_from(m, seq![resource], tag_steps(key))
}

/// Whether a resource has a tag with a key.
pub open spec fn is_tagged(m: ModelView, resource: EntityId, key: Seq<char>) -> bool {
    tags_with(m, resource, key).len() > 0
}

/// The value of the first tag of a resource with a key.
pub open spec fn tag_of(m: ModelView, resource: EntityId, key: Seq<char>) -> Option<Seq<char>> {
    let tags = tags_with(m, resource, key);
    if tags.len() == 0 {
        None
    } else {
        m.literal(tags[0], "aws:Value"@)
    }
}

/// The search for evidence of a kind.
pub open spec fn evidence_steps(name: Seq<char>) -> Seq<StepView> {
    seq![
        StepView {
            axis: Axis::Descendant,
            name: Some("wa2:Evidence"@),
            filters: seq![("wa2:value"@, ValueView::Literal(name))],
        },
    ]
}

/// Whether there is evidence of a kind below a resource.
pub open spec fn is_evident(m: ModelView, resource: EntityId, name: Seq<char>) -> bool {
    search::search_from(m, seq![resource], evidence_steps(name)).len() > 0
}

/// The name under which a store is known.
pub open spec fn store_name(m: ModelView, id: EntityId) -> Seq<char> {
    match m.literal(id, "aws:logicalId"@) {
        Some(s) => s,
        None => m.name_of(id),
    }
}

/// A guide on a subject for a store.
pub open spec fn guide_on(m: ModelView, id: EntityId, focus: FocusTaxonomy) -> GuideView {
    GuideView {
        entity: id,
        logical_id: store_name(m, id),
        level: level_of(focus),
        focus,
        tldr: tldr_of(focus),
        message: message_of(focus),
        why: why_of(focus),
    }
}

/// The guides for a store.
pub open spec fn guides_for(m: ModelView, id: EntityId) -> Seq<GuideView> {
    let list = needed(
        is_tagged(m, id, "DataSensitivity"@),
        is_tagged(m, id, "DataCriticality"@),
        tag_of(m, id, "DataCriticality"@),
        is_evident(m, id, "DataResiliance"@),
    );
    Seq::new(list.len(), |i: int| guide_on(m, id, list[i]))
}

/// The guides for some stores, store by store.
pub open spec fn guides_for_all(m: ModelView, stores: Seq<EntityId>) -> Seq<GuideView>
    decreases stores.len(),
{
    if stores.len() == 0 {
        seq![]
    } else {
        guides_for_all(m, stores.drop_last()) + guides_for(m, stores.last())
    }
}

/// The stores in a graph.
pub open spec fn stores_in(m: ModelView) -> Seq<EntityId> {
    search::search(
        m,
        seq![StepView { axis: Axis::Descendant, name: Some("wa2:Store"@), filters: seq![] }],
    )
}

/// The guides for a graph.
pub open spec fn guides_in(m: ModelView) -> Seq<GuideView> {
    guides_for_all(m, stores_in(m))
}

/// A list of one entity.
fn single(id: EntityId) -> (r: Vec<EntityId>)
    ensures
        r@ == seq![id],
{
    let r: Vec<EntityId> = vec![id];
    assert(r@ =~= seq![id]);
    r
}

/// The tags of a resource with a key.
fn find_tags(model: &Model, resource: EntityId, tag_key: &str) -> (r: Vec<EntityId>)
    ensures
        r@ == tags_with(model@, resource, tag_key@),
{
    let query = Query::follow("aws:Tags").then_step(Axis::Child, None).filter(
        "aws:Key",
        Term::Literal(tag_key.to_owned()),
    );
    assert(query@ =~= tag_steps(tag_key@)) by {
        assert(query@[1].filters =~= tag_steps(tag_key@)[1].filters);
    }
    model.query_from(single(resource), &query)
}

/// Whether a resource has a tag with a key.
fn has_tag(model: &Model, resource: EntityId, tag_key: &str) -> (r: bool)
    ensures
        r == is_tagged(model@, resource, tag_key@),
{
    find_tags(model, resource, tag_key).len() > 0
}

/// The value of the first tag of a resource with a key.
fn get_tag_value(model: &Model, resource: EntityId, tag_key: &str) -> (r: Option<String>)
    ensures
        r.deep_view() == tag_of(model@, resource, tag_key@),
{
    let tags = find_tags(model, resource, tag_key);
    if tags.len() == 0 {
        None
    } else {
        model.get_literal(tags[0], "aws:Value")
    }
}

/// Whether there is evidence of a kind below a resource.
pub fn has_evidence(model: &Model, resource: EntityId, evidence_name: &str) -> (r: bool)
    ensures
        r == is_evident(model@, resource, evidence_name@),
{
    let query = Query::descendant("wa2:Evidence").filter(
        "wa2:value",
        Term::Literal(evidence_name.to_owned()),
    );
    assert(query@ =~= evidence_steps(evidence_name@)) by {
        assert(query@[0].filters =~= evidence_steps(evidence_name@)[0].filters);
    }
    model.query_from(single(resource), &query).len() > 0
}

/// The guides for a graph, store by store.
pub fn guidance(model: &Model) -> (r: Vec<Guide>)
    ensures
        guide_views(r@) == guides_in(model@),
{
    let mut guides: Vec<Guide> = Vec::new();
    assert(guide_views(guides@) =~= seq![]);
    let stores = model.query(&Query::descendant("wa2:Store"));
    for i in 0..stores.len()
        invariant
            guide_views(guides@) == guides_for_all(model@, stores@.take(i as int)),
    {
        let id = stores[i];
        assert(stores@.take(i + 1).drop_last() =~= stores@.take(i as int));
        let ghost before = guide_views(guides@);
        let criticality = get_tag_value(model, id, "DataCriticality");
        let foci = needed_guides(
            has_tag(model, id, "DataSensitivity"),
            has_tag(model, id, "DataCriticality"),
            &criticality,
            has_evidence(model, id, "DataResiliance"),
        );
        let ghost all = guides_for(model@, id);
        for k in 0..foci.len()
            invariant
                all == guides_for(model@, id),
                foci@ == needed(
                    is_tagged(model@, id, "DataSensitivity"@),
                    is_tagged(model@, id, "DataCriticality"@),
                    tag_of(model@, id, "DataCriticality"@),
                    is_evident(model@, id, "DataResiliance"@),
                ),
                guide_views(guides@) == before + all.take(k as int),
        {
            let ghost middle = guide_views(guides@);
            let focus = foci[k];
            let logical_id = match model.get_literal(id, "aws:logicalId") {
                Some(s) => s,
                None => model.qualified_name(id),
            };
            let Wording { tldr, message, why } = wording(focus);
            let guide = Guide {
                entity: id,
                logical_id,
                level: level_for(focus),
                focus,
                tldr: tldr.to_owned(),
                message: message.to_owned(),
                why: why.to_owned(),
            };
            assert(guide@ == all[k as int]);
            guides.push(guide);
            assert(guide_views(guides@) =~= middle.push(all[k as int]));
            assert(before + all.take(k + 1) =~= middle.push(all[k as int]));
        }
        assert(all.take(all.len() as int) =~= all);
    }
    assert(stores@.take(stores@.len() as int) =~= stores@);
    guides
}

// ---------------------------------------------------------------------------
// Laws
// ---------------------------------------------------------------------------

/// A store with both tags whose data is not critical, or is shown to be backed
/// up, needs no guidance; any other store does.
pub proof fn lemma_guidance_is_needed(m: ModelView, id: EntityId)
    ensures
        guides_for(m, id).len() == 0 <==> ({
            &&& is_tagged(m, id, "DataSensitivity"@)
            &&& is_tagged(m, id, "DataCriticality"@)
            &&& is_critical(tag_of(m, id, "DataCriticality"@)) ==> is_evident(m, id, "DataResiliance"@)
        }),
{
}

/// No store is told twice about the same subject.
pub proof fn lemma_guides_differ(
    has_sensitivity: bool,
    has_criticality: bool,
    criticality: Option<Seq<char>>,
    has_resiliance: bool,
)
    ensures
        needed(
            has_sensitivity,
            has_criticality,
            criticality,
            has_resiliance,
        ).no_duplicates(),
{
}

/// Every guide is about a store of the graph.
pub proof fn lemma_guides_are_about_stores(m: ModelView, stores: Seq<EntityId>, i: int)
    requires
        0 <= i < guides_for_all(m, stores).len(),
    ensures
        stores.contains(guides_for_all(m, stores)[i].entity),
    decreases stores.len(),
{
    if stores.len() > 0 {
        let rest = stores.drop_last();
        let before = guides_for_all(m, rest);
        if i < before.len() {
            lemma_guides_are_about_stores(m, rest, i);
            let id = before[i].entity;
            let k = choose|k: int| 0 <= k < rest.len() && rest[k] == id;
            assert(stores[k] == id);
        } else {
            assert(guides_for_all(m, stores)[i].entity == stores[stores.len() - 1]);
        }
    }
}

/// Whether an entity is a tag of a resource with a key: it is in a list of tags of
/// the resource, and has the key.
pub open spec fn is_tag(m: ModelView, resource: EntityId, key: Seq<char>, tag: EntityId) -> bool {
    &&& query_laws::has_named_text(m, tag, "aws:Key"@, key)
    &&& exists|list: EntityId| #[trigger]
        query_laws::is_linked(m, resource, "aws:Tags"@, list) && query_laws::contains_node(
            m,
            list,
            tag,
        )
}

/// The tags of a resource with a key are found, and nothing else is.
pub proof fn lemma_tags(m: ModelView, resource: EntityId, key: Seq<char>, tag: EntityId)
    ensures
        tags_with(m, resource, key).contains(tag) <==> is_tag(m, resource, key, tag),
{
    let start = seq![resource];
    let steps = tag_steps(key);
    let first = steps[0];
    let second = steps[1];
    assert(steps =~= seq![first] + seq![second]);
    search::lemma_search_composes(m, start, seq![first], seq![second]);
    let lists = search::search_step(m, start, first);
    search::lemma_search_composes(m, lists, seq![second], seq![]);
    assert(search::search_from(m, start, seq![first]) == lists);
    assert(search::search_from(m, lists, seq![second]) == search::search_step(m, lists, second));
    search::lemma_search_step(m, lists, second, tag);
    search::lemma_meets_each(m, second.filters, tag);
    assert(search::meets(m, second.filters, tag) <==> query_laws::has_named_text(
        m,
        tag,
        "aws:Key"@,
        key,
    )) by {
        if search::meets(m, second.filters, tag) {
            assert(search::has_value(m, tag, second.filters[0].0, second.filters[0].1));
        }
    }
    assert forall|list: EntityId| #[trigger] lists.contains(list) <==> query_laws::is_linked(
        m,
        resource,
        "aws:Tags"@,
        list,
    ) by {
        search::lemma_search_step(m, start, first, list);
        search::lemma_meets_each(m, first.filters, list);
        search::lemma_leads_to(m, first, resource, list);
        assert(start[0] == resource && start.contains(resource));
    }
    if exists|n: EntityId|
        lists.contains(n) && #[trigger] search::leads_to(m, second, n).contains(tag) {
        let n = choose|n: EntityId|
            lists.contains(n) && #[trigger] search::leads_to(m, second, n).contains(tag);
        search::lemma_leads_to(m, second, n, tag);
        assert(query_laws::is_linked(m, resource, "aws:Tags"@, n) && query_laws::contains_node(
            m,
            n,
            tag,
        ));
    }
    if exists|list: EntityId| #[trigger]
        query_laws::is_linked(m, resource, "aws:Tags"@, list) && query_laws::contains_node(
            m,
            list,
            tag,
        ) {
        let list = choose|list: EntityId| #[trigger]
            query_laws::is_linked(m, resource, "aws:Tags"@, list) && query_laws::contains_node(
                m,
                list,
                tag,
            );
        search::lemma_leads_to(m, second, list, tag);
        assert(lists.contains(list) && search::leads_to(m, second, list).contains(tag));
    }
}

/// A resource is tagged with a key exactly where some entity is a tag of it with
/// that key; the value of the tag is that of its tags with the key where they
/// agree, and there is none where there is no such tag.
pub proof fn lemma_tag_value(
    m: ModelView,
    resource: EntityId,
    key: Seq<char>,
    value: Option<Seq<char>>,
)
    ensures
        is_tagged(m, resource, key) <==> exists|tag: EntityId| #[trigger]
            is_tag(m, resource, key, tag),
        !is_tagged(m, resource, key) ==> tag_of(m, resource, key) is None,
        is_tagged(m, resource, key) && (forall|tag: EntityId| #[trigger]
            is_tag(m, resource, key, tag) ==> m.literal(tag, "aws:Value"@) == value) ==> tag_of(
            m,
            resource,
            key,
        ) == value,
        tag_of(m, resource, key) is Some ==> exists|tag: EntityId| #[trigger]
            is_tag(m, resource, key, tag) && m.literal(tag, "aws:Value"@) == tag_of(
                m,
                resource,
                key,
            ),
{
    let tags = tags_with(m, resource, key);
    if tags.len() > 0 {
        assert(tags.contains(tags[0]));
        lemma_tags(m, resource, key, tags[0]);
        assert(is_tag(m, resource, key, tags[0]));
    }
    if exists|tag: EntityId| #[trigger] is_tag(m, resource, key, tag) {
        let tag = choose|tag: EntityId| #[trigger] is_tag(m, resource, key, tag);
        lemma_tags(m, resource, key, tag);
    }
}

/// There is evidence of a kind exactly where an entity below the resource, at any
/// depth, is evidence with that value.
pub proof fn lemma_evidence(m: ModelView, resource: EntityId, name: Seq<char>)
    ensures
        is_evident(m, resource, name) <==> exists|e: EntityId|
            traversal::is_below(m, resource, e) && query_laws::is_of_type(m, e, "wa2:Evidence"@)
                && #[trigger] query_laws::has_named_text(m, e, "wa2:value"@, name),
{
    let start = seq![resource];
    let steps = evidence_steps(name);
    let step = steps[0];
    assert(steps =~= seq![step]);
    search::lemma_search_composes(m, start, seq![step], seq![]);
    let found = search::search_step(m, start, step);
    assert(search::search_from(m, start, steps) == found);
    assert(start[0] == resource && start.contains(resource));
    assert forall|e: EntityId| #[trigger] found.contains(e) <==> traversal::is_below(m, resource, e)
        && query_laws::is_of_type(m, e, "wa2:Evidence"@) && query_laws::has_named_text(
        m,
        e,
        "wa2:value"@,
        name,
    ) by {
        search::lemma_search_step(m, start, step, e);
        search::lemma_meets_each(m, step.filters, e);
        search::lemma_leads_to(m, step, resource, e);
        if search::meets(m, step.filters, e) {
            assert(search::has_value(m, e, step.filters[0].0, step.filters[0].1));
        }
        if query_laws::has_named_text(m, e, "wa2:value"@, name) {
            assert(search::meets(m, step.filters, e));
        }
    }
    if found.len() > 0 {
        assert(found.contains(found[0]));
        assert(query_laws::has_named_text(m, found[0], "wa2:value"@, name));
    }
    if exists|e: EntityId|
        traversal::is_below(m, resource, e) && query_laws::is_of_type(m, e, "wa2:Evidence"@)
            && #[trigger] query_laws::has_named_text(m, e, "wa2:value"@, name) {
        let e = choose|e: EntityId|
            traversal::is_below(m, resource, e) && query_laws::is_of_type(m, e, "wa2:Evidence"@)
                && #[trigger] query_laws::has_named_text(m, e, "wa2:value"@, name);
        assert(found.contains(e));
    }
}

/// Whether an entity of a graph is a store.
pub open spec fn is_store(m: ModelView, id: EntityId) -> bool {
    id.0 < m.names.len() && query_laws::is_of_type(m, id, "wa2:Store"@)
}

/// Whether a store needs a guide on a subject: it lacks the tag; or its data is
/// critical and nothing shows that it is backed up.
pub open spec fn needs(m: ModelView, id: EntityId, focus: FocusTaxonomy) -> bool {
    match focus {
        FocusTaxonomy::DataSensitivity => !is_tagged(m, id, "DataSensitivity"@),
        FocusTaxonomy::DataCriticality => !is_tagged(m, id, "DataCriticality"@),
        FocusTaxonomy::DataResiliance => (tag_of(m, id, "DataCriticality"@) == Some(
            "MissionCritical"@,
        ) || tag_of(m, id, "DataCriticality"@) == Some("BusinessCritical"@)) && !is_evident(
            m,
            id,
            "DataResiliance"@,
        ),
    }
}

/// The order of the subjects.
pub open spec fn rank(focus: FocusTaxonomy) -> int {
    match focus {
        FocusTaxonomy::DataSensitivity => 0,
        FocusTaxonomy::DataCriticality => 1,
        FocusTaxonomy::DataResiliance => 2,
    }
}

/// Whether a guide comes before another one: by store, then by subject.
pub open spec fn comes_before(a: GuideView, b: GuideView) -> bool {
    a.entity.0 < b.entity.0 || (a.entity == b.entity && rank(a.focus) < rank(b.focus))
}

/// Whether a list has a guide for an entity on a subject.
pub open spec fn has_guide(list: Seq<GuideView>, id: EntityId, focus: FocusTaxonomy) -> bool {
    exists|i: int| 0 <= i < list.len() && (#[trigger] list[i]).entity == id && list[i].focus == focus
}

proof fn lemma_guides_for(m: ModelView, id: EntityId)
    ensures
        ({
            let list = guides_for(m, id);
            &&& forall|focus: FocusTaxonomy| #[trigger]
                has_guide(list, id, focus) <==> needs(m, id, focus)
            &&& forall|i: int|
                0 <= i < list.len() ==> (#[trigger] list[i]) == guide_on(m, id, list[i].focus)
            &&& forall|i: int, j: int|
                0 <= i < j < list.len() ==> rank((#[trigger] list[i]).focus) < rank(
                    (#[trigger] list[j]).focus,
                )
        }),
{
    let list = guides_for(m, id);
    let a = needs(m, id, FocusTaxonomy::DataSensitivity);
    let b = needs(m, id, FocusTaxonomy::DataCriticality);
    let c = needs(m, id, FocusTaxonomy::DataResiliance);
    let foci = needed(
        is_tagged(m, id, "DataSensitivity"@),
        is_tagged(m, id, "DataCriticality"@),
        tag_of(m, id, "DataCriticality"@),
        is_evident(m, id, "DataResiliance"@),
    );
    assert(foci.len() == list.len());
    assert(forall|i: int| 0 <= i < list.len() ==> (#[trigger] list[i]).focus == foci[i]);
    assert forall|focus: FocusTaxonomy| #[trigger] has_guide(list, id, focus) <==> needs(
        m,
        id,
        focus,
    ) by {
        let at: int = match focus {
            FocusTaxonomy::DataSensitivity => 0,
            FocusTaxonomy::DataCriticality => if a {
                1
            } else {
                0
            },
            FocusTaxonomy::DataResiliance => foci.len() - 1,
        };
        if needs(m, id, focus) {
            assert(foci[at] == focus);
            assert(list[at].entity == id && list[at].focus == focus);
        }
    }
}

proof fn lemma_guides_for_all(m: ModelView, stores: Seq<EntityId>)
    requires
        forall|i: int, j: int|
            0 <= i < j < stores.len() ==> (#[trigger] stores[i]).0 < (#[trigger] stores[j]).0,
    ensures
        ({
            let list = guides_for_all(m, stores);
            &&& forall|id: EntityId, focus: FocusTaxonomy| #[trigger]
                has_guide(list, id, focus) <==> stores.contains(id) && needs(m, id, focus)
            &&& forall|i: int|
                0 <= i < list.len() ==> stores.contains((#[trigger] list[i]).entity) && list[i]
                    == guide_on(m, list[i].entity, list[i].focus)
            &&& forall|i: int, j: int|
                0 <= i < j < list.len() ==> comes_before(#[trigger] list[i], #[trigger] list[j])
        }),
    decreases stores.len(),
{
    if stores.len() > 0 {
        let rest = stores.drop_last();
        let last = stores.last();
        assert forall|i: int, j: int| 0 <= i < j < rest.len() implies (#[trigger] rest[i]).0 < (
        #[trigger] rest[j]).0 by {
            assert(rest[i] == stores[i] && rest[j] == stores[j]);
        }
        lemma_guides_for_all(m, rest);
        lemma_guides_for(m, last);
        let before = guides_for_all(m, rest);
        let more = guides_for(m, last);
        let list = guides_for_all(m, stores);
        assert(list =~= before + more);
        assert(forall|i: int| 0 <= i < before.len() ==> #[trigger] list[i] == before[i]);
        assert(forall|i: int|
            before.len() <= i < list.len() ==> #[trigger] list[i] == more[i - before.len()]);
        assert forall|x: EntityId| stores.contains(x) <==> rest.contains(x) || x == last by {
            if stores.contains(x) {
                let k = choose|k: int| 0 <= k < stores.len() && stores[k] == x;
                if k < rest.len() {
                    assert(rest[k] == x);
                }
            }
            if rest.contains(x) {
                let k = choose|k: int| 0 <= k < rest.len() && rest[k] == x;
                assert(stores[k] == x);
            }
            assert(stores[stores.len() - 1] == last);
        }
        assert forall|x: EntityId| rest.contains(x) implies x.0 < last.0 by {
            let k = choose|k: int| 0 <= k < rest.len() && rest[k] == x;
            assert(stores[k].0 < stores[stores.len() - 1].0);
        }
        assert forall|i: int, j: int| 0 <= i < j < list.len() implies comes_before(
            #[trigger] list[i],
            #[trigger] list[j],
        ) by {
            if j < before.len() {
                assert(comes_before(before[i], before[j]));
            } else if i < before.len() {
                assert(rest.contains(before[i].entity));
                assert(more[j - before.len()].entity == last);
            } else {
                assert(rank(more[i - before.len()].focus) < rank(more[j - before.len()].focus));
                assert(more[i - before.len()].entity == last);
                assert(more[j - before.len()].entity == last);
            }
        }
        assert forall|id: EntityId, focus: FocusTaxonomy| #[trigger]
            has_guide(list, id, focus) <==> stores.contains(id) && needs(m, id, focus) by {
            if has_guide(list, id, focus) {
                let i = choose|i: int|
                    0 <= i < list.len() && (#[trigger] list[i]).entity == id && list[i].focus
                        == focus;
                if i < before.len() {
                    assert(before[i].entity == id);
                    assert(has_guide(before, id, focus));
                } else {
                    assert(more[i - before.len()].entity == id);
                    assert(has_guide(more, id, focus));
                    assert(id == last);
                }
            }
            if stores.contains(id) && needs(m, id, focus) {
                if id == last {
                    assert(has_guide(more, id, focus));
                    let k = choose|k: int|
                        0 <= k < more.len() && (#[trigger] more[k]).entity == id && more[k].focus
                            == focus;
                    assert(list[before.len() + k].entity == id);
                } else {
                    assert(has_guide(before, id, focus));
                    let k = choose|k: int|
                        0 <= k < before.len() && (#[trigger] before[k]).entity == id
                            && before[k].focus == focus;
                    assert(list[k].entity == id);
                }
            }
        }
    }
}

/// For every store of the graph and every subject that it needs a guide on, and
/// for nothing else, there is a guide; there is only one, as the guides come store
/// by store and subject by subject.
pub proof fn lemma_every_store_is_guided(m: ModelView)
    requires
        m.ids_fit(),
    ensures
        forall|id: EntityId, focus: FocusTaxonomy| #[trigger]
            has_guide(guides_in(m), id, focus) <==> is_store(m, id) && needs(m, id, focus),
        forall|i: int, j: int|
            0 <= i < j < guides_in(m).len() ==> comes_before(
                #[trigger] guides_in(m)[i],
                #[trigger] guides_in(m)[j],
            ),
        forall|i: int|
            0 <= i < guides_in(m).len() ==> {
                let guide = #[trigger] guides_in(m)[i];
                guide == guide_on(m, guide.entity, guide.focus)
            },
{
    let step = StepView { axis: Axis::Descendant, name: Some("wa2:Store"@), filters: seq![] };
    let stores = stores_in(m);
    assert forall|id: EntityId| #[trigger] stores.contains(id) <==> is_store(m, id) by {
        search::lemma_search_in_order(m, step, id);
        search::lemma_meets_each(m, step.filters, id);
    }
    search::lemma_search_in_order(m, step, EntityId(0));
    lemma_guides_for_all(m, stores);
}

/// The guides for stores in two parts are those for the first part and then those
/// for the second: their number is the sum over all stores.
pub proof fn lemma_guides_join(m: ModelView, a: Seq<EntityId>, b: Seq<EntityId>)
    ensures
        guides_for_all(m, a + b) == guides_for_all(m, a) + guides_for_all(m, b),
        forall|id: EntityId| guides_for_all(m, #[trigger] seq![id]) == guides_for(m, id),
    decreases b.len(),
{
    assert forall|id: EntityId| guides_for_all(m, #[trigger] seq![id]) == guides_for(m, id) by {
        let one = seq![id];
        assert(one.drop_last() =~= seq![]);
        assert(guides_for_all(m, one.drop_last()) =~= seq![]);
        assert(guides_for_all(m, one) =~= guides_for(m, id));
    }
    if b.len() == 0 {
        assert(a + b =~= a);
        assert(guides_for_all(m, b) =~= seq![]);
        assert(guides_for_all(m, a) + guides_for_all(m, b) =~= guides_for_all(m, a));
    } else {
        lemma_guides_join(m, a, b.drop_last());
        assert((a + b).drop_last() =~= a + b.drop_last());
        assert((a + b).last() == b.last());
        assert(guides_for_all(m, a + b) =~= guides_for_all(m, a) + guides_for_all(m, b));
    }
}

/// A guide tells the store by its logical identifier, or else by its name; asks for
/// a tag as required and for a backup as an action; and names in what is to be done
/// the tag that is missing.
pub proof fn lemma_guide_words(m: ModelView, id: EntityId, focus: FocusTaxonomy)
    ensures
        ({
            let guide = guide_on(m, id, focus);
            &&& guide.entity == id && guide.focus == focus
            &&& m.literal(id, "aws:logicalId"@) is Some ==> Some(guide.logical_id) == m.literal(
                id,
                "aws:logicalId"@,
            )
            &&& m.literal(id, "aws:logicalId"@) is None ==> guide.logical_id == m.name_of(id)
            &&& guide.level is Action <==> focus is DataResiliance
            &&& focus is DataSensitivity ==> guide.tldr == "Tag this resource for "@
                + "DataSensitivity"@
            &&& focus is DataCriticality ==> guide.tldr == "Tag this resource for "@
                + "DataCriticality"@
            &&& focus is DataResiliance ==> guide.tldr == "Backup this resource"@
        }),
{
    reveal_strlit("Tag this resource for DataSensitivity");
    reveal_strlit("Tag this resource for DataCriticality");
    reveal_strlit("Tag this resource for ");
    reveal_strlit("DataSensitivity");
    reveal_strlit("DataCriticality");
    assert("Tag this resource for DataSensitivity"@ =~= "Tag this resource for "@
        + "DataSensitivity"@);
    assert("Tag this resource for DataCriticality"@ =~= "Tag this resource for "@
        + "DataCriticality"@);
}

/// Of several tags with a key in the only list of tags of a resource, the first one
/// counts, in the order in which the list contains them.
#[verifier::rlimit(50)]
pub proof fn lemma_first_tag_counts(
    m: ModelView,
    resource: EntityId,
    key: Seq<char>,
    list: EntityId,
    i: int,
)
    requires
        view::entities_of(m.named_objects(resource, "aws:Tags"@)) == seq![list],
        0 <= i < m.children(list).len(),
        query_laws::has_named_text(m, m.children(list)[i], "aws:Key"@, key),
        forall|j: int|
            0 <= j < i ==> !query_laws::has_named_text(
                m,
                #[trigger] m.children(list)[j],
                "aws:Key"@,
                key,
            ),
    ensures
        tag_of(m, resource, key) == m.literal(m.children(list)[i], "aws:Value"@),
{
    let steps = tag_steps(key);
    let start = seq![resource];
    let lead = |n: EntityId| search::leads_to(m, steps[0], n);
    let any = |id: EntityId| search::meets(m, steps[0].filters, id);
    assert(paths::gathered(start, lead) =~= seq![list]) by {
        assert(start.drop_last() =~= seq![]);
        assert(paths::gathered(start.drop_last(), lead) =~= seq![]);
    }
    let first = search::search_step(m, start, steps[0]);
    assert(first =~= seq![list]) by {
        let one = seq![list];
        assert(one.drop_last() =~= seq![]);
        assert(paths::distinct(one.drop_last(), any) =~= seq![]);
        search::lemma_meets_each(m, steps[0].filters, list);
        assert(any(list));
        assert(paths::distinct(one, any) =~= one);
    }
    let below = |n: EntityId| search::leads_to(m, steps[1], n);
    let wanted = |id: EntityId| search::is_wanted(m, steps[1].name, id);
    let test = |id: EntityId| search::meets(m, steps[1].filters, id);
    let children = m.children(list);
    assert(search::leads_to(m, steps[1], list) == children) by {
        lemma_all_pass(children, wanted);
    }
    assert(paths::gathered(seq![list], below) =~= children) by {
        let one = seq![list];
        assert(one.drop_last() =~= seq![]);
        assert(paths::gathered(one.drop_last(), below) =~= seq![]);
    }
    assert forall|j: int| 0 <= j < children.len() implies (test(#[trigger] children[j])
        <==> query_laws::has_named_text(m, children[j], "aws:Key"@, key)) by {
        search::lemma_meets_each(m, steps[1].filters, children[j]);
        assert(steps[1].filters[0] == ("aws:Key"@, ValueView::Literal(key)));
    }
    assert forall|j: int| 0 <= j < i implies !test(#[trigger] children[j]) by {
        assert(!query_laws::has_named_text(m, children[j], "aws:Key"@, key));
    }
    lemma_first_distinct(children, test, i);
    let found = search::search_step(m, first, steps[1]);
    assert(found == paths::distinct(paths::gathered(seq![list], below), test));
    assert(steps.drop_last().drop_last() =~= seq![]);
    assert(steps.drop_last().last() == steps[0]);
    reveal_with_fuel(search::search_from, 3);
    assert(tags_with(m, resource, key) =~= found);
}

proof fn lemma_all_pass(list: Seq<EntityId>, test: spec_fn(EntityId) -> bool)
    requires
        forall|x: EntityId| #[trigger] test(x),
    ensures
        paths::passing(list, test) == list,
    decreases list.len(),
{
    if list.len() > 0 {
        lemma_all_pass(list.drop_last(), test);
        assert(test(list.last()));
        assert(list.drop_last().push(list.last()) =~= list);
    }
}

proof fn lemma_first_distinct(list: Seq<EntityId>, test: spec_fn(EntityId) -> bool, i: int)
    requires
        0 <= i < list.len(),
        test(list[i]),
        forall|j: int| 0 <= j < i ==> !test(#[trigger] list[j]),
    ensures
        paths::distinct(list, test).len() > 0,
        paths::distinct(list, test)[0] == list[i],
{
    let before = list.take(i);
    let upto = list.take(i + 1);
    assert forall|j: int| 0 <= j < before.len() implies !test(#[trigger] before[j]) by {
        assert(before[j] == list[j]);
    }
    lemma_none_distinct(before, test);
    assert(upto.drop_last() =~= before);
    assert(upto.last() == list[i]);
    let one = paths::distinct(upto, test);
    assert(one =~= seq![list[i]]);
    assert(list =~= upto + list.skip(i + 1));
    query_laws::lemma_distinct_prefix(upto, list.skip(i + 1), test);
    assert(paths::distinct(list, test)[0] == one[0]);
}

proof fn lemma_none_distinct(list: Seq<EntityId>, test: spec_fn(EntityId) -> bool)
    requires
        forall|j: int| 0 <= j < list.len() ==> !test(#[trigger] list[j]),
    ensures
        paths::distinct(list, test).len() == 0,
    decreases list.len(),
{
    if list.len() > 0 {
        let rest = list.drop_last();
        assert forall|j: int| 0 <= j < rest.len() implies !test(#[trigger] rest[j]) by {
            assert(rest[j] == list[j]);
        }
        lemma_none_distinct(rest, test);
        assert(!test(list[list.len() - 1]));
    }
}

/// The rule and the reason in a guide speak of what it asks for: sensitivity,
/// criticality, or backing up.
pub proof fn lemma_guide_reasons(m: ModelView, id: EntityId)
    ensures
        text::has_part(guide_on(m, id, FocusTaxonomy::DataSensitivity).message, "sensitivity"@),
        text::has_prefix(
            guide_on(m, id, FocusTaxonomy::DataSensitivity).why,
            "Tagging store with sensitivity"@,
        ),
        text::has_part(guide_on(m, id, FocusTaxonomy::DataCriticality).message, "criticality"@),
        text::has_prefix(
            guide_on(m, id, FocusTaxonomy::DataCriticality).why,
            "Tagging store with criticality"@,
        ),
        text::has_part(guide_on(m, id, FocusTaxonomy::DataResiliance).message, "backed up"@),
        text::has_prefix(
            guide_on(m, id, FocusTaxonomy::DataResiliance).why,
            "This data's criticality indicates we don't want to lose it"@,
        ),
{
    let first = guide_on(m, id, FocusTaxonomy::DataSensitivity);
    let second = guide_on(m, id, FocusTaxonomy::DataCriticality);
    let third = guide_on(m, id, FocusTaxonomy::DataResiliance);
    assert(text::has_part(first.message, "sensitivity"@)) by {
        reveal_strlit("All stores of information should have data sensitivity.");
        reveal_strlit("sensitivity");
        assert(first.message.subrange(43, 54) =~= "sensitivity"@);
        assert(text::occurs_at(first.message, "sensitivity"@, 43));
    }
    assert(text::has_part(second.message, "criticality"@)) by {
        reveal_strlit("All stores of information should have a data criticality.");
        reveal_strlit("criticality");
        assert(second.message.subrange(45, 56) =~= "criticality"@);
        assert(text::occurs_at(second.message, "criticality"@, 45));
    }
    assert(text::has_part(third.message, "backed up"@)) by {
        reveal_strlit("All critical stores of information should be backed up.");
        reveal_strlit("backed up");
        assert(third.message.subrange(45, 54) =~= "backed up"@);
        assert(text::occurs_at(third.message, "backed up"@, 45));
    }
    assert(text::has_prefix(first.why, "Tagging store with sensitivity"@)) by {
        reveal_strlit("Tagging store with sensitivity speeds up design decisions, we can apply the same designs for all data of the same class. For example website assets don't need encryption, whilst a healthcare record needs encryption and access restricted.");
        reveal_strlit("Tagging store with sensitivity");
        assert(first.why.subrange(0, 30) =~= "Tagging store with sensitivity"@);
    }
    assert(text::has_prefix(second.why, "Tagging store with criticality"@)) by {
        reveal_strlit("Tagging store with criticality speeds up design decisions, we can apply the same designs for all data of the same class. For example easily recreated data does not need backing up, whilst employment records need protection against loss.");
        reveal_strlit("Tagging store with criticality");
        assert(second.why.subrange(0, 30) =~= "Tagging store with criticality"@);
    }
    assert(text::has_prefix(
        third.why,
        "This data's criticality indicates we don't want to lose it"@,
    )) by {
        reveal_strlit("This data's criticality indicates we don't want to lose it, so we need to apply a mechanism to ensure its backed up. Backup, Snapshots or Replication are common solutions.");
        reveal_strlit("This data's criticality indicates we don't want to lose it");
        assert(third.why.subrange(0, 58)
            =~= "This data's criticality indicates we don't want to lose it"@);
    }
}

} // verus!
