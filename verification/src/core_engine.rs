//! The state of open documents, and what an editor asks about them.

use vstd::prelude::*;

use crate::diagnostics::{
    self, copy_diagnostics, get_text, insert_text, new_object, object_value, value_object, Diagnostic,
    DiagnosticSeverity, DiagnosticView, Location,
};
use crate::documents::{self, DocumentFormat};
use crate::guidance::{self, guidance, Guide, GuideLevel, GuideView};
use crate::kernel::query_laws;
use crate::model::laws as graph;
use crate::model::view::{self, ModelView};
use crate::model::{self, position_in_range, EntityId, Model, Position, Range};
use crate::names::NameMap;
use crate::text;

verus! {

// ---------------------------------------------------------------------------
// What is known of documents
// ---------------------------------------------------------------------------

/// What is known of an open document.
#[derive(Debug)]
struct DocumentState {
    text: String,
    format: DocumentFormat,
    cached_diagnostics: Vec<Diagnostic>,
    cached_model: Option<Model>,
}

/// What is known of an open document.
pub struct DocumentView {
    pub text: Seq<char>,
    pub format: DocumentFormat,
    pub diagnostics: Seq<DiagnosticView>,
    pub model: Option<ModelView>,
}

impl View for DocumentState {
    type V = DocumentView;

    closed spec fn view(&self) -> DocumentView {
        DocumentView {
            text: self.text@,
            format: self.format,
            diagnostics: diagnostics::diagnostic_views(self.cached_diagnostics@),
            model: match self.cached_model {
                Some(m) => Some(m@),
                None => None,
            },
        }
    }
}

/// A document of which only its text and notation are known.
pub open spec fn fresh_document(text: Seq<char>, format: DocumentFormat) -> DocumentView {
    DocumentView { text, format, diagnostics: seq![], model: None }
}

/// The documents that are open, by address.
pub type Documents = Map<Seq<char>, DocumentView>;

/// The documents after one was opened.
pub open spec fn opened(
    docs: Documents,
    uri: Seq<char>,
    text: Seq<char>,
    language_id: Seq<char>,
) -> Documents {
    docs.insert(
        uri,
        fresh_document(text, documents::format_of(Some(language_id), documents::path_of(uri))),
    )
}

/// The documents after one was changed. A document keeps its notation.
pub open spec fn changed(docs: Documents, uri: Seq<char>, text: Seq<char>) -> Documents {
    docs.insert(
        uri,
        fresh_document(
            text,
            if docs.contains_key(uri) {
                docs[uri].format
            } else {
                documents::format_of(None, documents::path_of(uri))
            },
        ),
    )
}

/// The documents with other diagnostics for one of them.
pub open spec fn with_diagnostics(docs: Documents, uri: Seq<char>, list: Seq<DiagnosticView>) -> Documents {
    if docs.contains_key(uri) {
        docs.insert(uri, DocumentView { diagnostics: list, ..docs[uri] })
    } else {
        docs
    }
}

/// The documents after one was brought into a graph: the graph is remembered, and
/// so is what the guides for it report.
pub open spec fn looked_through(docs: Documents, uri: Seq<char>, m: ModelView) -> Documents {
    if docs.contains_key(uri) {
        docs.insert(
            uri,
            DocumentView {
                diagnostics: guide_diagnostics(m, guidance::guides_in(m)),
                model: Some(m),
                ..docs[uri]
            },
        )
    } else {
        docs
    }
}

/// The graph of a document: the one that is remembered, else one that is given.
pub open spec fn graph_of(
    docs: Documents,
    uri: Seq<char>,
    given: Option<ModelView>,
) -> Option<ModelView> {
    if !docs.contains_key(uri) {
        None
    } else if docs[uri].model is Some {
        docs[uri].model
    } else {
        given
    }
}

/// What is shown at a position of a document.
pub open spec fn hover_in(
    docs: Documents,
    uri: Seq<char>,
    line: u32,
    character: u32,
) -> Option<Seq<char>> {
    if docs.contains_key(uri) {
        hover_at(docs[uri].diagnostics, line, character)
    } else {
        None
    }
}

// ---------------------------------------------------------------------------
// Templates
// ---------------------------------------------------------------------------

/// A CloudFormation template, as far as it matters here.
#[derive(Debug)]
pub struct CfnTemplate {
    /// The logical identifiers of its resources.
    pub resources: Vec<String>,
}

/// What is reported of a template without resources.
pub open spec fn missing_resources() -> DiagnosticView {
    DiagnosticView {
        range: Range {
            start: Position { line: 0, character: 0 },
            end: Position { line: 0, character: 1 },
        },
        severity: Some(DiagnosticSeverity::Warning),
        code: Some("WA2_CFN_RESOURCES_MISSING"@),
        source: Some("wa2-lsp"@),
        message: "Template has no top-level `Resources` section; most CloudFormation templates define at least one resource."@,
        data: None,
    }
}

/// What is reported of a template: that it has no resources, and, where there is
/// a specification, what does not agree with that. Nothing is reported of a text
/// that does not look like a template.
pub open spec fn template_report(
    text: Seq<char>,
    resources: nat,
    has_spec: bool,
    disagreements: Seq<DiagnosticView>,
) -> Seq<DiagnosticView> {
    if resources == 0 && !text::has_part(text, "AWSTemplateFormatVersion"@) {
        seq![]
    } else {
        (if resources == 0 {
            seq![missing_resources()]
        } else {
            seq![]
        }) + (if has_spec {
            disagreements
        } else {
            seq![]
        })
    }
}

// ---------------------------------------------------------------------------
// Guides as diagnostics
// ---------------------------------------------------------------------------

/// The data that goes with a guide.
pub open spec fn guide_data(guide: GuideView) -> Map<Seq<char>, Seq<char>> {
    diagnostics::no_texts().insert("kind"@, "wa2_guide"@).insert("tldr"@, guide.tldr).insert(
        "message"@,
        guide.message,
    ).insert("why"@, guide.why)
}

/// A guide as a diagnostic.
pub open spec fn guide_diagnostic(guide: GuideView, range: Range) -> DiagnosticView {
    DiagnosticView {
        range,
        severity: Some(
            match guide.level {
                GuideLevel::Required => DiagnosticSeverity::Error,
                GuideLevel::Action => DiagnosticSeverity::Warning,
            },
        ),
        code: Some("WA2_GUIDE"@),
        source: Some("wa2"@),
        message: guide.tldr,
        data: Some(Some(guide_data(guide))),
    }
}

/// The guides on entities that stand in the document, as diagnostics.
pub open spec fn guide_diagnostics(m: ModelView, guides: Seq<GuideView>) -> Seq<DiagnosticView>
    decreases guides.len(),
{
    if guides.len() == 0 {
        seq![]
    } else {
        let rest = guide_diagnostics(m, guides.drop_last());
        match view::last_range(m.sources, guides.last().entity) {
            Some(range) => rest.push(guide_diagnostic(guides.last(), range)),
            None => rest,
        }
    }
}

// ---------------------------------------------------------------------------
// Definitions and hovers
// ---------------------------------------------------------------------------

/// Whether an entity has a named type.
pub open spec fn has_named_type(m: ModelView, id: EntityId, name: Seq<char>) -> bool {
    match m.resolve(name) {
        Some(kind) => m.has_type(id, kind),
        None => false,
    }
}

/// Whether an entity refers to another one.
pub open spec fn is_reference(m: ModelView, id: EntityId) -> bool {
    ||| has_named_type(m, id, "cfn:Ref"@)
    ||| has_named_type(m, id, "cfn:GetAtt"@)
    ||| has_named_type(m, id, "cfn:Sub"@)
    ||| has_named_type(m, id, "cfn:SubVarRef"@)
}

/// Whether a graph has the vocabulary of references.
pub open spec fn knows_references(m: ModelView) -> bool {
    &&& m.resolve("cfn:Ref"@) is Some
    &&& m.resolve("cfn:GetAtt"@) is Some
    &&& m.resolve("cfn:Sub"@) is Some
    &&& m.resolve("cfn:target"@) is Some
}

/// Where the definition of an entity stands: for a reference, where its first
/// target stands; else where the entity does.
pub open spec fn definition_of(m: ModelView, id: EntityId) -> Option<Range> {
    if is_reference(m, id) {
        let targets = m.named_objects(id, "cfn:target"@);
        if targets.len() == 0 {
            None
        } else {
            match targets[0] {
                view::ValueView::Entity(target) => view::last_range(m.sources, target),
                _ => None,
            }
        }
    } else {
        view::last_range(m.sources, id)
    }
}

/// Where the definition of what stands at a position is.
pub open spec fn definition_at(m: ModelView, line: u32, character: u32) -> Option<Range> {
    match view::entity_at(m.sources, line, character) {
        Some(id) if knows_references(m) => definition_of(m, id),
        _ => None,
    }
}

/// Whether a diagnostic is a guide at a position.
pub open spec fn is_guide_at(d: DiagnosticView, line: u32, character: u32) -> bool {
    &&& view::range_holds(d.range, line, character)
    &&& d.data is Some
    &&& d.data->0 is Some
    &&& (d.data->0)->0.contains_key("kind"@)
    &&& (d.data->0)->0["kind"@] == "wa2_guide"@
}

/// A string of an object, or an empty one.
pub open spec fn text_or_empty(object: Map<Seq<char>, Seq<char>>, key: Seq<char>) -> Seq<char> {
    if object.contains_key(key) {
        object[key]
    } else {
        ""@
    }
}

/// What is shown of a guide: what to do, the rule, and the reason.
pub open spec fn guide_markdown(tldr: Seq<char>, message: Seq<char>, why: Seq<char>) -> Seq<char> {
    "## "@ + tldr + "\n\n"@ + message + "\n\n**Why?** "@ + why
}

/// What is shown of a diagnostic that is a guide.
pub open spec fn hover_of(d: DiagnosticView) -> Seq<char> {
    let object = (d.data->0)->0;
    guide_markdown(
        text_or_empty(object, "tldr"@),
        text_or_empty(object, "message"@),
        text_or_empty(object, "why"@),
    )
}

/// What is shown at a position: the first guide there.
pub open spec fn hover_at(list: Seq<DiagnosticView>, line: u32, character: u32) -> Option<Seq<char>>
    decreases list.len(),
{
    if list.len() == 0 {
        None
    } else if is_guide_at(list[0], line, character) {
        Some(hover_of(list[0]))
    } else {
        hover_at(list.skip(1), line, character)
    }
}

// ---------------------------------------------------------------------------
// The engine
// ---------------------------------------------------------------------------

/// The engine that holds the open documents, and the specification of templates
/// where it is loaded.
#[derive(Debug)]
pub struct CoreEngine<S> {
    docs: NameMap<DocumentState>,
    spec: Option<S>,
}

impl<S> View for CoreEngine<S> {
    type V = Documents;

    closed spec fn view(&self) -> Documents {
        self.docs@.map_values(|d: DocumentState| d@)
    }
}

impl<S> Default for CoreEngine<S> {
    fn default() -> (r: Self)
        ensures
            r@ == Documents::empty(),
            r.specification() is None,
    {
        CoreEngine::new()
    }
}

impl<S> CoreEngine<S> {
    /// The specification of templates, where it is loaded.
    pub closed spec fn specification(self) -> Option<S> {
        self.spec
    }

    /// An engine without documents.
    pub fn new() -> (r: Self)
        ensures
            r@ == Documents::empty(),
            r.specification() is None,
    {
        let r = CoreEngine { docs: NameMap::new(), spec: None };
        assert(r@ =~= Documents::empty());
        r
    }

    /// Takes the specification of templates.
    pub fn set_spec_store(&mut self, spec: S)
        ensures
            final(self)@ == old(self)@,
            final(self).specification() == Some(spec),
    {
        self.spec = Some(spec);
    }

    /// The specification of templates, where it is loaded.
    pub fn spec_store(&self) -> (r: Option<&S>)
        ensures
            match r {
                Some(spec) => self.specification() == Some(*spec),
                None => self.specification() is None,
            },
    {
        self.spec.as_ref()
    }

    /// Holds a document.
    fn put(&mut self, uri: &str, text: String, format: DocumentFormat)
        ensures
            final(self)@ == old(self)@.insert(uri@, fresh_document(text@, format)),
            final(self).specification() == old(self).specification(),
    {
        let ghost before = self.docs@;
        let state = DocumentState {
            text,
            format,
            cached_diagnostics: Vec::new(),
            cached_model: None,
        };
        let ghost entry = state;
        assert(diagnostics::diagnostic_views(entry.cached_diagnostics@) =~= seq![]);
        self.docs.insert(uri.to_owned(), state);
        assert(self@ =~= before.map_values(|d: DocumentState| d@).insert(uri@, entry@));
    }

    /// A document was opened.
    pub fn on_open(&mut self, uri: &str, text: String, language_id: &str)
        ensures
            final(self)@ == opened(old(self)@, uri@, text@, language_id@),
            final(self).specification() == old(self).specification(),
    {
        let format = DocumentFormat::from_language_id_or_path(Some(language_id), uri);
        self.put(uri, text, format);
    }

    /// A document was changed.
    pub fn on_change(&mut self, uri: &str, new_text: String)
        ensures
            final(self)@ == changed(old(self)@, uri@, new_text@),
            final(self).specification() == old(self).specification(),
    {
        let format = match self.docs.get(uri) {
            Some(doc) => doc.format,
            None => DocumentFormat::from_language_id_or_path(None, uri),
        };
        self.put(uri, new_text, format);
    }

    /// A document was saved.
    pub fn on_save(&mut self, uri: &str)
        ensures
            final(self)@ == old(self)@,
            final(self).specification() == old(self).specification(),
    {
    }

    /// Whether a document is open.
    pub fn is_open(&self, uri: &str) -> (r: bool)
        ensures
            r == self@.contains_key(uri@),
    {
        self.docs.get(uri).is_some()
    }

    /// The text of a document that is open.
    pub fn text(&self, uri: &str) -> (r: Option<&str>)
        ensures
            match r {
                Some(s) => self@.contains_key(uri@) && s@ == self@[uri@].text,
                None => !self@.contains_key(uri@),
            },
    {
        match self.docs.get(uri) {
            Some(doc) => Some(doc.text.as_str()),
            None => None,
        }
    }

    /// The notation of a document that is open.
    pub fn format(&self, uri: &str) -> (r: Option<DocumentFormat>)
        ensures
            match r {
                Some(format) => self@.contains_key(uri@) && format == self@[uri@].format,
                None => !self@.contains_key(uri@),
            },
    {
        match self.docs.get(uri) {
            Some(doc) => Some(doc.format),
            None => None,
        }
    }

    /// Replaces the diagnostics of a document.
    fn set_diagnostics(&mut self, uri: &str, list: Vec<Diagnostic>)
        ensures
            final(self)@ == with_diagnostics(
                old(self)@,
                uri@,
                diagnostics::diagnostic_views(list@),
            ),
            final(self).specification() == old(self).specification(),
    {
        let ghost before = self.docs@;
        let ghost views = diagnostics::diagnostic_views(list@);
        if let Some(doc) = self.docs.get_mut(uri) {
            doc.cached_diagnostics = list;
        }
        assert(self@ =~= with_diagnostics(
            before.map_values(|d: DocumentState| d@),
            uri@,
            views,
        ));
    }

    /// Looks at a document quickly: at what came of parsing it as a template, and
    /// at what does not agree with the specification.
    pub fn analyse_document_fast(
        &mut self,
        uri: &str,
        parsed: Result<CfnTemplate, Vec<Diagnostic>>,
        disagreements: Vec<Diagnostic>,
    ) -> (r: Result<CfnTemplate, Vec<Diagnostic>>)
        requires
            old(self)@.contains_key(uri@),
        ensures
            final(self).specification() == old(self).specification(),
            match parsed {
                Ok(template) => {
                    let report = template_report(
                        old(self)@[uri@].text,
                        template.resources@.len(),
                        old(self).specification() is Some,
                        diagnostics::diagnostic_views(disagreements@),
                    );
                    &&& final(self)@ == with_diagnostics(old(self)@, uri@, seq![])
                    &&& report.len() == 0 ==> r == Ok::<CfnTemplate, Vec<Diagnostic>>(template)
                    &&& report.len() > 0 ==> r is Err && diagnostics::diagnostic_views(
                        r->Err_0@,
                    ) == report
                },
                Err(list) => {
                    &&& r is Err
                    &&& diagnostics::diagnostic_views(r->Err_0@)
                        == diagnostics::diagnostic_views(list@)
                    &&& final(self)@ == with_diagnostics(
                        old(self)@,
                        uri@,
                        diagnostics::diagnostic_views(list@),
                    )
                },
            },
    {
        let nothing: Vec<Diagnostic> = Vec::new();
        assert(diagnostics::diagnostic_views(nothing@) =~= seq![]);
        self.set_diagnostics(uri, nothing);
        match parsed {
            Ok(template) => {
                let looks_right = match self.text(uri) {
                    Some(s) => text::contains_text(s, "AWSTemplateFormatVersion"),
                    None => false,
                };
                assert(looks_right == text::has_part(
                    old(self)@[uri@].text,
                    "AWSTemplateFormatVersion"@,
                ));
                if template.resources.len() == 0 && !looks_right {
                    return Ok(template);
                }
                let mut report: Vec<Diagnostic> = Vec::new();
                if template.resources.len() == 0 {
                    report.push(
                        Diagnostic {
                            range: Range {
                                start: Position { line: 0, character: 0 },
                                end: Position { line: 0, character: 1 },
                            },
                            severity: Some(DiagnosticSeverity::Warning),
                            code: Some("WA2_CFN_RESOURCES_MISSING".to_owned()),
                            source: Some("wa2-lsp".to_owned()),
                            message:
                                "Template has no top-level `Resources` section; most CloudFormation templates define at least one resource.".to_owned(),
                            data: None,
                        },
                    );
                }
                let ghost first = diagnostics::diagnostic_views(report@);
                assert(first =~= if template.resources@.len() == 0 {
                    seq![missing_resources()]
                } else {
                    seq![]
                });
                let ghost views = diagnostics::diagnostic_views(disagreements@);
                if self.spec.is_some() {
                    let mut more = disagreements;
                    report.append(&mut more);
                    assert(diagnostics::diagnostic_views(report@) =~= first + views);
                } else {
                    assert(first + seq![] =~= first);
                }
                assert(diagnostics::diagnostic_views(report@).len() == report@.len());
                if report.len() == 0 {
                    Ok(template)
                } else {
                    Err(report)
                }
            },
            Err(list) => {
                self.set_diagnostics(uri, copy_diagnostics(&list));
                assert(self@ =~= with_diagnostics(
                    old(self)@,
                    uri@,
                    diagnostics::diagnostic_views(list@),
                ));
                Err(list)
            },
        }
    }

    /// A guide as a diagnostic.
    fn guide_to_diagnostic(guide: &Guide, range: Range) -> (r: Diagnostic)
        ensures
            r@ == guide_diagnostic(guide@, range),
    {
        let severity = match guide.level {
            GuideLevel::Required => DiagnosticSeverity::Error,
            GuideLevel::Action => DiagnosticSeverity::Warning,
        };
        let mut data = new_object();
        insert_text(&mut data, "kind", "wa2_guide");
        insert_text(&mut data, "tldr", guide.tldr.as_str());
        insert_text(&mut data, "message", guide.message.as_str());
        insert_text(&mut data, "why", guide.why.as_str());
        Diagnostic {
            range,
            severity: Some(severity),
            code: Some("WA2_GUIDE".to_owned()),
            source: Some("wa2".to_owned()),
            message: guide.tldr.clone(),
            data: Some(object_value(data)),
        }
    }

    /// Looks at a document thoroughly: at the guides for the graph that it was
    /// brought into. The guides and the graph are remembered.
    pub fn analyse_document_slow(&mut self, uri: &str, projected: Result<Model, Vec<Diagnostic>>) -> (r:
        Vec<Diagnostic>)
        ensures
            final(self).specification() == old(self).specification(),
            !old(self)@.contains_key(uri@) ==> r@.len() == 0 && final(self)@ == old(self)@,
            old(self)@.contains_key(uri@) ==> match projected {
                Ok(m) => {
                    let report = guide_diagnostics(m@, guidance::guides_in(m@));
                    &&& diagnostics::diagnostic_views(r@) == report
                    &&& final(self)@ == old(self)@.insert(
                        uri@,
                        DocumentView {
                            diagnostics: report,
                            model: Some(m@),
                            ..old(self)@[uri@]
                        },
                    )
                    &&& final(self)@ == looked_through(old(self)@, uri@, m@)
                },
                Err(list) => r == list && final(self)@ == old(self)@,
            },
    {
        if self.docs.get(uri).is_none() {
            return Vec::new();
        }
        let m = match projected {
            Ok(m) => m,
            Err(list) => {
                return list;
            },
        };
        let guides = guidance(&m);
        let ghost all = guidance::guide_views(guides@);
        let mut report: Vec<Diagnostic> = Vec::new();
        assert(diagnostics::diagnostic_views(report@) =~= seq![]);
        for i in 0..guides.len()
            invariant
                all == guidance::guide_views(guides@),
                diagnostics::diagnostic_views(report@) == guide_diagnostics(
                    m@,
                    all.take(i as int),
                ),
        {
            assert(all.take(i + 1).drop_last() =~= all.take(i as int));
            assert(all.take(i + 1).last() == guides@[i as int]@);
            if let Some(range) = m.get_range(guides[i].entity) {
                let ghost before = diagnostics::diagnostic_views(report@);
                let diagnostic = Self::guide_to_diagnostic(&guides[i], range);
                let ghost entry = diagnostic@;
                report.push(diagnostic);
                assert(diagnostics::diagnostic_views(report@) =~= before.push(entry));
            }
        }
        assert(all.take(all.len() as int) =~= all);
        let ghost before = self.docs@;
        let ghost views = diagnostics::diagnostic_views(report@);
        let ghost graph = m@;
        let copy = copy_diagnostics(&report);
        if let Some(doc) = self.docs.get_mut(uri) {
            doc.cached_diagnostics = copy;
            doc.cached_model = Some(m);
        }
        let ghost docs = before.map_values(|d: DocumentState| d@);
        assert(self@ =~= docs.insert(
            uri@,
            DocumentView { diagnostics: views, model: Some(graph), ..docs[uri@] },
        ));
        report
    }

    /// Where the definition of what stands at a position is, in the graph that is
    /// remembered, or else in the one that the document was brought into now.
    pub fn goto_definition(&self, uri: &str, position: Position, projected: Option<&Model>) -> (r: Option<
        Location,
    >)
        ensures
            ({
                let graph = if !self@.contains_key(uri@) {
                    None
                } else if self@[uri@].model is Some {
                    self@[uri@].model
                } else {
                    match projected {
                        Some(m) => Some(m@),
                        None => None,
                    }
                };
                let range = match graph {
                    Some(m) => definition_at(m, position.line, position.character),
                    None => None,
                };
                &&& graph == graph_of(
                    self@,
                    uri@,
                    match projected {
                        Some(m) => Some(m@),
                        None => None,
                    },
                )
                &&& match r {
                    Some(location) => location.uri@ == uri@ && range == Some(location.range),
                    None => range is None,
                }
            }),
    {
        let doc = self.docs.get(uri)?;
        let m = match &doc.cached_model {
            Some(m) => m,
            None => projected?,
        };
        let range = find_definition(m, position)?;
        Some(Location { uri: uri.to_owned(), range })
    }

    /// What is shown at a position of a document: the first guide there, as
    /// Markdown.
    pub fn get_hover_content(&self, uri: &str, position: Position) -> (r: Option<String>)
        ensures
            r.deep_view() == (if self@.contains_key(uri@) {
                hover_at(self@[uri@].diagnostics, position.line, position.character)
            } else {
                None
            }),
            r.deep_view() == hover_in(self@, uri@, position.line, position.character),
    {
        match self.docs.get(uri) {
            Some(doc) => hover_text(&doc.cached_diagnostics, position),
            None => None,
        }
    }
}

/// What is shown at a position, given the diagnostics of a document.
pub fn hover_text(list: &Vec<Diagnostic>, position: Position) -> (r: Option<String>)
    ensures
        r.deep_view() == hover_at(
            diagnostics::diagnostic_views(list@),
            position.line,
            position.character,
        ),
{
    let ghost all = diagnostics::diagnostic_views(list@);
    assert(all.skip(0) =~= all);
    for i in 0..list.len()
        invariant
            all == diagnostics::diagnostic_views(list@),
            hover_at(all, position.line, position.character) == hover_at(
                all.skip(i as int),
                position.line,
                position.character,
            ),
    {
        let d = &list[i];
        assert(all.skip(i as int)[0] == d@);
        assert(all.skip(i as int).skip(1) =~= all.skip(i + 1));
        if position_in_range(position, d.range) {
            if let Some(value) = &d.data {
                if let Ok(object) = value_object(diagnostics::copy_value(value)) {
                    if let Some(kind) = get_text(&object, "kind") {
                        if text::same_text(kind.as_str(), "wa2_guide") {
                            let tldr = get_or_empty(&object, "tldr");
                            let message = get_or_empty(&object, "message");
                            let why = get_or_empty(&object, "why");
                            let head = text::cat4(
                                "## ",
                                tldr.as_str(),
                                "\n\n",
                                message.as_str(),
                            );
                            return Some(
                                text::cat3(head.as_str(), "\n\n**Why?** ", why.as_str()),
                            );
                        }
                    }
                }
            }
        }
    }
    None
}

/// A string of an object, or an empty one.
fn get_or_empty(object: &serde_json::Map<String, serde_json::Value>, key: &str) -> (r: String)
    ensures
        r@ == text_or_empty(diagnostics::object_texts(*object), key@),
{
    match get_text(object, key) {
        Some(s) => s,
        None => "".to_owned(),
    }
}

/// Whether an entity has a named type.
fn is_of_type(m: &Model, id: EntityId, name: &str) -> (r: bool)
    ensures
        r == has_named_type(m@, id, name@),
{
    match m.resolve(name) {
        Some(kind) => m.has_type(id, kind),
        None => false,
    }
}

/// Where the definition of what stands at a position is.
pub fn find_definition(m: &Model, position: Position) -> (r: Option<Range>)
    ensures
        r == definition_at(m@, position.line, position.character),
{
    let entity = m.entity_at_position(position)?;
    m.resolve("cfn:Ref")?;
    m.resolve("cfn:GetAtt")?;
    m.resolve("cfn:Sub")?;
    let target_predicate = m.resolve("cfn:target")?;
    let is_navigable = is_of_type(m, entity, "cfn:Ref") || is_of_type(m, entity, "cfn:GetAtt")
        || is_of_type(m, entity, "cfn:Sub") || is_of_type(m, entity, "cfn:SubVarRef");
    if is_navigable {
        let targets = m.get_all(entity, target_predicate);
        assert(model::value_views(targets@).len() == targets@.len());
        if targets.len() == 0 {
            return None;
        }
        assert(model::value_views(targets@)[0] == targets@[0]@);
        let target = targets[0].as_entity()?;
        return m.get_range(target);
    }
    m.get_range(entity)
}

// ---------------------------------------------------------------------------
// Laws
// ---------------------------------------------------------------------------

/// A document that was changed has the new text, keeps its notation, and nothing
/// that was found in the old text is remembered; the other documents stay.
pub proof fn lemma_change_replaces(docs: Documents, uri: Seq<char>, text: Seq<char>, other: Seq<char>)
    requires
        docs.contains_key(uri),
    ensures
        changed(docs, uri, text)[uri] == fresh_document(text, docs[uri].format),
        other != uri ==> (changed(docs, uri, text).contains_key(other) <==> docs.contains_key(
            other,
        )),
        other != uri && docs.contains_key(other) ==> changed(docs, uri, text)[other]
            == docs[other],
{
}

/// A guide as a diagnostic is shown again, word for word, where the pointer is
/// on it.
pub proof fn lemma_guide_is_shown(guide: GuideView, range: Range, line: u32, character: u32)
    requires
        view::range_holds(range, line, character),
    ensures
        is_guide_at(guide_diagnostic(guide, range), line, character),
        hover_of(guide_diagnostic(guide, range)) == guide_markdown(
            guide.tldr,
            guide.message,
            guide.why,
        ),
{
    reveal_strlit("kind");
    reveal_strlit("tldr");
    reveal_strlit("message");
    reveal_strlit("why");
    assert("kind"@[0] != "tldr"@[0]);
    assert("message"@.len() == 7);
    assert("why"@.len() == 3);
}

/// Where a document was looked at thoroughly, the pointer on the first of its
/// guides shows that guide.
pub proof fn lemma_first_guide_is_shown(m: ModelView, guides: Seq<GuideView>, line: u32, character: u32)
    requires
        guides.len() > 0,
        view::last_range(m.sources, guides[0].entity) is Some,
        view::range_holds(view::last_range(m.sources, guides[0].entity)->0, line, character),
    ensures
        hover_at(guide_diagnostics(m, guides), line, character) == Some(
            guide_markdown(guides[0].tldr, guides[0].message, guides[0].why),
        ),
{
    let range = view::last_range(m.sources, guides[0].entity)->0;
    lemma_guide_is_shown(guides[0], range, line, character);
    lemma_first_guide_is_first(m, guides);
}

proof fn lemma_first_guide_is_first(m: ModelView, guides: Seq<GuideView>)
    requires
        guides.len() > 0,
        view::last_range(m.sources, guides[0].entity) is Some,
    ensures
        guide_diagnostics(m, guides).len() > 0,
        guide_diagnostics(m, guides)[0] == guide_diagnostic(
            guides[0],
            view::last_range(m.sources, guides[0].entity)->0,
        ),
    decreases guides.len(),
{
    if guides.len() > 1 {
        lemma_first_guide_is_first(m, guides.drop_last());
        assert(guides.drop_last()[0] == guides[0]);
    } else {
        assert(guides.drop_last() =~= seq![]);
        assert(guides.last() == guides[0]);
        assert(guide_diagnostics(m, guides.drop_last()) =~= seq![]);
    }
}

/// Something is shown at a position exactly where a guide stands there.
pub proof fn lemma_hover_needs_guide(list: Seq<DiagnosticView>, line: u32, character: u32)
    ensures
        hover_at(list, line, character) is Some <==> exists|i: int|
            0 <= i < list.len() && is_guide_at(#[trigger] list[i], line, character),
    decreases list.len(),
{
    if list.len() > 0 && !is_guide_at(list[0], line, character) {
        let rest = list.skip(1);
        lemma_hover_needs_guide(rest, line, character);
        if hover_at(list, line, character) is Some {
            let i = choose|i: int|
                0 <= i < rest.len() && is_guide_at(#[trigger] rest[i], line, character);
            assert(is_guide_at(list[i + 1], line, character));
        } else {
            assert forall|i: int| 0 <= i < list.len() implies !is_guide_at(
                #[trigger] list[i],
                line,
                character,
            ) by {
                if i > 0 {
                    assert(rest[i - 1] == list[i]);
                }
            }
        }
    }
}

/// A document that was opened has its text and nothing else is known of it; its
/// notation is the one that the language names, else the one that the end of the
/// path suggests. The other documents stay.
pub proof fn lemma_open_holds(
    docs: Documents,
    uri: Seq<char>,
    text: Seq<char>,
    language_id: Seq<char>,
    other: Seq<char>,
    stem: Seq<char>,
)
    ensures
        ({
            let after = opened(docs, uri, text, language_id);
            &&& after.contains_key(uri)
            &&& after[uri].text == text
            &&& after[uri].diagnostics.len() == 0
            &&& after[uri].model is None
            &&& language_id == "cloudformation-json"@ ==> after[uri].format == DocumentFormat::Json
            &&& language_id == "cloudformation-yaml"@ ==> after[uri].format == DocumentFormat::Yaml
            &&& language_id != "cloudformation-yaml"@ && documents::path_of(uri) == Some(
                stem + ".json"@,
            ) ==> after[uri].format == DocumentFormat::Json
            &&& language_id != "cloudformation-json"@ && (documents::path_of(uri) is None
                || !text::has_suffix(documents::path_of(uri)->0, ".json"@)) ==> after[uri].format
                == DocumentFormat::Yaml
            &&& other != uri ==> (after.contains_key(other) <==> docs.contains_key(other))
            &&& other != uri && docs.contains_key(other) ==> after[other] == docs[other]
        }),
{
    reveal_strlit("cloudformation-json");
    reveal_strlit("cloudformation-yaml");
    assert("cloudformation-json"@[15] != "cloudformation-yaml"@[15]);
    text::lemma_parts(stem + ".json"@, ".json"@, stem, seq![]);
}

/// A document that was changed has the new text and nothing else is known of it;
/// it keeps its notation where it was open, else the end of the path suggests one.
pub proof fn lemma_change_holds(docs: Documents, uri: Seq<char>, text: Seq<char>, stem: Seq<char>)
    ensures
        ({
            let after = changed(docs, uri, text);
            &&& after.contains_key(uri)
            &&& after[uri].text == text
            &&& after[uri].diagnostics.len() == 0
            &&& after[uri].model is None
            &&& docs.contains_key(uri) ==> after[uri].format == docs[uri].format
            &&& !docs.contains_key(uri) && documents::path_of(uri) == Some(stem + ".json"@)
                ==> after[uri].format == DocumentFormat::Json
            &&& !docs.contains_key(uri) && documents::path_of(uri) is None ==> after[uri].format
                == DocumentFormat::Yaml
            &&& forall|other: Seq<char>|
                other != uri ==> (#[trigger] after.contains_key(other) <==> docs.contains_key(other))
                    && (docs.contains_key(other) ==> after[other] == docs[other])
        }),
{
    text::lemma_parts(stem + ".json"@, ".json"@, stem, seq![]);
}

/// Other diagnostics for a document leave the rest of it, and the other documents.
pub proof fn lemma_diagnostics_are_replaced(
    docs: Documents,
    uri: Seq<char>,
    list: Seq<DiagnosticView>,
    other: Seq<char>,
)
    ensures
        ({
            let after = with_diagnostics(docs, uri, list);
            &&& after.contains_key(other) <==> docs.contains_key(other)
            &&& docs.contains_key(uri) ==> after[uri].diagnostics == list && after[uri].text
                == docs[uri].text && after[uri].format == docs[uri].format && after[uri].model
                == docs[uri].model
            &&& other != uri && docs.contains_key(other) ==> after[other] == docs[other]
        }),
{
}

/// Of a template with resources exactly what does not agree with the specification
/// is reported. Of one without, a warning comes first and then that. Of a text that
/// does not name the version of the template format, and has no resources, nothing
/// is reported.
pub proof fn lemma_template_is_reported(
    a: Seq<char>,
    b: Seq<char>,
    text: Seq<char>,
    resources: nat,
    has_spec: bool,
    disagreements: Seq<DiagnosticView>,
)
    ensures
        resources > 0 && has_spec ==> template_report(text, resources, has_spec, disagreements)
            == disagreements,
        resources > 0 && !has_spec ==> template_report(
            text,
            resources,
            has_spec,
            disagreements,
        ).len() == 0,
        ({
            let report = template_report(
                a + "AWSTemplateFormatVersion"@ + b,
                0,
                has_spec,
                disagreements,
            );
            &&& report.len() == 1 + if has_spec {
                disagreements.len()
            } else {
                0
            }
            &&& report[0].severity == Some(DiagnosticSeverity::Warning)
            &&& report[0].code == Some("WA2_CFN_RESOURCES_MISSING"@)
            &&& report[0].source == Some("wa2-lsp"@)
            &&& report[0].range.start == (Position { line: 0, character: 0 })
            &&& has_spec ==> report.skip(1) == disagreements
        }),
        !text::has_part(text, "AWSTemplateFormatVersion"@) ==> template_report(
            text,
            0,
            has_spec,
            disagreements,
        ).len() == 0,
{
    let word = "AWSTemplateFormatVersion"@;
    text::lemma_parts(text, word, a, b);
    assert(Seq::<DiagnosticView>::empty() + disagreements =~= disagreements);
    assert((seq![missing_resources()] + disagreements).skip(1) =~= disagreements);
}

/// Whether a diagnostic reports a guide at a place: it says what to do, is an error
/// where the guide is required and else a warning, and carries the words of the
/// guide.
pub open spec fn reports(d: DiagnosticView, guide: GuideView, range: Range) -> bool {
    &&& d.range == range
    &&& d.message == guide.tldr
    &&& d.code == Some("WA2_GUIDE"@)
    &&& d.source == Some("wa2"@)
    &&& d.severity == Some(DiagnosticSeverity::Error) <==> guide.level == GuideLevel::Required
    &&& d.severity == Some(DiagnosticSeverity::Warning) <==> guide.level == GuideLevel::Action
    &&& d.data is Some && d.data->0 is Some
    &&& (d.data->0)->0.contains_pair("kind"@, "wa2_guide"@)
    &&& (d.data->0)->0.contains_pair("tldr"@, guide.tldr)
    &&& (d.data->0)->0.contains_pair("message"@, guide.message)
    &&& (d.data->0)->0.contains_pair("why"@, guide.why)
}

/// Every guide on an entity that stands in the document is reported, where the
/// entity stands, and nothing else is; guides in two parts are reported part by
/// part.
pub proof fn lemma_guides_are_reported(m: ModelView, a: Seq<GuideView>, b: Seq<GuideView>)
    ensures
        guide_diagnostics(m, a + b) == guide_diagnostics(m, a) + guide_diagnostics(m, b),
        forall|g: GuideView|
            #![trigger seq![g]]
            view::last_range(m.sources, g.entity) is None ==> guide_diagnostics(
                m,
                seq![g],
            ).len() == 0,
        forall|g: GuideView|
            #![trigger seq![g]]
            view::last_range(m.sources, g.entity) is Some ==> guide_diagnostics(
                m,
                seq![g],
            ).len() == 1 && reports(
                guide_diagnostics(m, seq![g])[0],
                g,
                view::last_range(m.sources, g.entity)->0,
            ),
        guide_diagnostics(m, seq![]).len() == 0,
    decreases b.len(),
{
    assert forall|g: GuideView|
        #![trigger seq![g]]
        guide_diagnostics(m, seq![g]) == (match view::last_range(m.sources, g.entity) {
            Some(range) => seq![guide_diagnostic(g, range)],
            None => seq![],
        }) by {
        assert(seq![g].drop_last() =~= seq![]);
        assert(guide_diagnostics(m, seq![g].drop_last()) =~= seq![]);
    }
    assert forall|g: GuideView, range: Range| reports(
        #[trigger] guide_diagnostic(g, range),
        g,
        range,
    ) by {
        lemma_keys_differ();
    }
    if b.len() == 0 {
        assert(a + b =~= a);
        assert(guide_diagnostics(m, a) + guide_diagnostics(m, b) =~= guide_diagnostics(m, a));
    } else {
        lemma_guides_are_reported(m, a, b.drop_last());
        assert((a + b).drop_last() =~= a + b.drop_last());
        assert((a + b).last() == b.last());
        assert(guide_diagnostics(m, a + b) =~= guide_diagnostics(m, a) + guide_diagnostics(m, b));
    }
}

proof fn lemma_keys_differ()
    ensures
        "kind"@ != "tldr"@,
        "kind"@ != "message"@,
        "kind"@ != "why"@,
        "tldr"@ != "message"@,
        "tldr"@ != "why"@,
        "message"@ != "why"@,
{
    reveal_strlit("kind");
    reveal_strlit("tldr");
    reveal_strlit("message");
    reveal_strlit("why");
    assert("kind"@[0] != "tldr"@[0]);
    assert("message"@.len() == 7);
    assert("why"@.len() == 3);
}

/// The pointer shows the first guide whose entity stands under it, word for word.
pub proof fn lemma_guide_under_pointer_is_shown(
    m: ModelView,
    guides: Seq<GuideView>,
    at: Position,
    i: int,
)
    requires
        0 <= i < guides.len(),
        stands_under(m, guides[i], at),
        forall|j: int| 0 <= j < i ==> !stands_under(m, #[trigger] guides[j], at),
    ensures
        hover_at(guide_diagnostics(m, guides), at.line, at.character) == Some(
            "## "@ + guides[i].tldr + "\n\n"@ + guides[i].message + "\n\n**Why?** "@
                + guides[i].why,
        ),
{
    let before = guides.take(i);
    let after = guides.skip(i);
    assert(guides =~= before + after);
    lemma_guides_are_reported(m, before, after);
    lemma_not_under_pointer(m, before, at);
    let first = guide_diagnostics(m, before);
    let rest = guide_diagnostics(m, after);
    lemma_hover_skips(first, rest, at.line, at.character);
    assert(after[0] == guides[i]);
    lemma_first_guide_is_shown(m, after, at.line, at.character);
}

/// Whether the entity of a guide stands where the pointer is.
pub open spec fn stands_under(m: ModelView, guide: GuideView, at: Position) -> bool {
    match view::last_range(m.sources, guide.entity) {
        Some(range) => graph::not_after(range.start, at) && graph::not_after(at, range.end),
        None => false,
    }
}

proof fn lemma_not_under_pointer(m: ModelView, guides: Seq<GuideView>, at: Position)
    requires
        forall|j: int| 0 <= j < guides.len() ==> !stands_under(m, #[trigger] guides[j], at),
    ensures
        forall|k: int|
            0 <= k < guide_diagnostics(m, guides).len() ==> !is_guide_at(
                #[trigger] guide_diagnostics(m, guides)[k],
                at.line,
                at.character,
            ),
    decreases guides.len(),
{
    if guides.len() > 0 {
        let rest = guides.drop_last();
        assert forall|j: int| 0 <= j < rest.len() implies !stands_under(m, #[trigger] rest[j], at) by {
            assert(rest[j] == guides[j]);
        }
        lemma_not_under_pointer(m, rest, at);
        assert(!stands_under(m, guides[guides.len() - 1], at));
        let found = guide_diagnostics(m, guides);
        assert forall|k: int| 0 <= k < found.len() implies !is_guide_at(
            #[trigger] found[k],
            at.line,
            at.character,
        ) by {
            if k < guide_diagnostics(m, rest).len() {
                assert(found[k] == guide_diagnostics(m, rest)[k]);
            }
        }
    }
}

proof fn lemma_hover_skips(
    a: Seq<DiagnosticView>,
    b: Seq<DiagnosticView>,
    line: u32,
    character: u32,
)
    requires
        forall|k: int| 0 <= k < a.len() ==> !is_guide_at(#[trigger] a[k], line, character),
    ensures
        hover_at(a + b, line, character) == hover_at(b, line, character),
    decreases a.len(),
{
    if a.len() == 0 {
        assert(a + b =~= b);
    } else {
        assert(!is_guide_at(a[0], line, character));
        assert((a + b)[0] == a[0]);
        assert((a + b).skip(1) =~= a.skip(1) + b);
        lemma_hover_skips(a.skip(1), b, line, character);
    }
}

/// Whether an entity is of one of the types of references.
pub open spec fn refers(m: ModelView, id: EntityId) -> bool {
    ||| query_laws::is_of_type(m, id, "cfn:Ref"@)
    ||| query_laws::is_of_type(m, id, "cfn:GetAtt"@)
    ||| query_laws::is_of_type(m, id, "cfn:Sub"@)
    ||| query_laws::is_of_type(m, id, "cfn:SubVarRef"@)
}

/// Whether a statement is the first one on the target of an entity.
pub open spec fn is_first_target(m: ModelView, id: EntityId, k: int) -> bool {
    let p = m.resolve("cfn:target"@)->0;
    &&& 0 <= k < m.facts.len()
    &&& m.facts[k].subject == id && m.facts[k].predicate == p
    &&& forall|j: int|
        0 <= j < k ==> (#[trigger] m.facts[j]).subject != id || m.facts[j].predicate != p
}

/// Where the vocabulary of references is known, the definition of an entity under
/// the pointer is where its target stands, if it is a reference, and else where the
/// entity itself does. There is none where nothing stands under the pointer, where
/// a reference has no target, or where the vocabulary is not known.
pub proof fn lemma_definition(m: ModelView, at: Position, id: EntityId, k: int, target: EntityId)
    requires
        m.resolve("cfn:Ref"@) is Some,
        m.resolve("cfn:GetAtt"@) is Some,
        m.resolve("cfn:Sub"@) is Some,
        m.resolve("cfn:target"@) is Some,
        view::entity_at(m.sources, at.line, at.character) == Some(id),
    ensures
        !refers(m, id) ==> definition_at(m, at.line, at.character) == view::last_range(
            m.sources,
            id,
        ),
        refers(m, id) && is_first_target(m, id, k) && m.facts[k].object == view::ValueView::Entity(
            target,
        ) ==> definition_at(m, at.line, at.character) == view::last_range(m.sources, target),
        refers(m, id) && (forall|o: view::ValueView|
            !#[trigger] m.has(id, m.resolve("cfn:target"@)->0, o)) ==> definition_at(
            m,
            at.line,
            at.character,
        ) is None,
{
    let p = m.resolve("cfn:target"@)->0;
    if refers(m, id) {
        assert(is_reference(m, id));
        if is_first_target(m, id, k) && m.facts[k].object == view::ValueView::Entity(target) {
            lemma_first_object(m.facts, id, p, k);
        }
        if forall|o: view::ValueView| !#[trigger] m.has(id, p, o) {
            let found = view::objects(m.facts, id, p);
            if found.len() > 0 {
                graph::lemma_objects(m, id, p, found[0]);
                assert(found.contains(found[0]));
                assert(!m.has(id, p, found[0]));
            }
        }
    }
}

proof fn lemma_first_object(facts: Seq<view::Fact>, id: EntityId, p: EntityId, k: int)
    requires
        0 <= k < facts.len(),
        facts[k].subject == id && facts[k].predicate == p,
        forall|j: int|
            0 <= j < k ==> (#[trigger] facts[j]).subject != id || facts[j].predicate != p,
    ensures
        view::objects(facts, id, p).len() > 0,
        view::objects(facts, id, p)[0] == facts[k].object,
    decreases facts.len(),
{
    let rest = facts.drop_last();
    if k < rest.len() {
        assert(rest[k] == facts[k]);
        lemma_first_object(rest, id, p, k);
    } else {
        lemma_no_object(rest, id, p);
        assert(facts.last() == facts[k]);
    }
}

proof fn lemma_no_object(facts: Seq<view::Fact>, id: EntityId, p: EntityId)
    requires
        forall|j: int|
            0 <= j < facts.len() ==> (#[trigger] facts[j]).subject != id || facts[j].predicate != p,
    ensures
        view::objects(facts, id, p).len() == 0,
    decreases facts.len(),
{
    if facts.len() > 0 {
        lemma_no_object(facts.drop_last(), id, p);
        assert(facts.last() == facts[facts.len() - 1]);
    }
}

/// There is no definition where nothing stands under the pointer, or where the
/// vocabulary of references is not known.
pub proof fn lemma_no_definition(m: ModelView, at: Position)
    requires
        view::entity_at(m.sources, at.line, at.character) is None || m.resolve("cfn:Ref"@) is None
            || m.resolve("cfn:GetAtt"@) is None || m.resolve("cfn:Sub"@) is None || m.resolve(
            "cfn:target"@,
        ) is None,
    ensures
        definition_at(m, at.line, at.character) is None,
{
}

/// A document that was brought into a graph shows, where the entity of a guide stands
/// under the pointer and no earlier guide does, what the guide says; it keeps its
/// text and its notation, and the other documents stay. Its definitions are then
/// looked for in that graph, whatever graph is given later.
pub proof fn lemma_looked_through(
    docs: Documents,
    uri: Seq<char>,
    m: ModelView,
    at: Position,
    i: int,
    other: Seq<char>,
    given: Option<ModelView>,
)
    requires
        docs.contains_key(uri),
    ensures
        ({
            let after = looked_through(docs, uri, m);
            let guides = guidance::guides_in(m);
            &&& after[uri].text == docs[uri].text && after[uri].format == docs[uri].format
            &&& graph_of(after, uri, given) == Some(m)
            &&& after.contains_key(other) <==> docs.contains_key(other)
            &&& other != uri && docs.contains_key(other) ==> after[other] == docs[other]
            &&& 0 <= i < guides.len() && stands_under(m, guides[i], at) && (forall|j: int|
                0 <= j < i ==> !stands_under(m, #[trigger] guides[j], at)) ==> hover_in(
                after,
                uri,
                at.line,
                at.character,
            ) == Some(
                "## "@ + guides[i].tldr + "\n\n"@ + guides[i].message + "\n\n**Why?** "@
                    + guides[i].why,
            )
            &&& (forall|j: int|
                0 <= j < guides.len() ==> !stands_under(m, #[trigger] guides[j], at)) ==> hover_in(
                after,
                uri,
                at.line,
                at.character,
            ) is None
        }),
{
    let guides = guidance::guides_in(m);
    if 0 <= i < guides.len() && stands_under(m, guides[i], at) && (forall|j: int|
        0 <= j < i ==> !stands_under(m, #[trigger] guides[j], at)) {
        lemma_guide_under_pointer_is_shown(m, guides, at, i);
    }
    if forall|j: int| 0 <= j < guides.len() ==> !stands_under(m, #[trigger] guides[j], at) {
        lemma_not_under_pointer(m, guides, at);
        lemma_hover_needs_guide(guide_diagnostics(m, guides), at.line, at.character);
    }
}

/// A change or a new opening makes the engine forget the graph, so that the next one
/// that is given counts; nothing is shown or defined in a document that is not open.
pub proof fn lemma_change_forgets(
    docs: Documents,
    uri: Seq<char>,
    text: Seq<char>,
    language_id: Seq<char>,
    given: Option<ModelView>,
    at: Position,
)
    ensures
        graph_of(changed(docs, uri, text), uri, given) == given,
        graph_of(opened(docs, uri, text, language_id), uri, given) == given,
        hover_in(changed(docs, uri, text), uri, at.line, at.character) is None,
        hover_in(opened(docs, uri, text, language_id), uri, at.line, at.character) is None,
        !docs.contains_key(uri) ==> graph_of(docs, uri, given) is None,
        !docs.contains_key(uri) ==> hover_in(docs, uri, at.line, at.character) is None,
        docs.contains_key(uri) ==> graph_of(
            with_diagnostics(docs, uri, seq![]),
            uri,
            given,
        ) == graph_of(docs, uri, given),
{
}

} // verus!
