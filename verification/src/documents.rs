//! Document formats and addresses.

use vstd::prelude::*;

use crate::text;

verus! {

/// The notation of a document.
#[derive(Debug, Clone, Copy, PartialEq, Eq, Structural)]
pub enum DocumentFormat {
    Yaml,
    Json,
}

/// The path in an address, as `url` reads it; none where it is not an address.
pub uninterp spec fn path_of(uri: Seq<char>) -> Option<Seq<char>>;

/// `url::Url::parse` and `url::Url::path`: whether the text is an address, and
/// which path it has, depend on the text alone.
#[verifier::external_body]
pub(crate) fn url_path(uri: &str) -> (r: Option<String>)
    ensures
        r.deep_view() == path_of(uri@),
{
    url::Url::parse(uri).ok().map(|parsed| parsed.path().to_owned())
}

/// The notation that a language identifier names, else the one that a path
/// suggests.
pub open spec fn format_of(language_id: Option<Seq<char>>, path: Option<Seq<char>>) -> DocumentFormat {
    if language_id == Some("cloudformation-json"@) {
        DocumentFormat::Json
    } else if language_id == Some("cloudformation-yaml"@) {
        DocumentFormat::Yaml
    } else {
        match path {
            Some(p) if text::has_suffix(p, ".json"@) => DocumentFormat::Json,
            _ => DocumentFormat::Yaml,
        }
    }
}

/// An optional language identifier.
pub open spec fn language_view(language_id: Option<&str>) -> Option<Seq<char>> {
    match language_id {
        Some(s) => Some(s@),
        None => None,
    }
}

impl DocumentFormat {
    /// The notation that a language identifier names, else the one that the path
    /// of an address suggests.
    pub fn from_language_id_or_path(language_id: Option<&str>, uri: &str) -> (r: Self)
        ensures
            r == format_of(language_view(language_id), path_of(uri@)),
    {
        let path = url_path(uri);
        DocumentFormat::from_language_id_or_suffix(language_id, &path)
    }

    /// The notation that a language identifier names, else the one that a path
    /// suggests.
    pub fn from_language_id_or_suffix(language_id: Option<&str>, path: &Option<String>) -> (r: Self)
        ensures
            r == format_of(language_view(language_id), path.deep_view()),
    {
        proof {
            reveal_strlit("cloudformation-json");
            reveal_strlit("cloudformation-yaml");
            assert("cloudformation-json"@[15] != "cloudformation-yaml"@[15]);
        }
        if let Some(id) = language_id {
            if text::same_text(id, "cloudformation-json") {
                return DocumentFormat::Json;
            }
            if text::same_text(id, "cloudformation-yaml") {
                return DocumentFormat::Yaml;
            }
        }
        match path {
            Some(p) => if text::ends_with(p.as_str(), ".json") {
                DocumentFormat::Json
            } else {
                DocumentFormat::Yaml
            },
            None => DocumentFormat::Yaml,
        }
    }
}

} // verus!
