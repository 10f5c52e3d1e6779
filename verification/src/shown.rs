//! Values as messages show them: with their names, fields and items, and with
//! texts in quotes.

use vstd::prelude::*;

use crate::text;

verus! {

/// A text in quotes, with what cannot stand in quotes written as an escape.
pub uninterp spec fn in_quotes(s: Seq<char>) -> Seq<char>;

/// `<str as std::fmt::Debug>::fmt`, through `format!`: the text in quotes, which
/// the text alone decides. Which characters are escaped is not stated.
#[verifier::external_body]
pub(crate) fn quote(s: &str) -> (r: String)
    ensures
        r@ == in_quotes(s@),
{
    format!("{:?}", s)
}

/// A field: its name and its value.
pub open spec fn field_form(name: Seq<char>, value: Seq<char>) -> Seq<char> {
    name + ": "@ + value
}

/// A value with named fields.
pub open spec fn record_form(name: Seq<char>, fields: Seq<Seq<char>>) -> Seq<char> {
    name + " { "@ + text::joined(fields, ", "@) + " }"@
}

/// A value with items in order.
pub open spec fn tuple_form(name: Seq<char>, items: Seq<Seq<char>>) -> Seq<char> {
    name + "("@ + text::joined(items, ", "@) + ")"@
}

/// A list.
pub open spec fn list_form(items: Seq<Seq<char>>) -> Seq<char> {
    "["@ + text::joined(items, ", "@) + "]"@
}

/// A value that may be missing.
pub open spec fn option_form(value: Option<Seq<char>>) -> Seq<char> {
    match value {
        Some(s) => tuple_form("Some"@, seq![s]),
        None => "None"@,
    }
}

/// A range of positions.
pub open spec fn range_form(range: std::ops::Range<usize>) -> Seq<char> {
    text::decimal(range.start as nat) + ".."@ + text::decimal(range.end as nat)
}

/// A field: its name and its value.
pub fn show_field(name: &str, value: &str) -> (r: String)
    ensures
        r@ == field_form(name@, value@),
{
    text::cat3(name, ": ", value)
}

/// A value with named fields.
pub fn show_record(name: &str, fields: &Vec<String>) -> (r: String)
    ensures
        r@ == record_form(name@, text::views(fields@)),
{
    let inner = text::join_text(fields, ", ");
    text::cat4(name, " { ", inner.as_str(), " }")
}

/// A value with items in order.
pub fn show_tuple(name: &str, items: &Vec<String>) -> (r: String)
    ensures
        r@ == tuple_form(name@, text::views(items@)),
{
    let inner = text::join_text(items, ", ");
    text::cat4(name, "(", inner.as_str(), ")")
}

/// A list.
pub fn show_list(items: &Vec<String>) -> (r: String)
    ensures
        r@ == list_form(text::views(items@)),
{
    let inner = text::join_text(items, ", ");
    text::cat3("[", inner.as_str(), "]")
}

/// A value that may be missing.
pub fn show_option(value: Option<String>) -> (r: String)
    ensures
        r@ == option_form(value.deep_view()),
{
    match value {
        Some(s) => {
            let ghost shown = s@;
            let items: Vec<String> = vec![s];
            assert(text::views(items@) =~= seq![shown]);
            show_tuple("Some", &items)
        },
        None => "None".to_owned(),
    }
}

/// A range of positions.
pub fn show_range(range: &std::ops::Range<usize>) -> (r: String)
    ensures
        r@ == range_form(*range),
{
    let start = text::decimal_text(range.start as u64);
    let end = text::decimal_text(range.end as u64);
    text::cat3(start.as_str(), "..", end.as_str())
}

// ---------------------------------------------------------------------------
// Laws
// ---------------------------------------------------------------------------

/// A field shows its value after its name.
pub proof fn lemma_field(name: Seq<char>, value: Seq<char>)
    ensures
        text::has_prefix(field_form(name, value), name + ": "@),
        text::has_suffix(field_form(name, value), value),
        text::has_part(field_form(name, value), value),
{
    text::lemma_parts(value, value, name + ": "@, seq![]);
    text::lemma_parts(value, name + ": "@, seq![], value);
    text::lemma_halves(name + ": "@, value);
}

/// A value shows its name, and each of its fields or items, whichever its place; so
/// does a list with its items.
pub proof fn lemma_items_are_shown(name: Seq<char>, items: Seq<Seq<char>>, i: int)
    ensures
        text::has_prefix(record_form(name, items), name + " { "@),
        text::has_prefix(tuple_form(name, items), name + "("@),
        0 <= i < items.len() ==> text::has_part(record_form(name, items), items[i]),
        0 <= i < items.len() ==> text::has_part(tuple_form(name, items), items[i]),
        0 <= i < items.len() ==> text::has_part(list_form(items), items[i]),
        items.len() == 0 ==> list_form(items) == "[]"@,
        items.len() == 1 ==> list_form(items) == "["@ + items[0] + "]"@,
        items.len() == 1 ==> tuple_form(name, items) == name + "("@ + items[0] + ")"@,
{
    let inner = text::joined(items, ", "@);
    text::lemma_prefix(name + " { "@, inner + " }"@);
    assert(name + " { "@ + (inner + " }"@) =~= record_form(name, items));
    text::lemma_prefix(name + "("@, inner + ")"@);
    assert(name + "("@ + (inner + ")"@) =~= tuple_form(name, items));
    if 0 <= i < items.len() {
        text::lemma_joined_holds(items, ", "@, i);
        lemma_inside(name + " { "@, inner, " }"@, items[i]);
        lemma_inside(name + "("@, inner, ")"@, items[i]);
        lemma_inside("["@, inner, "]"@, items[i]);
    }
    if items.len() == 0 {
        reveal_strlit("[");
        reveal_strlit("]");
        reveal_strlit("[]");
        assert(list_form(items) =~= "[]"@);
    }
    if items.len() == 1 {
        assert(inner =~= items[0]);
    }
}

proof fn lemma_inside(a: Seq<char>, inner: Seq<char>, b: Seq<char>, item: Seq<char>)
    requires
        text::has_part(inner, item),
    ensures
        text::has_part(a + inner + b, item),
{
    text::lemma_halves(a + inner, b);
    text::lemma_halves(a, inner);
    text::lemma_part_of_part(a + inner + b, a + inner, inner);
    text::lemma_part_of_part(a + inner + b, inner, item);
}

/// A value that may be missing is shown where it is there.
pub proof fn lemma_option(s: Seq<char>)
    ensures
        option_form(Some(s)) == "Some("@ + s + ")"@,
        option_form(None) == "None"@,
{
    lemma_items_are_shown("Some"@, seq![s], 0);
    reveal_strlit("Some");
    reveal_strlit("(");
    reveal_strlit("Some(");
    assert("Some("@ =~= "Some"@ + "("@);
}

/// A range shows where it begins and where it ends.
pub proof fn lemma_range(range: std::ops::Range<usize>)
    ensures
        text::has_prefix(range_form(range), text::decimal(range.start as nat) + ".."@),
        text::has_suffix(range_form(range), ".."@ + text::decimal(range.end as nat)),
{
    let start = text::decimal(range.start as nat);
    let end = text::decimal(range.end as nat);
    text::lemma_prefix(start + ".."@, end);
    text::lemma_parts(end, ".."@ + end, start, seq![]);
    assert(start + (".."@ + end) =~= range_form(range));
}

} // verus!
