//! Expressions as messages show them.

use vstd::prelude::*;

use crate::kernel::ast::{
    AddExpr, AsExpr, Axis, Expr, Literal, MatchArm, MatchExpr, MatchPattern, QualifiedName, QueryExpr,
    QueryPath, QueryPredicate, QueryStep, Span,
};
use crate::shown::{
    self, quote, show_field, show_list, show_option, show_range, show_record, show_tuple,
};
use crate::text;

verus! {

// ---------------------------------------------------------------------------
// Names and constants
// ---------------------------------------------------------------------------

/// The field that says where something stands.
pub open spec fn span_field(span: Span) -> Seq<char> {
    shown::field_form("span"@, shown::range_form(span))
}

fn show_span(span: &Span) -> (r: String)
    ensures
        r@ == span_field(*span),
{
    show_field("span", show_range(span).as_str())
}

/// A text that may be missing.
pub open spec fn text_form(s: Option<String>) -> Seq<char> {
    match s {
        Some(s) => shown::option_form(Some(shown::in_quotes(s@))),
        None => shown::option_form(None),
    }
}

fn show_text(s: &Option<String>) -> (r: String)
    ensures
        r@ == text_form(*s),
{
    match s {
        Some(s) => show_option(Some(quote(s.as_str()))),
        None => show_option(None),
    }
}

/// A name.
pub open spec fn name_form(name: QualifiedName) -> Seq<char> {
    shown::record_form(
        "QualifiedName"@,
        seq![
            shown::field_form("namespace"@, text_form(name.namespace)),
            shown::field_form("name"@, shown::in_quotes(name.name@)),
            span_field(name.span),
        ],
    )
}

/// A name.
pub fn show_name(name: &QualifiedName) -> (r: String)
    ensures
        r@ == name_form(*name),
{
    let fields: Vec<String> = vec![
        show_field("namespace", show_text(&name.namespace).as_str()),
        show_field("name", quote(name.name.as_str()).as_str()),
        show_span(&name.span),
    ];
    assert(text::views(fields@) =~= seq![
        shown::field_form("namespace"@, text_form(name.namespace)),
        shown::field_form("name"@, shown::in_quotes(name.name@)),
        span_field(name.span),
    ]);
    show_record("QualifiedName", &fields)
}

/// A name that may be missing.
pub open spec fn test_form(test: Option<QualifiedName>) -> Seq<char> {
    match test {
        Some(name) => shown::option_form(Some(name_form(name))),
        None => shown::option_form(None),
    }
}

fn show_test(test: &Option<QualifiedName>) -> (r: String)
    ensures
        r@ == test_form(*test),
{
    match test {
        Some(name) => show_option(Some(show_name(name))),
        None => show_option(None),
    }
}

/// A constant.
pub open spec fn literal_form(literal: Literal) -> Seq<char> {
    match literal {
        Literal::String(s) => shown::tuple_form("String"@, seq![shown::in_quotes(s@)]),
        Literal::Number(n) => shown::tuple_form("Number"@, seq![text::signed_decimal(n as int)]),
        Literal::Bool(b) => shown::tuple_form("Bool"@, seq![text::truth(b)]),
    }
}

/// A value with one item.
fn show_one(name: &str, item: String) -> (r: String)
    ensures
        r@ == shown::tuple_form(name@, seq![item@]),
{
    let ghost inner = item@;
    let items: Vec<String> = vec![item];
    assert(text::views(items@) =~= seq![inner]);
    show_tuple(name, &items)
}

/// A value with two items.
fn show_two(name: &str, first: String, second: String) -> (r: String)
    ensures
        r@ == shown::tuple_form(name@, seq![first@, second@]),
{
    let ghost inner = seq![first@, second@];
    let items: Vec<String> = vec![first, second];
    assert(text::views(items@) =~= inner);
    show_tuple(name, &items)
}

/// A constant.
pub fn show_literal(literal: &Literal) -> (r: String)
    ensures
        r@ == literal_form(*literal),
{
    match literal {
        Literal::String(s) => show_one("String", quote(s.as_str())),
        Literal::Number(n) => show_one("Number", text::signed_text(*n)),
        Literal::Bool(b) => show_one("Bool", text::truth_text(*b)),
    }
}

/// Constants, one by one.
pub open spec fn literal_forms(literals: Seq<Literal>) -> Seq<Seq<char>> {
    Seq::new(literals.len(), |i: int| literal_form(literals[i]))
}

fn show_literals(literals: &Vec<Literal>) -> (r: Vec<String>)
    ensures
        text::views(r@) == literal_forms(literals@),
{
    let mut forms: Vec<String> = Vec::new();
    for i in 0..literals.len()
        invariant
            forms.len() == i,
            forall|j: int| 0 <= j < i ==> (#[trigger] forms@[j])@ == literal_form(literals@[j]),
    {
        forms.push(show_literal(&literals[i]));
    }
    assert(text::views(forms@) =~= literal_forms(literals@));
    forms
}

/// A direction.
pub open spec fn axis_form(axis: Axis) -> Seq<char> {
    match axis {
        Axis::Child => "Child"@,
        Axis::Descendant => "Descendant"@,
        Axis::DescendantOrSelf => "DescendantOrSelf"@,
    }
}

fn show_axis(axis: Axis) -> (r: String)
    ensures
        r@ == axis_form(axis),
{
    match axis {
        Axis::Child => "Child".to_owned(),
        Axis::Descendant => "Descendant".to_owned(),
        Axis::DescendantOrSelf => "DescendantOrSelf".to_owned(),
    }
}

// ---------------------------------------------------------------------------
// Paths
// ---------------------------------------------------------------------------

/// A path.
pub open spec fn path_form(path: QueryPath) -> Seq<char>
    decreases path,
{
    shown::record_form(
        "QueryPath"@,
        seq![
            shown::field_form("steps"@, shown::list_form(step_forms(path.steps@))),
            span_field(path.span),
        ],
    )
}

/// The steps of a path, one by one.
pub open spec fn step_forms(steps: Seq<QueryStep>) -> Seq<Seq<char>>
    decreases steps,
{
    if steps.len() == 0 {
        seq![]
    } else {
        step_forms(steps.drop_last()).push(step_form(steps.last()))
    }
}

/// A step of a path.
pub open spec fn step_form(step: QueryStep) -> Seq<char>
    decreases step,
{
    shown::record_form(
        "QueryStep"@,
        seq![
            shown::field_form("axis"@, axis_form(step.axis)),
            shown::field_form("node_test"@, test_form(step.node_test)),
            shown::field_form(
                "predicates"@,
                shown::list_form(condition_forms(step.predicates@)),
            ),
            span_field(step.span),
        ],
    )
}

/// The conditions of a step, one by one.
pub open spec fn condition_forms(conditions: Seq<QueryPredicate>) -> Seq<Seq<char>>
    decreases conditions,
{
    if conditions.len() == 0 {
        seq![]
    } else {
        condition_forms(conditions.drop_last()).push(condition_form(conditions.last()))
    }
}

/// A condition.
pub open spec fn condition_form(condition: QueryPredicate) -> Seq<char>
    decreases condition,
{
    match condition {
        QueryPredicate::Eq(path, literal) => shown::tuple_form(
            "Eq"@,
            seq![path_form(path), literal_form(literal)],
        ),
        QueryPredicate::In(path, literals) => shown::tuple_form(
            "In"@,
            seq![path_form(path), shown::list_form(literal_forms(literals@))],
        ),
        QueryPredicate::Exists(path) => shown::tuple_form("Exists"@, seq![path_form(path)]),
    }
}

/// A path.
pub fn show_path(path: &QueryPath) -> (r: String)
    ensures
        r@ == path_form(*path),
    decreases *path,
{
    let steps = show_steps(&path.steps);
    let fields: Vec<String> = vec![
        show_field("steps", show_list(&steps).as_str()),
        show_span(&path.span),
    ];
    assert(text::views(fields@) =~= seq![
        shown::field_form("steps"@, shown::list_form(step_forms(path.steps@))),
        span_field(path.span),
    ]);
    show_record("QueryPath", &fields)
}

fn show_steps(steps: &Vec<QueryStep>) -> (r: Vec<String>)
    ensures
        text::views(r@) == step_forms(steps@),
    decreases *steps,
{
    let mut forms: Vec<String> = Vec::new();
    assert(text::views(forms@) =~= step_forms(steps@.take(0)));
    for i in 0..steps.len()
        invariant
            text::views(forms@) == step_forms(steps@.take(i as int)),
    {
        assert(steps@.take(i + 1).drop_last() =~= steps@.take(i as int));
        let ghost before = text::views(forms@);
        let form = show_step(&steps[i]);
        forms.push(form);
        assert(text::views(forms@) =~= before.push(form@));
    }
    assert(steps@.take(steps@.len() as int) =~= steps@);
    forms
}

fn show_step(step: &QueryStep) -> (r: String)
    ensures
        r@ == step_form(*step),
    decreases *step,
{
    let conditions = show_conditions(&step.predicates);
    let fields: Vec<String> = vec![
        show_field("axis", show_axis(step.axis).as_str()),
        show_field("node_test", show_test(&step.node_test).as_str()),
        show_field("predicates", show_list(&conditions).as_str()),
        show_span(&step.span),
    ];
    assert(text::views(fields@) =~= seq![
        shown::field_form("axis"@, axis_form(step.axis)),
        shown::field_form("node_test"@, test_form(step.node_test)),
        shown::field_form("predicates"@, shown::list_form(condition_forms(step.predicates@))),
        span_field(step.span),
    ]);
    show_record("QueryStep", &fields)
}

fn show_conditions(conditions: &Vec<QueryPredicate>) -> (r: Vec<String>)
    ensures
        text::views(r@) == condition_forms(conditions@),
    decreases *conditions,
{
    let mut forms: Vec<String> = Vec::new();
    assert(text::views(forms@) =~= condition_forms(conditions@.take(0)));
    for i in 0..conditions.len()
        invariant
            text::views(forms@) == condition_forms(conditions@.take(i as int)),
    {
        assert(conditions@.take(i + 1).drop_last() =~= conditions@.take(i as int));
        let ghost before = text::views(forms@);
        let form = show_condition(&conditions[i]);
        forms.push(form);
        assert(text::views(forms@) =~= before.push(form@));
    }
    assert(conditions@.take(conditions@.len() as int) =~= conditions@);
    forms
}

fn show_condition(condition: &QueryPredicate) -> (r: String)
    ensures
        r@ == condition_form(*condition),
    decreases *condition,
{
    match condition {
        QueryPredicate::Eq(path, literal) => show_two("Eq", show_path(path), show_literal(literal)),
        QueryPredicate::In(path, literals) => show_two(
            "In",
            show_path(path),
            show_list(&show_literals(literals)),
        ),
        QueryPredicate::Exists(path) => show_one("Exists", show_path(path)),
    }
}

// ---------------------------------------------------------------------------
// Expressions
// ---------------------------------------------------------------------------

/// A query.
pub open spec fn query_form(query: QueryExpr) -> Seq<char> {
    shown::record_form(
        "QueryExpr"@,
        seq![shown::field_form("path"@, path_form(query.path)), span_field(query.span)],
    )
}

fn show_query(query: &QueryExpr) -> (r: String)
    ensures
        r@ == query_form(*query),
{
    let fields: Vec<String> = vec![
        show_field("path", show_path(&query.path).as_str()),
        show_span(&query.span),
    ];
    assert(text::views(fields@) =~= seq![
        shown::field_form("path"@, path_form(query.path)),
        span_field(query.span),
    ]);
    show_record("QueryExpr", &fields)
}

/// An expression.
pub open spec fn expr_form(e: Expr) -> Seq<char>
    decreases e,
{
    match e {
        Expr::Var(name, span) => shown::tuple_form(
            "Var"@,
            seq![shown::in_quotes(name@), shown::range_form(span)],
        ),
        Expr::Blank(span) => shown::tuple_form("Blank"@, seq![shown::range_form(span)]),
        Expr::Query(query) => shown::tuple_form("Query"@, seq![query_form(query)]),
        Expr::Add(add) => shown::tuple_form("Add"@, seq![add_form(*add)]),
        Expr::QName(name) => shown::tuple_form("QName"@, seq![name_form(name)]),
        Expr::String(s, span) => shown::tuple_form(
            "String"@,
            seq![shown::in_quotes(s@), shown::range_form(span)],
        ),
        Expr::Bool(b, span) => shown::tuple_form(
            "Bool"@,
            seq![text::truth(b), shown::range_form(span)],
        ),
        Expr::Empty(inner, span) => shown::tuple_form(
            "Empty"@,
            seq![expr_form(*inner), shown::range_form(span)],
        ),
        Expr::Match(choice) => shown::tuple_form("Match"@, seq![choice_form(*choice)]),
        Expr::As(check) => shown::tuple_form("As"@, seq![check_form(*check)]),
    }
}

/// An `add`.
pub open spec fn add_form(add: AddExpr) -> Seq<char>
    decreases add,
{
    shown::record_form(
        "AddExpr"@,
        seq![
            shown::field_form("subject"@, expr_form(add.subject)),
            shown::field_form("predicate"@, name_form(add.predicate)),
            shown::field_form("object"@, expr_form(add.object)),
            span_field(add.span),
        ],
    )
}

/// A choice.
pub open spec fn choice_form(choice: MatchExpr) -> Seq<char>
    decreases choice,
{
    shown::record_form(
        "MatchExpr"@,
        seq![
            shown::field_form("value"@, expr_form(choice.value)),
            shown::field_form("arms"@, shown::list_form(arm_forms(choice.arms@))),
            span_field(choice.span),
        ],
    )
}

/// The arms of a choice, one by one.
pub open spec fn arm_forms(arms: Seq<MatchArm>) -> Seq<Seq<char>>
    decreases arms,
{
    if arms.len() == 0 {
        seq![]
    } else {
        arm_forms(arms.drop_last()).push(arm_form(arms.last()))
    }
}

/// An arm of a choice.
pub open spec fn arm_form(arm: MatchArm) -> Seq<char>
    decreases arm,
{
    shown::record_form(
        "MatchArm"@,
        seq![
            shown::field_form("patterns"@, shown::list_form(pattern_forms(arm.patterns@))),
            shown::field_form("result"@, expr_form(arm.result)),
            span_field(arm.span),
        ],
    )
}

/// A pattern.
pub open spec fn pattern_form(pattern: MatchPattern) -> Seq<char> {
    match pattern {
        MatchPattern::Else => "Else"@,
        MatchPattern::Variant(s) => shown::tuple_form("Variant"@, seq![shown::in_quotes(s@)]),
    }
}

/// The patterns of an arm, one by one.
pub open spec fn pattern_forms(patterns: Seq<MatchPattern>) -> Seq<Seq<char>> {
    Seq::new(patterns.len(), |i: int| pattern_form(patterns[i]))
}

/// A check against a type.
pub open spec fn check_form(check: AsExpr) -> Seq<char>
    decreases check,
{
    shown::record_form(
        "AsExpr"@,
        seq![
            shown::field_form("inner"@, expr_form(check.inner)),
            shown::field_form("target_type"@, name_form(check.target_type)),
            span_field(check.span),
        ],
    )
}

/// An expression.
pub fn show_expr(expr: &Expr) -> (r: String)
    ensures
        r@ == expr_form(*expr),
    decreases *expr,
{
    match expr {
        Expr::Var(name, span) => show_two("Var", quote(name.as_str()), show_range(span)),
        Expr::Blank(span) => show_one("Blank", show_range(span)),
        Expr::Query(query) => show_one("Query", show_query(query)),
        Expr::Add(add) => show_one("Add", show_add(add)),
        Expr::QName(name) => show_one("QName", show_name(name)),
        Expr::String(s, span) => show_two("String", quote(s.as_str()), show_range(span)),
        Expr::Bool(b, span) => show_two("Bool", text::truth_text(*b), show_range(span)),
        Expr::Empty(inner, span) => show_two("Empty", show_expr(inner), show_range(span)),
        Expr::Match(choice) => show_one("Match", show_choice(choice)),
        Expr::As(check) => show_one("As", show_check(check)),
    }
}

fn show_add(add: &AddExpr) -> (r: String)
    ensures
        r@ == add_form(*add),
    decreases *add,
{
    let fields: Vec<String> = vec![
        show_field("subject", show_expr(&add.subject).as_str()),
        show_field("predicate", show_name(&add.predicate).as_str()),
        show_field("object", show_expr(&add.object).as_str()),
        show_span(&add.span),
    ];
    assert(text::views(fields@) =~= seq![
        shown::field_form("subject"@, expr_form(add.subject)),
        shown::field_form("predicate"@, name_form(add.predicate)),
        shown::field_form("object"@, expr_form(add.object)),
        span_field(add.span),
    ]);
    show_record("AddExpr", &fields)
}

fn show_choice(choice: &MatchExpr) -> (r: String)
    ensures
        r@ == choice_form(*choice),
    decreases *choice,
{
    let arms = show_arms(&choice.arms);
    let fields: Vec<String> = vec![
        show_field("value", show_expr(&choice.value).as_str()),
        show_field("arms", show_list(&arms).as_str()),
        show_span(&choice.span),
    ];
    assert(text::views(fields@) =~= seq![
        shown::field_form("value"@, expr_form(choice.value)),
        shown::field_form("arms"@, shown::list_form(arm_forms(choice.arms@))),
        span_field(choice.span),
    ]);
    show_record("MatchExpr", &fields)
}

fn show_arms(arms: &Vec<MatchArm>) -> (r: Vec<String>)
    ensures
        text::views(r@) == arm_forms(arms@),
    decreases *arms,
{
    let mut forms: Vec<String> = Vec::new();
    assert(text::views(forms@) =~= arm_forms(arms@.take(0)));
    for i in 0..arms.len()
        invariant
            text::views(forms@) == arm_forms(arms@.take(i as int)),
    {
        assert(arms@.take(i + 1).drop_last() =~= arms@.take(i as int));
        let ghost before = text::views(forms@);
        let form = show_arm(&arms[i]);
        forms.push(form);
        assert(text::views(forms@) =~= before.push(form@));
    }
    assert(arms@.take(arms@.len() as int) =~= arms@);
    forms
}

fn show_arm(arm: &MatchArm) -> (r: String)
    ensures
        r@ == arm_form(*arm),
    decreases *arm,
{
    let patterns = show_patterns(&arm.patterns);
    let fields: Vec<String> = vec![
        show_field("patterns", show_list(&patterns).as_str()),
        show_field("result", show_expr(&arm.result).as_str()),
        show_span(&arm.span),
    ];
    assert(text::views(fields@) =~= seq![
        shown::field_form("patterns"@, shown::list_form(pattern_forms(arm.patterns@))),
        shown::field_form("result"@, expr_form(arm.result)),
        span_field(arm.span),
    ]);
    show_record("MatchArm", &fields)
}

fn show_patterns(patterns: &Vec<MatchPattern>) -> (r: Vec<String>)
    ensures
        text::views(r@) == pattern_forms(patterns@),
{
    let mut forms: Vec<String> = Vec::new();
    for i in 0..patterns.len()
        invariant
            forms.len() == i,
            forall|j: int| 0 <= j < i ==> (#[trigger] forms@[j])@ == pattern_form(patterns@[j]),
    {
        let form = match &patterns[i] {
            MatchPattern::Else => "Else".to_owned(),
            MatchPattern::Variant(s) => show_one("Variant", quote(s.as_str())),
        };
        forms.push(form);
    }
    assert(text::views(forms@) =~= pattern_forms(patterns@));
    forms
}

fn show_check(check: &AsExpr) -> (r: String)
    ensures
        r@ == check_form(*check),
    decreases *check,
{
    let fields: Vec<String> = vec![
        show_field("inner", show_expr(&check.inner).as_str()),
        show_field("target_type", show_name(&check.target_type).as_str()),
        show_span(&check.span),
    ];
    assert(text::views(fields@) =~= seq![
        shown::field_form("inner"@, expr_form(check.inner)),
        shown::field_form("target_type"@, name_form(check.target_type)),
        span_field(check.span),
    ]);
    show_record("AsExpr", &fields)
}

// ---------------------------------------------------------------------------
// Laws
// ---------------------------------------------------------------------------

/// Steps, conditions, arms, patterns and constants are shown one by one, each at its
/// place.
pub proof fn lemma_one_by_one(
    steps: Seq<QueryStep>,
    conditions: Seq<QueryPredicate>,
    arms: Seq<MatchArm>,
    patterns: Seq<MatchPattern>,
    literals: Seq<Literal>,
)
    ensures
        step_forms(steps).len() == steps.len(),
        forall|i: int| 0 <= i < steps.len() ==> #[trigger] step_forms(steps)[i] == step_form(steps[i]),
        condition_forms(conditions).len() == conditions.len(),
        forall|i: int|
            0 <= i < conditions.len() ==> #[trigger] condition_forms(conditions)[i]
                == condition_form(conditions[i]),
        arm_forms(arms).len() == arms.len(),
        forall|i: int| 0 <= i < arms.len() ==> #[trigger] arm_forms(arms)[i] == arm_form(arms[i]),
        pattern_forms(patterns).len() == patterns.len(),
        forall|i: int|
            0 <= i < patterns.len() ==> #[trigger] pattern_forms(patterns)[i] == pattern_form(
                patterns[i],
            ),
        literal_forms(literals).len() == literals.len(),
        forall|i: int|
            0 <= i < literals.len() ==> #[trigger] literal_forms(literals)[i] == literal_form(
                literals[i],
            ),
{
    lemma_step_forms(steps);
    lemma_condition_forms(conditions);
    lemma_arm_forms(arms);
}

proof fn lemma_step_forms(steps: Seq<QueryStep>)
    ensures
        step_forms(steps).len() == steps.len(),
        forall|i: int| 0 <= i < steps.len() ==> #[trigger] step_forms(steps)[i] == step_form(steps[i]),
    decreases steps.len(),
{
    if steps.len() > 0 {
        let rest = steps.drop_last();
        lemma_step_forms(rest);
        assert forall|i: int| 0 <= i < steps.len() implies #[trigger] step_forms(steps)[i]
            == step_form(steps[i]) by {
            if i < rest.len() {
                assert(step_forms(rest)[i] == step_form(rest[i]));
            }
        }
    }
}

proof fn lemma_condition_forms(conditions: Seq<QueryPredicate>)
    ensures
        condition_forms(conditions).len() == conditions.len(),
        forall|i: int|
            0 <= i < conditions.len() ==> #[trigger] condition_forms(conditions)[i]
                == condition_form(conditions[i]),
    decreases conditions.len(),
{
    if conditions.len() > 0 {
        let rest = conditions.drop_last();
        lemma_condition_forms(rest);
        assert forall|i: int| 0 <= i < conditions.len() implies #[trigger] condition_forms(
            conditions,
        )[i] == condition_form(conditions[i]) by {
            if i < rest.len() {
                assert(condition_forms(rest)[i] == condition_form(rest[i]));
            }
        }
    }
}

proof fn lemma_arm_forms(arms: Seq<MatchArm>)
    ensures
        arm_forms(arms).len() == arms.len(),
        forall|i: int| 0 <= i < arms.len() ==> #[trigger] arm_forms(arms)[i] == arm_form(arms[i]),
    decreases arms.len(),
{
    if arms.len() > 0 {
        let rest = arms.drop_last();
        lemma_arm_forms(rest);
        assert forall|i: int| 0 <= i < arms.len() implies #[trigger] arm_forms(arms)[i] == arm_form(
            arms[i],
        ) by {
            if i < rest.len() {
                assert(arm_forms(rest)[i] == arm_form(rest[i]));
            }
        }
    }
}

proof fn lemma_field_in(
    name: Seq<char>,
    fields: Seq<Seq<char>>,
    i: int,
    field: Seq<char>,
    value: Seq<char>,
)
    requires
        0 <= i < fields.len(),
        fields[i] == shown::field_form(field, value),
    ensures
        text::has_part(shown::record_form(name, fields), value),
{
    shown::lemma_items_are_shown(name, fields, i);
    shown::lemma_field(field, value);
    text::lemma_part_of_part(shown::record_form(name, fields), fields[i], value);
}

proof fn lemma_item_in(
    name: Seq<char>,
    fields: Seq<Seq<char>>,
    i: int,
    field: Seq<char>,
    items: Seq<Seq<char>>,
    k: int,
)
    requires
        0 <= i < fields.len(),
        0 <= k < items.len(),
        fields[i] == shown::field_form(field, shown::list_form(items)),
    ensures
        text::has_part(shown::record_form(name, fields), items[k]),
{
    lemma_field_in(name, fields, i, field, shown::list_form(items));
    shown::lemma_items_are_shown(name, items, k);
    text::lemma_part_of_part(
        shown::record_form(name, fields),
        shown::list_form(items),
        items[k],
    );
}

/// A path shows each of its steps; a step shows its direction, the name that it
/// asks for, and each of its conditions.
pub proof fn lemma_path_is_shown(path: QueryPath, step: QueryStep, i: int)
    ensures
        0 <= i < path.steps@.len() ==> text::has_part(path_form(path), step_form(path.steps@[i])),
        text::has_part(step_form(step), axis_form(step.axis)),
        text::has_part(step_form(step), test_form(step.node_test)),
        step.node_test is Some ==> text::has_part(
            test_form(step.node_test),
            name_form(step.node_test->0),
        ),
        0 <= i < step.predicates@.len() ==> text::has_part(
            step_form(step),
            condition_form(step.predicates@[i]),
        ),
{
    lemma_step_forms(path.steps@);
    lemma_condition_forms(step.predicates@);
    if 0 <= i < path.steps@.len() {
        let fields = seq![
            shown::field_form("steps"@, shown::list_form(step_forms(path.steps@))),
            span_field(path.span),
        ];
        assert(step_forms(path.steps@)[i] == step_form(path.steps@[i]));
        lemma_item_in("QueryPath"@, fields, 0, "steps"@, step_forms(path.steps@), i);
    }
    let fields = seq![
        shown::field_form("axis"@, axis_form(step.axis)),
        shown::field_form("node_test"@, test_form(step.node_test)),
        shown::field_form("predicates"@, shown::list_form(condition_forms(step.predicates@))),
        span_field(step.span),
    ];
    lemma_field_in("QueryStep"@, fields, 0, "axis"@, axis_form(step.axis));
    lemma_field_in("QueryStep"@, fields, 1, "node_test"@, test_form(step.node_test));
    if 0 <= i < step.predicates@.len() {
        assert(condition_forms(step.predicates@)[i] == condition_form(step.predicates@[i]));
        lemma_item_in(
            "QueryStep"@,
            fields,
            2,
            "predicates"@,
            condition_forms(step.predicates@),
            i,
        );
    }
    if let Some(name) = step.node_test {
        shown::lemma_items_are_shown("Some"@, seq![name_form(name)], 0);
    }
}

/// A condition shows its path and each of its constants.
pub proof fn lemma_condition_is_shown(condition: QueryPredicate, i: int)
    ensures
        match condition {
            QueryPredicate::Eq(path, literal) => text::has_part(
                condition_form(condition),
                path_form(path),
            ) && text::has_part(condition_form(condition), literal_form(literal)),
            QueryPredicate::In(path, literals) => text::has_part(
                condition_form(condition),
                path_form(path),
            ) && (0 <= i < literals@.len() ==> text::has_part(
                condition_form(condition),
                literal_form(literals@[i]),
            )),
            QueryPredicate::Exists(path) => text::has_part(
                condition_form(condition),
                path_form(path),
            ),
        },
{
    match condition {
        QueryPredicate::Eq(path, literal) => {
            let items = seq![path_form(path), literal_form(literal)];
            shown::lemma_items_are_shown("Eq"@, items, 0);
            shown::lemma_items_are_shown("Eq"@, items, 1);
        },
        QueryPredicate::In(path, literals) => {
            let list = shown::list_form(literal_forms(literals@));
            let items = seq![path_form(path), list];
            shown::lemma_items_are_shown("In"@, items, 0);
            shown::lemma_items_are_shown("In"@, items, 1);
            if 0 <= i < literals@.len() {
                shown::lemma_items_are_shown("In"@, literal_forms(literals@), i);
                assert(literal_forms(literals@)[i] == literal_form(literals@[i]));
                text::lemma_part_of_part(
                    condition_form(condition),
                    list,
                    literal_form(literals@[i]),
                );
            }
        },
        QueryPredicate::Exists(path) => {
            shown::lemma_items_are_shown("Exists"@, seq![path_form(path)], 0);
        },
    }
}

/// An `add` shows its subject, its predicate and its object.
pub proof fn lemma_add_is_shown(add: AddExpr)
    ensures
        text::has_part(add_form(add), expr_form(add.subject)),
        text::has_part(add_form(add), name_form(add.predicate)),
        text::has_part(add_form(add), expr_form(add.object)),
{
    let fields = seq![
        shown::field_form("subject"@, expr_form(add.subject)),
        shown::field_form("predicate"@, name_form(add.predicate)),
        shown::field_form("object"@, expr_form(add.object)),
        span_field(add.span),
    ];
    lemma_field_in("AddExpr"@, fields, 0, "subject"@, expr_form(add.subject));
    lemma_field_in("AddExpr"@, fields, 1, "predicate"@, name_form(add.predicate));
    lemma_field_in("AddExpr"@, fields, 2, "object"@, expr_form(add.object));
}

/// A choice shows what it is made on and each of its arms; an arm shows its result
/// and each of its patterns.
pub proof fn lemma_choice_is_shown(choice: MatchExpr, arm: MatchArm, i: int)
    ensures
        text::has_part(choice_form(choice), expr_form(choice.value)),
        0 <= i < choice.arms@.len() ==> text::has_part(
            choice_form(choice),
            arm_form(choice.arms@[i]),
        ),
        text::has_part(arm_form(arm), expr_form(arm.result)),
        0 <= i < arm.patterns@.len() ==> text::has_part(
            arm_form(arm),
            pattern_form(arm.patterns@[i]),
        ),
{
    lemma_arm_forms(choice.arms@);
    let fields = seq![
        shown::field_form("value"@, expr_form(choice.value)),
        shown::field_form("arms"@, shown::list_form(arm_forms(choice.arms@))),
        span_field(choice.span),
    ];
    lemma_field_in("MatchExpr"@, fields, 0, "value"@, expr_form(choice.value));
    if 0 <= i < choice.arms@.len() {
        assert(arm_forms(choice.arms@)[i] == arm_form(choice.arms@[i]));
        lemma_item_in("MatchExpr"@, fields, 1, "arms"@, arm_forms(choice.arms@), i);
    }
    let fields = seq![
        shown::field_form("patterns"@, shown::list_form(pattern_forms(arm.patterns@))),
        shown::field_form("result"@, expr_form(arm.result)),
        span_field(arm.span),
    ];
    lemma_field_in("MatchArm"@, fields, 1, "result"@, expr_form(arm.result));
    if 0 <= i < arm.patterns@.len() {
        lemma_item_in("MatchArm"@, fields, 0, "patterns"@, pattern_forms(arm.patterns@), i);
    }
}

/// A check shows what is checked and the type that it is checked against.
pub proof fn lemma_check_is_shown(check: AsExpr)
    ensures
        text::has_part(check_form(check), expr_form(check.inner)),
        text::has_part(check_form(check), name_form(check.target_type)),
{
    let fields = seq![
        shown::field_form("inner"@, expr_form(check.inner)),
        shown::field_form("target_type"@, name_form(check.target_type)),
        span_field(check.span),
    ];
    lemma_field_in("AsExpr"@, fields, 0, "inner"@, expr_form(check.inner));
    lemma_field_in("AsExpr"@, fields, 1, "target_type"@, name_form(check.target_type));
}

/// An expression shows what it is made of.
pub proof fn lemma_expression_is_shown(e: Expr)
    ensures
        match e {
            Expr::Var(name, _) => text::has_part(expr_form(e), shown::in_quotes(name@)),
            Expr::Blank(span) => text::has_part(expr_form(e), shown::range_form(span)),
            Expr::Query(query) => text::has_part(expr_form(e), path_form(query.path)),
            Expr::Add(add) => text::has_part(expr_form(e), add_form(*add)),
            Expr::QName(name) => text::has_part(expr_form(e), name_form(name)),
            Expr::String(s, _) => text::has_part(expr_form(e), shown::in_quotes(s@)),
            Expr::Bool(b, _) => text::has_part(expr_form(e), text::truth(b)),
            Expr::Empty(inner, _) => text::has_part(expr_form(e), expr_form(*inner)),
            Expr::Match(choice) => text::has_part(expr_form(e), choice_form(*choice)),
            Expr::As(check) => text::has_part(expr_form(e), check_form(*check)),
        },
{
    match e {
        Expr::Var(name, span) => {
            shown::lemma_items_are_shown(
                "Var"@,
                seq![shown::in_quotes(name@), shown::range_form(span)],
                0,
            );
        },
        Expr::Blank(span) => {
            shown::lemma_items_are_shown("Blank"@, seq![shown::range_form(span)], 0);
        },
        Expr::Query(query) => {
            shown::lemma_items_are_shown("Query"@, seq![query_form(query)], 0);
            let fields = seq![
                shown::field_form("path"@, path_form(query.path)),
                span_field(query.span),
            ];
            lemma_field_in("QueryExpr"@, fields, 0, "path"@, path_form(query.path));
            text::lemma_part_of_part(expr_form(e), query_form(query), path_form(query.path));
        },
        Expr::Add(add) => {
            shown::lemma_items_are_shown("Add"@, seq![add_form(*add)], 0);
        },
        Expr::QName(name) => {
            shown::lemma_items_are_shown("QName"@, seq![name_form(name)], 0);
        },
        Expr::String(s, span) => {
            shown::lemma_items_are_shown(
                "String"@,
                seq![shown::in_quotes(s@), shown::range_form(span)],
                0,
            );
        },
        Expr::Bool(b, span) => {
            shown::lemma_items_are_shown(
                "Bool"@,
                seq![text::truth(b), shown::range_form(span)],
                0,
            );
        },
        Expr::Empty(inner, span) => {
            shown::lemma_items_are_shown(
                "Empty"@,
                seq![expr_form(*inner), shown::range_form(span)],
                0,
            );
        },
        Expr::Match(choice) => {
            shown::lemma_items_are_shown("Match"@, seq![choice_form(*choice)], 0);
        },
        Expr::As(check) => {
            shown::lemma_items_are_shown("As"@, seq![check_form(*check)], 0);
        },
    }
}

/// A name shows both of its parts.
pub proof fn lemma_name_is_shown(name: QualifiedName)
    ensures
        text::has_part(name_form(name), shown::in_quotes(name.name@)),
        name.namespace is Some ==> text::has_part(
            name_form(name),
            shown::in_quotes(name.namespace->0@),
        ),
{
    let fields = seq![
        shown::field_form("namespace"@, text_form(name.namespace)),
        shown::field_form("name"@, shown::in_quotes(name.name@)),
        span_field(name.span),
    ];
    lemma_field_in("QualifiedName"@, fields, 1, "name"@, shown::in_quotes(name.name@));
    lemma_field_in("QualifiedName"@, fields, 0, "namespace"@, text_form(name.namespace));
    if let Some(ns) = name.namespace {
        shown::lemma_items_are_shown("Some"@, seq![shown::in_quotes(ns@)], 0);
        text::lemma_part_of_part(
            name_form(name),
            text_form(name.namespace),
            shown::in_quotes(ns@),
        );
    }
}

} // verus!
