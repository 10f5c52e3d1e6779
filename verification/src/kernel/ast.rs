//! The syntax of intents: queries, expressions, statements, rules and derives.

use vstd::prelude::*;

use crate::text;

verus! {

/// Where a piece of syntax stands in its source text.
pub type Span = std::ops::Range<usize>;

/// How binding an obligation is.
#[derive(Debug, Clone, Copy, PartialEq, Eq, Structural)]
pub enum Modal {
    Must,
    Should,
    May,
}

/// A name, with the namespace that it is written in.
#[derive(Debug)]
pub struct QualifiedName {
    pub namespace: Option<String>,
    pub name: String,
    pub span: Span,
}

impl QualifiedName {
    /// The name as it is written: `namespace:name`, or the bare name.
    pub open spec fn text(self) -> Seq<char> {
        match self.namespace {
            Some(ns) => ns@ + ":"@ + self.name@,
            None => self.name@,
        }
    }

    /// The name as it is written: `namespace:name`, or the bare name.
    pub fn to_text(&self) -> (r: String)
        ensures
            r@ == self.text(),
    {
        match &self.namespace {
            Some(ns) => text::cat3(ns.as_str(), ":", self.name.as_str()),
            None => self.name.clone(),
        }
    }
}

/// In which direction a step goes.
#[derive(Debug, Clone, Copy, PartialEq, Eq, Structural)]
pub enum Axis {
    Child,
    Descendant,
    DescendantOrSelf,
}

/// A constant in a query.
#[derive(Debug)]
pub enum Literal {
    String(String),
    Number(i64),
    Bool(bool),
}

impl Literal {
    /// The constant as text.
    pub open spec fn text(self) -> Seq<char> {
        match self {
            Literal::String(s) => s@,
            Literal::Number(n) => text::signed_decimal(n as int),
            Literal::Bool(b) => text::truth(b),
        }
    }
}

/// A condition on a node.
#[derive(Debug)]
pub enum QueryPredicate {
    /// The path leads to the constant.
    Eq(QueryPath, Literal),
    /// The path leads to one of the constants.
    In(QueryPath, Vec<Literal>),
    /// The path leads to some literal.
    Exists(QueryPath),
}

/// A step of a path.
#[derive(Debug)]
pub struct QueryStep {
    pub axis: Axis,
    pub node_test: Option<QualifiedName>,
    pub predicates: Vec<QueryPredicate>,
    pub span: Span,
}

/// A path through the graph.
#[derive(Debug)]
pub struct QueryPath {
    pub steps: Vec<QueryStep>,
    pub span: Span,
}

#[derive(Debug)]
pub struct QueryExpr {
    pub path: QueryPath,
    pub span: Span,
}

/// An expression.
#[derive(Debug)]
pub enum Expr {
    Var(String, Span),
    Blank(Span),
    Query(QueryExpr),
    Add(Box<AddExpr>),
    QName(QualifiedName),
    String(String, Span),
    Bool(bool, Span),
    Empty(Box<Expr>, Span),
    Match(Box<MatchExpr>),
    As(Box<AsExpr>),
}

/// `add(subject, predicate, object)`, with the subject as its value.
#[derive(Debug)]
pub struct AddExpr {
    pub subject: Expr,
    pub predicate: QualifiedName,
    pub object: Expr,
    pub span: Span,
}

/// A choice by the text of a value.
#[derive(Debug)]
pub struct MatchExpr {
    pub value: Expr,
    pub arms: Vec<MatchArm>,
    pub span: Span,
}

#[derive(Debug)]
pub struct MatchArm {
    pub patterns: Vec<MatchPattern>,
    pub result: Expr,
    pub span: Span,
}

#[derive(Debug)]
pub enum MatchPattern {
    Else,
    Variant(String),
}

/// A value, checked against the variants of a type.
#[derive(Debug)]
pub struct AsExpr {
    pub inner: Expr,
    pub target_type: QualifiedName,
    pub span: Span,
}

/// A statement of a rule or derive.
#[derive(Debug)]
pub enum Statement {
    Let(LetStmt),
    Add(AddStmt),
    For(ForStmt),
    If(IfStmt),
    Assert(AssertStmt),
    Modal(ModalStmt),
}

#[derive(Debug)]
pub struct LetStmt {
    pub name: String,
    pub value: Expr,
    pub span: Span,
}

#[derive(Debug)]
pub struct AddStmt {
    pub subject: Expr,
    pub predicate: QualifiedName,
    pub object: Expr,
    pub span: Span,
}

#[derive(Debug)]
pub struct ForStmt {
    pub var: String,
    pub collection: Expr,
    pub body: Vec<Statement>,
    pub span: Span,
}

#[derive(Debug)]
pub struct IfStmt {
    pub condition: Expr,
    pub then_body: Vec<Statement>,
    pub else_body: Option<Vec<Statement>>,
    pub span: Span,
}

#[derive(Debug)]
pub struct AssertStmt {
    pub expr: Expr,
    pub span: Span,
}

/// An obligation, with what to report where it is not met.
#[derive(Debug)]
pub struct ModalStmt {
    pub modal: Modal,
    pub expr: Expr,
    pub metadata: Option<ModalMetadata>,
    pub span: Span,
}

#[derive(Debug)]
pub struct ModalMetadata {
    pub subject: Option<Expr>,
    pub area: Option<QualifiedName>,
    pub message: Option<String>,
}

/// A rule: it looks at the graph and reports findings.
#[derive(Debug)]
pub struct Rule {
    pub name: String,
    pub body: Vec<Statement>,
    pub span: Span,
}

/// A derive: it adds to the graph.
#[derive(Debug)]
pub struct Derive {
    pub name: String,
    pub body: Vec<Statement>,
    pub span: Span,
}

/// A name as it is written has its namespace in front of the last colon and the
/// name behind it.
pub proof fn lemma_name_as_written(name: QualifiedName)
    requires
        !name.name@.contains(':'),
    ensures
        text::local_part(name.text()) == name.name@,
        name.namespace is Some ==> text::namespace_part(name.text()) == Some(name.namespace->0@),
        name.namespace is None ==> text::namespace_part(name.text()) is None,
{
    reveal_strlit(":");
    let s = name.text();
    text::lemma_name_parts(s);
    if let Some(ns) = name.namespace {
        let at = ns@.len() as int;
        assert(s[at] == ':');
        assert(text::namespace_part(s) is Some) by {
            assert(s.contains(':'));
        }
        let front = text::namespace_part(s)->0;
        let local = text::local_part(s);
        let k = front.len() as int;
        assert(s == front + seq![':'] + local);
        assert(s[k] == ':');
        if k < at {
            assert(local[at - k - 1] == s[at]);
            assert(local.contains(':'));
        }
        if k > at {
            assert(name.name@[k - at - 1] == s[k]);
            assert(name.name@.contains(':'));
        }
        assert(front =~= ns@) by {
            assert forall|i: int| 0 <= i < at implies front[i] == ns@[i] by {
                assert(s[i] == front[i]);
                assert(s[i] == ns@[i]);
            }
        }
        assert(local =~= name.name@) by {
            assert forall|i: int| 0 <= i < local.len() implies local[i] == name.name@[i] by {
                assert(s[k + 1 + i] == local[i]);
            }
        }
    }
}

/// A constant is written as its text, as a number in decimal notation, or as a truth
/// value.
pub proof fn lemma_constants(literal: Literal)
    ensures
        literal is String ==> literal.text() == literal->String_0@,
        literal is Number && literal->Number_0 >= 0 ==> text::read_decimal(literal.text())
            == literal->Number_0,
        literal is Number && literal->Number_0 < 0 ==> literal.text()[0] == '-'
            && text::read_decimal(literal.text().skip(1)) == -literal->Number_0,
        literal is Bool ==> (literal.text() == "true"@ <==> literal->Bool_0),
        literal is Bool ==> (literal.text() == "false"@ <==> !literal->Bool_0),
{
    reveal_strlit("true");
    reveal_strlit("false");
    assert("true"@.len() == 4 && "false"@.len() == 5);
    if let Literal::Number(n) = literal {
        text::lemma_signed_decimal(n as int);
    }
}

} // verus!
