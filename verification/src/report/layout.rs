//! Markers, prefixes and lines.

use vstd::prelude::*;

use crate::kernel::analysis::AssertSeverity;
use crate::report::paint;
use crate::text;

verus! {

/// How something went.
#[derive(Debug, Clone, Copy, PartialEq, Eq, Structural)]
pub enum Status {
    Pass,
    Warn,
    Fail,
    Blocked,
    Info,
}

/// How a finding is shown.
pub open spec fn severity_status(severity: AssertSeverity) -> Status {
    match severity {
        AssertSeverity::Error => Status::Fail,
        AssertSeverity::Warning => Status::Warn,
        AssertSeverity::Info => Status::Pass,
    }
}

impl From<AssertSeverity> for Status {
    fn from(severity: AssertSeverity) -> (r: Self) {
        match severity {
            AssertSeverity::Error => Status::Fail,
            AssertSeverity::Warning => Status::Warn,
            AssertSeverity::Info => Status::Pass,
        }
    }
}

impl vstd::std_specs::convert::FromSpecImpl<AssertSeverity> for Status {
    open spec fn obeys_from_spec() -> bool {
        true
    }

    open spec fn from_spec(severity: AssertSeverity) -> Status {
        severity_status(severity)
    }
}

/// What a node of the graph is.
#[derive(Debug, Clone, Copy, PartialEq, Eq, Structural)]
pub enum GraphNodeKind {
    Workload,
    Run,
    Store,
    Move,
    Evidence,
    Template,
    Resource,
    Parameter,
    PseudoParameter,
    Output,
    Ref,
    GetAtt,
    Sub,
    Intrinsic,
    Blank,
    Entity,
}

// ---------------------------------------------------------------------------
// What lines look like
// ---------------------------------------------------------------------------

/// The sign of a status.
pub open spec fn status_sign(status: Status) -> Seq<char> {
    match status {
        Status::Pass => "✓"@,
        Status::Warn => "⚠"@,
        Status::Fail => "✗"@,
        Status::Blocked => "•"@,
        Status::Info => "ℹ"@,
    }
}

/// The marker of a status: its sign, with colour on a terminal.
pub open spec fn status_marker(interactive: bool, status: Status) -> Seq<char> {
    let sign = status_sign(status);
    if !interactive {
        sign
    } else {
        match status {
            Status::Pass => paint::painted("\x1b[32m"@, sign, "\x1b[39m"@),
            Status::Warn => paint::painted("\x1b[33m"@, sign, "\x1b[39m"@),
            Status::Fail => paint::painted("\x1b[31m"@, sign, "\x1b[39m"@),
            Status::Blocked => paint::painted("\x1b[2m"@, sign, "\x1b[0m"@),
            Status::Info => paint::painted("\x1b[34m"@, sign, "\x1b[39m"@),
        }
    }
}

/// The marker of a kind of node: a sign on a terminal, else nothing.
pub open spec fn kind_marker(interactive: bool, kind: GraphNodeKind) -> Seq<char> {
    if !interactive {
        seq![]
    } else {
        match kind {
            GraphNodeKind::Workload => paint::painted("\x1b[94m"@, "◎"@, "\x1b[39m"@),
            GraphNodeKind::Run => paint::painted("\x1b[91m"@, "●"@, "\x1b[39m"@),
            GraphNodeKind::Store => paint::painted("\x1b[94m"@, "■"@, "\x1b[39m"@),
            GraphNodeKind::Move => paint::painted("\x1b[95m"@, "▶"@, "\x1b[39m"@),
            GraphNodeKind::Evidence => paint::painted("\x1b[93m"@, "◌"@, "\x1b[39m"@),
            GraphNodeKind::Template => "📦"@,
            GraphNodeKind::Resource => "🧱"@,
            GraphNodeKind::Parameter => "⚙"@,
            GraphNodeKind::PseudoParameter => "🔧"@,
            GraphNodeKind::Output => "📤"@,
            GraphNodeKind::Ref => "🔗"@,
            GraphNodeKind::GetAtt => "📎"@,
            GraphNodeKind::Sub => "🧩"@,
            GraphNodeKind::Intrinsic => paint::painted("\x1b[96m"@, "ƒ"@, "\x1b[39m"@),
            GraphNodeKind::Blank => paint::painted("\x1b[2m"@, "•"@, "\x1b[0m"@),
            GraphNodeKind::Entity => paint::painted("\x1b[2m"@, "·"@, "\x1b[0m"@),
        }
    }
}

/// What joins a node to its prefix.
pub open spec fn branch(prefix: Seq<char>, is_last: bool) -> Seq<char> {
    if prefix.len() == 0 {
        ""@
    } else if is_last {
        "└─ "@
    } else {
        "├─ "@
    }
}

/// What stands before the detail of a node.
pub open spec fn detail_prefix(prefix: Seq<char>, is_last: bool) -> Seq<char> {
    if prefix.len() == 0 {
        "   "@
    } else if is_last {
        prefix + "   "@
    } else {
        prefix + "│  "@
    }
}

/// The prefix of what stands below a node.
pub open spec fn prefix_below(prefix: Seq<char>, is_last: bool) -> Seq<char> {
    if prefix.len() == 0 {
        if is_last {
            "   "@
        } else {
            "│  "@
        }
    } else if is_last {
        prefix + "   "@
    } else {
        prefix + "│  "@
    }
}

/// Lines, each with a prefix.
pub open spec fn with_prefix(prefix: Seq<char>, lines: Seq<Seq<char>>) -> Seq<Seq<char>> {
    Seq::new(lines.len(), |i: int| prefix + lines[i])
}

/// How many columns are left for a text beside a prefix, at least 20.
pub open spec fn room(width: nat, prefix: Seq<char>) -> nat {
    let used = paint::columns(prefix);
    if width >= used + 20 {
        (width - used) as nat
    } else {
        20
    }
}

/// The paragraphs among some pieces of a text: those that are not blank, without
/// the white space around them.
pub open spec fn not_blank(pieces: Seq<Seq<char>>) -> Seq<Seq<char>>
    decreases pieces.len(),
{
    if pieces.len() == 0 {
        seq![]
    } else {
        let rest = not_blank(pieces.drop_last());
        let piece = text::trimmed(pieces.last());
        if piece.len() == 0 {
            rest
        } else {
            rest.push(piece)
        }
    }
}

/// The lines of the first paragraphs of a block of `total`, each but the last of
/// the block followed by an empty line.
pub open spec fn paragraph_lines(
    prefix: Seq<char>,
    width: nat,
    paragraphs: Seq<Seq<char>>,
    total: nat,
) -> Seq<Seq<char>>
    decreases paragraphs.len(),
{
    if paragraphs.len() == 0 {
        seq![]
    } else {
        let lines = paragraph_lines(prefix, width, paragraphs.drop_last(), total) + with_prefix(
            prefix,
            paint::wrapped(paragraphs.last(), room(width, prefix)),
        );
        if paragraphs.len() == total {
            lines
        } else {
            lines.push(prefix)
        }
    }
}

/// The lines of a block of text: its paragraphs, broken to fit.
pub open spec fn block_lines(prefix: Seq<char>, width: nat, s: Seq<char>) -> Seq<Seq<char>> {
    let paragraphs = not_blank(text::pieces(s, "\n\n"@));
    paragraph_lines(prefix, width, paragraphs, paragraphs.len())
}

/// The lines of a node: its marker and label, then its detail.
pub open spec fn node_lines(
    width: nat,
    prefix: Seq<char>,
    is_last: bool,
    marker: Seq<char>,
    label: Seq<char>,
    detail: Option<Seq<char>>,
) -> Seq<Seq<char>> {
    let start = prefix + branch(prefix, is_last);
    let first = if marker.len() == 0 {
        start + label
    } else {
        start + marker + " "@ + label
    };
    match detail {
        Some(s) => seq![first] + block_lines(detail_prefix(prefix, is_last), width, s),
        None => seq![first],
    }
}

/// The lines of a heading: an empty one, the title, and a rule as long as the
/// title in bytes.
pub open spec fn section_lines(title: Seq<char>) -> Seq<Seq<char>> {
    seq![
        seq![],
        title,
        text::repeated("-"@, (vstd::utf8::encode_utf8(title).len() as usize) as nat),
    ]
}

// ---------------------------------------------------------------------------
// The reporter
// ---------------------------------------------------------------------------

/// A copy of a view of an optional text.
pub open spec fn detail_view(detail: Option<&str>) -> Option<Seq<char>> {
    match detail {
        Some(s) => Some(s@),
        None => None,
    }
}

/// Lays out what a check shows.
#[derive(Debug, Clone, Copy)]
pub struct Reporter {
    /// Whether the output is a terminal.
    pub interactive: bool,
    /// How many columns a line has.
    pub width: usize,
}

impl Reporter {
    /// A reporter for a terminal of some width, or for no terminal.
    pub fn new(interactive: bool, terminal_width: Option<u16>) -> (r: Self)
        ensures
            r.interactive == interactive,
            r.width == (match terminal_width {
                Some(w) => w as usize,
                None => 100,
            }),
    {
        let width: usize = match terminal_width {
            Some(w) => w as usize,
            None => 100,
        };
        Reporter { interactive, width }
    }

    /// A heading.
    pub fn section(&self, title: &str) -> (r: Vec<String>)
        ensures
            text::views(r@) == section_lines(title@),
    {
        let rule = text::repeat_text("-", title.len());
        let r: Vec<String> = vec![String::new(), title.to_owned(), rule];
        assert(r@[0]@ =~= seq![]);
        assert(text::views(r@) =~= section_lines(title@));
        r
    }

    /// A step of the preparation.
    pub fn prepare(&self, status: Status, label: &str, detail: Option<&str>) -> (r: Vec<String>)
        ensures
            text::views(r@) == node_lines(
                self.width as nat,
                ""@,
                true,
                status_marker(self.interactive, status),
                label@,
                detail_view(detail),
            ),
    {
        self.status_node("", true, status, label, detail)
    }

    /// A node of a tree of results.
    pub fn tree(&self, prefix: &str, is_last: bool, status: Status, label: &str, detail: Option<&str>) -> (r:
        Vec<String>)
        ensures
            text::views(r@) == node_lines(
                self.width as nat,
                prefix@,
                is_last,
                status_marker(self.interactive, status),
                label@,
                detail_view(detail),
            ),
    {
        self.status_node(prefix, is_last, status, label, detail)
    }

    /// A node of a tree of entities.
    pub fn graph_tree(
        &self,
        prefix: &str,
        is_last: bool,
        kind: GraphNodeKind,
        label: &str,
        detail: Option<&str>,
    ) -> (r: Vec<String>)
        ensures
            text::views(r@) == node_lines(
                self.width as nat,
                prefix@,
                is_last,
                kind_marker(self.interactive, kind),
                label@,
                detail_view(detail),
            ),
    {
        self.node(prefix, is_last, self.graph_marker(kind).as_str(), label, detail)
    }

    fn status_node(&self, prefix: &str, is_last: bool, status: Status, label: &str, detail: Option<&str>) -> (r:
        Vec<String>)
        ensures
            text::views(r@) == node_lines(
                self.width as nat,
                prefix@,
                is_last,
                status_marker(self.interactive, status),
                label@,
                detail_view(detail),
            ),
    {
        self.node(prefix, is_last, self.marker(status).as_str(), label, detail)
    }

    /// A node with a marker, a label and a detail.
    fn node(&self, prefix: &str, is_last: bool, marker: &str, label: &str, detail: Option<&str>) -> (r:
        Vec<String>)
        ensures
            text::views(r@) == node_lines(
                self.width as nat,
                prefix@,
                is_last,
                marker@,
                label@,
                detail_view(detail),
            ),
    {
        let joint = if text::is_empty(prefix) {
            ""
        } else if is_last {
            "└─ "
        } else {
            "├─ "
        };
        let start = text::cat2(prefix, joint);
        let below = if text::is_empty(prefix) {
            "   ".to_owned()
        } else if is_last {
            text::cat2(prefix, "   ")
        } else {
            text::cat2(prefix, "│  ")
        };
        let first = if text::is_empty(marker) {
            text::cat2(start.as_str(), label)
        } else {
            text::cat4(start.as_str(), marker, " ", label)
        };
        let ghost line = first@;
        let mut lines: Vec<String> = vec![first];
        assert(text::views(lines@) =~= seq![line]);
        if let Some(s) = detail {
            let more = self.write_wrapped_block(below.as_str(), s);
            append_lines(&mut lines, more);
        }
        lines
    }

    /// The prefix of what stands below a node.
    pub fn child_prefix(prefix: &str, is_last: bool) -> (r: String)
        ensures
            r@ == prefix_below(prefix@, is_last),
    {
        if text::is_empty(prefix) {
            if is_last {
                "   ".to_owned()
            } else {
                "│  ".to_owned()
            }
        } else if is_last {
            text::cat2(prefix, "   ")
        } else {
            text::cat2(prefix, "│  ")
        }
    }

    /// The paragraphs of a text: its blocks between empty lines that are not
    /// blank.
    fn paragraphs(&self, s: &str) -> (r: Vec<String>)
        ensures
            text::views(r@) == not_blank(text::pieces(s@, "\n\n"@)),
    {
        proof {
            reveal_strlit("\n\n");
        }
        let pieces = text::split_text(s, "\n\n");
        let ghost all = text::views(pieces@);
        let mut out: Vec<String> = Vec::new();
        assert(text::views(out@) =~= seq![]);
        for i in 0..pieces.len()
            invariant
                all == text::views(pieces@),
                text::views(out@) == not_blank(all.take(i as int)),
        {
            let ghost before = text::views(out@);
            assert(all.take(i + 1).drop_last() =~= all.take(i as int));
            let piece = text::trim_text(pieces[i].as_str());
            let ghost trimmed = piece@;
            if !text::is_empty(piece.as_str()) {
                out.push(piece);
                assert(text::views(out@) =~= before.push(trimmed));
            }
        }
        assert(all.take(all.len() as int) =~= all);
        out
    }

    /// A text below a prefix, broken to fit.
    fn write_wrapped_block(&self, prefix: &str, s: &str) -> (r: Vec<String>)
        ensures
            text::views(r@) == block_lines(prefix@, self.width as nat, s@),
    {
        let paragraphs = self.paragraphs(s);
        let ghost all = text::views(paragraphs@);
        let ghost total = all.len();
        let used: usize = paint::width(prefix);
        let available: usize = if self.width >= used {
            self.width - used
        } else {
            0
        };
        let columns: usize = if available >= 20 {
            available
        } else {
            20
        };
        let mut lines: Vec<String> = Vec::new();
        assert(text::views(lines@) =~= seq![]);
        for i in 0..paragraphs.len()
            invariant
                all == text::views(paragraphs@),
                total == all.len(),
                columns == room(self.width as nat, prefix@),
                text::views(lines@) == paragraph_lines(
                    prefix@,
                    self.width as nat,
                    all.take(i as int),
                    total,
                ),
        {
            assert(all.take(i + 1).drop_last() =~= all.take(i as int));
            let broken = paint::wrap(paragraphs[i].as_str(), columns);
            append_prefixed(&mut lines, prefix, &broken);
            if i + 1 != paragraphs.len() {
                let ghost before = text::views(lines@);
                lines.push(prefix.to_owned());
                assert(text::views(lines@) =~= before.push(prefix@));
            }
        }
        assert(all.take(all.len() as int) =~= all);
        lines
    }

    /// The marker of a status.
    fn marker(&self, status: Status) -> (r: String)
        ensures
            r@ == status_marker(self.interactive, status),
    {
        let sign = match status {
            Status::Pass => "✓",
            Status::Warn => "⚠",
            Status::Fail => "✗",
            Status::Blocked => "•",
            Status::Info => "ℹ",
        };
        if !self.interactive {
            return sign.to_owned();
        }
        match status {
            Status::Pass => paint::green(sign),
            Status::Warn => paint::yellow(sign),
            Status::Fail => paint::red(sign),
            Status::Blocked => paint::dimmed(sign),
            Status::Info => paint::blue(sign),
        }
    }

    /// The marker of a kind of node.
    fn graph_marker(&self, kind: GraphNodeKind) -> (r: String)
        ensures
            r@ == kind_marker(self.interactive, kind),
    {
        if !self.interactive {
            let r = String::new();
            assert(r@ =~= seq![]);
            return r;
        }
        match kind {
            GraphNodeKind::Workload => paint::bright_blue("◎"),
            GraphNodeKind::Run => paint::bright_red("●"),
            GraphNodeKind::Store => paint::bright_blue("■"),
            GraphNodeKind::Move => paint::bright_magenta("▶"),
            GraphNodeKind::Evidence => paint::bright_yellow("◌"),
            GraphNodeKind::Template => "📦".to_owned(),
            GraphNodeKind::Resource => "🧱".to_owned(),
            GraphNodeKind::Parameter => "⚙".to_owned(),
            GraphNodeKind::PseudoParameter => "🔧".to_owned(),
            GraphNodeKind::Output => "📤".to_owned(),
            GraphNodeKind::Ref => "🔗".to_owned(),
            GraphNodeKind::GetAtt => "📎".to_owned(),
            GraphNodeKind::Sub => "🧩".to_owned(),
            GraphNodeKind::Intrinsic => paint::bright_cyan("ƒ"),
            GraphNodeKind::Blank => paint::dimmed("•"),
            GraphNodeKind::Entity => paint::dimmed("·"),
        }
    }
}

/// Puts lines behind others.
pub fn append_lines(lines: &mut Vec<String>, more: Vec<String>)
    ensures
        text::views(final(lines)@) == text::views(old(lines)@) + text::views(more@),
{
    let ghost before = text::views(lines@);
    let ghost added = text::views(more@);
    for i in 0..more.len()
        invariant
            added == text::views(more@),
            text::views(lines@) == before + added.take(i as int),
    {
        let ghost middle = text::views(lines@);
        lines.push(more[i].clone());
        assert(text::views(lines@) =~= middle.push(added[i as int]));
        assert(before + added.take(i + 1) =~= middle.push(added[i as int]));
    }
    assert(added.take(added.len() as int) =~= added);
}

/// Puts lines behind others, each with a prefix.
fn append_prefixed(lines: &mut Vec<String>, prefix: &str, more: &Vec<String>)
    ensures
        text::views(final(lines)@) == text::views(old(lines)@) + with_prefix(
            prefix@,
            text::views(more@),
        ),
{
    let ghost before = text::views(lines@);
    let ghost added = with_prefix(prefix@, text::views(more@));
    for i in 0..more.len()
        invariant
            added == with_prefix(prefix@, text::views(more@)),
            text::views(lines@) == before + added.take(i as int),
    {
        let ghost middle = text::views(lines@);
        lines.push(text::cat2(prefix, more[i].as_str()));
        assert(text::views(lines@) =~= middle.push(added[i as int]));
        assert(before + added.take(i + 1) =~= middle.push(added[i as int]));
    }
    assert(added.take(added.len() as int) =~= added);
}

// ---------------------------------------------------------------------------
// Laws
// ---------------------------------------------------------------------------

/// Errors are shown as failures, warnings as warnings, and the rest as passed.
pub proof fn lemma_severities(severity: AssertSeverity)
    ensures
        severity_status(severity) == Status::Fail <==> severity == AssertSeverity::Error,
        severity_status(severity) == Status::Warn <==> severity == AssertSeverity::Warning,
        severity_status(severity) == Status::Pass <==> severity == AssertSeverity::Info,
{
}

/// Different statuses have different signs, and the marker shows the sign.
pub proof fn lemma_signs_differ(a: Status, b: Status, interactive: bool)
    ensures
        a != b ==> status_sign(a) != status_sign(b),
        text::has_part(status_marker(interactive, a), status_sign(a)),
        status_marker(false, a) == status_sign(a),
        status_marker(interactive, a).len() > 0,
{
    reveal_strlit("✓");
    reveal_strlit("⚠");
    reveal_strlit("✗");
    reveal_strlit("•");
    reveal_strlit("ℹ");
    assert("✓"@[0] == '✓' && "⚠"@[0] == '⚠' && "✗"@[0] == '✗' && "•"@[0] == '•' && "ℹ"@[0]
        == 'ℹ');
    assert(status_sign(a).len() == 1);
    let sign = status_sign(a);
    match a {
        Status::Pass => lemma_painted("\x1b[32m"@, sign, "\x1b[39m"@),
        Status::Warn => lemma_painted("\x1b[33m"@, sign, "\x1b[39m"@),
        Status::Fail => lemma_painted("\x1b[31m"@, sign, "\x1b[39m"@),
        Status::Blocked => lemma_painted("\x1b[2m"@, sign, "\x1b[0m"@),
        Status::Info => lemma_painted("\x1b[34m"@, sign, "\x1b[39m"@),
    }
    lemma_painted(seq![], sign, seq![]);
    assert(paint::painted(seq![], sign, seq![]) =~= sign);
}

proof fn lemma_painted(style: Seq<char>, s: Seq<char>, reset: Seq<char>)
    ensures
        text::has_part(paint::painted(style, s, reset), s),
        paint::painted(style, s, reset).len() >= s.len(),
{
    text::lemma_parts(s, s, style, reset);
}

/// Whether one of the lines ends with a text.
pub open spec fn has_line(lines: Seq<Seq<char>>, tail: Seq<char>) -> bool {
    exists|i: int| 0 <= i < lines.len() && text::has_suffix(#[trigger] lines[i], tail)
}

/// Whether lines stand among others, one after another.
pub open spec fn holds_lines(lines: Seq<Seq<char>>, part: Seq<Seq<char>>) -> bool {
    exists|a: Seq<Seq<char>>, b: Seq<Seq<char>>| lines == #[trigger] (a + part + b)
}

/// What stands among lines stands among more lines; and a line that stands among
/// them is one of them.
pub proof fn lemma_lines_in_lines(
    a: Seq<Seq<char>>,
    part: Seq<Seq<char>>,
    b: Seq<Seq<char>>,
    inner: Seq<Seq<char>>,
    tail: Seq<char>,
)
    requires
        holds_lines(part, inner),
    ensures
        holds_lines(a + part + b, inner),
        has_line(inner, tail) ==> has_line(a + part + b, tail),
{
    let (c, d) = choose|c: Seq<Seq<char>>, d: Seq<Seq<char>>| part == #[trigger] (c + inner + d);
    let all = a + part + b;
    assert(all =~= (a + c) + inner + (d + b));
    if has_line(inner, tail) {
        let i = choose|i: int|
            0 <= i < inner.len() && text::has_suffix(#[trigger] inner[i], tail);
        assert(all[a.len() + c.len() + i] == inner[i]);
    }
}

/// The first line of a node begins with its prefix and ends with its marker and its
/// label; without a detail there is no other line, and the lines of the detail begin
/// with the prefix too.
pub proof fn lemma_node_lines(
    width: nat,
    prefix: Seq<char>,
    is_last: bool,
    marker: Seq<char>,
    label: Seq<char>,
    detail: Option<Seq<char>>,
)
    ensures
        ({
            let lines = node_lines(width, prefix, is_last, marker, label, detail);
            &&& lines.len() > 0
            &&& text::has_prefix(lines[0], prefix)
            &&& text::has_suffix(lines[0], label)
            &&& marker.len() > 0 ==> text::has_suffix(lines[0], marker + " "@ + label)
            &&& marker.len() > 0 ==> has_line(lines, marker + " "@ + label)
            &&& has_line(lines, label)
            &&& detail is None ==> lines.len() == 1
            &&& prefix.len() == 0 && marker.len() > 0 ==> lines[0] == marker + " "@ + label
            &&& prefix.len() == 0 && marker.len() == 0 ==> lines[0] == label
            &&& forall|i: int|
                0 < i < lines.len() ==> text::has_prefix(
                    #[trigger] lines[i],
                    detail_prefix(prefix, is_last),
                )
        }),
{
    let lines = node_lines(width, prefix, is_last, marker, label, detail);
    let start = prefix + branch(prefix, is_last);
    let tail = marker + " "@ + label;
    reveal_strlit("");
    if marker.len() == 0 {
        assert(lines[0] == start + label);
        text::lemma_parts(label, label, start, seq![]);
        text::lemma_parts(prefix, prefix, seq![], branch(prefix, is_last) + label);
        assert(prefix + (branch(prefix, is_last) + label) =~= lines[0]);
        if prefix.len() == 0 {
            assert(lines[0] =~= label);
        }
    } else {
        assert(lines[0] =~= start + tail);
        text::lemma_parts(tail, tail, start, seq![]);
        text::lemma_parts(label, label, start + marker + " "@, seq![]);
        text::lemma_parts(prefix, prefix, seq![], branch(prefix, is_last) + tail);
        assert(prefix + (branch(prefix, is_last) + tail) =~= lines[0]);
        if prefix.len() == 0 {
            assert(lines[0] =~= tail);
        }
    }
    assert(text::has_suffix(lines[0], label));
    if let Some(s) = detail {
        let below = detail_prefix(prefix, is_last);
        let block = block_lines(below, width, s);
        let paragraphs = not_blank(text::pieces(s, "\n\n"@));
        lemma_paragraph_prefix(below, width, paragraphs, paragraphs.len());
        assert forall|i: int| 0 < i < lines.len() implies text::has_prefix(
            #[trigger] lines[i],
            below,
        ) by {
            assert(lines[i] == block[i - 1]);
        }
    }
}

proof fn lemma_paragraph_prefix(
    prefix: Seq<char>,
    width: nat,
    paragraphs: Seq<Seq<char>>,
    total: nat,
)
    ensures
        forall|i: int|
            0 <= i < paragraph_lines(prefix, width, paragraphs, total).len() ==> text::has_prefix(
                #[trigger] paragraph_lines(prefix, width, paragraphs, total)[i],
                prefix,
            ),
    decreases paragraphs.len(),
{
    if paragraphs.len() > 0 {
        let rest = paragraph_lines(prefix, width, paragraphs.drop_last(), total);
        lemma_paragraph_prefix(prefix, width, paragraphs.drop_last(), total);
        let words = paint::wrapped(paragraphs.last(), room(width, prefix));
        let all = paragraph_lines(prefix, width, paragraphs, total);
        assert forall|i: int| 0 <= i < all.len() implies text::has_prefix(
            #[trigger] all[i],
            prefix,
        ) by {
            if i < rest.len() {
                assert(all[i] == rest[i]);
            } else if i < rest.len() + words.len() {
                assert(all[i] == prefix + words[i - rest.len()]);
                text::lemma_parts(prefix, prefix, seq![], words[i - rest.len()]);
            } else {
                text::lemma_parts(prefix, prefix, seq![], seq![]);
                assert(prefix + Seq::<char>::empty() =~= prefix);
            }
        }
    }
}

/// The paragraphs of a text are the pieces that are not blank, trimmed, in order.
pub proof fn lemma_paragraphs(a: Seq<Seq<char>>, b: Seq<Seq<char>>)
    ensures
        not_blank(a + b) == not_blank(a) + not_blank(b),
        forall|s: Seq<char>|
            text::trimmed(s).len() == 0 ==> not_blank(#[trigger] seq![s]).len() == 0,
        forall|s: Seq<char>|
            text::trimmed(s).len() > 0 ==> not_blank(#[trigger] seq![s]) == seq![text::trimmed(s)],
    decreases b.len(),
{
    assert forall|s: Seq<char>|
        not_blank(#[trigger] seq![s]) == (if text::trimmed(s).len() > 0 {
            seq![text::trimmed(s)]
        } else {
            seq![]
        }) by {
        let one = seq![s];
        assert(one.drop_last() =~= seq![]);
        assert(not_blank(one.drop_last()) =~= seq![]);
        assert(one.last() == s);
    }
    if b.len() == 0 {
        assert(a + b =~= a);
        assert(not_blank(a) + not_blank(b) =~= not_blank(a));
    } else {
        lemma_paragraphs(a, b.drop_last());
        assert((a + b).drop_last() =~= a + b.drop_last());
        assert((a + b).last() == b.last());
        assert(not_blank(a + b) =~= not_blank(a) + not_blank(b));
    }
}

/// Every paragraph of a block is written out, broken to the room that the prefix
/// leaves; an empty line stands between paragraphs and nowhere else.
pub proof fn lemma_paragraphs_are_written(
    prefix: Seq<char>,
    width: nat,
    paragraphs: Seq<Seq<char>>,
    total: nat,
    i: int,
)
    requires
        0 <= i < paragraphs.len() <= total,
    ensures
        holds_lines(
            paragraph_lines(prefix, width, paragraphs, total),
            paragraph_lines(prefix, width, seq![paragraphs[i]], if i + 1 == total {
                1
            } else {
                2
            }),
        ),
        paragraph_lines(prefix, width, seq![paragraphs[i]], 1) == with_prefix(
            prefix,
            paint::wrapped(paragraphs[i], room(width, prefix)),
        ),
        paragraph_lines(prefix, width, seq![paragraphs[i]], 2) == with_prefix(
            prefix,
            paint::wrapped(paragraphs[i], room(width, prefix)),
        ).push(prefix),
    decreases paragraphs.len(),
{
    let one = seq![paragraphs[i]];
    let words = with_prefix(prefix, paint::wrapped(paragraphs[i], room(width, prefix)));
    assert(one.drop_last() =~= seq![]);
    assert(paragraph_lines(prefix, width, one.drop_last(), 1) =~= seq![]);
    assert(paragraph_lines(prefix, width, one.drop_last(), 2) =~= seq![]);
    assert(paragraph_lines(prefix, width, one, 1) =~= words);
    assert(paragraph_lines(prefix, width, one, 2) =~= words.push(prefix));
    let all = paragraph_lines(prefix, width, paragraphs, total);
    let rest = paragraph_lines(prefix, width, paragraphs.drop_last(), total);
    if i == paragraphs.len() - 1 {
        if i + 1 == total {
            assert(all =~= rest + words + seq![]);
        } else {
            assert(all =~= rest + words.push(prefix) + seq![]);
        }
    } else {
        assert(paragraphs.drop_last()[i] == paragraphs[i]);
        lemma_paragraphs_are_written(prefix, width, paragraphs.drop_last(), total, i);
        let inner = paragraph_lines(prefix, width, one, 2);
        let last = all.skip(rest.len() as int);
        assert(all =~= Seq::<Seq<char>>::empty() + rest + last);
        lemma_lines_in_lines(seq![], rest, last, inner, seq![]);
    }
}

/// The room beside a prefix fills the width, unless fewer than 20 columns are left;
/// there are always that many.
pub proof fn lemma_room(width: nat, prefix: Seq<char>)
    ensures
        room(width, prefix) >= 20,
        room(width, prefix) > 20 ==> room(width, prefix) + paint::columns(prefix) == width,
        width >= paint::columns(prefix) + 20 ==> room(width, prefix) + paint::columns(prefix)
            == width,
{
}

/// What stands below a node stands three columns deeper, under its prefix; and the
/// line down the side is drawn exactly where more nodes follow.
pub proof fn lemma_prefixes(prefix: Seq<char>, is_last: bool)
    ensures
        prefix_below(prefix, is_last).len() == prefix.len() + 3,
        text::has_prefix(prefix_below(prefix, is_last), prefix),
        prefix_below(prefix, is_last).last() == ' ',
        prefix_below(prefix, is_last)[prefix.len() as int] == '│' <==> !is_last,
        detail_prefix(prefix, is_last).len() == prefix.len() + 3,
        text::has_prefix(detail_prefix(prefix, is_last), prefix),
        prefix.len() > 0 ==> detail_prefix(prefix, is_last) == prefix_below(prefix, is_last),
        prefix.len() > 0 ==> branch(prefix, is_last).len() == 3,
        prefix.len() == 0 ==> branch(prefix, is_last).len() == 0,
        prefix.len() > 0 ==> (branch(prefix, is_last)[0] == '└' <==> is_last),
        prefix.len() > 0 ==> (branch(prefix, is_last)[0] == '├' <==> !is_last),
{
    reveal_strlit("");
    reveal_strlit("   ");
    reveal_strlit("│  ");
    reveal_strlit("└─ ");
    reveal_strlit("├─ ");
    text::lemma_parts(prefix, prefix, seq![], "   "@);
    text::lemma_parts(prefix, prefix, seq![], "│  "@);
    if prefix.len() == 0 {
        assert(prefix + "   "@ =~= "   "@);
        assert(prefix + "│  "@ =~= "│  "@);
    }
}

/// A heading is an empty line, the title, and a rule of dashes.
pub proof fn lemma_heading(title: Seq<char>)
    ensures
        section_lines(title).len() == 3,
        section_lines(title)[0].len() == 0,
        section_lines(title)[1] == title,
        forall|i: int| 0 <= i < section_lines(title)[2].len() ==> section_lines(title)[2][i] == '-',
{
    reveal_strlit("-");
    lemma_dashes((vstd::utf8::encode_utf8(title).len() as usize) as nat);
}

proof fn lemma_dashes(n: nat)
    ensures
        text::repeated("-"@, n).len() == n,
        forall|i: int| 0 <= i < n ==> #[trigger] text::repeated("-"@, n)[i] == '-',
    decreases n,
{
    reveal_strlit("-");
    if n > 0 {
        lemma_dashes((n - 1) as nat);
    }
}

/// The kind of a node is marked on a terminal, and only there.
pub proof fn lemma_kinds_are_marked(kind: GraphNodeKind)
    ensures
        kind_marker(false, kind).len() == 0,
        kind_marker(true, kind).len() > 0,
{
    reveal_strlit("◎");
    reveal_strlit("●");
    reveal_strlit("■");
    reveal_strlit("▶");
    reveal_strlit("◌");
    reveal_strlit("📦");
    reveal_strlit("🧱");
    reveal_strlit("⚙");
    reveal_strlit("🔧");
    reveal_strlit("📤");
    reveal_strlit("🔗");
    reveal_strlit("📎");
    reveal_strlit("🧩");
    reveal_strlit("ƒ");
    reveal_strlit("•");
    reveal_strlit("·");
}

/// Paragraphs are written in order: the lines of the first ones come first.
pub proof fn lemma_paragraphs_in_order(
    prefix: Seq<char>,
    width: nat,
    paragraphs: Seq<Seq<char>>,
    total: nat,
    n: int,
)
    requires
        0 <= n <= paragraphs.len(),
    ensures
        paragraph_lines(prefix, width, paragraphs.take(n), total).is_prefix_of(
            paragraph_lines(prefix, width, paragraphs, total),
        ),
    decreases paragraphs.len(),
{
    if n == paragraphs.len() {
        assert(paragraphs.take(n) =~= paragraphs);
    } else {
        let rest = paragraphs.drop_last();
        lemma_paragraphs_in_order(prefix, width, rest, total, n);
        assert(rest.take(n) =~= paragraphs.take(n));
    }
}

} // verus!
