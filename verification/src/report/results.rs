//! The results of a profile, as a tree of policies, rules and findings.

use vstd::prelude::*;

use crate::kernel::analysis::{self, AnalysisResult, AssertFailure, FailureView};
use crate::kernel::ast::Modal;
use crate::kernel::laws;
use crate::kernel::rules::{self, RuleExecution};
use crate::kernel::semantics::{self, ExecutionView, PolicyOutcome};
use crate::model::view::ModelView;
use crate::report::layout::{self, append_lines, Reporter, Status};
use crate::text;

verus! {

// ---------------------------------------------------------------------------
// What the tree shows
// ---------------------------------------------------------------------------

/// Rules of one policy that were executed one after another.
pub struct GroupView {
    pub name: Seq<char>,
    pub rules: Seq<ExecutionView>,
}

/// The name under which a policy is shown.
pub open spec fn policy_label(policy: Seq<char>) -> Seq<char> {
    if policy.len() == 0 {
        "(no policy)"@
    } else {
        policy
    }
}

/// The records of a policy in runs of the same policy, in order.
pub open spec fn grouped(trace: Seq<ExecutionView>) -> Seq<GroupView>
    decreases trace.len(),
{
    if trace.len() == 0 {
        seq![]
    } else {
        let before = grouped(trace.drop_last());
        let name = policy_label(trace.last().policy);
        if before.len() > 0 && before.last().name == name {
            before.drop_last().push(
                GroupView { name, rules: before.last().rules.push(trace.last()) },
            )
        } else {
            before.push(GroupView { name, rules: seq![trace.last()] })
        }
    }
}

/// The findings that belong to a rule, in order: their assertion begins with the
/// name of the rule and a colon.
pub open spec fn failures_of(rule: Seq<char>, failures: Seq<FailureView>) -> Seq<FailureView>
    decreases failures.len(),
{
    if failures.len() == 0 {
        seq![]
    } else {
        let rest = failures_of(rule, failures.drop_last());
        if text::has_prefix(failures.last().assertion, rule + ": "@) {
            rest.push(failures.last())
        } else {
            rest
        }
    }
}

/// How a rule is shown.
pub open spec fn execution_status(e: ExecutionView) -> Status {
    if e.passed {
        Status::Pass
    } else {
        match e.modal {
            Modal::Must => Status::Fail,
            Modal::Should => Status::Warn,
            Modal::May => Status::Info,
        }
    }
}

/// Whether some rule of a modal failed.
pub open spec fn some_failed(list: Seq<ExecutionView>, modal: Modal) -> bool {
    exists|i: int| 0 <= i < list.len() && !(#[trigger] list[i]).passed && list[i].modal == modal
}

/// How a policy is shown.
pub open spec fn group_status(list: Seq<ExecutionView>) -> Status {
    if some_failed(list, Modal::Must) {
        Status::Fail
    } else if some_failed(list, Modal::Should) {
        Status::Warn
    } else {
        Status::Pass
    }
}

/// How many rules passed.
pub open spec fn passed_rules(list: Seq<ExecutionView>) -> nat
    decreases list.len(),
{
    if list.len() == 0 {
        0
    } else {
        passed_rules(list.drop_last()) + if list.last().passed {
            1nat
        } else {
            0nat
        }
    }
}

/// How many policies passed.
pub open spec fn passed_groups(list: Seq<GroupView>) -> nat
    decreases list.len(),
{
    if list.len() == 0 {
        0
    } else {
        passed_groups(list.drop_last()) + if group_status(list.last().rules) == Status::Pass {
            1nat
        } else {
            0nat
        }
    }
}

/// The policies that are shown: all, or those that did not pass.
pub open spec fn shown_groups(list: Seq<GroupView>, verbose: bool) -> Seq<GroupView>
    decreases list.len(),
{
    if list.len() == 0 {
        seq![]
    } else {
        let rest = shown_groups(list.drop_last(), verbose);
        if verbose || group_status(list.last().rules) != Status::Pass {
            rest.push(list.last())
        } else {
            rest
        }
    }
}

/// The rules that are shown: all, or those that did not pass.
pub open spec fn shown_rules(list: Seq<ExecutionView>, verbose: bool) -> Seq<ExecutionView>
    decreases list.len(),
{
    if list.len() == 0 {
        seq![]
    } else {
        let rest = shown_rules(list.drop_last(), verbose);
        if verbose || !list.last().passed {
            rest.push(list.last())
        } else {
            rest
        }
    }
}

/// How many of how many, in brackets.
pub open spec fn tally(label: Seq<char>, part: nat, total: nat) -> Seq<char> {
    label + " ["@ + text::decimal(part) + "/"@ + text::decimal(total) + "]"@
}

/// What an analysis is about, as far as its results are shown.
pub struct Analysis {
    pub model: ModelView,
    pub failures: Seq<FailureView>,
    pub outcome: PolicyOutcome,
    pub trace: Seq<ExecutionView>,
    pub document: Seq<char>,
}

/// What an analysis result says.
pub open spec fn analysis_view(a: AnalysisResult) -> Analysis {
    Analysis {
        model: a.model@,
        failures: analysis::failure_views(a.failures@),
        outcome: a.outcome,
        trace: rules::trace_views(a.trace@),
        document: a.document@,
    }
}

/// What is said of a finding: where it stands, its area and its message.
pub open spec fn failure_details(a: Analysis, failure: FailureView) -> Seq<Seq<char>> {
    let place = match analysis::place_of(a.model, failure) {
        Some(range) => seq![
            "Location: "@ + a.document + ": line "@ + text::decimal(
                (range.start.line + 1) as nat,
            ),
        ],
        None => seq![],
    };
    let area = match failure.area {
        Some(id) => seq!["Area: "@ + a.model.name_of(id)],
        None => seq![],
    };
    let message = match failure.message {
        Some(s) => seq!["Message: "@ + s],
        None => seq![],
    };
    place + area + message
}

/// The name under which a finding is shown: that of its subject.
pub open spec fn failure_label(a: Analysis, failure: FailureView) -> Seq<char> {
    match failure.subject {
        Some(id) => a.model.name_of(id),
        None => "(unknown subject)"@,
    }
}

/// The lines of a finding.
pub open spec fn failure_lines(
    out: Reporter,
    prefix: Seq<char>,
    is_last: bool,
    a: Analysis,
    failure: FailureView,
) -> Seq<Seq<char>> {
    let details = failure_details(a, failure);
    layout::node_lines(
        out.width as nat,
        prefix,
        is_last,
        layout::status_marker(out.interactive, layout::severity_status(failure.severity)),
        failure_label(a, failure),
        if details.len() == 0 {
            None
        } else {
            Some(text::joined(details, "\n"@))
        },
    )
}

/// The lines of the first findings of a rule that has `total` of them.
pub open spec fn all_failure_lines(
    out: Reporter,
    prefix: Seq<char>,
    a: Analysis,
    failures: Seq<FailureView>,
    total: nat,
) -> Seq<Seq<char>>
    decreases failures.len(),
{
    if failures.len() == 0 {
        seq![]
    } else {
        all_failure_lines(out, prefix, a, failures.drop_last(), total) + failure_lines(
            out,
            prefix,
            failures.len() == total,
            a,
            failures.last(),
        )
    }
}

/// The name under which a rule is shown, with the number of its findings.
pub open spec fn rule_label(e: ExecutionView, findings: nat) -> Seq<char> {
    let name = semantics::modal_word(e.modal) + " "@ + e.rule;
    if findings == 0 {
        name
    } else {
        name + " ("@ + text::decimal(findings) + " finding"@ + (if findings == 1 {
            ""@
        } else {
            "s"@
        }) + ")"@
    }
}

/// The lines of a rule, with its findings.
pub open spec fn rule_lines(
    out: Reporter,
    prefix: Seq<char>,
    is_last: bool,
    a: Analysis,
    e: ExecutionView,
) -> Seq<Seq<char>> {
    let failures = failures_of(e.rule, a.failures);
    layout::node_lines(
        out.width as nat,
        prefix,
        is_last,
        layout::status_marker(out.interactive, execution_status(e)),
        rule_label(e, failures.len()),
        None,
    ) + all_failure_lines(
        out,
        layout::prefix_below(prefix, is_last),
        a,
        failures,
        failures.len(),
    )
}

/// The lines of the first rules of a policy that shows `total` of them.
pub open spec fn all_rule_lines(
    out: Reporter,
    prefix: Seq<char>,
    a: Analysis,
    list: Seq<ExecutionView>,
    total: nat,
) -> Seq<Seq<char>>
    decreases list.len(),
{
    if list.len() == 0 {
        seq![]
    } else {
        all_rule_lines(out, prefix, a, list.drop_last(), total) + rule_lines(
            out,
            prefix,
            list.len() == total,
            a,
            list.last(),
        )
    }
}

/// The lines of a policy, with its rules.
pub open spec fn group_lines(
    out: Reporter,
    prefix: Seq<char>,
    is_last: bool,
    a: Analysis,
    group: GroupView,
    verbose: bool,
) -> Seq<Seq<char>> {
    let shown = shown_rules(group.rules, verbose);
    layout::node_lines(
        out.width as nat,
        prefix,
        is_last,
        layout::status_marker(out.interactive, group_status(group.rules)),
        tally("Policy: "@ + group.name, passed_rules(group.rules), group.rules.len()),
        None,
    ) + all_rule_lines(out, layout::prefix_below(prefix, is_last), a, shown, shown.len())
}

/// The lines of the first policies of a profile that shows `total` of them.
pub open spec fn all_group_lines(
    out: Reporter,
    prefix: Seq<char>,
    a: Analysis,
    list: Seq<GroupView>,
    total: nat,
    verbose: bool,
) -> Seq<Seq<char>>
    decreases list.len(),
{
    if list.len() == 0 {
        seq![]
    } else {
        all_group_lines(out, prefix, a, list.drop_last(), total, verbose) + group_lines(
            out,
            prefix,
            list.len() == total,
            a,
            list.last(),
            verbose,
        )
    }
}

/// How a profile is shown.
pub open spec fn outcome_status(outcome: PolicyOutcome) -> Status {
    match outcome {
        PolicyOutcome::Pass => Status::Pass,
        PolicyOutcome::Degraded => Status::Warn,
        PolicyOutcome::Fail => Status::Fail,
    }
}

/// The lines of the results of a profile: the profile alone where there is
/// nothing to show below it, else its policies too.
pub open spec fn result_lines(out: Reporter, profile: Seq<char>, a: Analysis, verbose: bool) -> Seq<
    Seq<char>,
> {
    let groups = grouped(a.trace);
    let header = layout::node_lines(
        out.width as nat,
        ""@,
        true,
        layout::status_marker(out.interactive, outcome_status(a.outcome)),
        tally("Profile: "@ + profile, passed_groups(groups), groups.len()),
        None,
    );
    if !verbose && a.failures.len() == 0 {
        header
    } else {
        let shown = shown_groups(groups, verbose);
        header + all_group_lines(
            out,
            layout::prefix_below(""@, true),
            a,
            shown,
            shown.len(),
            verbose,
        )
    }
}

// ---------------------------------------------------------------------------
// Grouping
// ---------------------------------------------------------------------------

/// Rules of one policy that were executed one after another.
#[derive(Debug)]
pub struct PolicyGroup<'a> {
    pub name: String,
    pub rules: Vec<&'a RuleExecution>,
}

/// The views of some records.
pub open spec fn record_views(list: Seq<&RuleExecution>) -> Seq<ExecutionView> {
    Seq::new(list.len(), |i: int| list[i]@)
}

impl<'a> View for PolicyGroup<'a> {
    type V = GroupView;

    open spec fn view(&self) -> GroupView {
        GroupView { name: self.name@, rules: record_views(self.rules@) }
    }
}

/// The views of some groups.
pub open spec fn group_views(list: Seq<PolicyGroup>) -> Seq<GroupView> {
    Seq::new(list.len(), |i: int| list[i]@)
}

/// Groups the records of a profile by policy, in order.
pub fn group_trace_by_policy<'a>(trace: &'a [RuleExecution]) -> (r: Vec<PolicyGroup<'a>>)
    ensures
        group_views(r@) == grouped(rules::trace_views(trace@)),
{
    let mut groups: Vec<PolicyGroup<'a>> = Vec::new();
    let ghost all = rules::trace_views(trace@);
    assert(group_views(groups@) =~= seq![]);
    let n: usize = trace.len();
    for i in 0..n
        invariant
            n == trace.len(),
            all == rules::trace_views(trace@),
            group_views(groups@) == grouped(all.take(i as int)),
    {
        let record = &trace[i];
        assert(all.take(i + 1).drop_last() =~= all.take(i as int));
        assert(all.take(i + 1).last() == record@);
        let name = if text::is_empty(record.policy_name.as_str()) {
            "(no policy)".to_owned()
        } else {
            record.policy_name.clone()
        };
        let ghost before = group_views(groups@);
        match groups.pop() {
            Some(mut group) => {
                assert(group_views(groups@) =~= before.drop_last());
                assert(group@ == before.last());
                if group.name == name {
                    let ghost list = record_views(group.rules@);
                    group.rules.push(record);
                    assert(record_views(group.rules@) =~= list.push(record@));
                    let ghost entry = group@;
                    groups.push(group);
                    assert(group_views(groups@) =~= before.drop_last().push(entry));
                } else {
                    groups.push(group);
                    assert(group_views(groups@) =~= before);
                    start_group(&mut groups, name, record);
                }
            },
            None => {
                start_group(&mut groups, name, record);
            },
        }
    }
    assert(all.take(n as int) =~= all);
    groups
}

/// Begins a group with a record.
fn start_group<'a>(groups: &mut Vec<PolicyGroup<'a>>, name: String, record: &'a RuleExecution)
    ensures
        group_views(final(groups)@) == group_views(old(groups)@).push(
            GroupView { name: name@, rules: seq![record@] },
        ),
{
    let ghost before = group_views(groups@);
    let list: Vec<&'a RuleExecution> = vec![record];
    assert(record_views(list@) =~= seq![record@]);
    let group = PolicyGroup { name, rules: list };
    let ghost entry = group@;
    groups.push(group);
    assert(group_views(groups@) =~= before.push(entry));
}

/// The views of some findings.
pub open spec fn finding_views(list: Seq<&AssertFailure>) -> Seq<FailureView> {
    Seq::new(list.len(), |i: int| list[i]@)
}

/// The findings that belong to a rule, in order.
pub fn find_failures_for_rule<'a>(rule_name: &str, failures: &'a [AssertFailure]) -> (r: Vec<
    &'a AssertFailure,
>)
    ensures
        finding_views(r@) == failures_of(rule_name@, analysis::failure_views(failures@)),
{
    let mut found: Vec<&'a AssertFailure> = Vec::new();
    let ghost all = analysis::failure_views(failures@);
    assert(finding_views(found@) =~= seq![]);
    let start = text::cat2(rule_name, ": ");
    let n: usize = failures.len();
    for i in 0..n
        invariant
            n == failures.len(),
            start@ == rule_name@ + ": "@,
            all == analysis::failure_views(failures@),
            finding_views(found@) == failures_of(rule_name@, all.take(i as int)),
    {
        assert(all.take(i + 1).drop_last() =~= all.take(i as int));
        assert(all.take(i + 1).last() == failures@[i as int]@);
        if text::starts_with(failures[i].assertion.as_str(), start.as_str()) {
            let ghost before = finding_views(found@);
            found.push(&failures[i]);
            assert(finding_views(found@) =~= before.push(failures@[i as int]@));
        }
    }
    assert(all.take(n as int) =~= all);
    found
}

/// How a rule is shown.
pub fn rule_status(exec: &RuleExecution) -> (r: Status)
    ensures
        r == execution_status(exec@),
{
    if exec.passed {
        Status::Pass
    } else {
        match exec.modal {
            Modal::Must => Status::Fail,
            Modal::Should => Status::Warn,
            Modal::May => Status::Info,
        }
    }
}

/// Whether some rule of a modal failed.
fn any_failed(list: &Vec<&RuleExecution>, modal: Modal) -> (r: bool)
    ensures
        r == some_failed(record_views(list@), modal),
{
    let ghost all = record_views(list@);
    for i in 0..list.len()
        invariant
            all == record_views(list@),
            forall|j: int| 0 <= j < i ==> (#[trigger] all[j]).passed || all[j].modal != modal,
    {
        if !list[i].passed && list[i].modal == modal {
            assert(!all[i as int].passed);
            return true;
        }
        assert(all[i as int] == list@[i as int]@);
    }
    false
}

/// How a policy is shown.
pub fn policy_status(list: &Vec<&RuleExecution>) -> (r: Status)
    ensures
        r == group_status(record_views(list@)),
{
    if any_failed(list, Modal::Must) {
        Status::Fail
    } else if any_failed(list, Modal::Should) {
        Status::Warn
    } else {
        Status::Pass
    }
}

// ---------------------------------------------------------------------------
// Printing
// ---------------------------------------------------------------------------

/// How many of how many, in brackets.
fn tally_text(label: &str, part: usize, total: usize) -> (r: String)
    ensures
        r@ == tally(label@, part as nat, total as nat),
{
    let counts = text::cat3(
        text::decimal_text(part as u64).as_str(),
        "/",
        text::decimal_text(total as u64).as_str(),
    );
    let r = text::cat4(label, " [", counts.as_str(), "]");
    assert(r@ =~= tally(label@, part as nat, total as nat));
    r
}

/// How many rules passed.
fn count_passed(list: &Vec<&RuleExecution>) -> (r: usize)
    ensures
        r == passed_rules(record_views(list@)),
{
    let ghost all = record_views(list@);
    let mut count: usize = 0;
    for i in 0..list.len()
        invariant
            all == record_views(list@),
            count <= i,
            count == passed_rules(all.take(i as int)),
    {
        assert(all.take(i + 1).drop_last() =~= all.take(i as int));
        assert(all.take(i + 1).last() == list@[i as int]@);
        if list[i].passed {
            count = count + 1;
        }
    }
    assert(all.take(all.len() as int) =~= all);
    count
}

/// How many policies passed.
fn count_passed_groups(list: &Vec<PolicyGroup>) -> (r: usize)
    ensures
        r == passed_groups(group_views(list@)),
{
    let ghost all = group_views(list@);
    let mut count: usize = 0;
    for i in 0..list.len()
        invariant
            all == group_views(list@),
            count <= i,
            count == passed_groups(all.take(i as int)),
    {
        assert(all.take(i + 1).drop_last() =~= all.take(i as int));
        assert(all.take(i + 1).last() == list@[i as int]@);
        if policy_status(&list[i].rules) == Status::Pass {
            count = count + 1;
        }
    }
    assert(all.take(all.len() as int) =~= all);
    count
}

/// The name under which a rule is shown, with the number of its findings.
fn label_of_rule(exec: &RuleExecution, findings: usize) -> (r: String)
    ensures
        r@ == rule_label(exec@, findings as nat),
{
    let word = match exec.modal {
        Modal::Must => "must",
        Modal::Should => "should",
        Modal::May => "may",
    };
    let name = text::cat3(word, " ", exec.rule_name.as_str());
    if findings == 0 {
        name
    } else {
        let count = text::decimal_text(findings as u64);
        let plural = if findings == 1 {
            ""
        } else {
            "s"
        };
        let counted = text::cat4(name.as_str(), " (", count.as_str(), " finding");
        let r = text::cat3(counted.as_str(), plural, ")");
        assert(r@ =~= rule_label(exec@, findings as nat));
        r
    }
}

/// Puts a text behind others.
fn push_text(list: &mut Vec<String>, s: String)
    ensures
        text::views(final(list)@) == text::views(old(list)@).push(s@),
{
    let ghost before = text::views(list@);
    let ghost entry = s@;
    list.push(s);
    assert(text::views(list@) =~= before.push(entry));
}

/// What is said of a finding.
fn details_of_failure(a: &AnalysisResult, failure: &AssertFailure) -> (r: Vec<String>)
    ensures
        text::views(r@) == failure_details(analysis_view(*a), failure@),
{
    let mut details: Vec<String> = Vec::new();
    assert(text::views(details@) =~= seq![]);
    if let Some(range) = a.resolve_failure_location(failure) {
        let line = text::decimal_text(range.start.line as u64 + 1);
        push_text(
            &mut details,
            text::cat4("Location: ", a.document.as_str(), ": line ", line.as_str()),
        );
    }
    if let Some(id) = failure.area {
        push_text(&mut details, text::cat2("Area: ", a.model.qualified_name(id).as_str()));
    }
    if let Some(s) = &failure.message {
        push_text(&mut details, text::cat2("Message: ", s.as_str()));
    }
    assert(text::views(details@) =~= failure_details(analysis_view(*a), failure@));
    details
}

/// The lines of the findings of a rule.
pub fn print_failures_for_rule(
    out: &Reporter,
    prefix: &str,
    failures: &Vec<&AssertFailure>,
    a: &AnalysisResult,
) -> (r: Vec<String>)
    ensures
        text::views(r@) == all_failure_lines(
            *out,
            prefix@,
            analysis_view(*a),
            finding_views(failures@),
            failures@.len(),
        ),
{
    let ghost all = finding_views(failures@);
    let mut lines: Vec<String> = Vec::new();
    assert(text::views(lines@) =~= seq![]);
    for i in 0..failures.len()
        invariant
            all == finding_views(failures@),
            text::views(lines@) == all_failure_lines(
                *out,
                prefix@,
                analysis_view(*a),
                all.take(i as int),
                failures@.len(),
            ),
    {
        let failure = failures[i];
        assert(all.take(i + 1).drop_last() =~= all.take(i as int));
        assert(all.take(i + 1).last() == failure@);
        let label = match failure.subject {
            Some(id) => a.model.qualified_name(id),
            None => "(unknown subject)".to_owned(),
        };
        let details = details_of_failure(a, failure);
        let joined = text::join_text(&details, "\n");
        let detail = if details.len() == 0 {
            None
        } else {
            Some(joined.as_str())
        };
        let more = out.tree(
            prefix,
            i + 1 == failures.len(),
            Status::from(failure.severity),
            label.as_str(),
            detail,
        );
        append_lines(&mut lines, more);
    }
    assert(all.take(all.len() as int) =~= all);
    lines
}

/// The lines of the rules of a policy that are shown.
fn print_rules(out: &Reporter, prefix: &str, list: &Vec<&RuleExecution>, a: &AnalysisResult) -> (r: Vec<
    String,
>)
    ensures
        text::views(r@) == all_rule_lines(
            *out,
            prefix@,
            analysis_view(*a),
            record_views(list@),
            list@.len(),
        ),
{
    let ghost all = record_views(list@);
    let mut lines: Vec<String> = Vec::new();
    assert(text::views(lines@) =~= seq![]);
    for i in 0..list.len()
        invariant
            all == record_views(list@),
            text::views(lines@) == all_rule_lines(
                *out,
                prefix@,
                analysis_view(*a),
                all.take(i as int),
                list@.len(),
            ),
    {
        let exec = list[i];
        assert(all.take(i + 1).drop_last() =~= all.take(i as int));
        assert(all.take(i + 1).last() == exec@);
        let ghost before = text::views(lines@);
        let is_last = i + 1 == list.len();
        let failures = find_failures_for_rule(exec.rule_name.as_str(), a.failures.as_slice());
        let label = label_of_rule(exec, failures.len());
        append_lines(
            &mut lines,
            out.tree(prefix, is_last, rule_status(exec), label.as_str(), None),
        );
        let below = Reporter::child_prefix(prefix, is_last);
        append_lines(&mut lines, print_failures_for_rule(out, below.as_str(), &failures, a));
        assert(finding_views(failures@).len() == failures@.len());
        assert(text::views(lines@) =~= before + rule_lines(
            *out,
            prefix@,
            is_last,
            analysis_view(*a),
            exec@,
        ));
    }
    assert(all.take(all.len() as int) =~= all);
    lines
}

/// The rules of a policy that are shown.
fn rules_to_show<'a>(list: &Vec<&'a RuleExecution>, verbose: bool) -> (r: Vec<&'a RuleExecution>)
    ensures
        record_views(r@) == shown_rules(record_views(list@), verbose),
{
    let ghost all = record_views(list@);
    let mut shown: Vec<&'a RuleExecution> = Vec::new();
    assert(record_views(shown@) =~= seq![]);
    for i in 0..list.len()
        invariant
            all == record_views(list@),
            record_views(shown@) == shown_rules(all.take(i as int), verbose),
    {
        assert(all.take(i + 1).drop_last() =~= all.take(i as int));
        assert(all.take(i + 1).last() == list@[i as int]@);
        if verbose || !list[i].passed {
            let ghost before = record_views(shown@);
            shown.push(list[i]);
            assert(record_views(shown@) =~= before.push(list@[i as int]@));
        }
    }
    assert(all.take(all.len() as int) =~= all);
    shown
}

/// The positions of the policies that are shown.
fn groups_to_show<'a, 'b>(list: &'b Vec<PolicyGroup<'a>>, verbose: bool) -> (r: Vec<
    &'b PolicyGroup<'a>,
>)
    ensures
        shown_views(r@) == shown_groups(group_views(list@), verbose),
{
    let ghost all = group_views(list@);
    let mut shown: Vec<&'b PolicyGroup<'a>> = Vec::new();
    assert(shown_views(shown@) =~= seq![]);
    for i in 0..list.len()
        invariant
            all == group_views(list@),
            shown_views(shown@) == shown_groups(all.take(i as int), verbose),
    {
        assert(all.take(i + 1).drop_last() =~= all.take(i as int));
        assert(all.take(i + 1).last() == list@[i as int]@);
        if verbose || policy_status(&list[i].rules) != Status::Pass {
            let ghost before = shown_views(shown@);
            shown.push(&list[i]);
            assert(shown_views(shown@) =~= before.push(list@[i as int]@));
        }
    }
    assert(all.take(all.len() as int) =~= all);
    shown
}

/// The views of some groups.
spec fn shown_views(list: Seq<&PolicyGroup>) -> Seq<GroupView> {
    Seq::new(list.len(), |i: int| list[i]@)
}

/// The results of a profile: the lines that show them, and whether no must rule
/// failed.
pub fn print_results(out: &Reporter, profile: &str, a: &AnalysisResult, verbose: bool) -> (r: (
    Vec<String>,
    bool,
))
    ensures
        text::views(r.0@) == result_lines(*out, profile@, analysis_view(*a), verbose),
        r.1 == (a.outcome != PolicyOutcome::Fail),
{
    let groups = group_trace_by_policy(a.trace.as_slice());
    assert(group_views(groups@).len() == groups@.len());
    let (status, success) = match a.outcome {
        PolicyOutcome::Pass => (Status::Pass, true),
        PolicyOutcome::Degraded => (Status::Warn, true),
        PolicyOutcome::Fail => (Status::Fail, false),
    };
    let title = text::cat2("Profile: ", profile);
    let label = tally_text(title.as_str(), count_passed_groups(&groups), groups.len());
    let mut lines = out.tree("", true, status, label.as_str(), None);
    let ghost header = text::views(lines@);
    assert(analysis_view(*a).failures.len() == a.failures@.len());
    if !verbose && a.failures.len() == 0 {
        return (lines, success);
    }
    let shown = groups_to_show(&groups, verbose);
    let ghost all = shown_views(shown@);
    let prefix = Reporter::child_prefix("", true);
    proof {
        reveal_strlit("");
    }
    for i in 0..shown.len()
        invariant
            all == shown_views(shown@),
            text::views(lines@) == header + all_group_lines(
                *out,
                prefix@,
                analysis_view(*a),
                all.take(i as int),
                all.len(),
                verbose,
            ),
    {
        let group = shown[i];
        assert(all.take(i + 1).drop_last() =~= all.take(i as int));
        assert(all.take(i + 1).last() == group@);
        let ghost before = text::views(lines@);
        let is_last = i + 1 == shown.len();
        assert(group@.rules.len() == group.rules@.len());
        let title = text::cat2("Policy: ", group.name.as_str());
        let label = tally_text(title.as_str(), count_passed(&group.rules), group.rules.len());
        append_lines(
            &mut lines,
            out.tree(
                prefix.as_str(),
                is_last,
                policy_status(&group.rules),
                label.as_str(),
                None,
            ),
        );
        let below = Reporter::child_prefix(prefix.as_str(), is_last);
        let listed = rules_to_show(&group.rules, verbose);
        assert(record_views(listed@).len() == listed@.len());
        append_lines(&mut lines, print_rules(out, below.as_str(), &listed, a));
        assert(text::views(lines@) =~= before + group_lines(
            *out,
            prefix@,
            is_last,
            analysis_view(*a),
            group@,
            verbose,
        ));
        assert(text::views(lines@) =~= header + all_group_lines(
            *out,
            prefix@,
            analysis_view(*a),
            all.take(i + 1),
            all.len(),
            verbose,
        ));
    }
    assert(all.take(all.len() as int) =~= all);
    (lines, success)
}

// ---------------------------------------------------------------------------
// Laws
// ---------------------------------------------------------------------------

/// The records of some groups, one after another.
pub open spec fn ungrouped(groups: Seq<GroupView>) -> Seq<ExecutionView>
    decreases groups.len(),
{
    if groups.len() == 0 {
        seq![]
    } else {
        ungrouped(groups.drop_last()) + groups.last().rules
    }
}

/// Grouping keeps the records and their order; each group holds the records of
/// one policy, at least one; and neighbouring groups are of different policies.
pub proof fn lemma_grouping_keeps_trace(trace: Seq<ExecutionView>)
    ensures
        ungrouped(grouped(trace)) == trace,
        forall|i: int|
            0 <= i < grouped(trace).len() ==> (#[trigger] grouped(trace)[i]).rules.len() > 0,
        forall|i: int, j: int|
            0 <= i < grouped(trace).len() && 0 <= j < grouped(trace)[i].rules.len()
                ==> policy_label((#[trigger] grouped(trace)[i].rules[j]).policy) == grouped(
                trace,
            )[i].name,
        forall|i: int|
            0 < i < grouped(trace).len() ==> (#[trigger] grouped(trace)[i]).name != grouped(
                trace,
            )[i - 1].name,
    decreases trace.len(),
{
    if trace.len() > 0 {
        lemma_grouping_keeps_trace(trace.drop_last());
        let before = grouped(trace.drop_last());
        let after = grouped(trace);
        let name = policy_label(trace.last().policy);
        if before.len() > 0 && before.last().name == name {
            assert(after.drop_last() =~= before.drop_last());
            assert(ungrouped(after) =~= ungrouped(before).push(trace.last()));
        } else {
            assert(after.drop_last() =~= before);
            assert(ungrouped(after) =~= ungrouped(before).push(trace.last()));
        }
        assert(trace.drop_last().push(trace.last()) =~= trace);
        assert forall|i: int, j: int|
            0 <= i < after.len() && 0 <= j < after[i].rules.len() implies policy_label(
            (#[trigger] after[i].rules[j]).policy,
        ) == after[i].name by {
            if i < before.len() {
                if j < before[i].rules.len() {
                    assert(after[i].rules[j] == before[i].rules[j]);
                }
            }
        }
        assert forall|i: int| 0 < i < after.len() implies (#[trigger] after[i]).name != after[i
            - 1].name by {
            if i < before.len() {
                assert(before[i].name == after[i].name);
                assert(before[i - 1].name == after[i - 1].name);
            }
        }
    }
}

/// What is shown where not everything is shown are the rules that did not pass,
/// and none of them is left out.
pub proof fn lemma_terse_shows_failures(list: Seq<ExecutionView>, e: ExecutionView)
    ensures
        shown_rules(list, true) == list,
        shown_rules(list, false).contains(e) <==> list.contains(e) && !e.passed,
    decreases list.len(),
{
    if list.len() > 0 {
        let rest = list.drop_last();
        lemma_terse_shows_failures(rest, e);
        assert(list =~= rest.push(list.last()));
        assert(list.contains(e) <==> rest.contains(e) || e == list.last()) by {
            if list.contains(e) {
                let i = choose|i: int| 0 <= i < list.len() && list[i] == e;
                if i < rest.len() {
                    assert(rest[i] == e);
                }
            }
            if rest.contains(e) {
                let i = choose|i: int| 0 <= i < rest.len() && rest[i] == e;
                assert(list[i] == e);
            }
            assert(list[list.len() - 1] == list.last());
        }
        let shown = shown_rules(rest, false);
        let last = list.last();
        if !last.passed {
            let longer = shown.push(last);
            if shown.contains(e) {
                let i = choose|i: int| 0 <= i < shown.len() && shown[i] == e;
                assert(longer[i] == e);
            }
            assert(longer[shown.len() as int] == last);
            if longer.contains(e) {
                let i = choose|i: int| 0 <= i < longer.len() && longer[i] == e;
                if i < shown.len() {
                    assert(shown[i] == e);
                }
            }
        }
    }
}

/// A policy is shown by its name where it has one.
pub proof fn lemma_policy_labels(policy: Seq<char>)
    ensures
        policy.len() > 0 ==> policy_label(policy) == policy,
        policy.len() == 0 ==> policy_label(policy) == "(no policy)"@,
{
}

/// A finding belongs to a rule exactly where its assertion is the name of the rule,
/// a colon, a blank and more; all that belong are found, in order.
pub proof fn lemma_findings_of_rule(rule: Seq<char>, a: Seq<FailureView>, b: Seq<FailureView>)
    ensures
        failures_of(rule, a + b) == failures_of(rule, a) + failures_of(rule, b),
        forall|f: FailureView, rest: Seq<char>|
            #![trigger seq![f], rule + ": "@ + rest]
            f.assertion == rule + ": "@ + rest ==> failures_of(rule, seq![f]) == seq![f],
        forall|f: FailureView|
            failures_of(rule, #[trigger] seq![f]).len() > 0 ==> exists|rest: Seq<char>|
                f.assertion == #[trigger] (rule + ": "@ + rest),
    decreases b.len(),
{
    let start = rule + ": "@;
    assert forall|f: FailureView|
        failures_of(rule, #[trigger] seq![f]) == (if text::has_prefix(f.assertion, start) {
            seq![f]
        } else {
            seq![]
        }) by {
        let one = seq![f];
        assert(one.drop_last() =~= seq![]);
        assert(failures_of(rule, one.drop_last()) =~= seq![]);
        assert(one.last() == f);
    }
    assert forall|f: FailureView, rest: Seq<char>|
        #![trigger seq![f], rule + ": "@ + rest]
        f.assertion == rule + ": "@ + rest implies failures_of(rule, seq![f]) == seq![f] by {
        text::lemma_parts(f.assertion, start, seq![], rest);
    }
    assert forall|f: FailureView|
        failures_of(rule, #[trigger] seq![f]).len() > 0 implies exists|rest: Seq<char>|
        f.assertion == #[trigger] (rule + ": "@ + rest) by {
        text::lemma_parts(f.assertion, start, seq![], seq![]);
        let rest = f.assertion.skip(start.len() as int);
        assert(f.assertion == rule + ": "@ + rest);
    }
    if b.len() == 0 {
        assert(a + b =~= a);
        assert(failures_of(rule, a) + failures_of(rule, b) =~= failures_of(rule, a));
    } else {
        lemma_findings_of_rule(rule, a, b.drop_last());
        assert((a + b).drop_last() =~= a + b.drop_last());
        assert((a + b).last() == b.last());
        assert(failures_of(rule, a + b) =~= failures_of(rule, a) + failures_of(rule, b));
    }
}

/// A rule that passed is shown so; one that did not is shown by what it asks for. A
/// policy is shown by the gravest of its rules, as a profile is by its outcome.
pub proof fn lemma_statuses(e: ExecutionView, list: Seq<ExecutionView>)
    ensures
        execution_status(e) == Status::Pass <==> e.passed,
        execution_status(e) == Status::Fail <==> !e.passed && e.modal == Modal::Must,
        execution_status(e) == Status::Warn <==> !e.passed && e.modal == Modal::Should,
        execution_status(e) == Status::Info <==> !e.passed && e.modal == Modal::May,
        group_status(list) == Status::Fail <==> exists|i: int|
            0 <= i < list.len() && execution_status(#[trigger] list[i]) == Status::Fail,
        group_status(list) == Status::Warn <==> (forall|i: int|
            0 <= i < list.len() ==> execution_status(#[trigger] list[i]) != Status::Fail) && (
        exists|i: int|
            0 <= i < list.len() && execution_status(#[trigger] list[i]) == Status::Warn),
        group_status(list) == Status::Pass || group_status(list) == Status::Warn || group_status(
            list,
        ) == Status::Fail,
        group_status(list) == outcome_status(laws::outcome_of(list)),
{
    if some_failed(list, Modal::Must) {
        let i = choose|i: int|
            0 <= i < list.len() && !(#[trigger] list[i]).passed && list[i].modal == Modal::Must;
        assert(execution_status(list[i]) == Status::Fail);
        assert(laws::failed(list[i], Modal::Must));
    }
    if some_failed(list, Modal::Should) {
        let i = choose|i: int|
            0 <= i < list.len() && !(#[trigger] list[i]).passed && list[i].modal == Modal::Should;
        assert(execution_status(list[i]) == Status::Warn);
        assert(laws::failed(list[i], Modal::Should));
    }
}

/// Rules and policies in two parts are counted part by part; a single one counts
/// exactly where it is shown as passed.
pub proof fn lemma_counts(
    a: Seq<ExecutionView>,
    b: Seq<ExecutionView>,
    c: Seq<GroupView>,
    d: Seq<GroupView>,
)
    ensures
        passed_rules(a + b) == passed_rules(a) + passed_rules(b),
        passed_groups(c + d) == passed_groups(c) + passed_groups(d),
        forall|e: ExecutionView|
            passed_rules(#[trigger] seq![e]) == if e.passed {
                1nat
            } else {
                0nat
            },
        forall|g: GroupView|
            passed_groups(#[trigger] seq![g]) == if group_status(g.rules) == Status::Pass {
                1nat
            } else {
                0nat
            },
        passed_rules(seq![]) == 0,
        passed_groups(seq![]) == 0,
    decreases b.len() + d.len(),
{
    assert forall|e: ExecutionView| passed_rules(#[trigger] seq![e]) == if e.passed {
        1nat
    } else {
        0nat
    } by {
        reveal_with_fuel(passed_rules, 2);
        assert(seq![e].drop_last() =~= seq![]);
    }
    assert forall|g: GroupView|
        passed_groups(#[trigger] seq![g]) == if group_status(g.rules) == Status::Pass {
            1nat
        } else {
            0nat
        } by {
        reveal_with_fuel(passed_groups, 2);
        assert(seq![g].drop_last() =~= seq![]);
    }
    if b.len() > 0 {
        lemma_counts(a, b.drop_last(), c, d);
        assert((a + b).drop_last() =~= a + b.drop_last());
        assert((a + b).last() == b.last());
    } else {
        assert(a + b =~= a);
        if d.len() > 0 {
            lemma_counts(a, b, c, d.drop_last());
            assert((c + d).drop_last() =~= c + d.drop_last());
            assert((c + d).last() == d.last());
        } else {
            assert(c + d =~= c);
        }
    }
}

/// The policies that are shown are all of them, or those that did not pass, in
/// order and with none left out.
pub proof fn lemma_shown_groups(a: Seq<GroupView>, b: Seq<GroupView>, verbose: bool)
    ensures
        shown_groups(a + b, verbose) == shown_groups(a, verbose) + shown_groups(b, verbose),
        shown_rules_join(verbose),
        forall|g: GroupView|
            verbose || group_status(g.rules) != Status::Pass ==> shown_groups(
                #[trigger] seq![g],
                verbose,
            ) == seq![g],
        forall|g: GroupView|
            !verbose && group_status(g.rules) == Status::Pass ==> shown_groups(
                #[trigger] seq![g],
                verbose,
            ).len() == 0,
    decreases b.len(),
{
    assert forall|x: Seq<ExecutionView>, y: Seq<ExecutionView>| #[trigger]
        shown_rules(x + y, verbose) == shown_rules(x, verbose) + shown_rules(y, verbose) by {
        lemma_shown_rules(x, y, verbose);
    }
    assert forall|g: GroupView|
        shown_groups(#[trigger] seq![g], verbose) == (if verbose || group_status(g.rules)
            != Status::Pass {
            seq![g]
        } else {
            seq![]
        }) by {
        let one = seq![g];
        assert(one.drop_last() =~= seq![]);
        assert(shown_groups(one.drop_last(), verbose) =~= seq![]);
        assert(one.last() == g);
    }
    if b.len() == 0 {
        assert(a + b =~= a);
        assert(shown_groups(a, verbose) + shown_groups(b, verbose) =~= shown_groups(a, verbose));
    } else {
        lemma_shown_groups(a, b.drop_last(), verbose);
        assert((a + b).drop_last() =~= a + b.drop_last());
        assert((a + b).last() == b.last());
        assert(shown_groups(a + b, verbose) =~= shown_groups(a, verbose) + shown_groups(
            b,
            verbose,
        ));
    }
}

/// Whether the rules that are shown, from rules in two parts, are those of the first
/// part and then those of the second.
pub open spec fn shown_rules_join(verbose: bool) -> bool {
    forall|x: Seq<ExecutionView>, y: Seq<ExecutionView>| #[trigger]
        shown_rules(x + y, verbose) == shown_rules(x, verbose) + shown_rules(y, verbose)
}

proof fn lemma_shown_rules(a: Seq<ExecutionView>, b: Seq<ExecutionView>, verbose: bool)
    ensures
        shown_rules(a + b, verbose) == shown_rules(a, verbose) + shown_rules(b, verbose),
    decreases b.len(),
{
    if b.len() == 0 {
        assert(a + b =~= a);
        assert(shown_rules(a, verbose) + shown_rules(b, verbose) =~= shown_rules(a, verbose));
    } else {
        lemma_shown_rules(a, b.drop_last(), verbose);
        assert((a + b).drop_last() =~= a + b.drop_last());
        assert((a + b).last() == b.last());
        assert(shown_rules(a + b, verbose) =~= shown_rules(a, verbose) + shown_rules(b, verbose));
    }
}

/// What is said of a finding is where it stands, counted from line one, then its
/// area, then its message; each where there is one, and nothing else.
pub proof fn lemma_details(a: Analysis, f: FailureView)
    ensures
        ({
            let details = failure_details(a, f);
            let place = analysis::place_of(a.model, f);
            let places: int = if place is Some {
                1
            } else {
                0
            };
            let areas: int = if f.area is Some {
                1
            } else {
                0
            };
            let messages: int = if f.message is Some {
                1
            } else {
                0
            };
            &&& details.len() == places + areas + messages
            &&& place is Some ==> details[0] == "Location: "@ + a.document + ": line "@
                + text::decimal((place->0.start.line + 1) as nat)
            &&& f.area is Some ==> details[places] == "Area: "@ + a.model.name_of(f.area->0)
            &&& f.message is Some ==> details[places + areas] == "Message: "@ + f.message->0
        }),
{
}

/// A rule is shown by what it asks for, its name, and the number of its findings
/// where there are any.
pub proof fn lemma_rule_label(e: ExecutionView, findings: nat)
    ensures
        text::has_prefix(rule_label(e, findings), semantics::modal_word(e.modal) + " "@ + e.rule),
        findings == 0 ==> rule_label(e, 0) == semantics::modal_word(e.modal) + " "@ + e.rule,
        findings == 1 ==> text::has_suffix(rule_label(e, 1), " (1 finding)"@),
        findings > 1 ==> text::has_suffix(
            rule_label(e, findings),
            " ("@ + text::decimal(findings) + " findings)"@,
        ),
{
    let name = semantics::modal_word(e.modal) + " "@ + e.rule;
    let label = rule_label(e, findings);
    reveal_strlit("");
    reveal_strlit("s");
    reveal_strlit(")");
    reveal_strlit(" (");
    reveal_strlit(" finding");
    reveal_strlit(" findings)");
    reveal_strlit(" (1 finding)");
    assert(name + Seq::<char>::empty() =~= name);
    text::lemma_parts(name, name, seq![], label.skip(name.len() as int));
    assert(label =~= name + label.skip(name.len() as int));
    if findings == 1 {
        assert(text::decimal(1) =~= seq!['1']);
        assert(label =~= name + " (1 finding)"@);
        text::lemma_parts(label, " (1 finding)"@, name, seq![]);
    }
    if findings > 1 {
        let tail = " ("@ + text::decimal(findings) + " findings)"@;
        assert(label =~= name + tail);
        text::lemma_parts(label, tail, name, seq![]);
    }
}

/// Each finding of a rule has its lines among those of the rule, whichever its
/// place; so has each rule among those of its policy, and each policy among those
/// of the profile.
#[verifier::rlimit(50)]
pub proof fn lemma_lines_of_each(
    out: Reporter,
    prefix: Seq<char>,
    a: Analysis,
    failures: Seq<FailureView>,
    list: Seq<ExecutionView>,
    groups: Seq<GroupView>,
    total: nat,
    verbose: bool,
    i: int,
)
    ensures
        0 <= i < failures.len() ==> layout::holds_lines(
            all_failure_lines(out, prefix, a, failures, total),
            failure_lines(out, prefix, i + 1 == total, a, failures[i]),
        ),
        0 <= i < list.len() ==> layout::holds_lines(
            all_rule_lines(out, prefix, a, list, total),
            rule_lines(out, prefix, i + 1 == total, a, list[i]),
        ),
        0 <= i < groups.len() ==> layout::holds_lines(
            all_group_lines(out, prefix, a, groups, total, verbose),
            group_lines(out, prefix, i + 1 == total, a, groups[i], verbose),
        ),
    decreases failures.len() + list.len() + groups.len(),
{
    let none: Seq<Seq<char>> = seq![];
    if 0 <= i < failures.len() {
        let rest = all_failure_lines(out, prefix, a, failures.drop_last(), total);
        let last = failure_lines(out, prefix, failures.len() == total, a, failures.last());
        if i < failures.len() - 1 {
            lemma_lines_of_each(
                out,
                prefix,
                a,
                failures.drop_last(),
                seq![],
                seq![],
                total,
                verbose,
                i,
            );
            layout::lemma_lines_in_lines(
                none,
                rest,
                last,
                failure_lines(out, prefix, i + 1 == total, a, failures[i]),
                seq![],
            );
            assert(none + rest + last =~= rest + last);
        } else {
            assert(rest + last =~= rest + last + none);
        }
    }
    if 0 <= i < list.len() {
        let rest = all_rule_lines(out, prefix, a, list.drop_last(), total);
        let last = rule_lines(out, prefix, list.len() == total, a, list.last());
        if i < list.len() - 1 {
            lemma_lines_of_each(
                out,
                prefix,
                a,
                seq![],
                list.drop_last(),
                seq![],
                total,
                verbose,
                i,
            );
            layout::lemma_lines_in_lines(
                none,
                rest,
                last,
                rule_lines(out, prefix, i + 1 == total, a, list[i]),
                seq![],
            );
            assert(none + rest + last =~= rest + last);
        } else {
            assert(rest + last =~= rest + last + none);
        }
    }
    if 0 <= i < groups.len() {
        let rest = all_group_lines(out, prefix, a, groups.drop_last(), total, verbose);
        let last = group_lines(
            out,
            prefix,
            groups.len() == total,
            a,
            groups.last(),
            verbose,
        );
        if i < groups.len() - 1 {
            lemma_lines_of_each(
                out,
                prefix,
                a,
                seq![],
                seq![],
                groups.drop_last(),
                total,
                verbose,
                i,
            );
            layout::lemma_lines_in_lines(
                none,
                rest,
                last,
                group_lines(out, prefix, i + 1 == total, a, groups[i], verbose),
                seq![],
            );
            assert(none + rest + last =~= rest + last);
        } else {
            assert(rest + last =~= rest + last + none);
        }
    }
}

proof fn lemma_lines_end(
    lines: Seq<Seq<char>>,
    part: Seq<Seq<char>>,
    inner: Seq<Seq<char>>,
    tail: Seq<char>,
)
    requires
        layout::holds_lines(lines, part),
        layout::holds_lines(part, inner),
    ensures
        layout::holds_lines(lines, inner),
        layout::has_line(inner, tail) ==> layout::has_line(lines, tail),
{
    let (a, b) = choose|a: Seq<Seq<char>>, b: Seq<Seq<char>>| lines == #[trigger] (a + part + b);
    layout::lemma_lines_in_lines(a, part, b, inner, tail);
}

proof fn lemma_whole(lines: Seq<Seq<char>>, first: Seq<Seq<char>>, rest: Seq<Seq<char>>)
    requires
        lines == first + rest,
    ensures
        layout::holds_lines(lines, lines),
        layout::holds_lines(lines, first),
        layout::holds_lines(lines, rest),
{
    let none: Seq<Seq<char>> = seq![];
    assert(lines =~= none + lines + none);
    assert(lines =~= none + first + rest);
    assert(lines =~= first + rest + none);
}

/// A rule shows its label, and below it each of its findings, by the name of the
/// subject.
proof fn lemma_rule_lines(
    out: Reporter,
    prefix: Seq<char>,
    is_last: bool,
    a: Analysis,
    e: ExecutionView,
    f: FailureView,
)
    ensures
        layout::has_line(
            rule_lines(out, prefix, is_last, a, e),
            layout::status_marker(out.interactive, execution_status(e)) + " "@ + rule_label(
                e,
                failures_of(e.rule, a.failures).len(),
            ),
        ),
        failures_of(e.rule, a.failures).contains(f) ==> layout::has_line(
            rule_lines(out, prefix, is_last, a, e),
            layout::status_marker(out.interactive, layout::severity_status(f.severity)) + " "@
                + failure_label(a, f),
        ),
{
    let failures = failures_of(e.rule, a.failures);
    let marker = layout::status_marker(out.interactive, execution_status(e));
    let label = rule_label(e, failures.len());
    layout::lemma_signs_differ(execution_status(e), execution_status(e), out.interactive);
    layout::lemma_node_lines(out.width as nat, prefix, is_last, marker, label, None);
    let first = layout::node_lines(out.width as nat, prefix, is_last, marker, label, None);
    let below = layout::prefix_below(prefix, is_last);
    let rest = all_failure_lines(out, below, a, failures, failures.len());
    let lines = rule_lines(out, prefix, is_last, a, e);
    lemma_whole(lines, first, rest);
    lemma_lines_end(lines, lines, first, marker + " "@ + label);
    if failures.contains(f) {
        let i = choose|i: int| 0 <= i < failures.len() && failures[i] == f;
        lemma_lines_of_each(
            out,
            below,
            a,
            failures,
            seq![],
            seq![],
            failures.len(),
            true,
            i,
        );
        let inner = failure_lines(out, below, i + 1 == failures.len(), a, f);
        let sign = layout::status_marker(out.interactive, layout::severity_status(f.severity));
        let details = failure_details(a, f);
        layout::lemma_signs_differ(
            layout::severity_status(f.severity),
            Status::Pass,
            out.interactive,
        );
        layout::lemma_node_lines(
            out.width as nat,
            below,
            i + 1 == failures.len(),
            sign,
            failure_label(a, f),
            if details.len() == 0 {
                None
            } else {
                Some(text::joined(details, "\n"@))
            },
        );
        lemma_lines_end(lines, rest, inner, sign + " "@ + failure_label(a, f));
    }
}

proof fn lemma_group_of(groups: Seq<GroupView>, e: ExecutionView) -> (i: int)
    requires
        ungrouped(groups).contains(e),
    ensures
        0 <= i < groups.len(),
        groups[i].rules.contains(e),
    decreases groups.len(),
{
    let all = ungrouped(groups);
    let k = choose|k: int| 0 <= k < all.len() && all[k] == e;
    let before = ungrouped(groups.drop_last());
    if k < before.len() {
        assert(before[k] == e);
        lemma_group_of(groups.drop_last(), e)
    } else {
        assert(groups.last().rules[k - before.len()] == e);
        groups.len() - 1
    }
}

proof fn lemma_contains_shown(list: Seq<GroupView>, verbose: bool, i: int)
    requires
        0 <= i < list.len(),
        verbose || group_status(list[i].rules) != Status::Pass,
    ensures
        shown_groups(list, verbose).contains(list[i]),
{
    let a = list.take(i);
    let one = seq![list[i]];
    let b = list.skip(i + 1);
    assert(list =~= (a + one) + b);
    lemma_shown_groups(a + one, b, verbose);
    lemma_shown_groups(a, one, verbose);
    let shown = shown_groups(list, verbose);
    assert(shown[shown_groups(a, verbose).len() as int] == list[i]);
}

proof fn lemma_contains_finding(rule: Seq<char>, list: Seq<FailureView>, i: int, rest: Seq<char>)
    requires
        0 <= i < list.len(),
        list[i].assertion == rule + ": "@ + rest,
    ensures
        failures_of(rule, list).contains(list[i]),
{
    let a = list.take(i);
    let one = seq![list[i]];
    let b = list.skip(i + 1);
    assert(list =~= (a + one) + b);
    lemma_findings_of_rule(rule, a + one, b);
    lemma_findings_of_rule(rule, a, one);
    let found = failures_of(rule, list);
    assert(found[failures_of(rule, a).len() as int] == list[i]);
}

/// Where everything is shown, or there are findings and the rule is a must or a
/// should that failed, the results show the rule by its label, and each of its
/// findings by its subject, with the sign of its severity.
pub proof fn lemma_results_show_findings(
    out: Reporter,
    profile: Seq<char>,
    a: Analysis,
    verbose: bool,
    e: ExecutionView,
    i: int,
    rest: Seq<char>,
)
    requires
        a.trace.contains(e),
        verbose || (!e.passed && e.modal != Modal::May),
        0 <= i < a.failures.len(),
        a.failures[i].assertion == e.rule + ": "@ + rest,
    ensures
        layout::has_line(
            result_lines(out, profile, a, verbose),
            layout::status_marker(out.interactive, execution_status(e)) + " "@ + rule_label(
                e,
                failures_of(e.rule, a.failures).len(),
            ),
        ),
        layout::has_line(
            result_lines(out, profile, a, verbose),
            layout::status_marker(
                out.interactive,
                layout::severity_status(a.failures[i].severity),
            ) + " "@ + failure_label(a, a.failures[i]),
        ),
{
    let groups = grouped(a.trace);
    let f = a.failures[i];
    lemma_contains_finding(e.rule, a.failures, i, rest);
    lemma_grouping_keeps_trace(a.trace);
    let g = lemma_group_of(groups, e);
    let group = groups[g];
    let k = choose|k: int| 0 <= k < group.rules.len() && group.rules[k] == e;
    if !verbose {
        assert(!group.rules[k].passed);
    }
    lemma_contains_shown(groups, verbose, g);
    let shown = shown_groups(groups, verbose);
    let s = choose|s: int| 0 <= s < shown.len() && shown[s] == group;
    lemma_terse_shows_failures(group.rules, e);
    let listed = shown_rules(group.rules, verbose);
    let r = choose|r: int| 0 <= r < listed.len() && listed[r] == e;
    let prefix = layout::prefix_below(""@, true);
    let below = layout::prefix_below(prefix, s + 1 == shown.len());
    lemma_lines_of_each(out, prefix, a, seq![], seq![], shown, shown.len(), verbose, s);
    lemma_lines_of_each(out, below, a, seq![], listed, seq![], listed.len(), verbose, r);
    lemma_rule_lines(out, below, r + 1 == listed.len(), a, e, f);
    let inner = rule_lines(out, below, r + 1 == listed.len(), a, e);
    let middle = group_lines(out, prefix, s + 1 == shown.len(), a, group, verbose);
    let all = all_group_lines(out, prefix, a, shown, shown.len(), verbose);
    let lines = result_lines(out, profile, a, verbose);
    let header = layout::node_lines(
        out.width as nat,
        ""@,
        true,
        layout::status_marker(out.interactive, outcome_status(a.outcome)),
        tally("Profile: "@ + profile, passed_groups(groups), groups.len()),
        None,
    );
    let head = layout::node_lines(
        out.width as nat,
        prefix,
        s + 1 == shown.len(),
        layout::status_marker(out.interactive, group_status(group.rules)),
        tally("Policy: "@ + group.name, passed_rules(group.rules), group.rules.len()),
        None,
    );
    let tree = all_rule_lines(out, below, a, listed, listed.len());
    lemma_whole(lines, header, all);
    lemma_whole(middle, head, tree);
    lemma_lines_end(middle, tree, inner, seq![]);
    lemma_lines_end(lines, all, middle, seq![]);
    lemma_lines_end(
        lines,
        middle,
        inner,
        layout::status_marker(out.interactive, execution_status(e)) + " "@ + rule_label(
            e,
            failures_of(e.rule, a.failures).len(),
        ),
    );
    lemma_lines_end(
        lines,
        middle,
        inner,
        layout::status_marker(out.interactive, layout::severity_status(f.severity)) + " "@
            + failure_label(a, f),
    );
}

/// The results begin with the profile, the sign of its outcome, and how many of its
/// policies passed. A policy that did not pass, or any where everything is shown, is
/// shown with how many of its rules passed. Nothing else is shown where there are no
/// findings.
pub proof fn lemma_results_show_policies(
    out: Reporter,
    profile: Seq<char>,
    a: Analysis,
    verbose: bool,
    g: int,
)
    requires
        0 <= g < grouped(a.trace).len(),
    ensures
        ({
            let lines = result_lines(out, profile, a, verbose);
            let groups = grouped(a.trace);
            let group = groups[g];
            &&& lines.len() > 0
            &&& lines[0] == layout::status_marker(out.interactive, outcome_status(a.outcome))
                + " "@ + ("Profile: "@ + profile + " ["@ + text::decimal(passed_groups(groups))
                + "/"@ + text::decimal(groups.len()) + "]"@)
            &&& !verbose && a.failures.len() == 0 ==> lines.len() == 1
            &&& verbose || (a.failures.len() > 0 && group_status(group.rules) != Status::Pass)
                ==> layout::has_line(
                lines,
                layout::status_marker(out.interactive, group_status(group.rules)) + " "@ + (
                "Policy: "@ + group.name + " ["@ + text::decimal(passed_rules(group.rules)) + "/"@
                    + text::decimal(group.rules.len()) + "]"@),
            )
        }),
{
    let groups = grouped(a.trace);
    let group = groups[g];
    let lines = result_lines(out, profile, a, verbose);
    let marker = layout::status_marker(out.interactive, outcome_status(a.outcome));
    let title = tally("Profile: "@ + profile, passed_groups(groups), groups.len());
    reveal_strlit("");
    layout::lemma_signs_differ(outcome_status(a.outcome), Status::Pass, out.interactive);
    layout::lemma_node_lines(out.width as nat, ""@, true, marker, title, None);
    let header = layout::node_lines(out.width as nat, ""@, true, marker, title, None);
    assert(lines[0] == header[0]);
    if verbose || (a.failures.len() > 0 && group_status(group.rules) != Status::Pass) {
        lemma_contains_shown(groups, verbose, g);
        let shown = shown_groups(groups, verbose);
        let s = choose|s: int| 0 <= s < shown.len() && shown[s] == group;
        let prefix = layout::prefix_below(""@, true);
        lemma_lines_of_each(out, prefix, a, seq![], seq![], shown, shown.len(), verbose, s);
        let middle = group_lines(out, prefix, s + 1 == shown.len(), a, group, verbose);
        let all = all_group_lines(out, prefix, a, shown, shown.len(), verbose);
        let sign = layout::status_marker(out.interactive, group_status(group.rules));
        let label = tally("Policy: "@ + group.name, passed_rules(group.rules), group.rules.len());
        layout::lemma_signs_differ(group_status(group.rules), Status::Pass, out.interactive);
        layout::lemma_node_lines(
            out.width as nat,
            prefix,
            s + 1 == shown.len(),
            sign,
            label,
            None,
        );
        let head = layout::node_lines(
            out.width as nat,
            prefix,
            s + 1 == shown.len(),
            sign,
            label,
            None,
        );
        lemma_whole(lines, header, all);
        assert(middle =~= head + middle.skip(head.len() as int));
        lemma_whole(middle, head, middle.skip(head.len() as int));
        lemma_lines_end(lines, all, middle, seq![]);
        lemma_lines_end(lines, middle, head, sign + " "@ + label);
    }
}

/// Findings, rules and policies are shown in order: the lines of the first ones come
/// first.
pub proof fn lemma_lines_in_order(
    out: Reporter,
    prefix: Seq<char>,
    a: Analysis,
    failures: Seq<FailureView>,
    list: Seq<ExecutionView>,
    groups: Seq<GroupView>,
    total: nat,
    verbose: bool,
    n: int,
)
    ensures
        0 <= n <= failures.len() ==> all_failure_lines(
            out,
            prefix,
            a,
            failures.take(n),
            total,
        ).is_prefix_of(all_failure_lines(out, prefix, a, failures, total)),
        0 <= n <= list.len() ==> all_rule_lines(
            out,
            prefix,
            a,
            list.take(n),
            total,
        ).is_prefix_of(all_rule_lines(out, prefix, a, list, total)),
        0 <= n <= groups.len() ==> all_group_lines(
            out,
            prefix,
            a,
            groups.take(n),
            total,
            verbose,
        ).is_prefix_of(all_group_lines(out, prefix, a, groups, total, verbose)),
    decreases failures.len() + list.len() + groups.len(),
{
    if 0 <= n <= failures.len() {
        if n == failures.len() {
            assert(failures.take(n) =~= failures);
        } else {
            let rest = failures.drop_last();
            lemma_lines_in_order(out, prefix, a, rest, seq![], seq![], total, verbose, n);
            assert(rest.take(n) =~= failures.take(n));
        }
    }
    if 0 <= n <= list.len() {
        if n == list.len() {
            assert(list.take(n) =~= list);
        } else {
            let rest = list.drop_last();
            lemma_lines_in_order(out, prefix, a, seq![], rest, seq![], total, verbose, n);
            assert(rest.take(n) =~= list.take(n));
        }
    }
    if 0 <= n <= groups.len() {
        if n == groups.len() {
            assert(groups.take(n) =~= groups);
        } else {
            let rest = groups.drop_last();
            lemma_lines_in_order(out, prefix, a, seq![], seq![], rest, total, verbose, n);
            assert(rest.take(n) =~= groups.take(n));
        }
    }
}

} // verus!
