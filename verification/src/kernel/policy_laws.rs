//! What derives and policies do with their parts, and what an analysis gives.

use vstd::prelude::*;

use crate::diagnostics::{self, Diagnostic};
use crate::kernel::analysis::{self, AnalysisResult, Source};
use crate::kernel::ast::{Derive, Modal, Rule, Statement};
use crate::kernel::finding_laws;
use crate::kernel::laws;
use crate::kernel::query_laws;
use crate::kernel::rules::{self, MAX_ITERATIONS};
use crate::kernel::semantics::{
    self, Frame, PolicyOutcome, PolicyRuleView, Progress, State, World,
};
use crate::model::laws as graph;
use crate::model::view::{self, ModelView};
use crate::model::EntityId;

verus! {

// ---------------------------------------------------------------------------
// Bodies and derives
// ---------------------------------------------------------------------------

/// A body in two parts: the second part is executed from where the first one
/// ended, with its variables, unless a guard or a fault ended that. It begins
/// without variables, and is a fault exactly where a statement of it is.
pub proof fn lemma_body_executes_statements(
    s: State,
    name: Seq<char>,
    body: Seq<Statement>,
    in_derive: bool,
)
    ensures
        ({
            let w = World { model: s.model, visited: s.visited, env: seq![] };
            let f = Frame { rule: name, binding: seq![], in_derive };
            let end = semantics::run_statements(w, body, f);
            let done = semantics::run_body(s, name, body, in_derive);
            &&& done.0.model == end.0.model
            &&& done.0.visited == end.0.visited
            &&& done.1 is Ok <==> end.1 is Ok
            &&& end.1 is Err ==> done.1 == Err::<(), Seq<char>>(end.1->Err_0)
        }),
{
}

/// Derives in two parts are executed one part after the other, the second from
/// where the first one ended, unless that failed.
pub proof fn lemma_derives_join(s: State, a: Seq<Derive>, b: Seq<Derive>)
    ensures
        ({
            let first = semantics::derive_pass(s, a);
            semantics::derive_pass(s, a + b) == if first.1 is Ok {
                semantics::derive_pass(first.0, b)
            } else {
                first
            }
        }),
        forall|d: Derive|
            semantics::derive_pass(s, #[trigger] seq![d]) == semantics::run_body(
                s,
                d.name@,
                d.body@,
                true,
            ),
    decreases b.len(),
{
    let first = semantics::derive_pass(s, a);
    assert forall|d: Derive|
        semantics::derive_pass(s, #[trigger] seq![d]) == semantics::run_body(
            s,
            d.name@,
            d.body@,
            true,
        ) by {
        let one = seq![d];
        assert(one.drop_last() =~= seq![]);
        assert(semantics::derive_pass(s, one.drop_last()) == (s, Ok::<(), Seq<char>>(())));
    }
    if b.len() == 0 {
        assert(a + b =~= a);
    } else {
        lemma_derives_join(s, a, b.drop_last());
        assert((a + b).drop_last() =~= a + b.drop_last());
        assert((a + b).last() == b.last());
    }
}

// ---------------------------------------------------------------------------
// Policies
// ---------------------------------------------------------------------------

/// A policy in two parts goes on with the second part from where the first one
/// ended, unless that failed.
pub proof fn lemma_policy_join(
    p: Progress,
    rules: Map<Seq<char>, Rule>,
    a: Seq<PolicyRuleView>,
    b: Seq<PolicyRuleView>,
)
    ensures
        ({
            let first = semantics::policy_steps(p, rules, a);
            semantics::policy_steps(p, rules, a + b) == if first.1 is Ok {
                semantics::policy_steps(first.0, rules, b)
            } else {
                first
            }
        }),
    decreases b.len(),
{
    if b.len() == 0 {
        assert(a + b =~= a);
    } else {
        lemma_policy_join(p, rules, a, b.drop_last());
        assert((a + b).drop_last() =~= a + b.drop_last());
        assert((a + b).last() == b.last());
    }
}

/// A policy of one rule executes the rule from the graph as it is, and records
/// the rule, its policy and modal, how many findings of the highest severity came
/// with it, and whether there were none. A rule that is not loaded is passed over;
/// after a failed must nothing is executed.
pub proof fn lemma_rule_is_recorded(p: Progress, rules: Map<Seq<char>, Rule>, b: PolicyRuleView)
    ensures
        ({
            let end = semantics::policy_steps(p, rules, seq![b]);
            let rule = rules[b.rule];
            let done = semantics::run_body(p.state, rule.name@, rule.body@, false);
            let more = semantics::error_count(done.0.model) - semantics::error_count(
                p.state.model,
            );
            &&& p.stopped || !rules.contains_key(b.rule) ==> end == (p, Ok::<(), Seq<char>>(()))
            &&& !p.stopped && rules.contains_key(b.rule) ==> {
                &&& end.0.state == done.0
                &&& end.1 == done.1
                &&& done.1 is Err ==> end.0.trace == p.trace
                &&& done.1 is Ok ==> {
                    &&& end.0.trace.len() == p.trace.len() + 1
                    &&& end.0.trace.drop_last() == p.trace
                    &&& end.0.trace.last().rule == b.rule
                    &&& end.0.trace.last().policy == b.policy
                    &&& end.0.trace.last().modal == b.modal
                    &&& more >= 0 ==> end.0.trace.last().findings == more
                    &&& more < 0 ==> end.0.trace.last().findings == 0
                    &&& end.0.trace.last().passed <==> more <= 0
                    &&& end.0.stopped <==> b.modal == Modal::Must && more > 0
                }
            }
        }),
{
    let one = seq![b];
    assert(one.drop_last() =~= seq![]);
    assert(semantics::policy_steps(p, rules, one.drop_last()) == (p, Ok::<(), Seq<char>>(())));
    let end = semantics::policy_steps(p, rules, one);
    let rule = rules[b.rule];
    let done = semantics::run_body(p.state, rule.name@, rule.body@, false);
    if !p.stopped && rules.contains_key(b.rule) && done.1 is Ok {
        assert(end.0.trace.drop_last() =~= p.trace);
    }
}

/// The rules start from the graph that the derives built, and remember no loop
/// body that a derive executed; where a derive failed none is executed.
pub proof fn lemma_rules_follow_derives(
    m: ModelView,
    derives: Seq<Derive>,
    rules: Map<Seq<char>, Rule>,
    bindings: Seq<PolicyRuleView>,
    limit: nat,
)
    ensures
        ({
            let built = semantics::derive_passes(
                State { model: m, visited: seq![] },
                derives,
                limit,
            );
            let end = semantics::policy_run(m, derives, rules, bindings, limit);
            &&& built.1 is Ok ==> end == semantics::policy_steps(
                laws::fresh(State { model: built.0.model, visited: seq![] }),
                rules,
                bindings,
            )
            &&& built.1 is Err ==> end.1 == built.1 && end.0.state == built.0 && end.0.trace.len()
                == 0
        }),
{
}

/// A table holds the rules of a list by name, the last one with a name for that
/// name.
pub proof fn lemma_listed(list: Seq<Rule>, name: Seq<char>, i: int)
    ensures
        (forall|j: int| 0 <= j < list.len() ==> (#[trigger] list[j]).name@ != name)
            ==> !semantics::listed(list).contains_key(name),
        0 <= i < list.len() && list[i].name@ == name ==> semantics::listed(list).contains_key(name),
        0 <= i < list.len() && list[i].name@ == name && (forall|j: int|
            i < j < list.len() ==> (#[trigger] list[j]).name@ != name) ==> semantics::listed(
            list,
        )[name] == list[i],
    decreases list.len(),
{
    if list.len() > 0 {
        let rest = list.drop_last();
        lemma_listed(rest, name, i);
        assert(list.last() == list[list.len() - 1]);
        if forall|j: int| 0 <= j < list.len() ==> (#[trigger] list[j]).name@ != name {
            assert(list[list.len() - 1].name@ != name);
            assert forall|j: int| 0 <= j < rest.len() implies (#[trigger] rest[j]).name@ != name by {
                assert(rest[j] == list[j]);
            }
        }
        if 0 <= i < rest.len() {
            assert(rest[i] == list[i]);
            if forall|j: int| i < j < list.len() ==> (#[trigger] list[j]).name@ != name {
                assert(list[list.len() - 1].name@ != name);
                assert forall|j: int| i < j < rest.len() implies (#[trigger] rest[j]).name@
                    != name by {
                    assert(rest[j] == list[j]);
                }
            }
        }
    }
}

/// Without a policy every rule of a list is a must, in the order of the list.
pub proof fn lemma_all_rules_bind(list: Seq<Rule>, i: int)
    requires
        0 <= i < list.len(),
    ensures
        semantics::all_bindings(list).len() == list.len(),
        semantics::all_bindings(list)[i].rule == list[i].name@,
        semantics::all_bindings(list)[i].modal == Modal::Must,
        semantics::all_bindings(list)[i].policy.len() == 0,
{
}

/// Of a list of rules, those that have a modal bind by it, in the order of the
/// list.
pub proof fn lemma_modals_bind(a: Seq<Rule>, b: Seq<Rule>, modals: Map<Seq<char>, Modal>)
    ensures
        semantics::modal_bindings(a + b, modals) == semantics::modal_bindings(a, modals)
            + semantics::modal_bindings(b, modals),
        forall|rule: Rule|
            modals.contains_key(rule.name@) ==> semantics::modal_bindings(
                #[trigger] seq![rule],
                modals,
            ) == seq![
                PolicyRuleView { policy: seq![], modal: modals[rule.name@], rule: rule.name@ },
            ],
        forall|rule: Rule|
            !modals.contains_key(rule.name@) ==> semantics::modal_bindings(
                #[trigger] seq![rule],
                modals,
            ).len() == 0,
    decreases b.len(),
{
    assert forall|rule: Rule|
        semantics::modal_bindings(#[trigger] seq![rule], modals) =~= if modals.contains_key(
            rule.name@,
        ) {
            seq![PolicyRuleView { policy: seq![], modal: modals[rule.name@], rule: rule.name@ }]
        } else {
            seq![]
        } by {
        let one = seq![rule];
        assert(one.drop_last() =~= seq![]);
        assert(semantics::modal_bindings(one.drop_last(), modals) =~= seq![]);
    }
    if b.len() == 0 {
        assert(a + b =~= a);
        assert(semantics::modal_bindings(b, modals) =~= seq![]);
        assert(semantics::modal_bindings(a, modals) + semantics::modal_bindings(b, modals)
            =~= semantics::modal_bindings(a, modals));
    } else {
        lemma_modals_bind(a, b.drop_last(), modals);
        assert((a + b).drop_last() =~= a + b.drop_last());
        assert((a + b).last() == b.last());
        assert(semantics::modal_bindings(a + b, modals) =~= semantics::modal_bindings(a, modals)
            + semantics::modal_bindings(b, modals));
    }
}

// ---------------------------------------------------------------------------
// Counting
// ---------------------------------------------------------------------------

/// Whether an entity is stated to be a finding of the highest severity.
pub open spec fn is_grave(m: ModelView, id: EntityId) -> bool {
    &&& query_laws::is_of_type(m, id, "core:AssertFailure"@)
    &&& query_laws::is_linked_to(m, id, "core:severity"@, m.resolve("core:Error"@))
}

/// An entity counts exactly where it is stated to be a finding of the highest
/// severity.
pub proof fn lemma_grave(m: ModelView, id: EntityId)
    ensures
        semantics::is_error_finding(m, id) <==> is_grave(m, id),
{
    if let Some(kind) = m.resolve("core:AssertFailure"@) {
        graph::lemma_types(m, id, kind);
    }
}

/// The findings of the highest severity among the entities of a graph: a list
/// without repetition that holds all of them is as long as their count.
pub proof fn lemma_count_is_number(m: ModelView, list: Seq<EntityId>)
    requires
        m.ids_fit(),
        list.no_duplicates(),
        forall|id: EntityId| #[trigger]
            list.contains(id) <==> id.0 < m.names.len() && is_grave(m, id),
    ensures
        semantics::error_count(m) == list.len(),
{
    let all = counted(m, m.names.len());
    lemma_counted(m, m.names.len());
    assert(all.to_set() =~= list.to_set()) by {
        assert forall|id: EntityId| all.to_set().contains(id) <==> list.to_set().contains(id) by {
            assert(all.contains(id) <==> list.contains(id));
        }
    }
    all.unique_seq_to_set();
    list.unique_seq_to_set();
}

spec fn counted(m: ModelView, n: nat) -> Seq<EntityId>
    decreases n,
{
    if n == 0 {
        seq![]
    } else if is_grave(m, EntityId((n - 1) as u32)) {
        counted(m, (n - 1) as nat).push(EntityId((n - 1) as u32))
    } else {
        counted(m, (n - 1) as nat)
    }
}

proof fn lemma_counted(m: ModelView, n: nat)
    requires
        m.ids_fit(),
        n <= m.names.len(),
    ensures
        counted(m, n).len() == semantics::error_findings(m, n),
        counted(m, n).no_duplicates(),
        forall|id: EntityId| #[trigger] counted(m, n).contains(id) <==> id.0 < n && is_grave(m, id),
    decreases n,
{
    if n > 0 {
        lemma_counted(m, (n - 1) as nat);
        graph::lemma_id_at(n - 1);
        let before = counted(m, (n - 1) as nat);
        let last = EntityId((n - 1) as u32);
        assert(view::id_at(n - 1) == last);
        lemma_grave(m, last);
        assert(!before.contains(last));
        let all = counted(m, n);
        assert forall|id: EntityId| #[trigger] all.contains(id) <==> id.0 < n && is_grave(m, id) by {
            if all.contains(id) {
                let i = choose|i: int| 0 <= i < all.len() && all[i] == id;
                if i < before.len() {
                    assert(before[i] == id);
                    assert(before.contains(id));
                }
            }
            if id.0 < n && is_grave(m, id) {
                if id.0 < n - 1 {
                    assert(before.contains(id));
                    let i = choose|i: int| 0 <= i < before.len() && before[i] == id;
                    assert(all[i] == id);
                } else {
                    assert(id == last);
                    assert(all[before.len() as int] == id);
                }
            }
        }
    }
}

// ---------------------------------------------------------------------------
// Analyses
// ---------------------------------------------------------------------------

/// An analysis that succeeded collected every finding of its graph; its outcome is
/// the one that its records amount to; its records are about the rules of the
/// policy in order, all that are loaded unless a must failed; and what the document
/// was brought into is still in the graph.
pub proof fn lemma_analysis_is_whole(source: Source, a: AnalysisResult)
    requires
        source is Ready,
        analysis::analysed(source, Ok(a)),
    ensures
        ({
            let trace = rules::trace_views(a.trace@);
            let bindings = rules::ordered_views(source->bindings@);
            let failures = analysis::failure_views(a.failures@);
            &&& a.outcome == laws::outcome_of(trace)
            &&& laws::executed(trace).is_prefix_of(laws::loaded(bindings, source->rules@))
            &&& a.outcome != PolicyOutcome::Fail ==> laws::executed(trace) == laws::loaded(
                bindings,
                source->rules@,
            )
            &&& graph::extends(source->Ready_model@, a.model@)
            &&& a.document == source->document
            &&& a.model@.ids_fit() ==> forall|id: EntityId| #[trigger]
                finding_laws::is_finding(a.model@, id) <==> exists|i: int|
                    0 <= i < failures.len() && (#[trigger] failures[i]).entity == id
            &&& a.model@.ids_fit() ==> forall|i: int|
                0 <= i < failures.len() ==> finding_laws::says_of(
                    a.model@,
                    (#[trigger] failures[i]).entity,
                    failures[i],
                )
        }),
{
    let m = source->Ready_model@;
    let derives = source->derives@;
    let table = source->rules@;
    let bindings = rules::ordered_views(source->bindings@);
    let limit = MAX_ITERATIONS as nat;
    laws::lemma_two_phases(m, derives, table, bindings, limit);
    lemma_rules_follow_derives(m, derives, table, bindings, limit);
    let built = semantics::derive_passes(State { model: m, visited: seq![] }, derives, limit);
    let start = State { model: built.0.model, visited: seq![] };
    laws::lemma_outcome_follows_trace(start, table, bindings);
    laws::lemma_policy_keeps_order(start, table, bindings);
    graph::lemma_extends_transitive(m, built.0.model, a.model@);
    if a.model@.ids_fit() {
        finding_laws::lemma_every_finding_is_collected(a.model@);
    }
}

/// An analysis that failed reports one error that tells what failed and why, and
/// what a document could not be brought in for is reported as it came.
pub proof fn lemma_failed_analysis_tells(source: Source, list: Vec<Diagnostic>)
    requires
        analysis::analysed(source, Err(list)),
    ensures
        source is ProjectFailed ==> list == source->ProjectFailed_0,
        !(source is ProjectFailed) ==> {
            let d = diagnostics::diagnostic_views(list@);
            &&& d.len() == 1
            &&& source is ParseFailed ==> d[0].message == "Parse error: "@
                + source->ParseFailed_0@
            &&& source is LowerFailed ==> d[0].message == "Lower error: "@
                + source->LowerFailed_0@
            &&& source is Ready ==> semantics::policy_run(
                source->Ready_model@,
                source->derives@,
                source->rules@,
                rules::ordered_views(source->bindings@),
                MAX_ITERATIONS as nat,
            ).1 is Err && d[0].message == "Rule error: "@ + semantics::policy_run(
                source->Ready_model@,
                source->derives@,
                source->rules@,
                rules::ordered_views(source->bindings@),
                MAX_ITERATIONS as nat,
            ).1->Err_0
        },
{
}

/// Derives that settle within a hundred passes are run until they do: what the
/// passes come to is a graph to which another pass adds no statement.
pub proof fn lemma_derives_settle(s: State, derives: Seq<Derive>, n: nat)
    requires
        0 < n <= 100,
        laws::passes(s, derives, n).1 is Ok,
        laws::passes(s, derives, n).0.model.facts.len() == laws::passes(
            s,
            derives,
            (n - 1) as nat,
        ).0.model.facts.len(),
        forall|k: nat|
            0 < k < n ==> (#[trigger] laws::passes(s, derives, k)).1 is Ok && laws::passes(
                s,
                derives,
                k,
            ).0.model.facts.len() != laws::passes(
                s,
                derives,
                (k - 1) as nat,
            ).0.model.facts.len(),
    ensures
        semantics::derive_passes(s, derives, MAX_ITERATIONS as nat) == laws::passes(s, derives, n),
{
    let k = laws::lemma_derives_reach_fixed_point(s, derives, MAX_ITERATIONS as nat);
    if k < n {
        if k == 0 {
            assert(MAX_ITERATIONS as nat > 0);
        } else {
            assert(laws::passes(s, derives, k).1 is Ok);
        }
    }
    if k > n {
        assert(laws::passes(s, derives, n).1 is Ok);
    }
}

} // verus!
