//! The course of a check: after each piece of outside work, what is shown and
//! what comes next.

use vstd::prelude::*;

use crate::kernel::analysis::AnalysisResult;
use crate::kernel::semantics::PolicyOutcome;
use crate::report::graph::{self, print_model_graph};
use crate::report::layout::{self, append_lines, Reporter, Status};
use crate::report::results::{self, print_results, Analysis};
use crate::text;

verus! {

/// What a check is asked for.
#[derive(Debug)]
pub struct CheckOptions {
    /// The name of the profile.
    pub profile: String,
    /// The name of the target, as it is shown.
    pub target: String,
    /// The name of the file of further intents, as it is shown.
    pub entry: Option<String>,
    /// Whether the graph is shown.
    pub graph: bool,
    /// Whether the target is validated too.
    pub validate: bool,
    /// Whether what passed is shown too.
    pub verbose: bool,
}

/// What comes next.
#[derive(Debug, Clone, Copy, PartialEq, Eq, Structural)]
pub enum Action {
    ReadTarget,
    LoadEntry,
    SelectProfile,
    Analyse,
    /// Wait for the validation. Whether the check has succeeded so far.
    AwaitValidation(bool),
    /// End. Whether the check succeeded.
    Exit(bool),
}

/// What is shown, and what comes next.
#[derive(Debug)]
pub struct Step {
    pub lines: Vec<String>,
    pub next: Action,
}

/// What is shown, and what comes next.
pub struct StepView {
    pub lines: Seq<Seq<char>>,
    pub next: Action,
}

impl View for Step {
    type V = StepView;

    open spec fn view(&self) -> StepView {
        StepView { lines: text::views(self.lines@), next: self.next }
    }
}

/// What came of reading the target.
#[derive(Debug)]
pub enum TargetOutcome {
    Missing,
    Unreadable(String),
    Read,
}

/// What came of loading the further intents.
#[derive(Debug)]
pub enum EntryOutcome {
    Missing,
    Rejected(String),
    Loaded,
}

/// What came of validating the target.
#[derive(Debug)]
pub enum ValidationOutcome {
    /// The target could not be parsed.
    ParseFailed(Vec<String>),
    /// The specification could not be loaded.
    SpecFailed(String),
    /// The target was held against the specification.
    Checked(Vec<String>),
}

/// The report of a validation.
#[derive(Debug)]
pub struct ValidationReport {
    pub status: Status,
    pub label: String,
    pub detail: Option<String>,
}

/// What a report of a validation says.
pub struct ReportView {
    pub status: Status,
    pub label: Seq<char>,
    pub detail: Option<Seq<char>>,
}

impl View for ValidationReport {
    type V = ReportView;

    open spec fn view(&self) -> ReportView {
        ReportView {
            status: self.status,
            label: self.label@,
            detail: self.detail.deep_view(),
        }
    }
}

/// Messages, with an empty line between two of them.
pub open spec fn message_block(messages: Seq<String>) -> Seq<char> {
    text::joined(text::views(messages), "\n\n"@)
}

/// What is reported of a validation.
pub open spec fn validation_view(outcome: ValidationOutcome) -> ReportView {
    match outcome {
        ValidationOutcome::ParseFailed(messages) => ReportView {
            status: Status::Fail,
            label: "Parse CloudFormation template"@,
            detail: Some(message_block(messages@)),
        },
        ValidationOutcome::SpecFailed(error) => ReportView {
            status: Status::Fail,
            label: "Load CloudFormation specification"@,
            detail: Some(error@),
        },
        ValidationOutcome::Checked(messages) => if messages@.len() == 0 {
            ReportView {
                status: Status::Pass,
                label: "Validate CloudFormation against specification"@,
                detail: None,
            }
        } else {
            ReportView {
                status: Status::Fail,
                label: "Validate CloudFormation against specification"@,
                detail: Some(message_block(messages@)),
            }
        },
    }
}

/// The report of a validation.
pub fn run_validation(outcome: ValidationOutcome) -> (r: ValidationReport)
    ensures
        r@ == validation_view(outcome),
{
    match outcome {
        ValidationOutcome::ParseFailed(messages) => ValidationReport {
            status: Status::Fail,
            label: "Parse CloudFormation template".to_owned(),
            detail: Some(text::join_text(&messages, "\n\n")),
        },
        ValidationOutcome::SpecFailed(error) => ValidationReport {
            status: Status::Fail,
            label: "Load CloudFormation specification".to_owned(),
            detail: Some(error),
        },
        ValidationOutcome::Checked(messages) => if messages.len() == 0 {
            ValidationReport {
                status: Status::Pass,
                label: "Validate CloudFormation against specification".to_owned(),
                detail: None,
            }
        } else {
            ValidationReport {
                status: Status::Fail,
                label: "Validate CloudFormation against specification".to_owned(),
                detail: Some(text::join_text(&messages, "\n\n")),
            }
        },
    }
}

// ---------------------------------------------------------------------------
// The steps
// ---------------------------------------------------------------------------

/// The lines of a step at the left edge.
pub open spec fn step_lines(out: Reporter, status: Status, label: Seq<char>, detail: Option<Seq<char>>) -> Seq<
    Seq<char>,
> {
    layout::node_lines(
        out.width as nat,
        ""@,
        true,
        layout::status_marker(out.interactive, status),
        label,
        detail,
    )
}

/// A step that ends the check.
pub open spec fn failing_step(out: Reporter, label: Seq<char>, detail: Seq<char>) -> StepView {
    StepView { lines: step_lines(out, Status::Fail, label, Some(detail)), next: Action::Exit(false) }
}

/// What follows the attempt to read the target.
pub open spec fn after_target(out: Reporter, options: CheckOptions, outcome: TargetOutcome) -> StepView {
    let label = "Read target "@ + options.target@;
    match outcome {
        TargetOutcome::Missing => failing_step(out, label, "Target file not found."@),
        TargetOutcome::Unreadable(error) => failing_step(out, label, error@),
        TargetOutcome::Read => StepView {
            lines: step_lines(out, Status::Pass, label, None) + (if options.validate {
                step_lines(
                    out,
                    Status::Blocked,
                    "Schedule CloudFormation validation"@,
                    Some("Validation will run concurrently and report after results."@),
                )
            } else {
                step_lines(
                    out,
                    Status::Blocked,
                    "CloudFormation validation"@,
                    Some("Disabled with --novalidation."@),
                )
            }) + step_lines(out, Status::Pass, "Initialise kernel"@, None),
            next: if options.entry is Some {
                Action::LoadEntry
            } else {
                Action::SelectProfile
            },
        },
    }
}

/// What follows the attempt to load further intents.
pub open spec fn after_entry(out: Reporter, entry: Seq<char>, outcome: EntryOutcome) -> StepView {
    match outcome {
        EntryOutcome::Missing => failing_step(
            out,
            "Read intent entry "@ + entry,
            "Entry file not found."@,
        ),
        EntryOutcome::Rejected(error) => failing_step(
            out,
            "Parse intent entry "@ + entry,
            error@,
        ),
        EntryOutcome::Loaded => StepView {
            lines: step_lines(out, Status::Pass, "Parse intent entry "@ + entry, None),
            next: Action::SelectProfile,
        },
    }
}

/// What follows the attempt to select a profile.
pub open spec fn after_profile(out: Reporter, profile: Seq<char>, outcome: Result<(), String>) -> StepView {
    match outcome {
        Err(error) => failing_step(out, "Select profile "@ + profile, error@),
        Ok(_) => StepView {
            lines: step_lines(out, Status::Pass, "Select profile "@ + profile, None),
            next: Action::Analyse,
        },
    }
}

/// What follows an analysis.
pub open spec fn after_analysis(
    out: Reporter,
    options: CheckOptions,
    outcome: Result<Analysis, Seq<char>>,
) -> StepView {
    match outcome {
        Err(messages) => failing_step(out, "Run analysis"@, messages),
        Ok(a) => {
            let success = a.outcome != PolicyOutcome::Fail;
            StepView {
                lines: step_lines(out, Status::Pass, "Run analysis"@, None)
                    + layout::section_lines("RESULTS"@) + results::result_lines(
                    out,
                    options.profile@,
                    a,
                    options.verbose,
                ) + (if options.graph {
                    layout::section_lines("GRAPH"@) + graph::graph_lines(out, a.model)
                } else {
                    seq![]
                }),
                next: if options.validate {
                    Action::AwaitValidation(success)
                } else {
                    Action::Exit(success)
                },
            }
        },
    }
}

/// What follows a validation.
pub open spec fn after_validation(out: Reporter, success: bool, outcome: Result<ReportView, Seq<char>>) -> StepView {
    match outcome {
        Ok(report) => StepView {
            lines: layout::section_lines("VALIDATION"@) + step_lines(
                out,
                report.status,
                report.label,
                report.detail,
            ),
            next: Action::Exit(success && report.status != Status::Fail),
        },
        Err(error) => StepView {
            lines: layout::section_lines("VALIDATION"@) + step_lines(
                out,
                Status::Fail,
                "Run CloudFormation validation"@,
                Some(error),
            ),
            next: Action::Exit(false),
        },
    }
}

/// A check under way.
#[derive(Debug)]
pub struct CheckRun {
    pub out: Reporter,
    pub options: CheckOptions,
}

impl CheckRun {
    pub fn new(out: Reporter, options: CheckOptions) -> (r: Self)
        ensures
            r.out == out,
            r.options == options,
    {
        CheckRun { out, options }
    }

    /// The beginning of a check.
    pub fn start(&self) -> (r: Step)
        ensures
            r@.lines == layout::section_lines("PREPARE"@),
            r@.next == Action::ReadTarget,
    {
        Step { lines: self.out.section("PREPARE"), next: Action::ReadTarget }
    }

    /// A step that ends the check.
    fn fail(&self, label: &str, detail: &str) -> (r: Step)
        ensures
            r@ == failing_step(self.out, label@, detail@),
    {
        Step {
            lines: self.out.prepare(Status::Fail, label, Some(detail)),
            next: Action::Exit(false),
        }
    }

    /// What follows the attempt to read the target.
    pub fn on_target(&self, outcome: TargetOutcome) -> (r: Step)
        ensures
            r@ == after_target(self.out, self.options, outcome),
    {
        let label = text::cat2("Read target ", self.options.target.as_str());
        match outcome {
            TargetOutcome::Missing => self.fail(label.as_str(), "Target file not found."),
            TargetOutcome::Unreadable(error) => self.fail(label.as_str(), error.as_str()),
            TargetOutcome::Read => {
                let mut lines = self.out.prepare(Status::Pass, label.as_str(), None);
                if self.options.validate {
                    append_lines(
                        &mut lines,
                        self.out.prepare(
                            Status::Blocked,
                            "Schedule CloudFormation validation",
                            Some("Validation will run concurrently and report after results."),
                        ),
                    );
                } else {
                    append_lines(
                        &mut lines,
                        self.out.prepare(
                            Status::Blocked,
                            "CloudFormation validation",
                            Some("Disabled with --novalidation."),
                        ),
                    );
                }
                append_lines(
                    &mut lines,
                    self.out.prepare(Status::Pass, "Initialise kernel", None),
                );
                let next = if self.options.entry.is_some() {
                    Action::LoadEntry
                } else {
                    Action::SelectProfile
                };
                Step { lines, next }
            },
        }
    }

    /// What follows the attempt to load further intents.
    pub fn on_entry(&self, entry: &str, outcome: EntryOutcome) -> (r: Step)
        ensures
            r@ == after_entry(self.out, entry@, outcome),
    {
        let read = text::cat2("Read intent entry ", entry);
        let parse = text::cat2("Parse intent entry ", entry);
        match outcome {
            EntryOutcome::Missing => self.fail(read.as_str(), "Entry file not found."),
            EntryOutcome::Rejected(error) => self.fail(parse.as_str(), error.as_str()),
            EntryOutcome::Loaded => Step {
                lines: self.out.prepare(Status::Pass, parse.as_str(), None),
                next: Action::SelectProfile,
            },
        }
    }

    /// What follows the attempt to select the profile.
    pub fn on_profile(&self, outcome: Result<(), String>) -> (r: Step)
        ensures
            r@ == after_profile(self.out, self.options.profile@, outcome),
    {
        let label = text::cat2("Select profile ", self.options.profile.as_str());
        match outcome {
            Err(error) => self.fail(label.as_str(), error.as_str()),
            Ok(_) => Step {
                lines: self.out.prepare(Status::Pass, label.as_str(), None),
                next: Action::Analyse,
            },
        }
    }

    /// What follows the analysis.
    pub fn on_analysis(&self, outcome: &Result<AnalysisResult, Vec<String>>) -> (r: Step)
        ensures
            r@ == after_analysis(
                self.out,
                self.options,
                match *outcome {
                    Ok(a) => Ok(results::analysis_view(a)),
                    Err(messages) => Err(message_block(messages@)),
                },
            ),
    {
        match outcome {
            Err(messages) => {
                let detail = text::join_text(messages, "\n\n");
                self.fail("Run analysis", detail.as_str())
            },
            Ok(a) => {
                let mut lines = self.out.prepare(Status::Pass, "Run analysis", None);
                append_lines(&mut lines, self.out.section("RESULTS"));
                let (more, success) = print_results(
                    &self.out,
                    self.options.profile.as_str(),
                    a,
                    self.options.verbose,
                );
                append_lines(&mut lines, more);
                let ghost shown = text::views(lines@);
                if self.options.graph {
                    let mut drawing = self.out.section("GRAPH");
                    append_lines(&mut drawing, print_model_graph(&self.out, &a.model));
                    append_lines(&mut lines, drawing);
                } else {
                    assert(shown + seq![] =~= shown);
                }
                let next = if self.options.validate {
                    Action::AwaitValidation(success)
                } else {
                    Action::Exit(success)
                };
                Step { lines, next }
            },
        }
    }

    /// What follows the validation.
    pub fn on_validation(&self, success: bool, outcome: Result<ValidationReport, String>) -> (r: Step)
        ensures
            r@ == after_validation(
                self.out,
                success,
                match outcome {
                    Ok(report) => Ok(report@),
                    Err(error) => Err(error@),
                },
            ),
    {
        let mut lines = self.out.section("VALIDATION");
        match outcome {
            Ok(report) => {
                let detail = match &report.detail {
                    Some(s) => Some(s.as_str()),
                    None => None,
                };
                append_lines(
                    &mut lines,
                    self.out.tree("", true, report.status, report.label.as_str(), detail),
                );
                let passed = report.status != Status::Fail;
                Step { lines, next: Action::Exit(success && passed) }
            },
            Err(error) => {
                append_lines(
                    &mut lines,
                    self.out.tree(
                        "",
                        true,
                        Status::Fail,
                        "Run CloudFormation validation",
                        Some(error.as_str()),
                    ),
                );
                Step { lines, next: Action::Exit(false) }
            },
        }
    }
}

// ---------------------------------------------------------------------------
// Laws
// ---------------------------------------------------------------------------

/// A check succeeds exactly where the policy did not fail and, where the target
/// is validated, the validation did not fail either.
pub proof fn lemma_verdict(out: Reporter, options: CheckOptions, a: Analysis, report: ReportView)
    ensures
        ({
            let passed = a.outcome != PolicyOutcome::Fail;
            let analysed = after_analysis(out, options, Ok(a)).next;
            &&& !options.validate ==> analysed == Action::Exit(passed)
            &&& options.validate ==> analysed == Action::AwaitValidation(passed)
            &&& after_validation(out, passed, Ok(report)).next == Action::Exit(
                passed && report.status != Status::Fail,
            )
        }),
{
}

/// Whatever goes wrong before the results ends the check without success.
pub proof fn lemma_fault_ends_check(out: Reporter, options: CheckOptions, entry: Seq<char>, error: String)
    ensures
        after_target(out, options, TargetOutcome::Missing).next == Action::Exit(false),
        after_target(out, options, TargetOutcome::Unreadable(error)).next == Action::Exit(false),
        after_entry(out, entry, EntryOutcome::Missing).next == Action::Exit(false),
        after_entry(out, entry, EntryOutcome::Rejected(error)).next == Action::Exit(false),
        after_profile(out, options.profile@, Err(error)).next == Action::Exit(false),
        after_analysis(out, options, Err(error@)).next == Action::Exit(false),
{
}

/// Whether lines begin with a step: the marker of its status and its label.
pub open spec fn begins_with(
    out: Reporter,
    lines: Seq<Seq<char>>,
    status: Status,
    label: Seq<char>,
) -> bool {
    lines.len() > 0 && lines[0] == layout::status_marker(out.interactive, status) + " "@ + label
}

proof fn lemma_step_lines(out: Reporter, status: Status, label: Seq<char>, detail: Option<Seq<char>>)
    ensures
        ({
            let lines = step_lines(out, status, label, detail);
            &&& begins_with(out, lines, status, label)
            &&& detail is None ==> lines.len() == 1
            &&& detail is Some ==> lines.skip(1) == layout::block_lines(
                "   "@,
                out.width as nat,
                detail->0,
            )
        }),
{
    reveal_strlit("");
    layout::lemma_signs_differ(status, status, out.interactive);
    layout::lemma_node_lines(
        out.width as nat,
        ""@,
        true,
        layout::status_marker(out.interactive, status),
        label,
        detail,
    );
    let lines = step_lines(out, status, label, detail);
    if let Some(s) = detail {
        assert(lines.skip(1) =~= layout::block_lines("   "@, out.width as nat, s));
    }
}

/// Whatever goes wrong before the results is told: what was being done, with the
/// sign of a failure, and below it the reason.
pub proof fn lemma_fault_is_told(out: Reporter, options: CheckOptions, entry: Seq<char>, error: String)
    ensures
        ({
            let lines = after_target(out, options, TargetOutcome::Missing).lines;
            &&& begins_with(out, lines, Status::Fail, "Read target "@ + options.target@)
            &&& lines.skip(1) == layout::block_lines(
                "   "@,
                out.width as nat,
                "Target file not found."@,
            )
        }),
        ({
            let lines = after_target(out, options, TargetOutcome::Unreadable(error)).lines;
            &&& begins_with(out, lines, Status::Fail, "Read target "@ + options.target@)
            &&& lines.skip(1) == layout::block_lines("   "@, out.width as nat, error@)
        }),
        ({
            let lines = after_entry(out, entry, EntryOutcome::Missing).lines;
            &&& begins_with(out, lines, Status::Fail, "Read intent entry "@ + entry)
            &&& lines.skip(1) == layout::block_lines(
                "   "@,
                out.width as nat,
                "Entry file not found."@,
            )
        }),
        ({
            let lines = after_entry(out, entry, EntryOutcome::Rejected(error)).lines;
            &&& begins_with(out, lines, Status::Fail, "Parse intent entry "@ + entry)
            &&& lines.skip(1) == layout::block_lines("   "@, out.width as nat, error@)
        }),
        ({
            let lines = after_profile(out, options.profile@, Err(error)).lines;
            &&& begins_with(out, lines, Status::Fail, "Select profile "@ + options.profile@)
            &&& lines.skip(1) == layout::block_lines("   "@, out.width as nat, error@)
        }),
        ({
            let lines = after_analysis(out, options, Err(error@)).lines;
            &&& begins_with(out, lines, Status::Fail, "Run analysis"@)
            &&& lines.skip(1) == layout::block_lines("   "@, out.width as nat, error@)
        }),
        ({
            let step = after_validation(out, true, Err(error@));
            &&& step.lines.len() >= 4
            &&& step.lines[1] == "VALIDATION"@
            &&& begins_with(
                out,
                step.lines.skip(3),
                Status::Fail,
                "Run CloudFormation validation"@,
            )
            &&& step.next == Action::Exit(false)
        }),
{
    lemma_step_lines(
        out,
        Status::Fail,
        "Read target "@ + options.target@,
        Some("Target file not found."@),
    );
    lemma_step_lines(out, Status::Fail, "Read target "@ + options.target@, Some(error@));
    lemma_step_lines(
        out,
        Status::Fail,
        "Read intent entry "@ + entry,
        Some("Entry file not found."@),
    );
    lemma_step_lines(out, Status::Fail, "Parse intent entry "@ + entry, Some(error@));
    lemma_step_lines(out, Status::Fail, "Select profile "@ + options.profile@, Some(error@));
    lemma_step_lines(out, Status::Fail, "Run analysis"@, Some(error@));
    lemma_step_lines(out, Status::Fail, "Run CloudFormation validation"@, Some(error@));
    let told = step_lines(
        out,
        Status::Fail,
        "Run CloudFormation validation"@,
        Some(error@),
    );
    assert((layout::section_lines("VALIDATION"@) + told).skip(3) =~= told);
}

/// A step that went well goes on to the next one: from the target to the further
/// intents, where there are any, else to the profile; from there to the analysis.
/// Each is told with the sign of success.
pub proof fn lemma_success_goes_on(out: Reporter, options: CheckOptions, entry: Seq<char>)
    ensures
        ({
            let step = after_target(out, options, TargetOutcome::Read);
            &&& options.entry is Some ==> step.next == Action::LoadEntry
            &&& options.entry is None ==> step.next == Action::SelectProfile
            &&& begins_with(out, step.lines, Status::Pass, "Read target "@ + options.target@)
            &&& options.validate ==> begins_with(
                out,
                step.lines.skip(1),
                Status::Blocked,
                "Schedule CloudFormation validation"@,
            )
            &&& !options.validate ==> begins_with(
                out,
                step.lines.skip(1),
                Status::Blocked,
                "CloudFormation validation"@,
            )
            &&& step.lines.last() == layout::status_marker(out.interactive, Status::Pass) + " "@
                + "Initialise kernel"@
        }),
        ({
            let step = after_entry(out, entry, EntryOutcome::Loaded);
            &&& step.next == Action::SelectProfile
            &&& step.lines.len() == 1
            &&& begins_with(out, step.lines, Status::Pass, "Parse intent entry "@ + entry)
        }),
        ({
            let step = after_profile(out, options.profile@, Ok(()));
            &&& step.next == Action::Analyse
            &&& step.lines.len() == 1
            &&& begins_with(out, step.lines, Status::Pass, "Select profile "@ + options.profile@)
        }),
{
    lemma_step_lines(out, Status::Pass, "Read target "@ + options.target@, None);
    lemma_step_lines(out, Status::Pass, "Initialise kernel"@, None);
    lemma_step_lines(out, Status::Pass, "Parse intent entry "@ + entry, None);
    lemma_step_lines(out, Status::Pass, "Select profile "@ + options.profile@, None);
    lemma_step_lines(
        out,
        Status::Blocked,
        "Schedule CloudFormation validation"@,
        Some("Validation will run concurrently and report after results."@),
    );
    lemma_step_lines(
        out,
        Status::Blocked,
        "CloudFormation validation"@,
        Some("Disabled with --novalidation."@),
    );
}

/// The results of an analysis are shown under their heading, and the graph under
/// its own where it was asked for, and only there.
pub proof fn lemma_results_are_shown(out: Reporter, options: CheckOptions, a: Analysis)
    ensures
        ({
            let lines = after_analysis(out, options, Ok(a)).lines;
            let shown = results::result_lines(out, options.profile@, a, options.verbose);
            let drawn = graph::graph_lines(out, a.model);
            &&& begins_with(out, lines, Status::Pass, "Run analysis"@)
            &&& lines[2] == "RESULTS"@
            &&& lines.subrange(4, 4 + shown.len() as int) == shown
            &&& !options.graph ==> lines.len() == 4 + shown.len()
            &&& options.graph ==> lines.len() == 7 + shown.len() + drawn.len()
                && lines[5 + shown.len() as int] == "GRAPH"@ && lines.skip(7 + shown.len() as int) == drawn
        }),
{
    lemma_step_lines(out, Status::Pass, "Run analysis"@, None);
    let lines = after_analysis(out, options, Ok(a)).lines;
    let shown = results::result_lines(out, options.profile@, a, options.verbose);
    let drawn = graph::graph_lines(out, a.model);
    assert(lines.subrange(4, 4 + shown.len() as int) =~= shown);
    if options.graph {
        assert(lines.skip(7 + shown.len() as int) =~= drawn);
    }
}

/// A target that was held against the specification passes exactly where nothing is
/// said of it. All that is said is in the report.
pub proof fn lemma_validation(outcome: ValidationOutcome, messages: Seq<String>, i: int)
    ensures
        validation_view(outcome).status == Status::Pass <==> outcome is Checked
            && outcome->Checked_0@.len() == 0,
        validation_view(outcome).status == Status::Fail <==> validation_view(outcome).detail
            is Some,
        (outcome is Checked && messages == outcome->Checked_0@) || (outcome is ParseFailed
            && messages == outcome->ParseFailed_0@) ==> (0 <= i < messages.len() ==> text::has_part(
            validation_view(outcome).detail->0,
            messages[i]@,
        )),
        outcome is SpecFailed ==> validation_view(outcome).detail == Some(
            outcome->SpecFailed_0@,
        ),
        outcome is ParseFailed ==> validation_view(outcome).label
            == "Parse CloudFormation template"@,
        outcome is SpecFailed ==> validation_view(outcome).label
            == "Load CloudFormation specification"@,
        outcome is Checked ==> validation_view(outcome).label
            == "Validate CloudFormation against specification"@,
{
    if 0 <= i < messages.len() {
        text::lemma_joined_holds(text::views(messages), "\n\n"@, i);
        assert(text::views(messages)[i] == messages[i]@);
    }
}

/// The report of a validation is shown under its heading.
pub proof fn lemma_validation_is_shown(out: Reporter, success: bool, report: ReportView)
    ensures
        ({
            let lines = after_validation(out, success, Ok(report)).lines;
            &&& lines[1] == "VALIDATION"@
            &&& begins_with(out, lines.skip(3), report.status, report.label)
            &&& report.detail is Some ==> lines.skip(4) == layout::block_lines(
                "   "@,
                out.width as nat,
                report.detail->0,
            )
        }),
{
    lemma_step_lines(out, report.status, report.label, report.detail);
    let told = step_lines(out, report.status, report.label, report.detail);
    let lines = layout::section_lines("VALIDATION"@) + told;
    assert(lines.skip(3) =~= told);
    assert(lines.skip(4) =~= told.skip(1));
}

} // verus!
