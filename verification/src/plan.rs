//! The steps of one file's conversion.
//!
//! The conversion of a file is a walk through a fixed list of steps. The caller
//! carries out the step that the walk is at, reports how it went, and is told
//! where the walk goes next. Nothing here touches a file: the walk only decides.

use vstd::prelude::*;
use crate::names::{output_basename, output_name_of, temp_basename, temp_name_of};

verus! {

/// The number of rows from which a file's schema is inferred, at most.
pub const MAX_READ_RECORDS: usize = 8192;

/// Why a file is passed over.
#[derive(Clone, Copy, Debug, PartialEq, Eq, Structural)]
pub enum SkipReason {
    /// There is nothing at the input's path.
    NotFound,
    /// What is at the input's path is no regular file.
    NotAFile,
    /// The input's name does not end as that of a convertible file does.
    NotCsv,
    /// There is something at the output's path already.
    OutputExists,
    /// There is something at the temporary path already.
    TempExists,
}

/// What was found at the input's path.
#[derive(Clone, Copy, Debug, PartialEq, Eq, Structural)]
pub enum InputKind {
    Missing,
    NotAFile,
    File,
}

/// A step that the caller carries out.
#[derive(Clone, Copy, Debug, PartialEq, Eq, Structural)]
pub enum Step {
    /// Look what is at the input's path.
    ProbeInput,
    /// Look whether anything is at the output's path.
    ProbeOutput,
    /// Look whether anything is at the temporary path.
    ProbeTemp,
    /// Open the source and infer the schema from its first rows.
    InferSchema,
    /// Lay the directives over the inferred schema.
    RewriteSchema,
    /// Print the schema.
    PrintSchema,
    /// Create the temporary file, which must not exist.
    OpenSink,
    /// Rewind the source and write its rows to the temporary file.
    StreamRows,
    /// Sync the temporary file and give it the output's name.
    Commit,
    /// Remove the input.
    RemoveInput,
}

/// How the conversion of a file ended.
#[derive(Clone, Copy, Debug, PartialEq, Eq, Structural)]
pub enum Outcome {
    Skipped(SkipReason),
    Printed,
    Converted,
    /// The named step failed, or was answered with a report that is none of its
    /// own.
    Failed(Step),
}

/// Where the conversion of a file stands: at a step to carry out, or at its end.
#[derive(Clone, Copy, Debug, PartialEq, Eq, Structural)]
pub enum Phase {
    Do(Step),
    Done(Outcome),
}

/// What the caller reports of a step.
#[derive(Clone, Copy, Debug, PartialEq, Eq, Structural)]
pub enum Event {
    /// The answer to `ProbeInput`.
    Input(InputKind),
    /// The answer to `ProbeOutput` and `ProbeTemp`.
    Exists(bool),
    Succeeded,
    Failed,
}

/// What the walk needs to know of a file and of the run.
pub struct JobView {
    pub input: Seq<char>,
    pub print_schema: bool,
    pub remove_input: bool,
}

/// The phase that follows a step, given the report of that step.
pub open spec fn after_step(job: JobView, step: Step, event: Event) -> Phase {
    match step {
        Step::ProbeInput => match event {
            Event::Input(InputKind::Missing) => Phase::Done(Outcome::Skipped(SkipReason::NotFound)),
            Event::Input(InputKind::NotAFile) => Phase::Done(
                Outcome::Skipped(SkipReason::NotAFile),
            ),
            Event::Input(InputKind::File) => if output_name_of(job.input) is Some {
                Phase::Do(Step::ProbeOutput)
            } else {
                Phase::Done(Outcome::Skipped(SkipReason::NotCsv))
            },
            _ => Phase::Done(Outcome::Failed(step)),
        },
        Step::ProbeOutput => match event {
            Event::Exists(true) => Phase::Done(Outcome::Skipped(SkipReason::OutputExists)),
            Event::Exists(false) => Phase::Do(Step::ProbeTemp),
            _ => Phase::Done(Outcome::Failed(step)),
        },
        Step::ProbeTemp => match event {
            Event::Exists(true) => Phase::Done(Outcome::Skipped(SkipReason::TempExists)),
            Event::Exists(false) => Phase::Do(Step::InferSchema),
            _ => Phase::Done(Outcome::Failed(step)),
        },
        Step::InferSchema => match event {
            Event::Succeeded => Phase::Do(Step::RewriteSchema),
            _ => Phase::Done(Outcome::Failed(step)),
        },
        Step::RewriteSchema => match event {
            Event::Succeeded => if job.print_schema {
                Phase::Do(Step::PrintSchema)
            } else {
                Phase::Do(Step::OpenSink)
            },
            _ => Phase::Done(Outcome::Failed(step)),
        },
        Step::PrintSchema => match event {
            Event::Succeeded => Phase::Done(Outcome::Printed),
            _ => Phase::Done(Outcome::Failed(step)),
        },
        Step::OpenSink => match event {
            Event::Succeeded => Phase::Do(Step::StreamRows),
            _ => Phase::Done(Outcome::Failed(step)),
        },
        Step::StreamRows => match event {
            Event::Succeeded => Phase::Do(Step::Commit),
            _ => Phase::Done(Outcome::Failed(step)),
        },
        Step::Commit => match event {
            Event::Succeeded => if job.remove_input {
                Phase::Do(Step::RemoveInput)
            } else {
                Phase::Done(Outcome::Converted)
            },
            _ => Phase::Done(Outcome::Failed(step)),
        },
        Step::RemoveInput => Phase::Done(Outcome::Converted),
    }
}

/// The phase that follows a phase: an end is never left.
pub open spec fn next_phase(job: JobView, phase: Phase, event: Event) -> Phase {
    match phase {
        Phase::Do(step) => after_step(job, step, event),
        Phase::Done(outcome) => Phase::Done(outcome),
    }
}

/// The phase that a walk is at after the given reports, one for each phase it
/// went through.
pub open spec fn run(job: JobView, phase: Phase, events: Seq<Event>) -> Phase
    decreases events.len(),
{
    if events.len() == 0 {
        phase
    } else {
        run(job, next_phase(job, phase, events[0]), events.drop_first())
    }
}

/// Whether the temporary file exists while the walk is at `phase`, as far as
/// the walk is concerned: from its creation until it is renamed or discarded.
pub open spec fn holds_sink(phase: Phase) -> bool {
    phase == Phase::Do(Step::StreamRows) || phase == Phase::Do(Step::Commit)
}

/// One file of a run: its name, the names derived from it, and what the run
/// asks for.
#[derive(Debug)]
pub struct Job {
    input: String,
    output: Option<String>,
    temp: Option<String>,
    print_schema: bool,
    remove_input: bool,
}

impl View for Job {
    type V = JobView;

    closed spec fn view(&self) -> JobView {
        JobView {
            input: self.input@,
            print_schema: self.print_schema,
            remove_input: self.remove_input,
        }
    }
}

impl Job {
    /// Whether the derived names are those of the input's name.
    pub closed spec fn wf(&self) -> bool {
        &&& match self.output {
            Some(name) => output_name_of(self.input@) == Some(name@),
            None => output_name_of(self.input@) is None,
        }
        &&& match self.temp {
            Some(name) => self.output is Some && name@ == temp_name_of(self.output->0@),
            None => self.output is None,
        }
    }

    /// The job for the input whose file name, without its directory, is `input`.
    pub fn new(input: &str, print_schema: bool, remove_input: bool) -> (job: Job)
        ensures
            job.wf(),
            job@ == (JobView { input: input@, print_schema, remove_input }),
    {
        let output = output_basename(input);
        let temp = match &output {
            Some(name) => Some(temp_basename(name.as_str())),
            None => None,
        };
        Job { input: input.to_owned(), output, temp, print_schema, remove_input }
    }

    /// The file name of the output, where the input is convertible.
    pub fn output_name(&self) -> (r: Option<&String>)
        requires
            self.wf(),
        ensures
            match r {
                Some(name) => output_name_of(self@.input) == Some(name@),
                None => output_name_of(self@.input) is None,
            },
    {
        self.output.as_ref()
    }

    /// The file name under which the output is gathered, where the input is
    /// convertible.
    pub fn temp_name(&self) -> (r: Option<&String>)
        requires
            self.wf(),
        ensures
            match r {
                Some(name) => output_name_of(self@.input) is Some && name@ == temp_name_of(
                    output_name_of(self@.input)->0,
                ),
                None => output_name_of(self@.input) is None,
            },
    {
        self.temp.as_ref()
    }

    /// The phase in which every walk begins.
    pub fn start(&self) -> (phase: Phase)
        ensures
            phase == Phase::Do(Step::ProbeInput),
    {
        Phase::Do(Step::ProbeInput)
    }

    /// The phase that follows `phase`, given the report of it.
    pub fn advance(&self, phase: Phase, event: Event) -> (next: Phase)
        requires
            self.wf(),
        ensures
            next == next_phase(self@, phase, event),
    {
        let step = match phase {
            Phase::Do(step) => step,
            Phase::Done(outcome) => {
                return Phase::Done(outcome);
            },
        };
        let failed = Phase::Done(Outcome::Failed(step));
        match step {
            Step::ProbeInput => match event {
                Event::Input(InputKind::Missing) => Phase::Done(
                    Outcome::Skipped(SkipReason::NotFound),
                ),
                Event::Input(InputKind::NotAFile) => Phase::Done(
                    Outcome::Skipped(SkipReason::NotAFile),
                ),
                Event::Input(InputKind::File) => if self.output.is_some() {
                    Phase::Do(Step::ProbeOutput)
                } else {
                    Phase::Done(Outcome::Skipped(SkipReason::NotCsv))
                },
                _ => failed,
            },
            Step::ProbeOutput => match event {
                Event::Exists(true) => Phase::Done(Outcome::Skipped(SkipReason::OutputExists)),
                Event::Exists(false) => Phase::Do(Step::ProbeTemp),
                _ => failed,
            },
            Step::ProbeTemp => match event {
                Event::Exists(true) => Phase::Done(Outcome::Skipped(SkipReason::TempExists)),
                Event::Exists(false) => Phase::Do(Step::InferSchema),
                _ => failed,
            },
            Step::InferSchema => match event {
                Event::Succeeded => Phase::Do(Step::RewriteSchema),
                _ => failed,
            },
            Step::RewriteSchema => match event {
                Event::Succeeded => if self.print_schema {
                    Phase::Do(Step::PrintSchema)
                } else {
                    Phase::Do(Step::OpenSink)
                },
                _ => failed,
            },
            Step::PrintSchema => match event {
                Event::Succeeded => Phase::Done(Outcome::Printed),
                _ => failed,
            },
            Step::OpenSink => match event {
                Event::Succeeded => Phase::Do(Step::StreamRows),
                _ => failed,
            },
            Step::StreamRows => match event {
                Event::Succeeded => Phase::Do(Step::Commit),
                _ => failed,
            },
            Step::Commit => match event {
                Event::Succeeded => if self.remove_input {
                    Phase::Do(Step::RemoveInput)
                } else {
                    Phase::Done(Outcome::Converted)
                },
                _ => failed,
            },
            Step::RemoveInput => Phase::Done(Outcome::Converted),
        }
    }
}

/// Whether a walk is at `step` at some point: at its start, or after one of the
/// reports.
pub open spec fn passes(job: JobView, phase: Phase, events: Seq<Event>, step: Step) -> bool {
    exists|k: int|
        0 <= k <= events.len() && #[trigger] run(job, phase, events.take(k)) == Phase::Do(step)
}

/// A walk takes its first report first.
pub proof fn lemma_run_first(job: JobView, phase: Phase, first: Event, rest: Seq<Event>)
    ensures
        run(job, phase, seq![first] + rest) == run(job, next_phase(job, phase, first), rest),
{
    assert((seq![first] + rest).drop_first() =~= rest);
}

/// A walk that has ended stays where it ended, whatever is reported.
pub proof fn lemma_end_is_final(job: JobView, outcome: Outcome, events: Seq<Event>)
    ensures
        run(job, Phase::Done(outcome), events) == Phase::Done(outcome),
    decreases events.len(),
{
    if events.len() > 0 {
        lemma_end_is_final(job, outcome, events.drop_first());
    }
}

/// A walk whose first report leads to an end is at that end from then on, and
/// at no step.
proof fn lemma_ended_by_first(
    job: JobView,
    phase: Phase,
    first: Event,
    rest: Seq<Event>,
    outcome: Outcome,
    step: Step,
)
    requires
        next_phase(job, phase, first) == Phase::Done(outcome),
        phase != Phase::Do(step),
    ensures
        run(job, phase, seq![first] + rest) == Phase::Done(outcome),
        !passes(job, phase, seq![first] + rest, step),
{
    let events = seq![first] + rest;
    lemma_run_first(job, phase, first, rest);
    lemma_end_is_final(job, outcome, rest);
    assert forall|k: int| 0 <= k <= events.len() implies #[trigger] run(
        job,
        phase,
        events.take(k),
    ) != Phase::Do(step) by {
        if k > 0 {
            assert(events.take(k) =~= seq![first] + rest.take(k - 1));
            lemma_run_first(job, phase, first, rest.take(k - 1));
            lemma_end_is_final(job, outcome, rest.take(k - 1));
        }
    }
}

/// Where something is at the output's path already, the file is passed over:
/// the walk ends there, whatever is reported after, and is never at the step
/// that creates the temporary file nor at the one that removes the input.
pub proof fn lemma_existing_output_is_skipped(job: JobView, rest: Seq<Event>)
    ensures
        run(job, Phase::Do(Step::ProbeOutput), seq![Event::Exists(true)] + rest) == Phase::Done(
            Outcome::Skipped(SkipReason::OutputExists),
        ),
        !passes(
            job,
            Phase::Do(Step::ProbeOutput),
            seq![Event::Exists(true)] + rest,
            Step::OpenSink,
        ),
        !passes(
            job,
            Phase::Do(Step::ProbeOutput),
            seq![Event::Exists(true)] + rest,
            Step::RemoveInput,
        ),
{
    let phase = Phase::Do(Step::ProbeOutput);
    let outcome = Outcome::Skipped(SkipReason::OutputExists);
    lemma_ended_by_first(job, phase, Event::Exists(true), rest, outcome, Step::OpenSink);
    lemma_ended_by_first(job, phase, Event::Exists(true), rest, outcome, Step::RemoveInput);
}

/// Where something is at the temporary path already, the file is passed over
/// in the same way.
pub proof fn lemma_existing_temp_is_skipped(job: JobView, rest: Seq<Event>)
    ensures
        run(job, Phase::Do(Step::ProbeTemp), seq![Event::Exists(true)] + rest) == Phase::Done(
            Outcome::Skipped(SkipReason::TempExists),
        ),
        !passes(job, Phase::Do(Step::ProbeTemp), seq![Event::Exists(true)] + rest, Step::OpenSink),
        !passes(
            job,
            Phase::Do(Step::ProbeTemp),
            seq![Event::Exists(true)] + rest,
            Step::RemoveInput,
        ),
{
    let phase = Phase::Do(Step::ProbeTemp);
    let outcome = Outcome::Skipped(SkipReason::TempExists);
    lemma_ended_by_first(job, phase, Event::Exists(true), rest, outcome, Step::OpenSink);
    lemma_ended_by_first(job, phase, Event::Exists(true), rest, outcome, Step::RemoveInput);
}

/// A failure while the temporary file exists ends the walk as failed: the
/// temporary file is no longer held, the walk is never at the step that removes
/// the input, and it does not end as converted.
pub proof fn lemma_failure_lets_go(job: JobView, step: Step, report: Event, rest: Seq<Event>)
    requires
        holds_sink(Phase::Do(step)),
        report != Event::Succeeded,
    ensures
        next_phase(job, Phase::Do(step), report) == Phase::Done(Outcome::Failed(step)),
        !holds_sink(next_phase(job, Phase::Do(step), report)),
        run(job, Phase::Do(step), seq![report] + rest) == Phase::Done(Outcome::Failed(step)),
        !passes(job, Phase::Do(step), seq![report] + rest, Step::RemoveInput),
{
    lemma_ended_by_first(
        job,
        Phase::Do(step),
        report,
        rest,
        Outcome::Failed(step),
        Step::RemoveInput,
    );
}

/// A walk ends as converted only through a commit that succeeded.
pub proof fn lemma_converted_through_commit(job: JobView, phase: Phase, events: Seq<Event>)
    requires
        phase != Phase::Do(Step::RemoveInput),
        phase != Phase::Done(Outcome::Converted),
        run(job, phase, events) == Phase::Done(Outcome::Converted),
    ensures
        exists|k: int|
            0 <= k < events.len() && #[trigger] run(job, phase, events.take(k)) == Phase::Do(
                Step::Commit,
            ) && events[k] == Event::Succeeded,
    decreases events.len(),
{
    assert(events.len() > 0);
    let first = events[0];
    let rest = events.drop_first();
    let next = next_phase(job, phase, first);
    assert(events.take(0) =~= Seq::<Event>::empty());
    if next == Phase::Do(Step::RemoveInput) || next == Phase::Done(Outcome::Converted) {
        assert(run(job, phase, events.take(0)) == Phase::Do(Step::Commit));
    } else {
        lemma_converted_through_commit(job, next, rest);
        let k = choose|k: int|
            0 <= k < rest.len() && #[trigger] run(job, next, rest.take(k)) == Phase::Do(
                Step::Commit,
            ) && rest[k] == Event::Succeeded;
        assert(events.take(k + 1) =~= seq![first] + rest.take(k));
        lemma_run_first(job, phase, first, rest.take(k));
        assert(run(job, phase, events.take(k + 1)) == Phase::Do(Step::Commit));
    }
}

} // verus!
