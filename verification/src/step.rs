//! Running one step: in which order things are asked of the outside, and what
//! its answers lead to.

use vstd::prelude::*;

use crate::error;
use crate::error::{ErrorView, RunnerError};
use crate::job;
use crate::job::{
    ActionName, ActionNameView, ActionPlan, JobRunner, JobRunnerView, PlanView, Preparation,
    PreparationView, StepPlan,
};
use crate::ordered_map::OrderedMap;
use crate::output;
use crate::output::{FilterView, OutputFilter};
use crate::runner::ContainerId;
use crate::script;
use crate::script::{RunSpec, SpecView};
use crate::text;
use crate::yaml::YamlView;

verus! {

// ---------------------------------------------------------------------------
// States, events and actions
// ---------------------------------------------------------------------------

/// How far a step has come.
pub enum StepState {
    /// Nothing was done yet.
    Start,
    /// Files and directories are being created.
    Preparing,
    /// An action is being fetched.
    Fetching(ActionPlan),
    /// The script was begun, and the command may be changed.
    Interposing,
    /// The script is running.
    Running(OutputFilter),
    /// The script has ended with this exit code and these outputs, and the
    /// files that it wrote are being read.
    Reading(OrderedMap<String>, i32),
    /// There is nothing left to do.
    Over,
}

/// Something that has happened outside.
pub enum StepEvent {
    /// The step is to be run.
    Begin,
    /// Everything that was asked for is there.
    Prepared,
    /// The action was fetched, and its file has these contents.
    Fetched(Vec<u8>),
    /// The action could not be fetched; this is how the error is printed.
    FetchFailed(String),
    /// The command to run is this one.
    Interposed(Vec<String>),
    /// The script has printed this.
    Output(Vec<u8>),
    /// The script has ended with this exit code.
    Exited(i32),
    /// The environment file and the path file have these contents.
    FilesRead(Vec<u8>, Vec<u8>),
}

/// Something that is asked of the outside.
#[allow(inconsistent_fields)]
pub enum StepAction {
    /// Create these.
    Prepare(Vec<Preparation>),
    /// Fetch an action into a directory below the global directory.
    Fetch {
        /// The action.
        action: ActionName,
        /// The directory.
        dir: String,
    },
    /// Begin a new script, and let the command be changed.
    BeginScript {
        /// The path of the script, below the global directory.
        path: String,
        /// What is written.
        head: String,
        /// The command.
        command: Vec<String>,
    },
    /// Begin a new script, and give the step up.
    AbortScript {
        /// The path of the script, below the global directory.
        path: String,
        /// What is written.
        head: String,
        /// Why the step is given up.
        error: RunnerError,
    },
    /// End the script, empty the environment file and the path file, and run
    /// the script in a container.
    Run {
        /// The path of the script, below the global directory.
        path: String,
        /// What is written.
        tail: String,
        /// The container.
        container: ContainerId,
        /// The path of the script inside the container.
        command: String,
    },
    /// Wait for more output, or for the script to end.
    Listen,
    /// Read the environment file and the path file.
    ReadFiles,
    /// Nothing more: the step has ended with an exit code or an error.
    Done(Result<i32, RunnerError>),
}

/// What a `StepState` stands for.
pub enum StateView {
    /// See `StepState::Start`.
    Start,
    /// See `StepState::Preparing`.
    Preparing,
    /// The action's name, what is left of the step, and what is run.
    Fetching(Seq<char>, YamlView, SpecView),
    /// See `StepState::Interposing`.
    Interposing,
    /// What the output has brought about.
    Running(FilterView),
    /// The outputs, and the exit code.
    Reading(Seq<(Seq<char>, Seq<char>)>, i32),
    /// See `StepState::Over`.
    Over,
}

/// What a `StepEvent` stands for.
pub enum EventView {
    /// See `StepEvent::Begin`.
    Begin,
    /// See `StepEvent::Prepared`.
    Prepared,
    /// The contents of the action's file.
    Fetched(Seq<u8>),
    /// How the error is printed.
    FetchFailed(Seq<char>),
    /// The command.
    Interposed(Seq<Seq<char>>),
    /// The output.
    Output(Seq<u8>),
    /// The exit code.
    Exited(i32),
    /// The contents of the environment file and of the path file.
    FilesRead(Seq<u8>, Seq<u8>),
}

/// What a `StepAction` stands for.
pub enum ActionView {
    /// What is created.
    Prepare(Seq<PreparationView>),
    /// The action, and the directory.
    Fetch(ActionNameView, Seq<char>),
    /// The path, what is written, and the command.
    BeginScript(Seq<char>, Seq<char>, Seq<Seq<char>>),
    /// The path, what is written, and the error.
    AbortScript(Seq<char>, Seq<char>, ErrorView),
    /// The path, what is written, the container, and the path inside it.
    Run(Seq<char>, Seq<char>, nat, Seq<char>),
    /// See `StepAction::Listen`.
    Listen,
    /// See `StepAction::ReadFiles`.
    ReadFiles,
    /// The exit code or the error.
    Done(Result<i32, ErrorView>),
}

impl DeepView for StepState {
    type V = StateView;

    open spec fn deep_view(&self) -> StateView {
        match *self {
            StepState::Start => StateView::Start,
            StepState::Preparing => StateView::Preparing,
            StepState::Fetching(plan) => StateView::Fetching(
                plan.name@,
                plan.step.deep_view(),
                plan.spec.deep_view(),
            ),
            StepState::Interposing => StateView::Interposing,
            StepState::Running(filter) => StateView::Running(filter@),
            StepState::Reading(outputs, code) => StateView::Reading(outputs.deep_view(), code),
            StepState::Over => StateView::Over,
        }
    }
}

impl DeepView for StepEvent {
    type V = EventView;

    open spec fn deep_view(&self) -> EventView {
        match *self {
            StepEvent::Begin => EventView::Begin,
            StepEvent::Prepared => EventView::Prepared,
            StepEvent::Fetched(data) => EventView::Fetched(data@),
            StepEvent::FetchFailed(inner) => EventView::FetchFailed(inner@),
            StepEvent::Interposed(command) => EventView::Interposed(command.deep_view()),
            StepEvent::Output(data) => EventView::Output(data@),
            StepEvent::Exited(code) => EventView::Exited(code),
            StepEvent::FilesRead(env, path) => EventView::FilesRead(env@, path@),
        }
    }
}

impl DeepView for StepAction {
    type V = ActionView;

    open spec fn deep_view(&self) -> ActionView {
        match *self {
            StepAction::Prepare(list) => ActionView::Prepare(list.deep_view()),
            StepAction::Fetch { action, dir } => ActionView::Fetch(action.deep_view(), dir@),
            StepAction::BeginScript { path, head, command } => ActionView::BeginScript(
                path@,
                head@,
                command.deep_view(),
            ),
            StepAction::AbortScript { path, head, error } => ActionView::AbortScript(
                path@,
                head@,
                error.deep_view(),
            ),
            StepAction::Run { path, tail, container, command } => ActionView::Run(
                path@,
                tail@,
                container.0 as nat,
                command@,
            ),
            StepAction::Listen => ActionView::Listen,
            StepAction::ReadFiles => ActionView::ReadFiles,
            StepAction::Done(result) => ActionView::Done(
                match result {
                    Ok(code) => Ok(code),
                    Err(e) => Err(e.deep_view()),
                },
            ),
        }
    }
}

// ---------------------------------------------------------------------------
// Transitions
// ---------------------------------------------------------------------------

/// The event can happen in this state. A step can be planned only where the job
/// has one left.
pub open spec fn expected(state: StateView, job: JobRunnerView, event: EventView) -> bool {
    match (state, event) {
        (StateView::Start, EventView::Begin) => true,
        (StateView::Preparing, EventView::Prepared) => job.next < job.steps.len() && job.next
            < u32::MAX,
        (StateView::Fetching(..), EventView::Fetched(_)) => job.next < u32::MAX,
        (StateView::Fetching(..), EventView::FetchFailed(_)) => true,
        (StateView::Interposing, EventView::Interposed(_)) => true,
        (StateView::Running(_), EventView::Output(_)) => true,
        (StateView::Running(_), EventView::Exited(_)) => true,
        (StateView::Reading(..), EventView::FilesRead(..)) => job.next < u32::MAX,
        _ => false,
    }
}

/// The step ends with an error, and the job stays where it is.
pub open spec fn given_up(job: JobRunnerView, e: ErrorView) -> (
    StateView,
    JobRunnerView,
    ActionView,
) {
    (StateView::Over, job, ActionView::Done(Err(e)))
}

/// Once it is known what is run, the script is begun. Where it cannot be
/// written, the step is given up and the job goes on to the next one.
pub open spec fn script_begun(job: JobRunnerView, spec: SpecView) -> (
    StateView,
    JobRunnerView,
    ActionView,
) {
    let path = script::script_path(job.next, "run"@);
    match script::script_head(spec, job.next) {
        (head, Some(e)) => (
            StateView::Over,
            job::after_failure(job),
            ActionView::AbortScript(path, head, e),
        ),
        (head, None) => (
            StateView::Interposing,
            job,
            ActionView::BeginScript(path, head, spec.command),
        ),
    }
}

/// What an event leads to.
pub open spec fn transition(state: StateView, job: JobRunnerView, event: EventView) -> (
    StateView,
    JobRunnerView,
    ActionView,
) {
    match (state, event) {
        (StateView::Start, EventView::Begin) => (
            StateView::Preparing,
            job,
            ActionView::Prepare(job::preparations(job.next)),
        ),
        (StateView::Preparing, EventView::Prepared) => match job::planned(job) {
            Err(e) => given_up(job, e),
            Ok(PlanView::Command(spec)) => script_begun(job, spec),
            Ok(PlanView::Action(name, step, spec)) => match job::action_parts(name) {
                Err(e) => given_up(job, e),
                Ok(action) => (
                    StateView::Fetching(name, step, spec),
                    job,
                    ActionView::Fetch(action, script::action_path(job.next)),
                ),
            },
        },
        (StateView::Fetching(name, step, spec), EventView::Fetched(data)) => {
            match job::configured_action_file(job, name, step, spec, data) {
                Err(e) => given_up(job, e),
                Ok(spec) => script_begun(job, spec),
            }
        },
        (StateView::Fetching(name, _, _), EventView::FetchFailed(inner)) => given_up(
            job,
            error::bare(error::KindView::ActionDownloadError(name, inner)),
        ),
        (StateView::Interposing, EventView::Interposed(command)) => {
            let path = script::script_path(job.next, "run"@);
            (
                StateView::Running(output::nothing_printed()),
                job,
                ActionView::Run(
                    path,
                    script::script_tail(command),
                    0,
                    script::in_container(path),
                ),
            )
        },
        (StateView::Running(filter), EventView::Output(data)) => (
            StateView::Running(output::after_data(filter, data)),
            job,
            ActionView::Listen,
        ),
        (StateView::Running(filter), EventView::Exited(code)) => (
            StateView::Reading(filter.commands.outputs, code),
            job,
            ActionView::ReadFiles,
        ),
        (StateView::Reading(outputs, code), EventView::FilesRead(env, path)) => (
            StateView::Over,
            job::after_step(job, outputs, env, path),
            ActionView::Done(Ok(code)),
        ),
        _ => (StateView::Over, job, ActionView::Listen),
    }
}

fn begin_script(runner: &mut JobRunner, spec: RunSpec) -> (r: (StepState, StepAction))
    requires
        old(runner).deep_view().next < u32::MAX,
    ensures
        (r.0.deep_view(), final(runner).deep_view(), r.1.deep_view()) == script_begun(
            old(runner).deep_view(),
            spec.deep_view(),
        ),
{
    let path = runner.next_script_path();
    let (head, failure) = runner.next_script_head(&spec);
    match failure {
        Some(error) => {
            runner.fail_step();
            (StepState::Over, StepAction::AbortScript { path, head, error })
        },
        None => (
            StepState::Interposing,
            StepAction::BeginScript { path, head, command: spec.command },
        ),
    }
}

fn give_up(e: RunnerError) -> (r: (StepState, StepAction))
    ensures
        r.0.deep_view() == StateView::Over,
        r.1.deep_view() == ActionView::Done(Err(e.deep_view())),
{
    (StepState::Over, StepAction::Done(Err(e)))
}

impl StepState {
    /// Takes in an event, and says what to do next.
    pub fn advance(self, runner: &mut JobRunner, event: StepEvent) -> (r: (StepState, StepAction))
        requires
            expected(self.deep_view(), old(runner).deep_view(), event.deep_view()),
        ensures
            (r.0.deep_view(), final(runner).deep_view(), r.1.deep_view()) == transition(
                self.deep_view(),
                old(runner).deep_view(),
                event.deep_view(),
            ),
    {
        match (self, event) {
            (StepState::Start, StepEvent::Begin) => (
                StepState::Preparing,
                StepAction::Prepare(runner.prepare_step()),
            ),
            (StepState::Preparing, StepEvent::Prepared) => match runner.plan_step() {
                Err(e) => give_up(e),
                Ok(StepPlan::Command(spec)) => begin_script(runner, spec),
                Ok(StepPlan::Action(plan)) => match job::parse_action_name(plan.name.as_str()) {
                    Err(e) => give_up(e),
                    Ok(action) => (
                        StepState::Fetching(plan),
                        StepAction::Fetch { action, dir: runner.next_action_path() },
                    ),
                },
            },
            (StepState::Fetching(plan), StepEvent::Fetched(data)) => {
                match runner.configure_action_file(plan, data.as_slice()) {
                    Err(e) => give_up(e),
                    Ok(spec) => begin_script(runner, spec),
                }
            },
            (StepState::Fetching(plan), StepEvent::FetchFailed(inner)) => give_up(
                job::action_download_error(plan.name.as_str(), inner),
            ),
            (StepState::Interposing, StepEvent::Interposed(command)) => {
                let path = runner.next_script_path();
                let inside = script::path_in_container(path.as_str());
                let tail = script::write_script_tail(&command);
                (
                    StepState::Running(OutputFilter::new()),
                    StepAction::Run { path, tail, container: ContainerId(0), command: inside },
                )
            },
            (StepState::Running(filter), StepEvent::Output(data)) => {
                let mut seen = filter;
                seen.filter(data.as_slice());
                (StepState::Running(seen), StepAction::Listen)
            },
            (StepState::Running(filter), StepEvent::Exited(code)) => (
                StepState::Reading(filter.into_outputs(), code),
                StepAction::ReadFiles,
            ),
            (StepState::Reading(outputs, code), StepEvent::FilesRead(env, path)) => {
                runner.finish_step(outputs, &env, &path);
                (StepState::Over, StepAction::Done(Ok(code)))
            },
            _ => (StepState::Over, StepAction::Listen),
        }
    }
}

// ---------------------------------------------------------------------------
// Laws
// ---------------------------------------------------------------------------

/// What a row of events leads to: the state and the job after them, and the
/// last action.
pub open spec fn run_of(
    state: StateView,
    job: JobRunnerView,
    events: Seq<EventView>,
) -> (StateView, JobRunnerView, ActionView)
    decreases events.len(),
{
    if events.len() == 0 {
        (state, job, ActionView::Listen)
    } else {
        let (before, middle, _) = run_of(state, job, events.drop_last());
        transition(before, middle, events.last())
    }
}

/// A step whose script was begun and has run to its end brings the job to the
/// next step. The exit code is the script's, the outputs are those that it
/// printed, in whatever pieces that arrived, and the files that it wrote hold
/// for later steps.
pub proof fn law_step_runs_to_its_end(
    job: JobRunnerView,
    command: Seq<Seq<char>>,
    pieces: Seq<Seq<u8>>,
    code: i32,
    env_file: Seq<u8>,
    path_file: Seq<u8>,
)
    ensures
        ({
            let events = seq![EventView::Interposed(command)] + Seq::new(
                pieces.len(),
                |i: int| EventView::Output(pieces[i]),
            ) + seq![EventView::Exited(code), EventView::FilesRead(env_file, path_file)];
            let printed = output::after_data(output::nothing_printed(), whole(pieces));
            run_of(StateView::Interposing, job, events) == (
                StateView::Over,
                job::after_step(job, printed.commands.outputs, env_file, path_file),
                ActionView::Done(Ok::<i32, ErrorView>(code)),
            )
        }),
{
    let printed = output::after_data(output::nothing_printed(), whole(pieces));
    let begun = printing(command, pieces);
    let exited = EventView::Exited(code);
    let read = EventView::FilesRead(env_file, path_file);
    lemma_pieces(job, command, pieces);
    lemma_run_next(StateView::Interposing, job, begun, exited);
    lemma_run_next(StateView::Interposing, job, begun.push(exited), read);
    assert(begun + seq![exited, read] =~= begun.push(exited).push(read));
}

/// A step that was begun keeps what the job is. Until it is over the job is as it
/// was, and it is brought forward by at most one step: by exactly one where the
/// step is done with an exit code or its script is aborted, and by none where it
/// is done with an error.
pub proof fn law_run_from_the_start(job: JobRunnerView, events: Seq<EventView>)
    ensures
        ({
            let (state, after, action) = run_of(StateView::Start, job, events);
            &&& after.ctx == job.ctx
            &&& after.job_name == job.job_name
            &&& after.matrix == job.matrix
            &&& after.images == job.images
            &&& after.steps == job.steps
            &&& state !is Over ==> after == job
            &&& after.next == job.next || after.next == job.next + 1
            &&& action matches ActionView::Done(Ok(_)) ==> after.next == job.next + 1
            &&& action matches ActionView::Done(Err(_)) ==> after == job
            &&& action is AbortScript ==> after == job::after_failure(job)
        }),
    decreases events.len(),
{
    if events.len() > 0 {
        law_run_from_the_start(job, events.drop_last());
    }
}

/// Events behind others lead on from where those led.
#[verifier::spinoff_prover]
proof fn lemma_run_on(
    state: StateView,
    job: JobRunnerView,
    first: Seq<EventView>,
    second: Seq<EventView>,
)
    requires
        second.len() > 0,
    ensures
        run_of(state, job, first + second) == run_of(
            run_of(state, job, first).0,
            run_of(state, job, first).1,
            second,
        ),
    decreases second.len(),
{
    let front = second.drop_last();
    let (between, middle, _) = run_of(state, job, first);
    assert(first + second =~= (first + front).push(second.last()));
    assert(second =~= front.push(second.last()));
    lemma_run_next(state, job, first + front, second.last());
    lemma_run_next(between, middle, front, second.last());
    if second.len() > 1 {
        lemma_run_on(state, job, first, front);
    } else {
        assert(first + front =~= first);
    }
}

/// A step from its start to its end: whatever brought it to where its script is
/// begun, once the script has run to its end the job is at the next step, with
/// what the script printed and wrote, and the exit code is the script's.
#[verifier::spinoff_prover]
pub proof fn law_step_runs_from_start_to_end(
    job: JobRunnerView,
    lead: Seq<EventView>,
    command: Seq<Seq<char>>,
    pieces: Seq<Seq<u8>>,
    code: i32,
    env_file: Seq<u8>,
    path_file: Seq<u8>,
)
    requires
        run_of(StateView::Start, job, lead).0 == StateView::Interposing,
    ensures
        ({
            let events = lead + (seq![EventView::Interposed(command)] + Seq::new(
                pieces.len(),
                |i: int| EventView::Output(pieces[i]),
            ) + seq![EventView::Exited(code), EventView::FilesRead(env_file, path_file)]);
            let printed = output::after_data(output::nothing_printed(), whole(pieces));
            run_of(StateView::Start, job, events) == (
                StateView::Over,
                job::after_step(job, printed.commands.outputs, env_file, path_file),
                ActionView::Done(Ok::<i32, ErrorView>(code)),
            )
        }),
{
    let script = printing(command, pieces) + seq![
        EventView::Exited(code),
        EventView::FilesRead(env_file, path_file),
    ];
    law_run_from_the_start(job, lead);
    law_step_runs_to_its_end(job, command, pieces, code, env_file, path_file);
    assert(script.len() > 0);
    lemma_run_on(StateView::Start, job, lead, script);
    assert(run_of(StateView::Start, job, lead).1 == job);
}

/// What brings a step to where its script is begun: a command once the files are
/// there, an action once its file was fetched too.
pub proof fn law_script_is_begun(job: JobRunnerView, data: Seq<u8>)
    ensures
        ({
            let prepared = seq![EventView::Begin, EventView::Prepared];
            match job::planned(job) {
                Err(e) => run_of(StateView::Start, job, prepared) == given_up(job, e),
                Ok(PlanView::Command(spec)) => run_of(StateView::Start, job, prepared)
                    == script_begun(job, spec),
                Ok(PlanView::Action(name, step, spec)) => job::action_parts(name) is Ok ==> run_of(
                    StateView::Start,
                    job,
                    prepared.push(EventView::Fetched(data)),
                ) == (match job::configured_action_file(job, name, step, spec, data) {
                    Err(e) => given_up(job, e),
                    Ok(full) => script_begun(job, full),
                }),
            }
        }),
{
    let none: Seq<EventView> = seq![];
    let begun = none.push(EventView::Begin);
    let prepared = begun.push(EventView::Prepared);
    assert(seq![EventView::Begin, EventView::Prepared] =~= prepared);
    lemma_run_next(StateView::Start, job, none, EventView::Begin);
    lemma_run_next(StateView::Start, job, begun, EventView::Prepared);
    lemma_run_next(StateView::Start, job, prepared, EventView::Fetched(data));
}

/// All pieces, one behind the other.
pub open spec fn whole(pieces: Seq<Seq<u8>>) -> Seq<u8>
    decreases pieces.len(),
{
    if pieces.len() == 0 {
        seq![]
    } else {
        whole(pieces.drop_last()) + pieces.last()
    }
}

/// What the script prints before it has printed anything.
proof fn lemma_nothing_printed()
    ensures
        output::after_data(output::nothing_printed(), Seq::<u8>::empty())
            == output::nothing_printed(),
{
    let nothing = output::nothing_printed();
    let none: Seq<u8> = seq![];
    assert(nothing.pending + none =~= none);
    assert(output::complete_lines(none) =~= seq![]);
    assert(output::after_data(nothing, none) =~= nothing);
}

/// One more event.
proof fn lemma_run_next(state: StateView, job: JobRunnerView, events: Seq<EventView>, event: EventView)
    ensures
        run_of(state, job, events.push(event)) == transition(
            run_of(state, job, events).0,
            run_of(state, job, events).1,
            event,
        ),
{
    assert(events.push(event).drop_last() =~= events);
}

/// The events of a script that is begun and prints pieces.
spec fn printing(command: Seq<Seq<char>>, pieces: Seq<Seq<u8>>) -> Seq<EventView> {
    seq![EventView::Interposed(command)] + Seq::new(
        pieces.len(),
        |i: int| EventView::Output(pieces[i]),
    )
}

proof fn lemma_pieces(job: JobRunnerView, command: Seq<Seq<char>>, pieces: Seq<Seq<u8>>)
    ensures
        run_of(StateView::Interposing, job, printing(command, pieces)).0 == StateView::Running(
            output::after_data(output::nothing_printed(), whole(pieces)),
        ),
        run_of(StateView::Interposing, job, printing(command, pieces)).1 == job,
    decreases pieces.len(),
{
    if pieces.len() == 0 {
        let none: Seq<EventView> = seq![];
        assert(printing(command, pieces) =~= none.push(EventView::Interposed(command)));
        lemma_run_next(StateView::Interposing, job, none, EventView::Interposed(command));
        lemma_nothing_printed();
    } else {
        let front = pieces.drop_last();
        lemma_pieces(job, command, front);
        assert(printing(command, pieces) =~= printing(command, front).push(
            EventView::Output(pieces.last()),
        ));
        lemma_run_next(
            StateView::Interposing,
            job,
            printing(command, front),
            EventView::Output(pieces.last()),
        );
        output::law_pieces_do_not_matter(output::nothing_printed(), whole(front), pieces.last());
    }
}

/// A step that fails before its script is begun leaves the job where it is, so
/// that it can be tried again; one whose script cannot be written does not.
pub proof fn law_failures(job: JobRunnerView, e: ErrorView, spec: SpecView)
    ensures
        given_up(job, e).1 == job,
        script::script_head(spec, job.next).1 is Some ==> script_begun(job, spec).1.next
            == job.next + 1,
{
}

/// Running a step changes neither what the job is nor its containers, and the
/// script is always run in the first one.
pub proof fn law_job_is_kept(state: StateView, job: JobRunnerView, event: EventView)
    ensures
        ({
            let (_, after, action) = transition(state, job, event);
            &&& after.ctx == job.ctx
            &&& after.job_name == job.job_name
            &&& after.matrix == job.matrix
            &&& after.images == job.images
            &&& after.steps == job.steps
            &&& action matches ActionView::Run(_, _, container, _) ==> container == 0
        }),
{
}

/// The event is an answer to what was asked for.
pub open spec fn answers(action: ActionView, event: EventView) -> bool {
    match (action, event) {
        (ActionView::Prepare(_), EventView::Prepared) => true,
        (ActionView::Fetch(..), EventView::Fetched(_)) => true,
        (ActionView::Fetch(..), EventView::FetchFailed(_)) => true,
        (ActionView::BeginScript(..), EventView::Interposed(_)) => true,
        (ActionView::Run(..), EventView::Output(_)) => true,
        (ActionView::Run(..), EventView::Exited(_)) => true,
        (ActionView::Listen, EventView::Output(_)) => true,
        (ActionView::Listen, EventView::Exited(_)) => true,
        (ActionView::ReadFiles, EventView::FilesRead(..)) => true,
        _ => false,
    }
}

/// Whoever begins a step that the job has left, and answers what is asked for,
/// never brings about an event that is not expected.
pub proof fn law_answers_are_expected(
    state: StateView,
    job: JobRunnerView,
    event: EventView,
    answer: EventView,
)
    requires
        job.next < job.steps.len(),
        job.next < u32::MAX,
        expected(state, job, event),
        answers(transition(state, job, event).2, answer),
    ensures
        expected(transition(state, job, event).0, transition(state, job, event).1, answer),
        transition(state, job, event).1 == job,
{
}

/// What is asked for in turn: the step's directories, the action in the step's own
/// directory, the script with the head that was written for what is run, and the
/// script's last line with the command, run by its path in the first container.
pub proof fn law_actions(
    job: JobRunnerView,
    spec: SpecView,
    name: Seq<char>,
    rest: YamlView,
    command: Seq<Seq<char>>,
)
    ensures
        transition(StateView::Start, job, EventView::Begin) == (
            StateView::Preparing,
            job,
            ActionView::Prepare(job::preparations(job.next)),
        ),
        ({
            let (state, after, action) = transition(
                StateView::Interposing,
                job,
                EventView::Interposed(command),
            );
            let path = ".gha-runner/step"@ + text::decimal(job.next as int) + "/run"@;
            &&& after == job
            &&& state matches StateView::Running(filter)
            &&& filter.pending.len() == 0
            &&& filter.commands.stop_token is None
            &&& filter.commands.outputs.len() == 0
            &&& action == ActionView::Run(
                path,
                script::script_tail(command),
                0,
                "/github/"@ + path,
            )
        }),
        ({
            let (state, after, action) = script_begun(job, spec);
            let path = ".gha-runner/step"@ + text::decimal(job.next as int) + "/run"@;
            let (head, failure) = script::script_head(spec, job.next);
            match failure {
                None => state == StateView::Interposing && after == job && action
                    == ActionView::BeginScript(path, head, spec.command),
                Some(e) => state == StateView::Over && after.next == job.next + 1 && after.env
                    == job.env && after.paths == job.paths && after.outputs == job.outputs && action
                    == ActionView::AbortScript(path, head, e),
            }
        }),
        job::planned(job) == Ok::<PlanView, ErrorView>(PlanView::Action(name, rest, spec)) ==> {
            let (state, after, action) = transition(
                StateView::Preparing,
                job,
                EventView::Prepared,
            );
            match job::action_parts(name) {
                Ok(parts) => after == job && state == StateView::Fetching(name, rest, spec) && action
                    == ActionView::Fetch(
                    parts,
                    ".gha-runner/step"@ + text::decimal(job.next as int) + "/action"@,
                ),
                Err(e) => after == job && state == StateView::Over && action == ActionView::Done(
                    Err::<i32, ErrorView>(e),
                ),
            }
        },
{
    script::law_paths_of_a_step(job.next, 0, "run"@, Seq::empty());
    let dir = ".gha-runner/step"@ + text::decimal(job.next as int);
    reveal_strlit("/");
    reveal_strlit("run");
    reveal_strlit("/run");
    assert("/"@ + "run"@ =~= "/run"@);
    assert(dir + "/"@ + "run"@ =~= dir + "/run"@);
    assert(script::script_path(job.next, "run"@) =~= dir + "/run"@);
    output::law_nothing_printed();
}

/// An action that could not be fetched ends the step with an error that names it,
/// and the job stays where it is.
pub proof fn law_failed_fetch(
    job: JobRunnerView,
    name: Seq<char>,
    rest: YamlView,
    spec: SpecView,
    inner: Seq<char>,
)
    ensures
        transition(
            StateView::Fetching(name, rest, spec),
            job,
            EventView::FetchFailed(inner),
        ) == (
            StateView::Over,
            job,
            ActionView::Done(
                Err::<i32, ErrorView>(
                    ErrorView {
                        kind: error::KindView::ActionDownloadError(name, inner),
                        context: None,
                    },
                ),
            ),
        ),
{
}

/// What has happened and what is asked for count as they are told.
pub proof fn law_events_and_actions_are_what_they_hold(
    data: Vec<u8>,
    more: Vec<u8>,
    code: i32,
    path: String,
    text: String,
    inside: String,
    container: ContainerId,
    command: Vec<String>,
)
    ensures
        StepEvent::Fetched(data).deep_view() == EventView::Fetched(data@),
        StepEvent::FetchFailed(text).deep_view() == EventView::FetchFailed(text@),
        StepEvent::Output(data).deep_view() == EventView::Output(data@),
        StepEvent::Exited(code).deep_view() == EventView::Exited(code),
        StepEvent::FilesRead(data, more).deep_view() == EventView::FilesRead(data@, more@),
        StepEvent::Interposed(command).deep_view() matches EventView::Interposed(words) && {
            &&& words.len() == command@.len()
            &&& forall|i: int| 0 <= i < words.len() ==> words[i] == (#[trigger] command@[i])@
        },
        (StepAction::Run { path, tail: text, container, command: inside }).deep_view()
            == ActionView::Run(path@, text@, container.0 as nat, inside@),
        (StepAction::BeginScript { path, head: text, command }).deep_view() matches
            ActionView::BeginScript(p, h, words) && {
            &&& p == path@
            &&& h == text@
            &&& words.len() == command@.len()
            &&& forall|i: int| 0 <= i < words.len() ==> words[i] == (#[trigger] command@[i])@
        },
        StepAction::Done(Ok::<i32, RunnerError>(code)).deep_view() == ActionView::Done(
            Ok::<i32, ErrorView>(code),
        ),
{
}

} // verus!
