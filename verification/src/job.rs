//! Running the steps of a job, one after the other.

use vstd::prelude::*;

use crate::config;
use crate::config::{ConfigView, RunnerContext};
use crate::contexts;
use crate::contexts::{ActionContext, PreStepContext, StepContext};
use crate::error;
use crate::error::{ErrorView, KindView, RunnerError, RunnerErrorKind, StepIndex};
use crate::expressions;
use crate::expressions::{ContextResolver, Scope};
use crate::files;
use crate::fold;
use crate::models;
use crate::models::{Action, Step};
use crate::ordered_map;
use crate::ordered_map::OrderedMap;
use crate::runner::ContainerImage;
use crate::script;
use crate::script::{RunSpec, SpecView};
use crate::shell;
use crate::text;
use crate::yaml;
use crate::yaml::{Yaml, YamlView};

verus! {

// ---------------------------------------------------------------------------
// The job
// ---------------------------------------------------------------------------

/// Runs a specific Job.
/// The simplest way to use this is to run one step after the other until
/// `next_step_index() >= step_count()`.
pub struct JobRunner {
    ctx: RunnerContext,
    job_name: String,
    matrix_values: OrderedMap<Yaml>,
    /// Environment variables to set in future steps
    env: OrderedMap<String>,
    /// Path entries to add in future steps. The entries are added
    /// in reverse order, i.e. the last entry in `paths` is at the
    /// start of the PATH.
    paths: Vec<String>,
    /// The first image is the default image.
    container_images: Vec<ContainerImage>,
    /// The full list of steps
    steps: Vec<Step>,
    outputs: Vec<OrderedMap<String>>,
    step_index: StepIndex,
}

/// What a `JobRunner` stands for.
#[verifier::ext_equal]
pub struct JobRunnerView {
    /// The values that the workflow is run with.
    pub ctx: ConfigView,
    /// The job's name.
    pub job_name: Seq<char>,
    /// The values that the job was derived with.
    pub matrix: Seq<(Seq<char>, YamlView)>,
    /// The environment variables of the next step.
    pub env: Seq<(Seq<char>, Seq<char>)>,
    /// The entries of the search path of the next step.
    pub paths: Seq<Seq<char>>,
    /// The container images.
    pub images: Seq<Seq<char>>,
    /// The steps.
    pub steps: Seq<YamlView>,
    /// The outputs of the steps that were run.
    pub outputs: Seq<Seq<(Seq<char>, Seq<char>)>>,
    /// The next step.
    pub next: nat,
}

impl DeepView for JobRunner {
    type V = JobRunnerView;

    closed spec fn deep_view(&self) -> JobRunnerView {
        JobRunnerView {
            ctx: self.ctx.deep_view(),
            job_name: self.job_name@,
            matrix: self.matrix_values.deep_view(),
            env: self.env.deep_view(),
            paths: self.paths.deep_view(),
            images: self.container_images.deep_view(),
            steps: self.steps.deep_view(),
            outputs: self.outputs.deep_view(),
            next: self.step_index.0 as nat,
        }
    }
}

/// The names in a step that is looked at before it is its turn.
pub open spec fn pre_scope(v: JobRunnerView, step: nat) -> Scope {
    contexts::pre_step_scope(v.ctx, v.matrix, v.job_name, step)
}

/// The names in the next step.
pub open spec fn next_scope(v: JobRunnerView) -> Scope {
    contexts::step_scope(v.ctx, v.matrix, v.job_name, v.next)
}

/// The names in the action that the next step uses.
pub open spec fn next_action_scope(v: JobRunnerView, action: Seq<char>) -> Scope {
    contexts::action_scope(v.ctx, action, v.job_name, v.next)
}

/// The name of the next step, if there is one.
pub open spec fn next_name(v: JobRunnerView) -> Result<Option<Seq<char>>, ErrorView> {
    if v.next < v.steps.len() {
        models::text_field(next_scope(v), v.steps[v.next as int], "name"@)
    } else {
        Ok(None)
    }
}

/// The first step at or after `from` that has the name.
pub open spec fn step_named(v: JobRunnerView, name: Seq<char>, from: nat) -> Result<
    Option<nat>,
    ErrorView,
>
    decreases v.steps.len() - from,
{
    if from >= v.steps.len() {
        Ok(None)
    } else {
        let index = from as u32 as nat;
        match models::text_field(pre_scope(v, index), v.steps[from as int], "name"@) {
            Err(e) => Err(e),
            Ok(found) => if found == Some(name) {
                Ok(Some(index))
            } else {
                step_named(v, name, from + 1)
            },
        }
    }
}

/// The environment variables that a step sets for itself.
pub open spec fn peeked_env(v: JobRunnerView, step: nat) -> Result<
    Seq<(Seq<char>, Seq<char>)>,
    ErrorView,
> {
    match models::map_field::<String>(pre_scope(v, step), v.steps[step as int], "env"@) {
        Ok(env) => Ok(ordered_map::set_all(env, v.ctx.override_env)),
        Err(e) => Err(e),
    }
}

impl JobRunner {
    /// A runner that has run no step yet.
    pub(crate) fn new(
        ctx: RunnerContext,
        job_name: String,
        matrix_values: OrderedMap<Yaml>,
        env: OrderedMap<String>,
        container_images: Vec<ContainerImage>,
        steps: Vec<Step>,
    ) -> (r: JobRunner)
        ensures
            r.deep_view() == (JobRunnerView {
                ctx: ctx.deep_view(),
                job_name: job_name@,
                matrix: matrix_values.deep_view(),
                env: env.deep_view(),
                paths: seq![],
                images: container_images.deep_view(),
                steps: steps.deep_view(),
                outputs: seq![],
                next: 0,
            }),
    {
        let r = JobRunner {
            ctx,
            job_name,
            matrix_values,
            env,
            paths: Vec::new(),
            container_images,
            steps,
            outputs: Vec::new(),
            step_index: StepIndex(0),
        };
        assert(r.paths.deep_view() =~= seq![]);
        assert(r.outputs.deep_view() =~= seq![]);
        r
    }

    /// The job requires a specific set of containers, one container per
    /// entry in the returned list. Each container must use the given
    /// `ContainerImage`.
    pub fn container_images(&self) -> (r: &[ContainerImage])
        ensures
            r.deep_view() == self.deep_view().images,
    {
        self.container_images.as_slice()
    }

    /// The total number of steps in the job.
    pub fn step_count(&self) -> (r: StepIndex)
        ensures
            r.0 == self.deep_view().steps.len() as u32,
    {
        StepIndex(self.steps.len() as u32)
    }

    /// The index of the next step to be executed.
    pub fn next_step_index(&self) -> (r: StepIndex)
        ensures
            r.0 == self.deep_view().next,
    {
        self.step_index
    }

    /// The name of the next step to be executed, if there is one.
    pub fn next_step_name(&self) -> (r: Result<Option<String>, RunnerError>)
        ensures
            error::outcome(r) == next_name(self.deep_view()),
    {
        let index: usize = self.step_index.0 as usize;
        if index >= self.steps.len() {
            return Ok(None);
        }
        let context = StepContext::new(
            &self.ctx,
            &self.matrix_values,
            self.job_name.as_str(),
            self.step_index,
        );
        assert(self.steps.deep_view()[index as int] == self.steps@[index as int].deep_view());
        let mut step = self.steps[index].clone();
        step.take_name(&context)
    }

    /// The job name.
    pub fn job_name(&self) -> (r: &str)
        ensures
            r@ == self.deep_view().job_name,
    {
        self.job_name.as_str()
    }

    /// Look up a step by name, from the next step on. We don't have access to variables set by
    /// previous steps so this might not work in obscure cases...
    pub fn find_step_by_name(&self, step_name: &str) -> (r: Result<Option<StepIndex>, RunnerError>)
        ensures
            error::outcome(r) == step_named(
                self.deep_view(),
                step_name@,
                self.deep_view().next,
            ),
    {
        let ghost v = self.deep_view();
        let len: usize = self.steps.len();
        let mut index: usize = self.step_index.0 as usize;
        while index < len
            invariant
                len == self.steps@.len(),
                v == self.deep_view(),
                step_named(v, step_name@, v.next) == step_named(v, step_name@, index as nat),
            decreases len - index,
        {
            let step_index = StepIndex(index as u32);
            let context = PreStepContext::new(
                &self.ctx,
                &self.matrix_values,
                self.job_name.as_str(),
                step_index,
            );
            assert(v.steps[index as int] == self.steps@[index as int].deep_view());
            let mut step = self.steps[index].clone();
            if let Some(name) = step.take_name_pre(&context)? {
                if text::same(name.as_str(), step_name) {
                    return Ok(Some(step_index));
                }
            }
            index = index + 1;
        }
        Ok(None)
    }

    /// Get the environment variables set in a specific step. We don't have access to variables
    /// set by previous steps so this might not work in obscure cases...
    pub fn peek_step_env(&self, step_index: StepIndex) -> (r: Result<
        OrderedMap<String>,
        RunnerError,
    >)
        requires
            step_index.0 < self.deep_view().steps.len(),
        ensures
            error::outcome(r) == peeked_env(self.deep_view(), step_index.0 as nat),
    {
        let index: usize = step_index.0 as usize;
        assert(self.steps.deep_view()[index as int] == self.steps@[index as int].deep_view());
        let mut step = self.steps[index].clone();
        let context = PreStepContext::new(
            &self.ctx,
            &self.matrix_values,
            self.job_name.as_str(),
            step_index,
        );
        let env = step.take_env_pre(&context)?;
        Ok(self.ctx.apply_env(env))
    }
}

// ---------------------------------------------------------------------------
// What is run for a step
// ---------------------------------------------------------------------------

/// What a step comes down to.
pub enum StepPlan {
    /// A command, which is known completely.
    Command(RunSpec),
    /// An action, which has to be fetched first.
    Action(ActionPlan),
}

/// A step that uses an action.
pub struct ActionPlan {
    /// The name of the action.
    pub name: String,
    /// What is left of the step.
    pub step: Step,
    /// What is run, but for the command.
    pub spec: RunSpec,
}

/// What a `StepPlan` stands for.
pub enum PlanView {
    /// A command.
    Command(SpecView),
    /// An action: its name, what is left of the step, and what is run.
    Action(Seq<char>, YamlView, SpecView),
}

impl DeepView for StepPlan {
    type V = PlanView;

    open spec fn deep_view(&self) -> PlanView {
        match *self {
            StepPlan::Command(spec) => PlanView::Command(spec.deep_view()),
            StepPlan::Action(plan) => PlanView::Action(
                plan.name@,
                plan.step.deep_view(),
                plan.spec.deep_view(),
            ),
        }
    }
}

/// The command that runs a text in a shell.
pub open spec fn shell_command(shell: Option<Seq<char>>, run: Seq<char>) -> Result<
    Seq<Seq<char>>,
    ErrorView,
> {
    let bash = shell is None || shell == Some("bash"@);
    if !bash && shell != Some("sh"@) {
        Err(error::bare(KindView::UnsupportedShell(shell->0)))
    } else {
        match shell::simple_command(run) {
            Some(words) => Ok(words),
            None => if bash {
                Ok(
                    seq![
                        "bash"@,
                        "--noprofile"@,
                        "--norc"@,
                        "-eo"@,
                        "pipefail"@,
                        "-c"@,
                        run,
                    ],
                )
            } else {
                Ok(seq!["sh"@, "-e"@, "-c"@, run])
            },
        }
    }
}

/// The environment variables of a step: those set so far, then the step's own,
/// then those that override others.
pub open spec fn step_env(v: JobRunnerView, own: Seq<(Seq<char>, Seq<char>)>) -> Seq<
    (Seq<char>, Seq<char>),
> {
    ordered_map::set_all(v.env, ordered_map::set_all(own, v.ctx.override_env))
}

/// What the next step comes down to.
pub open spec fn planned(v: JobRunnerView) -> Result<PlanView, ErrorView> {
    let scope = next_scope(v);
    let step = v.steps[v.next as int];
    match models::map_field::<String>(scope, step, "env"@) {
        Err(e) => Err(e),
        Ok(own) => {
            let step = models::left(step, "env"@);
            match models::text_field(scope, step, "working-directory"@) {
                Err(e) => Err(e),
                Ok(working_directory) => planned_in(
                    v,
                    models::left(step, "working-directory"@),
                    SpecView {
                        env: step_env(v, own),
                        paths: v.paths,
                        working_directory,
                        command: seq![],
                    },
                ),
            }
        },
    }
}

/// What the rest of the next step comes down to.
pub open spec fn planned_in(v: JobRunnerView, step: YamlView, spec: SpecView) -> Result<
    PlanView,
    ErrorView,
> {
    let scope = next_scope(v);
    match models::text_field(scope, step, "uses"@) {
        Err(e) => Err(e),
        Ok(Some(uses)) => Ok(PlanView::Action(uses, models::left(step, "uses"@), spec)),
        Ok(None) => {
            let step = models::left(step, "uses"@);
            match models::text_field(scope, step, "run"@) {
                Err(e) => Err(e),
                Ok(Some(run)) => match configured_command(
                    v,
                    models::left(step, "run"@),
                    run,
                ) {
                    Err(e) => Err(e),
                    Ok(command) => Ok(PlanView::Command(SpecView { command, ..spec })),
                },
                Ok(None) => Err(
                    error::at(
                        KindView::RequiredFieldMissing("uses/run"@, models::left(step, "run"@)),
                        scope.place,
                    ),
                ),
            }
        },
    }
}

/// The command for a step that runs a text.
pub open spec fn configured_command(v: JobRunnerView, step: YamlView, run: Seq<char>) -> Result<
    Seq<Seq<char>>,
    ErrorView,
> {
    match models::text_field(next_scope(v), step, "shell"@) {
        Err(e) => Err(e),
        Ok(shell) => shell_command(shell, run),
    }
}

fn text_vec(parts: &[&str], last: String) -> (r: Vec<String>)
    ensures
        r.deep_view() == Seq::new(parts@.len(), |i: int| parts@[i]@).push(last@),
{
    let mut out: Vec<String> = Vec::new();
    for k in 0..parts.len()
        invariant
            out@.len() == k,
            forall|i: int| 0 <= i < k ==> (#[trigger] out@[i])@ == parts@[i]@,
    {
        out.push(text::copy(parts[k]));
    }
    out.push(last);
    assert(out.deep_view() =~= Seq::new(parts@.len(), |i: int| parts@[i]@).push(last@));
    out
}

impl JobRunner {
    /// What the next step comes down to.
    pub fn plan_step(&self) -> (r: Result<StepPlan, RunnerError>)
        requires
            self.deep_view().next < self.deep_view().steps.len(),
        ensures
            error::outcome(r) == planned(self.deep_view()),
    {
        let index: usize = self.step_index.0 as usize;
        assert(self.steps.deep_view()[index as int] == self.steps@[index as int].deep_view());
        let mut step = self.steps[index].clone();
        let context = StepContext::new(
            &self.ctx,
            &self.matrix_values,
            self.job_name.as_str(),
            self.step_index,
        );
        let own = self.ctx.apply_env(step.take_env(&context)?);
        let mut env = config::copy_env(&self.env);
        config::put_all(&mut env, &own);
        let working_directory = step.take_working_directory(&context)?;
        let command: Vec<String> = Vec::new();
        assert(command.deep_view() =~= seq![]);
        let mut spec = RunSpec {
            env,
            paths: text::copy_texts(&self.paths),
            working_directory,
            command,
        };
        if let Some(uses) = step.take_uses(&context)? {
            return Ok(StepPlan::Action(ActionPlan { name: uses, step, spec }));
        }
        match step.take_run(&context)? {
            Some(run) => {
                spec.command = self.configure_command(&mut step, run)?;
                Ok(StepPlan::Command(spec))
            },
            None => Err(
                RunnerErrorKind::RequiredFieldMissing { field_name: "uses/run", got: step.0 }.error(
                    &context,
                ),
            ),
        }
    }

    fn configure_command(&self, step: &mut Step, command: String) -> (r: Result<
        Vec<String>,
        RunnerError,
    >)
        ensures
            error::outcome(r) == configured_command(
                self.deep_view(),
                old(step).deep_view(),
                command@,
            ),
            final(step).deep_view() == models::left(old(step).deep_view(), "shell"@),
    {
        let context = StepContext::new(
            &self.ctx,
            &self.matrix_values,
            self.job_name.as_str(),
            self.step_index,
        );
        let mut bash = true;
        if let Some(shell) = step.take_shell(&context)? {
            if !text::same(shell.as_str(), "bash") {
                if !text::same(shell.as_str(), "sh") {
                    return Err(RunnerError::from(RunnerErrorKind::UnsupportedShell { shell }));
                }
                bash = false;
                proof {
                    reveal_strlit("bash");
                    reveal_strlit("sh");
                    assert("bash"@.len() != "sh"@.len());
                }
            }
        }
        if let Some(words) = shell::parse_simple_shell_command(command.as_str()) {
            return Ok(words);
        }
        if bash {
            let out = text_vec(
                &["bash", "--noprofile", "--norc", "-eo", "pipefail", "-c"],
                command,
            );
            assert(out.deep_view() =~= seq![
                "bash"@,
                "--noprofile"@,
                "--norc"@,
                "-eo"@,
                "pipefail"@,
                "-c"@,
                command@,
            ]);
            Ok(out)
        } else {
            let out = text_vec(&["sh", "-e", "-c"], command);
            assert(out.deep_view() =~= seq!["sh"@, "-e"@, "-c"@, command@]);
            Ok(out)
        }
    }
}

// ---------------------------------------------------------------------------
// Actions
// ---------------------------------------------------------------------------

/// Where an action is to be had.
pub struct ActionName {
    /// The owner of the action's repository.
    pub owner: String,
    /// The action's repository.
    pub repo: String,
    /// The git ref of the action.
    pub git_ref: String,
}

/// What an `ActionName` stands for.
pub struct ActionNameView {
    /// The owner of the action's repository.
    pub owner: Seq<char>,
    /// The action's repository.
    pub repo: Seq<char>,
    /// The git ref of the action.
    pub git_ref: Seq<char>,
}

impl DeepView for ActionName {
    type V = ActionNameView;

    open spec fn deep_view(&self) -> ActionNameView {
        ActionNameView { owner: self.owner@, repo: self.repo@, git_ref: self.git_ref@ }
    }
}

/// The parts of an action's name: the ref follows the first `@`, and the
/// repository the first `/` before that.
pub open spec fn action_parts(action: Seq<char>) -> Result<ActionNameView, ErrorView> {
    let bad = Err(error::bare(KindView::BadActionName(action)));
    match text::find(action, "@"@) {
        None => bad,
        Some(p) => match text::find(action.take(p), "/"@) {
            None => bad,
            Some(q) => Ok(
                ActionNameView {
                    owner: action.take(q),
                    repo: action.subrange(q + 1, p),
                    git_ref: action.skip(p + 1),
                },
            ),
        },
    }
}

fn bad_action_name(action: &str) -> (r: RunnerError)
    ensures
        r.deep_view() == error::bare(KindView::BadActionName(action@)),
{
    RunnerError::from(RunnerErrorKind::BadActionName { action: text::copy(action) })
}

/// Takes the name of an action apart.
pub fn parse_action_name(action: &str) -> (r: Result<ActionName, RunnerError>)
    ensures
        error::outcome(r) == action_parts(action@),
{
    let chars = text::chars_of(action);
    let len: usize = chars.len();
    proof {
        reveal_strlit("@");
        reveal_strlit("/");
        assert(action@.skip(0) =~= action@);
    }
    let p: usize = match text::find_chars(&chars, 0, "@") {
        Some(p) => p,
        None => {
            return Err(bad_action_name(action));
        },
    };
    let repo_part = text::chars_of(text::text_of(&chars, 0, p).as_str());
    assert(repo_part@ =~= action@.take(p as int));
    assert(repo_part@.skip(0) =~= repo_part@);
    let q: usize = match text::find_chars(&repo_part, 0, "/") {
        Some(q) => q,
        None => {
            return Err(bad_action_name(action));
        },
    };
    let owner = text::text_of(&chars, 0, q);
    let repo = text::text_of(&chars, q + 1, p);
    let git_ref = text::text_of(&chars, p + 1, len);
    assert(owner@ =~= action@.take(q as int));
    assert(git_ref@ =~= action@.skip(p + 1));
    Ok(ActionName { owner, repo, git_ref })
}

/// An action out of the contents of its file.
pub open spec fn parsed_action(action: Seq<char>, data: Seq<u8>) -> Result<YamlView, ErrorView> {
    match yaml::yaml_document(data) {
        Ok(v) => Ok(v),
        Err(e) => Err(error::bare(KindView::InvalidActionYaml(action, e))),
    }
}

/// Reads the file of an action.
pub fn read_action_yaml(action: &str, data: &[u8]) -> (r: Result<Action, RunnerError>)
    ensures
        error::outcome(r) == parsed_action(action@, data@),
{
    match yaml::parse(data) {
        Ok(v) => Ok(Action(v)),
        Err(inner) => Err(
            RunnerError::from(
                RunnerErrorKind::InvalidActionYaml { action: text::copy(action), inner },
            ),
        ),
    }
}

/// The file that describes an action, where so many were looked for and not
/// found. After two there is none left.
pub open spec fn action_file(not_found: nat) -> Option<Seq<char>> {
    if not_found == 0 {
        Some("action.yml"@)
    } else if not_found == 1 {
        Some("action.yaml"@)
    } else {
        None
    }
}

/// The file that describes an action, where so many were looked for and not
/// found.
pub fn action_file_name(not_found: usize) -> (r: Option<String>)
    ensures
        r.deep_view() == action_file(not_found as nat),
{
    if not_found == 0 {
        Some(text::copy("action.yml"))
    } else if not_found == 1 {
        Some(text::copy("action.yaml"))
    } else {
        None
    }
}

/// The error for an action that could not be fetched.
pub fn action_download_error(action: &str, inner: String) -> (r: RunnerError)
    ensures
        r.deep_view() == error::bare(KindView::ActionDownloadError(action@, inner@)),
{
    RunnerError::from(
        RunnerErrorKind::ActionDownloadError { action: text::copy(action), inner },
    )
}

/// The environment variable for an input of an action.
pub open spec fn input_variable(input: Seq<char>) -> Seq<char> {
    "INPUT_"@ + shell::env_name(input)
}

/// Takes one more input of an action into the environment: what the step gives
/// for it, or else its default. An input without either is left out.
pub open spec fn add_input(scope: Scope, given: Seq<(Seq<char>, Seq<char>)>) -> spec_fn(
    Seq<(Seq<char>, Seq<char>)>,
    (Seq<char>, YamlView),
) -> Result<Seq<(Seq<char>, Seq<char>)>, ErrorView> {
    |env: Seq<(Seq<char>, Seq<char>)>, input: (Seq<char>, YamlView)|
        match ordered_map::lookup(given, input.0) {
            Some(value) => Ok(ordered_map::set(env, input_variable(input.0), value)),
            None => match models::text_field(scope, input.1, "default"@) {
                Err(e) => Err(e),
                Ok(Some(value)) => Ok(ordered_map::set(env, input_variable(input.0), value)),
                Ok(None) => Ok(env),
            },
        }
}

/// The program that an action is run with: only `node12` is supported, and
/// nothing that is run before it.
pub open spec fn action_main(scope: Scope, name: Seq<char>, runs: YamlView) -> Result<
    Seq<char>,
    ErrorView,
> {
    match models::text_field(scope, runs, "pre"@) {
        Err(e) => Err(e),
        Ok(Some(_)) => Err(error::bare(KindView::UnsupportedPre(name))),
        Ok(None) => {
            let runs = models::left(runs, "pre"@);
            match models::required_text_field(scope, runs, "using"@) {
                Err(e) => Err(e),
                Ok(using) => if using != "node12"@ {
                    Err(error::bare(KindView::UnsupportedActionType(name, using)))
                } else {
                    models::required_text_field(scope, models::left(runs, "using"@), "main"@)
                },
            }
        },
    }
}

/// What is run for a step that uses an action.
pub open spec fn configured_action(
    v: JobRunnerView,
    name: Seq<char>,
    step: YamlView,
    spec: SpecView,
    action: YamlView,
) -> Result<SpecView, ErrorView> {
    let scope = next_action_scope(v, name);
    match models::map_field::<String>(next_scope(v), step, "with"@) {
        Err(e) => Err(e),
        Ok(given) => match models::inputs(scope, action) {
            Err(e) => Err(e),
            Ok(inputs) => match fold::try_fold(spec.env, inputs, add_input(scope, given)) {
                Err(e) => Err(e),
                Ok(env) => match models::taken_required(
                    scope,
                    models::left(action, "inputs"@),
                    "runs"@,
                ) {
                    Err(e) => Err(e),
                    Ok(runs) => match action_main(scope, name, runs) {
                        Err(e) => Err(e),
                        Ok(main) => Ok(
                            SpecView {
                                env,
                                command: seq![
                                    "node"@,
                                    script::in_container(script::action_path(v.next)) + "/"@ + main,
                                ],
                                ..spec
                            },
                        ),
                    },
                },
            },
        },
    }
}

/// What is run for a step that uses an action whose file has these contents.
pub open spec fn configured_action_file(
    v: JobRunnerView,
    name: Seq<char>,
    step: YamlView,
    spec: SpecView,
    data: Seq<u8>,
) -> Result<SpecView, ErrorView> {
    match parsed_action(name, data) {
        Ok(action) => configured_action(v, name, step, spec, action),
        Err(e) => Err(e),
    }
}

fn set_inputs<'a>(
    context: &ActionContext<'a>,
    given: &OrderedMap<String>,
    inputs: &OrderedMap<models::Input>,
    env: OrderedMap<String>,
) -> (r: Result<OrderedMap<String>, RunnerError>)
    ensures
        error::outcome(r) == fold::try_fold(
            env.deep_view(),
            inputs.deep_view(),
            add_input(context.scope(), given.deep_view()),
        ),
{
    let pairs = inputs.pairs();
    let ghost scope = context.scope();
    let ghost all = inputs.deep_view();
    let ghost start = env.deep_view();
    let ghost step = add_input(scope, given.deep_view());
    let mut out = env;
    proof {
        fold::lemma_start(start, all, step);
    }
    for k in 0..pairs.len()
        invariant
            scope == context.scope(),
            all == inputs.deep_view(),
            step == add_input(scope, given.deep_view()),
            start == env.deep_view(),
            pairs@.len() == all.len(),
            forall|i: int|
                0 <= i < all.len() ==> (#[trigger] pairs@[i]).0@ == all[i].0
                    && pairs@[i].1.deep_view() == all[i].1,
            fold::try_fold(start, all.take(k as int), step) == Ok::<
                Seq<(Seq<char>, Seq<char>)>,
                ErrorView,
            >(out.deep_view()),
    {
        let pair = &pairs[k];
        proof {
            fold::lemma_next(start, all, step, k as int);
            ordered_map::lemma_deep_lookup(given.entries(), all[k as int].0);
            assert(pairs@[k as int].0@ == all[k as int].0);
        }
        let value: Option<String> = match given.get(pair.0.as_str()) {
            Some(value) => Some(value.clone()),
            None => {
                let mut input = pair.1.clone();
                match input.take_default(context) {
                    Ok(value) => value,
                    Err(e) => {
                        proof {
                            fold::lemma_stop(start, all, step, k as int);
                        }
                        return Err(e);
                    },
                }
            },
        };
        if let Some(value) = value {
            let name = text::joined("INPUT_", shell::envify(pair.0.as_str()).as_str());
            proof {
                ordered_map::lemma_deep_set(out.entries(), name@, value);
            }
            out.insert(name, value);
        }
    }
    proof {
        fold::lemma_end(start, all, step);
    }
    Ok(out)
}

fn read_action_main<'a>(context: &ActionContext<'a>, name: &str, runs: models::Runs) -> (r: Result<
    String,
    RunnerError,
>)
    ensures
        error::outcome(r) == action_main(context.scope(), name@, runs.deep_view()),
{
    let mut rest = runs;
    if rest.take_pre(context)?.is_some() {
        return Err(
            RunnerError::from(RunnerErrorKind::UnsupportedPre { action: text::copy(name) }),
        );
    }
    let using = rest.take_using(context)?;
    if !text::same(using.as_str(), "node12") {
        return Err(
            RunnerError::from(
                RunnerErrorKind::UnsupportedActionType { action: text::copy(name), using },
            ),
        );
    }
    rest.take_main(context)
}

impl JobRunner {
    /// What is run for the next step, which uses an action.
    pub fn configure_action(&self, plan: ActionPlan, action: Action) -> (r: Result<
        RunSpec,
        RunnerError,
    >)
        ensures
            error::outcome(r) == configured_action(
                self.deep_view(),
                plan.name@,
                plan.step.deep_view(),
                plan.spec.deep_view(),
                action.deep_view(),
            ),
    {
        let ActionPlan { name, step, spec } = plan;
        let mut rest = step;
        let mut file = action;
        let step_context = StepContext::new(
            &self.ctx,
            &self.matrix_values,
            self.job_name.as_str(),
            self.step_index,
        );
        let given = rest.take_with(&step_context)?;
        let context = ActionContext::new(
            &self.ctx,
            name.as_str(),
            self.job_name.as_str(),
            self.step_index,
        );
        let inputs = file.take_inputs(&context)?;
        let RunSpec { env, paths, working_directory, command: _ } = spec;
        let env = set_inputs(&context, &given, &inputs, env)?;
        let runs = file.take_runs(&context)?;
        let main = read_action_main(&context, name.as_str(), runs)?;
        let mut command: Vec<String> = Vec::new();
        command.push(text::copy("node"));
        let dir = script::path_in_container(
            script::action_path_of(self.step_index.0).as_str(),
        );
        let program = text::joined3(dir.as_str(), "/", main.as_str());
        let ghost expected = program@;
        command.push(program);
        assert(command.deep_view() =~= seq!["node"@, expected]);
        Ok(RunSpec { env, paths, working_directory, command })
    }

    /// What is run for the next step, which uses an action whose file has these
    /// contents.
    pub fn configure_action_file(&self, plan: ActionPlan, data: &[u8]) -> (r: Result<
        RunSpec,
        RunnerError,
    >)
        ensures
            error::outcome(r) == configured_action_file(
                self.deep_view(),
                plan.name@,
                plan.step.deep_view(),
                plan.spec.deep_view(),
                data@,
            ),
    {
        let action = read_action_yaml(plan.name.as_str(), data)?;
        self.configure_action(plan, action)
    }
}

// ---------------------------------------------------------------------------
// Before and after a step
// ---------------------------------------------------------------------------

/// Something that has to be there before a step is run.
pub enum Preparation {
    /// A directory that everybody can write to.
    PublicDir(String),
    /// A directory.
    Dir(String),
    /// A file with these contents.
    File(String, String),
}

/// What a `Preparation` stands for.
pub enum PreparationView {
    /// A directory that everybody can write to.
    PublicDir(Seq<char>),
    /// A directory.
    Dir(Seq<char>),
    /// A file with these contents.
    File(Seq<char>, Seq<char>),
}

impl DeepView for Preparation {
    type V = PreparationView;

    open spec fn deep_view(&self) -> PreparationView {
        match *self {
            Preparation::PublicDir(path) => PreparationView::PublicDir(path@),
            Preparation::Dir(path) => PreparationView::Dir(path@),
            Preparation::File(path, contents) => PreparationView::File(path@, contents@),
        }
    }
}

/// What has to be there before a step is run, below the global directory.
pub open spec fn preparations(step: nat) -> Seq<PreparationView> {
    let dir = PreparationView::Dir(script::step_dir(step));
    if step == 0 {
        seq![
            PreparationView::PublicDir("workspace"@),
            PreparationView::PublicDir(".gha-runner"@),
            PreparationView::File(".gha-runner/event"@, "{}"@),
            PreparationView::PublicDir(".gha-runner/hostedtoolcache"@),
            dir,
        ]
    } else {
        seq![dir]
    }
}

/// A job after a step was run: its outputs are kept, and what it wrote to the
/// environment and path files holds for later steps.
pub open spec fn after_step(
    v: JobRunnerView,
    outputs: Seq<(Seq<char>, Seq<char>)>,
    env_file: Seq<u8>,
    path_file: Seq<u8>,
) -> JobRunnerView {
    JobRunnerView {
        env: files::env_after_file(v.env, env_file),
        paths: files::paths_after_file(v.paths, path_file),
        outputs: v.outputs.push(outputs),
        next: v.next + 1,
        ..v
    }
}

/// A job after a step whose script could not be written.
pub open spec fn after_failure(v: JobRunnerView) -> JobRunnerView {
    JobRunnerView { next: v.next + 1, ..v }
}

impl JobRunner {
    /// What has to be there before the next step is run, below the global
    /// directory.
    pub fn prepare_step(&self) -> (r: Vec<Preparation>)
        ensures
            r.deep_view() == preparations(self.deep_view().next),
    {
        let mut out: Vec<Preparation> = Vec::new();
        if self.step_index.0 == 0 {
            out.push(Preparation::PublicDir(text::copy("workspace")));
            out.push(Preparation::PublicDir(text::copy(".gha-runner")));
            out.push(Preparation::File(text::copy(".gha-runner/event"), text::copy("{}")));
            out.push(Preparation::PublicDir(text::copy(".gha-runner/hostedtoolcache")));
        }
        out.push(Preparation::Dir(script::step_dir_of(self.step_index.0)));
        assert(out.deep_view() =~= preparations(self.deep_view().next));
        out
    }

    /// The path of the next step's script, below the global directory.
    pub fn next_script_path(&self) -> (r: String)
        ensures
            r@ == script::script_path(self.deep_view().next, "run"@),
    {
        script::script_path_of(self.step_index.0, "run")
    }

    /// The path of the directory for the action that the next step uses, below
    /// the global directory.
    pub fn next_action_path(&self) -> (r: String)
        ensures
            r@ == script::action_path(self.deep_view().next),
    {
        script::action_path_of(self.step_index.0)
    }

    /// The script for the next step up to its last line.
    pub fn next_script_head(&self, spec: &RunSpec) -> (r: (String, Option<RunnerError>))
        ensures
            (r.0@, r.1.deep_view()) == script::script_head(
                spec.deep_view(),
                self.deep_view().next,
            ),
    {
        script::write_script_head(spec, self.step_index.0)
    }

    /// Goes on to the next step once a step was run.
    pub fn finish_step(
        &mut self,
        outputs: OrderedMap<String>,
        env_file: &Vec<u8>,
        path_file: &Vec<u8>,
    )
        requires
            old(self).deep_view().next < u32::MAX,
        ensures
            final(self).deep_view() == after_step(
                old(self).deep_view(),
                outputs.deep_view(),
                env_file@,
                path_file@,
            ),
    {
        let ghost before = self.outputs.deep_view();
        self.outputs.push(outputs);
        assert(self.outputs.deep_view() =~= before.push(outputs.deep_view()));
        files::read_env_file(&mut self.env, env_file);
        files::read_path_file(&mut self.paths, path_file);
        self.step_index = StepIndex(self.step_index.0 + 1);
    }

    /// Goes on to the next step where the script of a step could not be
    /// written.
    pub fn fail_step(&mut self)
        requires
            old(self).deep_view().next < u32::MAX,
        ensures
            final(self).deep_view() == after_failure(old(self).deep_view()),
    {
        self.step_index = StepIndex(self.step_index.0 + 1);
    }
}

// ---------------------------------------------------------------------------
// Laws
// ---------------------------------------------------------------------------

/// In a step, a variable that overrides others has that value; else the step's
/// own value counts, and else the one set before.
pub proof fn law_step_env(
    v: JobRunnerView,
    own: Seq<(Seq<char>, Seq<char>)>,
    key: Seq<char>,
)
    ensures
        ordered_map::lookup(step_env(v, own), key) == (match ordered_map::lookup(
            v.ctx.override_env,
            key,
        ) {
            Some(value) => Some(value),
            None => match ordered_map::lookup(own, key) {
                Some(value) => Some(value),
                None => ordered_map::lookup(v.env, key),
            },
        }),
{
    ordered_map::law_set_all(own, v.ctx.override_env, key);
    ordered_map::law_set_all(v.env, ordered_map::set_all(own, v.ctx.override_env), key);
}

/// The inputs of an action touch no variable whose name does not start with
/// "INPUT_".
pub proof fn law_inputs_touch_no_other_variable(
    env: Seq<(Seq<char>, Seq<char>)>,
    inputs: Seq<(Seq<char>, YamlView)>,
    scope: Scope,
    given: Seq<(Seq<char>, Seq<char>)>,
    key: Seq<char>,
)
    requires
        !("INPUT_"@.is_prefix_of(key)),
    ensures
        fold::try_fold(env, inputs, add_input(scope, given)) matches Ok(after)
            ==> ordered_map::lookup(after, key) == ordered_map::lookup(env, key),
    decreases inputs.len(),
{
    if inputs.len() > 0 {
        law_inputs_touch_no_other_variable(env, inputs.drop_last(), scope, given, key);
        if let Ok(middle) = fold::try_fold(env, inputs.drop_last(), add_input(scope, given)) {
            let name = input_variable(inputs.last().0);
            assert(name.subrange(0, "INPUT_"@.len() as int) =~= "INPUT_"@);
            assert(name != key);
            match ordered_map::lookup(given, inputs.last().0) {
                Some(value) => {
                    ordered_map::law_set(middle, name, value);
                },
                None => {
                    if let Ok(Some(value)) = models::text_field(
                        scope,
                        inputs.last().1,
                        "default"@,
                    ) {
                        ordered_map::law_set(middle, name, value);
                    }
                },
            }
        }
    }
}

/// Every step that was run, and every step whose script could not be written,
/// brings the job forward by one, and leaves the steps as they are.
pub proof fn law_steps_advance(
    v: JobRunnerView,
    outputs: Seq<(Seq<char>, Seq<char>)>,
    env_file: Seq<u8>,
    path_file: Seq<u8>,
)
    ensures
        after_step(v, outputs, env_file, path_file).next == v.next + 1,
        after_step(v, outputs, env_file, path_file).steps == v.steps,
        after_step(v, outputs, env_file, path_file).outputs.len() == v.outputs.len() + 1,
        after_failure(v).next == v.next + 1,
        after_failure(v).steps == v.steps,
        after_failure(v).outputs == v.outputs,
{
}

/// A step that is found by its name is a step of the job at or after the one
/// that the search started with, and has that name.
pub proof fn law_step_named(v: JobRunnerView, name: Seq<char>, from: nat)
    requires
        v.steps.len() <= u32::MAX,
    ensures
        step_named(v, name, from) matches Ok(Some(i)) ==> {
            &&& from <= i < v.steps.len()
            &&& models::text_field(pre_scope(v, i), v.steps[i as int], "name"@) == Ok::<
                Option<Seq<char>>,
                ErrorView,
            >(Some(name))
        },
    decreases v.steps.len() - from,
{
    if from < v.steps.len() {
        law_step_named(v, name, from + 1);
    }
}

/// What a step writes to the environment file holds for the next step, unless
/// that sets or overrides the variable itself.
pub proof fn law_env_file_holds_for_later_steps(
    v: JobRunnerView,
    outputs: Seq<(Seq<char>, Seq<char>)>,
    env_file: Seq<u8>,
    path_file: Seq<u8>,
    own: Seq<(Seq<char>, Seq<char>)>,
    key: Seq<char>,
)
    requires
        ordered_map::lookup(own, key) is None,
        ordered_map::lookup(v.ctx.override_env, key) is None,
    ensures
        ordered_map::lookup(
            step_env(after_step(v, outputs, env_file, path_file), own),
            key,
        ) == ordered_map::lookup(files::env_after_file(v.env, env_file), key),
{
    law_step_env(after_step(v, outputs, env_file, path_file), own, key);
}

/// The parts of an action's name make up the name, and a name that has no parts
/// has no `/` before its first `@`, or no `@` at all.
pub proof fn law_action_parts(action: Seq<char>)
    ensures
        match action_parts(action) {
            Ok(parts) => {
                &&& parts.owner + "/"@ + parts.repo + "@"@ + parts.git_ref == action
                &&& !parts.owner.contains('/') && !parts.owner.contains('@')
                &&& !parts.repo.contains('@')
            },
            Err(e) => e == (ErrorView {
                kind: KindView::BadActionName(action),
                context: None,
            }) && forall|q: int, p: int|
                0 <= q < p < action.len() && #[trigger] action[q] == '/' && #[trigger] action[p]
                    == '@' ==> exists|k: int| 0 <= k < q && #[trigger] action[k] == '@',
        },
{
    reveal_strlit("@");
    reveal_strlit("/");
    assert("@"@ =~= seq!['@']);
    assert("/"@ =~= seq!['/']);
    lemma_find_char(action, '@');
    match text::find(action, "@"@) {
        None => {},
        Some(p) => {
            let front = action.take(p);
            lemma_find_char(front, '/');
            match text::find(front, "/"@) {
                None => {
                    assert forall|q: int, r: int|
                        0 <= q < r < action.len() && #[trigger] action[q] == '/'
                            && #[trigger] action[r] == '@' implies exists|k: int|
                        0 <= k < q && #[trigger] action[k] == '@' by {
                        if q < p {
                            assert(front[q] == '/');
                        }
                        assert(action[p] == '@');
                    }
                },
                Some(q) => {
                    let parts = action_parts(action)->Ok_0;
                    assert(action[p] == '@');
                    assert(front[q] == '/');
                    assert(parts.owner + "/"@ + parts.repo + "@"@ + parts.git_ref =~= action);
                    assert forall|i: int| 0 <= i < parts.owner.len() implies parts.owner[i] != '/'
                        && parts.owner[i] != '@' by {
                        assert(parts.owner[i] == front[i]);
                        assert(parts.owner[i] == action[i]);
                    }
                    assert forall|i: int| 0 <= i < parts.repo.len() implies parts.repo[i]
                        != '@' by {
                        assert(parts.repo[i] == action[q + 1 + i]);
                    }
                },
            }
        },
    }
}

/// Where a single character stands first.
proof fn lemma_find_char(s: Seq<char>, c: char)
    ensures
        match text::find(s, seq![c]) {
            Some(p) => 0 <= p < s.len() && s[p] == c && forall|i: int|
                0 <= i < p ==> #[trigger] s[i] != c,
            None => forall|i: int| 0 <= i < s.len() ==> #[trigger] s[i] != c,
        },
{
    text::law_find_is_complete(s, seq![c]);
    assert forall|i: int| 0 <= i < s.len() implies (text::stands_at(s, seq![c], i) <==> #[trigger]
        s[i] == c) by {
        assert(s.subrange(i, i + 1) =~= seq![s[i]]);
        if s.subrange(i, i + 1) == seq![c] {
            assert(s.subrange(i, i + 1)[0] == c);
        }
    }
    if let Some(p) = text::find(s, seq![c]) {
        assert(s[p] == c);
        assert forall|i: int| 0 <= i < p implies #[trigger] s[i] != c by {
            assert(!text::stands_at(s, seq![c], i));
        }
    } else {
        assert forall|i: int| 0 <= i < s.len() implies #[trigger] s[i] != c by {
            assert(!text::stands_at(s, seq![c], i));
        }
    }
}

/// The command for a text and a shell. A text that is no simple command is handed
/// to the shell as it is, character for character, as the last argument; a simple
/// command is run by itself, word by word. The shell is `bash` where none is given.
pub proof fn law_shell_command(shell: Option<Seq<char>>, run: Seq<char>)
    ensures
        shell is None || shell == Some("bash"@) ==> (shell_command(shell, run) matches Ok(
            command,
        ) && match shell::simple_command(run) {
            Some(words) => command == shell::words(run),
            None => command.len() == 7 && command.last() == run && command.drop_last() == seq![
                "bash"@,
                "--noprofile"@,
                "--norc"@,
                "-eo"@,
                "pipefail"@,
                "-c"@,
            ],
        }),
        shell == Some("sh"@) ==> (shell_command(shell, run) matches Ok(command)
            && match shell::simple_command(run) {
            Some(words) => command == shell::words(run),
            None => command.len() == 4 && command.last() == run && command.drop_last() == seq![
                "sh"@,
                "-e"@,
                "-c"@,
            ],
        }),
        shell matches Some(name) ==> name != "bash"@ && name != "sh"@ ==> shell_command(shell, run)
            == Err::<Seq<Seq<char>>, ErrorView>(
            ErrorView { kind: KindView::UnsupportedShell(name), context: None },
        ),
        (exists|i: int|
            0 <= i < run.len()
                && !"0123456789abcdefghijklmnopqrstuvwxyzABCDEFGHIJKLMNOPQRSTUVWXYZ-/. \n"@.contains(
                #[trigger] run[i],
            )) ==> (shell_command(shell, run) matches Ok(command) ==> command.last() == run),
{
    shell::law_simple_command(run);
    reveal_strlit("bash");
    reveal_strlit("sh");
    assert("bash"@.len() == 4);
    assert("sh"@.len() == 2);
    if shell::simple_command(run) is None {
        if let Ok(command) = shell_command(shell, run) {
            if command.len() == 7 {
                assert(command.drop_last() =~= seq![
                    "bash"@,
                    "--noprofile"@,
                    "--norc"@,
                    "-eo"@,
                    "pipefail"@,
                    "-c"@,
                ]);
            } else {
                assert(command.drop_last() =~= seq!["sh"@, "-e"@, "-c"@]);
            }
        }
    }
}

/// The fields of a step are told apart by their names.
proof fn lemma_step_fields_differ()
    ensures
        "env"@ != "working-directory"@,
        "env"@ != "uses"@,
        "env"@ != "run"@,
        "env"@ != "shell"@,
        "env"@ != "with"@,
        "working-directory"@ != "uses"@,
        "working-directory"@ != "run"@,
        "working-directory"@ != "shell"@,
        "working-directory"@ != "with"@,
        "uses"@ != "run"@,
        "uses"@ != "shell"@,
        "uses"@ != "with"@,
        "run"@ != "shell"@,
{
    reveal_strlit("env");
    reveal_strlit("working-directory");
    reveal_strlit("uses");
    reveal_strlit("run");
    reveal_strlit("shell");
    reveal_strlit("with");
    assert("env"@.len() == 3);
    assert("working-directory"@.len() == 17);
    assert("uses"@.len() == 4);
    assert("run"@.len() == 3);
    assert("shell"@.len() == 5);
    assert("with"@.len() == 4);
    assert("env"@[0] == 'e');
    assert("run"@[0] == 'r');
    assert("uses"@[0] == 'u');
    assert("with"@[0] == 'w');
}

/// A field is the same whether or not another one was taken out before.
proof fn lemma_other_field(
    scope: Scope,
    v: YamlView,
    m: Seq<(YamlView, YamlView)>,
    gone: Seq<char>,
    name: Seq<char>,
)
    requires
        yaml::mapping_of(v) == Some(m),
        yaml::distinct_fields(m),
        gone != name,
    ensures
        yaml::mapping_of(models::left(v, gone)) == Some(yaml::without_field(m, gone)),
        yaml::distinct_fields(yaml::without_field(m, gone)),
        models::taken(scope, models::left(v, gone), name) == models::taken(scope, v, name),
        models::text_field(scope, models::left(v, gone), name) == models::text_field(scope, v, name),
        models::map_field::<String>(scope, models::left(v, gone), name) == models::map_field::<
            String,
        >(scope, v, name),
{
    yaml::law_without_field(m, gone);
    yaml::law_with_mapping(v, yaml::without_field(m, gone));
    models::law_taken_is_gone(scope, v, gone, name);
}

/// What the next step comes down to, read off its fields in the scope of the step:
/// it uses what stands under `uses`, or else runs what stands under `run` in the
/// shell under `shell`; in the directory under `working-directory`, with the path
/// entries of the job, and with its own variables under `env` on top of those of
/// the job, unless they are overridden. A field that cannot be read is an error,
/// and so is a step that has neither `uses` nor `run`.
pub proof fn law_planned(v: JobRunnerView, m: Seq<(YamlView, YamlView)>)
    requires
        v.next < v.steps.len(),
        yaml::mapping_of(v.steps[v.next as int]) == Some(m),
        yaml::distinct_fields(m),
    ensures
        ({
            let scope = contexts::step_scope(v.ctx, v.matrix, v.job_name, v.next);
            let step = v.steps[v.next as int];
            let env = models::map_field::<String>(scope, step, "env"@);
            let directory = models::text_field(scope, step, "working-directory"@);
            let uses = models::text_field(scope, step, "uses"@);
            let run = models::text_field(scope, step, "run"@);
            let shell = models::text_field(scope, step, "shell"@);
            match (env, directory, uses) {
                (Err(e), _, _) => planned(v) == Err::<PlanView, ErrorView>(e),
                (Ok(_), Err(e), _) => planned(v) == Err::<PlanView, ErrorView>(e),
                (Ok(_), Ok(_), Err(e)) => planned(v) == Err::<PlanView, ErrorView>(e),
                (Ok(own), Ok(dir), Ok(Some(name))) => planned(v) matches Ok(
                    PlanView::Action(action, rest, spec),
                ) && {
                    &&& action == name
                    &&& models::map_field::<String>(scope, rest, "with"@) == models::map_field::<
                        String,
                    >(scope, step, "with"@)
                    &&& is_step_of(spec, v, own, dir)
                },
                (Ok(own), Ok(dir), Ok(None)) => match (run, shell) {
                    (Err(e), _) => planned(v) == Err::<PlanView, ErrorView>(e),
                    (Ok(None), _) => planned(v) matches Err(e) && {
                        &&& e.context == Some(scope.place)
                        &&& e.kind matches KindView::RequiredFieldMissing(field, _)
                        &&& field == "uses/run"@
                    },
                    (Ok(Some(_)), Err(e)) => planned(v) == Err::<PlanView, ErrorView>(e),
                    (Ok(Some(text)), Ok(kind)) => match shell_command(kind, text) {
                        Err(e) => planned(v) == Err::<PlanView, ErrorView>(e),
                        Ok(command) => planned(v) matches Ok(PlanView::Command(spec)) && {
                            &&& spec.command == command
                            &&& is_step_of(spec, v, own, dir)
                        },
                    },
                },
            }
        }),
{
    let scope = next_scope(v);
    let step = v.steps[v.next as int];
    let step1 = models::left(step, "env"@);
    let m1 = yaml::without_field(m, "env"@);
    let step2 = models::left(step1, "working-directory"@);
    let m2 = yaml::without_field(m1, "working-directory"@);
    let step3 = models::left(step2, "uses"@);
    let m3 = yaml::without_field(m2, "uses"@);
    lemma_step_fields_differ();
    lemma_other_field(scope, step, m, "env"@, "working-directory"@);
    lemma_other_field(scope, step, m, "env"@, "uses"@);
    lemma_other_field(scope, step, m, "env"@, "run"@);
    lemma_other_field(scope, step, m, "env"@, "shell"@);
    lemma_other_field(scope, step, m, "env"@, "with"@);
    lemma_other_field(scope, step1, m1, "working-directory"@, "uses"@);
    lemma_other_field(scope, step1, m1, "working-directory"@, "run"@);
    lemma_other_field(scope, step1, m1, "working-directory"@, "shell"@);
    lemma_other_field(scope, step1, m1, "working-directory"@, "with"@);
    lemma_other_field(scope, step2, m2, "uses"@, "run"@);
    lemma_other_field(scope, step2, m2, "uses"@, "shell"@);
    lemma_other_field(scope, step2, m2, "uses"@, "with"@);
    lemma_other_field(scope, step3, m3, "run"@, "shell"@);
    if let Ok(own) = models::map_field::<String>(scope, step, "env"@) {
        assert forall|key: Seq<char>| #[trigger]
            ordered_map::lookup(step_env(v, own), key) == (match ordered_map::lookup(
                v.ctx.override_env,
                key,
            ) {
                Some(value) => Some(value),
                None => match ordered_map::lookup(own, key) {
                    Some(value) => Some(value),
                    None => ordered_map::lookup(v.env, key),
                },
            }) by {
            law_step_env(v, own, key);
        }
    }
}

/// What is run has the job's path entries, the directory, and the variables of a
/// step with these of its own: those that override others count first, then the
/// step's own, then the job's.
pub open spec fn is_step_of(
    spec: SpecView,
    v: JobRunnerView,
    own: Seq<(Seq<char>, Seq<char>)>,
    directory: Option<Seq<char>>,
) -> bool {
    &&& spec.paths == v.paths
    &&& spec.working_directory == directory
    &&& forall|key: Seq<char>| #[trigger]
        ordered_map::lookup(spec.env, key) == (match ordered_map::lookup(
            v.ctx.override_env,
            key,
        ) {
            Some(value) => Some(value),
            None => match ordered_map::lookup(own, key) {
                Some(value) => Some(value),
                None => ordered_map::lookup(v.env, key),
            },
        })
}

/// The name of the next step is what stands under `name` in the scope of the step,
/// and a job that has no step left has no next name.
pub proof fn law_next_name(v: JobRunnerView)
    ensures
        v.next < v.steps.len() ==> next_name(v) == models::text_field(
            contexts::step_scope(v.ctx, v.matrix, v.job_name, v.next),
            v.steps[v.next as int],
            "name"@,
        ),
        v.next >= v.steps.len() ==> next_name(v) == Ok::<Option<Seq<char>>, ErrorView>(None),
{
}

/// The variables of a step that is looked at ahead are those under its `env`,
/// unless they are overridden; what overrides others is among them too.
pub proof fn law_peeked_env(v: JobRunnerView, step: nat, key: Seq<char>)
    requires
        step < v.steps.len(),
    ensures
        ({
            let scope = contexts::pre_step_scope(v.ctx, v.matrix, v.job_name, step);
            match models::map_field::<String>(scope, v.steps[step as int], "env"@) {
                Err(e) => peeked_env(v, step) == Err::<Seq<(Seq<char>, Seq<char>)>, ErrorView>(e),
                Ok(own) => peeked_env(v, step) matches Ok(env) && ordered_map::lookup(env, key) == (
                match ordered_map::lookup(v.ctx.override_env, key) {
                    Some(value) => Some(value),
                    None => ordered_map::lookup(own, key),
                }),
            }
        }),
{
    let scope = contexts::pre_step_scope(v.ctx, v.matrix, v.job_name, step);
    if let Ok(own) = models::map_field::<String>(scope, v.steps[step as int], "env"@) {
        ordered_map::law_set_all(own, v.ctx.override_env, key);
    }
}

/// A step is found by its name exactly when one of the steps from there on has it,
/// and then it is the first of them.
pub proof fn law_first_step_named(v: JobRunnerView, name: Seq<char>, from: nat)
    requires
        v.steps.len() <= u32::MAX,
    ensures
        match step_named(v, name, from) {
            Ok(None) => forall|i: int|
                from <= i < v.steps.len() ==> step_has_another_name(v, name, i),
            Ok(Some(found)) => from <= found < v.steps.len() && models::text_field(
                contexts::pre_step_scope(v.ctx, v.matrix, v.job_name, found),
                v.steps[found as int],
                "name"@,
            ) == Ok::<Option<Seq<char>>, ErrorView>(Some(name)) && forall|i: int|
                from <= i < found ==> step_has_another_name(v, name, i),
            Err(e) => exists|i: int|
                from <= i < v.steps.len() && #[trigger] models::text_field(
                    contexts::pre_step_scope(v.ctx, v.matrix, v.job_name, i as nat),
                    v.steps[i],
                    "name"@,
                ) == Err::<Option<Seq<char>>, ErrorView>(e),
        },
    decreases v.steps.len() - from,
{
    if from < v.steps.len() {
        law_first_step_named(v, name, from + 1);
        let read = models::text_field(
            contexts::pre_step_scope(v.ctx, v.matrix, v.job_name, from),
            v.steps[from as int],
            "name"@,
        );
        assert(from as u32 as nat == from);
        assert(step_has_another_name(v, name, from as int) <==> (read matches Ok(found) && found
            != Some(name)));
    }
}

/// The step can be read and has another name, or none.
pub open spec fn step_has_another_name(v: JobRunnerView, name: Seq<char>, i: int) -> bool {
    models::text_field(
        contexts::pre_step_scope(v.ctx, v.matrix, v.job_name, i as nat),
        v.steps[i],
        "name"@,
    ) matches Ok(found) && found != Some(name)
}

/// What the inputs of an action bring about, where no two of them have the same
/// variable: the variable of each input is what the step gives for it, whether or
/// not it has a default; else it is its default, where it has one; else it stays
/// as it was. No other variable is touched.
pub proof fn law_inputs_are_set(
    env: Seq<(Seq<char>, Seq<char>)>,
    inputs: Seq<(Seq<char>, YamlView)>,
    scope: Scope,
    given: Seq<(Seq<char>, Seq<char>)>,
)
    requires
        forall|i: int, j: int|
            0 <= i < j < inputs.len() ==> "INPUT_"@ + shell::env_name((#[trigger] inputs[i]).0)
                != "INPUT_"@ + shell::env_name((#[trigger] inputs[j]).0),
    ensures
        match fold::try_fold(env, inputs, add_input(scope, given)) {
            Ok(after) => {
                &&& forall|i: int|
                    0 <= i < inputs.len() ==> is_input_set(env, after, scope, given, #[trigger] inputs[i])
                &&& forall|key: Seq<char>|
                    (forall|i: int|
                        0 <= i < inputs.len() ==> key != "INPUT_"@ + shell::env_name(
                            (#[trigger] inputs[i]).0,
                        )) ==> #[trigger] ordered_map::lookup(after, key) == ordered_map::lookup(
                        env,
                        key,
                    )
            },
            Err(e) => exists|i: int|
                {
                    &&& 0 <= i < inputs.len()
                    &&& ordered_map::lookup(given, (#[trigger] inputs[i]).0) is None
                    &&& models::text_field(scope, inputs[i].1, "default"@) == Err::<
                        Option<Seq<char>>,
                        ErrorView,
                    >(e)
                },
        },
    decreases inputs.len(),
{
    if inputs.len() > 0 {
        let front = inputs.drop_last();
        let last = inputs.len() - 1;
        assert(inputs[last] == inputs.last());
        assert forall|i: int, j: int| 0 <= i < j < front.len() implies "INPUT_"@ + shell::env_name(
            (#[trigger] front[i]).0,
        ) != "INPUT_"@ + shell::env_name((#[trigger] front[j]).0) by {
            assert(front[i] == inputs[i] && front[j] == inputs[j]);
        }
        law_inputs_are_set(env, front, scope, given);
        match fold::try_fold(env, front, add_input(scope, given)) {
            Ok(middle) => {
                let name = "INPUT_"@ + shell::env_name(inputs.last().0);
                assert forall|i: int| 0 <= i < front.len() implies name != "INPUT_"@
                    + shell::env_name((#[trigger] front[i]).0) by {
                    assert(front[i] == inputs[i]);
                    assert("INPUT_"@ + shell::env_name(inputs[i].0) != "INPUT_"@ + shell::env_name(
                        inputs[last].0,
                    ));
                }
                assert(ordered_map::lookup(middle, name) == ordered_map::lookup(env, name));
                if let Ok(after) = fold::try_fold(env, inputs, add_input(scope, given)) {
                    match ordered_map::lookup(given, inputs.last().0) {
                        Some(value) => {
                            ordered_map::law_set(middle, name, value);
                        },
                        None => {
                            if let Ok(Some(value)) = models::text_field(
                                scope,
                                inputs.last().1,
                                "default"@,
                            ) {
                                ordered_map::law_set(middle, name, value);
                            }
                        },
                    }
                    assert(is_input_set(env, after, scope, given, inputs[last]));
                    assert forall|key: Seq<char>| key != name implies #[trigger] ordered_map::lookup(
                        after,
                        key,
                    ) == ordered_map::lookup(middle, key) by {}
                    assert forall|i: int| 0 <= i < inputs.len() implies is_input_set(
                        env,
                        after,
                        scope,
                        given,
                        #[trigger] inputs[i],
                    ) by {
                        if i < last {
                            assert(front[i] == inputs[i]);
                            assert(is_input_set(env, middle, scope, given, front[i]));
                        }
                    }
                    assert forall|key: Seq<char>|
                        (forall|i: int|
                            0 <= i < inputs.len() ==> key != "INPUT_"@ + shell::env_name(
                                (#[trigger] inputs[i]).0,
                            )) implies #[trigger] ordered_map::lookup(after, key)
                        == ordered_map::lookup(env, key) by {
                        assert(key != "INPUT_"@ + shell::env_name(inputs[last].0));
                        assert forall|i: int| 0 <= i < front.len() implies key != "INPUT_"@
                            + shell::env_name((#[trigger] front[i]).0) by {
                            assert(front[i] == inputs[i]);
                        }
                        assert(ordered_map::lookup(middle, key) == ordered_map::lookup(env, key));
                    }
                } else {
                    assert(ordered_map::lookup(given, inputs[last].0) is None);
                }
            },
            Err(e) => {
                let i = choose|i: int|
                    {
                        &&& 0 <= i < front.len()
                        &&& ordered_map::lookup(given, (#[trigger] front[i]).0) is None
                        &&& models::text_field(scope, front[i].1, "default"@) == Err::<
                            Option<Seq<char>>,
                            ErrorView,
                        >(e)
                    };
                assert(front[i] == inputs[i]);
            },
        }
    }
}

/// The variable of the input is what is given for it, or else its default, or else
/// what it was before.
pub open spec fn is_input_set(
    before: Seq<(Seq<char>, Seq<char>)>,
    after: Seq<(Seq<char>, Seq<char>)>,
    scope: Scope,
    given: Seq<(Seq<char>, Seq<char>)>,
    input: (Seq<char>, YamlView),
) -> bool {
    let name = "INPUT_"@ + shell::env_name(input.0);
    match ordered_map::lookup(given, input.0) {
        Some(value) => ordered_map::lookup(after, name) == Some(value),
        None => match models::text_field(scope, input.1, "default"@) {
            Ok(Some(value)) => ordered_map::lookup(after, name) == Some(value),
            Ok(None) => ordered_map::lookup(after, name) == ordered_map::lookup(before, name),
            Err(_) => false,
        },
    }
}

/// A step that uses an action runs `node` on the action's main program, which lies
/// in the step's own directory, with the variables that its inputs set; the path
/// entries and the directory are those of the step. The inputs are declared by the
/// action, and what is given for them stands under `with` in the step.
pub proof fn law_configured_action(
    v: JobRunnerView,
    name: Seq<char>,
    step: YamlView,
    spec: SpecView,
    action: YamlView,
    m: Seq<(YamlView, YamlView)>,
)
    requires
        yaml::mapping_of(action) == Some(m),
        yaml::distinct_fields(m),
    ensures
        configured_action(v, name, step, spec, action) matches Ok(full) ==> {
            let scope = contexts::action_scope(v.ctx, name, v.job_name, v.next);
            let outer = contexts::step_scope(v.ctx, v.matrix, v.job_name, v.next);
            &&& full.paths == spec.paths
            &&& full.working_directory == spec.working_directory
            &&& yaml::field(m, "runs"@) matches Some(x) && expressions::expanded(
                scope,
                x,
            ) matches Ok(runs) && action_main(scope, name, runs) matches Ok(main) && full.command
                == seq![
                "node"@,
                "/github/.gha-runner/step"@ + text::decimal(v.next as int) + "/action/"@ + main,
            ]
            &&& models::map_field::<String>(outer, step, "with"@) matches Ok(given)
                && models::inputs(scope, action) matches Ok(inputs) && fold::try_fold(
                spec.env,
                inputs,
                add_input(scope, given),
            ) == Ok::<Seq<(Seq<char>, Seq<char>)>, ErrorView>(full.env)
        },
        ({
            let scope = contexts::action_scope(v.ctx, name, v.job_name, v.next);
            let outer = contexts::step_scope(v.ctx, v.matrix, v.job_name, v.next);
            match (
                models::map_field::<String>(outer, step, "with"@),
                models::inputs(scope, action),
                yaml::field(m, "runs"@),
            ) {
                (Ok(given), Ok(inputs), Some(x)) => match (
                    fold::try_fold(spec.env, inputs, add_input(scope, given)),
                    expressions::expanded(scope, x),
                ) {
                    (Ok(_), Ok(runs)) => configured_action(v, name, step, spec, action) is Ok
                        <==> action_main(scope, name, runs) is Ok,
                    _ => configured_action(v, name, step, spec, action) is Err,
                },
                _ => configured_action(v, name, step, spec, action) is Err,
            }
        }),
{
    let scope = next_action_scope(v, name);
    reveal_strlit("inputs");
    reveal_strlit("runs");
    assert("inputs"@.len() == 6);
    assert("runs"@.len() == 4);
    lemma_other_field(scope, action, m, "inputs"@, "runs"@);
    models::law_fields(scope, action, m, "runs"@);
    if let Ok(full) = configured_action(v, name, step, spec, action) {
        let runs = models::taken_required(scope, models::left(action, "inputs"@), "runs"@)->Ok_0;
        let main = action_main(scope, name, runs)->Ok_0;
        reveal_strlit("/github/");
        reveal_strlit(".gha-runner/step");
        reveal_strlit("/github/.gha-runner/step");
        reveal_strlit("/action");
        reveal_strlit("/");
        reveal_strlit("/action/");
        assert("/github/"@ + ".gha-runner/step"@ =~= "/github/.gha-runner/step"@);
        assert("/action"@ + "/"@ =~= "/action/"@);
        assert(script::in_container(script::action_path(v.next)) + "/"@ + main
            =~= "/github/.gha-runner/step"@ + text::decimal(v.next as int) + "/action/"@ + main);
    }
}

/// The main program of an action is what stands under `main` where `using` is
/// `node12` and there is no `pre`; with any other `using`, or with a `pre`, the
/// action is not supported.
pub proof fn law_action_main(
    scope: Scope,
    name: Seq<char>,
    runs: YamlView,
    m: Seq<(YamlView, YamlView)>,
)
    requires
        yaml::mapping_of(runs) == Some(m),
        yaml::distinct_fields(m),
    ensures
        match models::text_field(scope, runs, "pre"@) {
            Err(e) => action_main(scope, name, runs) == Err::<Seq<char>, ErrorView>(e),
            Ok(Some(_)) => action_main(scope, name, runs) == Err::<Seq<char>, ErrorView>(
                ErrorView { kind: KindView::UnsupportedPre(name), context: None },
            ),
            Ok(None) => match models::text_field(scope, runs, "using"@) {
                Ok(Some(using)) => if using == "node12"@ {
                    models::text_field(scope, runs, "main"@) matches Ok(Some(main)) ==> action_main(
                        scope,
                        name,
                        runs,
                    ) == Ok::<Seq<char>, ErrorView>(main)
                } else {
                    action_main(scope, name, runs) == Err::<Seq<char>, ErrorView>(
                        ErrorView {
                            kind: KindView::UnsupportedActionType(name, using),
                            context: None,
                        },
                    )
                },
                _ => action_main(scope, name, runs) is Err,
            },
        },
        action_main(scope, name, runs) matches Ok(main) ==> models::text_field(scope, runs, "main"@)
            == Ok::<Option<Seq<char>>, ErrorView>(Some(main)),
{
    let runs1 = models::left(runs, "pre"@);
    let m1 = yaml::without_field(m, "pre"@);
    let runs2 = models::left(runs1, "using"@);
    let m2 = yaml::without_field(m1, "using"@);
    reveal_strlit("pre");
    reveal_strlit("using");
    reveal_strlit("main");
    assert("pre"@.len() == 3);
    assert("using"@.len() == 5);
    assert("main"@.len() == 4);
    lemma_other_field(scope, runs, m, "pre"@, "using"@);
    lemma_other_field(scope, runs, m, "pre"@, "main"@);
    lemma_other_field(scope, runs1, m1, "using"@, "main"@);
    models::law_fields(scope, runs1, m1, "using"@);
    models::law_fields(scope, runs2, m2, "main"@);
    models::law_fields(scope, runs, m, "using"@);
    models::law_fields(scope, runs, m, "main"@);
}

/// What a step leaves to the steps behind it: all path entries that were there, in
/// their order, and behind them the lines of its path file; the variables that its
/// environment file sets, and all others as they were; and its outputs behind those
/// of the steps before. Nothing else of the job changes but which step is next.
pub proof fn law_after_step(
    v: JobRunnerView,
    outputs: Seq<(Seq<char>, Seq<char>)>,
    env_file: Seq<u8>,
    path_file: Seq<u8>,
)
    ensures
        ({
            let after = after_step(v, outputs, env_file, path_file);
            &&& v.paths.len() <= after.paths.len()
            &&& after.paths.take(v.paths.len() as int) == v.paths
            &&& forall|i: int|
                0 <= i < v.paths.len() ==> after.paths[i] == #[trigger] v.paths[i]
            &&& after.paths == v.paths + files::path_lines(files::file_lines(path_file))
            &&& path_file.len() == 0 ==> after.paths == v.paths
            &&& env_file.len() == 0 ==> after.env == v.env
            &&& after.env == files::env_after_lines(v.env, files::file_lines(env_file))
            &&& after.outputs == v.outputs.push(outputs)
            &&& after.next == v.next + 1
            &&& after.ctx == v.ctx
            &&& after.job_name == v.job_name
            &&& after.matrix == v.matrix
            &&& after.images == v.images
            &&& after.steps == v.steps
        }),
        ({
            let after = after_failure(v);
            &&& after.next == v.next + 1
            &&& after == (JobRunnerView { next: after.next, ..v })
        }),
{
    let none: Seq<Seq<u8>> = seq![];
    let no_texts: Seq<Seq<char>> = seq![];
    let no_settings: Seq<(Seq<char>, Seq<char>)> = seq![];
    files::law_path_file(v.paths, none, no_texts, path_file);
    files::law_env_file(v.env, none, no_settings, no_texts.flatten());
    if path_file.len() == 0 {
        assert(path_file =~= Seq::empty());
    }
    if env_file.len() == 0 {
        assert(env_file =~= Seq::empty());
    }
    let after = after_step(v, outputs, env_file, path_file);
    assert forall|i: int| 0 <= i < v.paths.len() implies after.paths[i] == #[trigger] v.paths[i] by {
        assert(after.paths.take(v.paths.len() as int)[i] == after.paths[i]);
    }
}

/// A job after a row of steps, each with its outputs and the files that it wrote.
pub open spec fn after_steps(
    v: JobRunnerView,
    runs: Seq<(Seq<(Seq<char>, Seq<char>)>, Seq<u8>, Seq<u8>)>,
) -> JobRunnerView
    decreases runs.len(),
{
    if runs.len() == 0 {
        v
    } else {
        after_step(
            after_steps(v, runs.drop_last()),
            runs.last().0,
            runs.last().1,
            runs.last().2,
        )
    }
}

/// A path entry that a step wrote is there in every later step, and so is a
/// variable that no step behind it sets: the path entries of an earlier state of
/// the job are the first ones of any later state, and a variable is the same where
/// the files in between are empty.
pub proof fn law_paths_are_never_forgotten(
    v: JobRunnerView,
    runs: Seq<(Seq<(Seq<char>, Seq<char>)>, Seq<u8>, Seq<u8>)>,
)
    ensures
        ({
            let after = after_steps(v, runs);
            &&& v.paths.is_prefix_of(after.paths)
            &&& after.next == v.next + runs.len()
            &&& after.steps == v.steps
            &&& (forall|i: int| 0 <= i < runs.len() ==> (#[trigger] runs[i]).1.len() == 0)
                ==> after.env == v.env
            &&& (forall|i: int| 0 <= i < runs.len() ==> (#[trigger] runs[i]).2.len() == 0)
                ==> after.paths == v.paths
        }),
    decreases runs.len(),
{
    if runs.len() > 0 {
        let front = runs.drop_last();
        let before = after_steps(v, front);
        law_paths_are_never_forgotten(v, front);
        law_after_step(before, runs.last().0, runs.last().1, runs.last().2);
        let after = after_steps(v, runs);
        assert(runs[runs.len() - 1] == runs.last());
        assert(after.paths.subrange(0, v.paths.len() as int) =~= before.paths.subrange(
            0,
            v.paths.len() as int,
        ));
        if forall|i: int| 0 <= i < runs.len() ==> (#[trigger] runs[i]).1.len() == 0 {
            assert forall|i: int| 0 <= i < front.len() implies (#[trigger] front[i]).1.len()
                == 0 by {
                assert(front[i] == runs[i]);
            }
        }
        if forall|i: int| 0 <= i < runs.len() ==> (#[trigger] runs[i]).2.len() == 0 {
            assert forall|i: int| 0 <= i < front.len() implies (#[trigger] front[i]).2.len()
                == 0 by {
                assert(front[i] == runs[i]);
            }
        }
    } else {
        assert(v.paths.subrange(0, v.paths.len() as int) =~= v.paths);
    }
}

/// Each step has a directory of its own, which has to be there before it is run;
/// before the first step so have the workspace, the runner's own directory with the
/// event in it, and the tool cache.
pub proof fn law_preparations(step: nat, other: nat)
    ensures
        preparations(step).last() == PreparationView::Dir(
            ".gha-runner/step"@ + text::decimal(step as int),
        ),
        step > 0 ==> preparations(step).len() == 1,
        preparations(0).drop_last() == seq![
            PreparationView::PublicDir("workspace"@),
            PreparationView::PublicDir(".gha-runner"@),
            PreparationView::File(".gha-runner/event"@, "{}"@),
            PreparationView::PublicDir(".gha-runner/hostedtoolcache"@),
        ],
        step != other ==> preparations(step).last() != preparations(other).last(),
{
    assert(preparations(0).drop_last() =~= seq![
        PreparationView::PublicDir("workspace"@),
        PreparationView::PublicDir(".gha-runner"@),
        PreparationView::File(".gha-runner/event"@, "{}"@),
        PreparationView::PublicDir(".gha-runner/hostedtoolcache"@),
    ]);
    if step != other && preparations(step).last() == preparations(other).last() {
        let head = ".gha-runner/step"@;
        let a = text::decimal(step as int);
        let b = text::decimal(other as int);
        assert((head + a).skip(head.len() as int) =~= a);
        assert((head + b).skip(head.len() as int) =~= b);
        text::law_numbers_in_print_differ(step, other);
    }
}

/// An action is configured by what its file holds; a file that cannot be parsed is
/// an error that names the action.
pub proof fn law_action_file(
    v: JobRunnerView,
    name: Seq<char>,
    step: YamlView,
    spec: SpecView,
    data: Seq<u8>,
)
    ensures
        match yaml::yaml_document(data) {
            Ok(action) => configured_action_file(v, name, step, spec, data) == configured_action(
                v,
                name,
                step,
                spec,
                action,
            ),
            Err(e) => configured_action_file(v, name, step, spec, data) == Err::<
                SpecView,
                ErrorView,
            >(ErrorView { kind: KindView::InvalidActionYaml(name, e), context: None }),
        },
        action_file(0) == Some("action.yml"@),
        action_file(1) == Some("action.yaml"@),
        forall|n: nat| n > 1 ==> #[trigger] action_file(n) is None,
{
}

} // verus!
