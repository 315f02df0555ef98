//! Workflows and the jobs in them.

use vstd::prelude::*;

use crate::config;
use crate::config::{ConfigView, RunnerContext};
use crate::contexts;
use crate::contexts::{JobContext, JobPostStrategyContext, RootContext};
use crate::error;
use crate::error::{
    ErrorContextRoot, ErrorView, KindView, RootView, RunnerError, RunnerErrorKind,
};
use crate::expressions;
use crate::expressions::Scope;
use crate::fold;
use crate::job;
use crate::job::{JobRunner, JobRunnerView};
use crate::matrix;
use crate::models;
use crate::models::{Job, Step, Workflow};
use crate::ordered_map;
use crate::ordered_map::OrderedMap;
use crate::text;
use crate::yaml;
use crate::yaml::{Yaml, YamlView};

verus! {

// ---------------------------------------------------------------------------
// Container images
// ---------------------------------------------------------------------------

/// A full Docker container image name, e.g `ghcr.io/catthehacker/ubuntu:js-18.04`
#[derive(Debug, Eq, PartialEq)]
pub struct ContainerImage(pub String);

impl DeepView for ContainerImage {
    type V = Seq<char>;

    open spec fn deep_view(&self) -> Seq<char> {
        self.0@
    }
}

impl Clone for ContainerImage {
    fn clone(&self) -> (r: Self)
        ensures
            r.deep_view() == self.deep_view(),
    {
        ContainerImage(self.0.clone())
    }
}

impl From<&str> for ContainerImage {
    fn from(s: &str) -> (r: ContainerImage)
        ensures
            r.deep_view() == s@,
    {
        ContainerImage(text::copy(s))
    }
}

impl vstd::std_specs::convert::FromSpecImpl<&str> for ContainerImage {
    open spec fn obeys_from_spec() -> bool {
        false
    }

    open spec fn from_spec(s: &str) -> ContainerImage {
        arbitrary()
    }
}

impl From<String> for ContainerImage {
    fn from(s: String) -> (r: ContainerImage)
        ensures
            r.deep_view() == s@,
    {
        ContainerImage(s)
    }
}

impl vstd::std_specs::convert::FromSpecImpl<String> for ContainerImage {
    open spec fn obeys_from_spec() -> bool {
        true
    }

    open spec fn from_spec(s: String) -> ContainerImage {
        ContainerImage(s)
    }
}

/// Index into `JobRunner::containers`
#[derive(Clone, Copy, Debug, Eq, PartialEq, Structural)]
pub struct ContainerId(pub usize);

/// Assigns full docker image names to GHA 'runs-on' names
pub struct DockerImageMapping {
    /// Full docker image name for ubuntu-18.04
    pub ubuntu_18_04: ContainerImage,
    /// Full docker image name for ubuntu-20.04
    pub ubuntu_20_04: ContainerImage,
}

/// The image for the first of the platforms that a job runs on, if there is
/// one.
pub open spec fn image_for(platforms: Seq<Seq<char>>, images: DockerImageMapping) -> Option<
    Seq<char>,
> {
    if platforms.len() == 0 {
        None
    } else if platforms[0] == "ubuntu-latest"@ || platforms[0] == "ubuntu-20.04"@ {
        Some(images.ubuntu_20_04.deep_view())
    } else if platforms[0] == "ubuntu-18.04"@ {
        Some(images.ubuntu_18_04.deep_view())
    } else {
        None
    }
}

// ---------------------------------------------------------------------------
// Jobs
// ---------------------------------------------------------------------------

/// A description of a job in a workflow.
pub struct JobDescription {
    name: String,
    matrix_values: OrderedMap<Yaml>,
    job_env: OrderedMap<String>,
    runs_on: Vec<String>,
    steps: Vec<Step>,
}

/// What a `JobDescription` stands for.
#[verifier::ext_equal]
pub struct JobView {
    /// The job's name.
    pub name: Seq<char>,
    /// The values that the job was derived with.
    pub matrix: Seq<(Seq<char>, YamlView)>,
    /// The job's environment variables.
    pub env: Seq<(Seq<char>, Seq<char>)>,
    /// The platforms that the job runs on.
    pub runs_on: Seq<Seq<char>>,
    /// The job's steps.
    pub steps: Seq<YamlView>,
}

impl DeepView for JobDescription {
    type V = JobView;

    closed spec fn deep_view(&self) -> JobView {
        JobView {
            name: self.name@,
            matrix: self.matrix_values.deep_view(),
            env: self.job_env.deep_view(),
            runs_on: self.runs_on.deep_view(),
            steps: self.steps.deep_view(),
        }
    }
}

impl JobDescription {
    /// The name of the job. This includes values added due to `matrix`.
    pub fn name(&self) -> (r: &str)
        ensures
            r@ == self.deep_view().name,
    {
        self.name.as_str()
    }

    /// The runs-on OS name(s).
    pub fn runs_on(&self) -> (r: &[String])
        ensures
            r.deep_view() == self.deep_view().runs_on,
    {
        self.runs_on.as_slice()
    }

    /// Container image name to use for the main container.
    pub fn main_container(&self, image_mapping: &DockerImageMapping) -> (r: Option<ContainerImage>)
        ensures
            r.deep_view() == image_for(self.deep_view().runs_on, *image_mapping),
    {
        if self.runs_on.len() == 0 {
            return None;
        }
        let platform = self.runs_on[0].as_str();
        assert(self.runs_on.deep_view()[0] == platform@);
        if text::same(platform, "ubuntu-latest") || text::same(platform, "ubuntu-20.04") {
            Some(image_mapping.ubuntu_20_04.clone())
        } else if text::same(platform, "ubuntu-18.04") {
            Some(image_mapping.ubuntu_18_04.clone())
        } else {
            None
        }
    }
}

/// The texts among the values of a combination, in order.
pub open spec fn texts_of(values: Seq<(Seq<char>, YamlView)>) -> Seq<Seq<char>>
    decreases values.len(),
{
    if values.len() == 0 {
        seq![]
    } else {
        match values.last().1 {
            YamlView::Text(s) => texts_of(values.drop_last()).push(s),
            _ => texts_of(values.drop_last()),
        }
    }
}

/// The name of a job that was derived with a combination of values.
pub open spec fn derived_name(name: Seq<char>, values: Seq<(Seq<char>, YamlView)>) -> Seq<char> {
    name + " ("@ + text::join(texts_of(values), ", "@) + ")"@
}

/// The name that a job has of itself, or else the key that it stands under.
pub open spec fn own_name(given: Option<Seq<char>>, key: Seq<char>) -> Seq<char> {
    match given {
        Some(name) => name,
        None => key,
    }
}

/// The job that stands under `key`, derived with a combination of values.
pub open spec fn derived_job(
    ctx: ConfigView,
    key: Seq<char>,
    job: YamlView,
    values: Seq<(Seq<char>, YamlView)>,
) -> Result<JobView, ErrorView> {
    let unnamed = contexts::post_strategy_scope(ctx, values, None);
    match models::platforms(unnamed, job) {
        Err(e) => Err(e),
        Ok(runs_on) => match models::job_name(unnamed, job) {
            Err(e) => Err(e),
            Ok(given) => {
                let name = own_name(given, key);
                let scope = contexts::post_strategy_scope(ctx, values, Some(name));
                match models::job_env(scope, job) {
                    Err(e) => Err(e),
                    Ok(env) => match models::steps(scope, job) {
                        Err(e) => Err(e),
                        Ok(steps) => Ok(
                            JobView {
                                name: derived_name(name, values),
                                matrix: values,
                                env,
                                runs_on,
                                steps,
                            },
                        ),
                    },
                }
            },
        },
    }
}

/// The job that stands under `key`, where no matrix derives jobs from it.
pub open spec fn plain_job(ctx: ConfigView, key: Seq<char>, job: YamlView) -> Result<
    JobView,
    ErrorView,
> {
    match models::job_name(contexts::post_strategy_scope(ctx, seq![], None), job) {
        Err(e) => Err(e),
        Ok(given) => {
            let name = own_name(given, key);
            let scope = contexts::post_strategy_scope(ctx, seq![], Some(name));
            match models::steps(scope, job) {
                Err(e) => Err(e),
                Ok(steps) => match models::platforms(scope, job) {
                    Err(e) => Err(e),
                    Ok(runs_on) => match models::job_env(scope, job) {
                        Err(e) => Err(e),
                        Ok(env) => Ok(JobView { name, matrix: seq![], env, runs_on, steps }),
                    },
                },
            }
        },
    }
}

/// The combinations of values that a job is derived with, if its strategy has
/// a matrix.
pub open spec fn combinations(ctx: ConfigView, job: YamlView) -> Result<
    Option<Seq<Seq<(Seq<char>, YamlView)>>>,
    ErrorView,
> {
    let scope = contexts::job_scope(ctx);
    match models::taken(scope, job, "strategy"@) {
        Err(e) => Err(e),
        Ok(None) => Ok(None),
        Ok(Some(strategy)) => match models::taken(scope, strategy, "matrix"@) {
            Err(e) => Err(e),
            Ok(None) => Ok(None),
            Ok(Some(m)) => match models::matrix_keys(scope, m) {
                Err(e) => Err(e),
                Ok(keys) => match models::matrix_includes(scope, models::matrix_left(scope, m)) {
                    Err(e) => Err(e),
                    Ok(included) => Ok(Some(matrix::product(keys) + included)),
                },
            },
        },
    }
}

/// Derives one more job.
pub open spec fn add_derived(ctx: ConfigView, key: Seq<char>, job: YamlView) -> spec_fn(
    Seq<JobView>,
    Seq<(Seq<char>, YamlView)>,
) -> Result<Seq<JobView>, ErrorView> {
    |done: Seq<JobView>, values: Seq<(Seq<char>, YamlView)>|
        match derived_job(ctx, key, job, values) {
            Ok(d) => Ok(done.push(d)),
            Err(e) => Err(e),
        }
}

/// The jobs that come of the one that stands under `key`: one for each
/// combination of values, or the job itself where there is none.
pub open spec fn jobs_of(ctx: ConfigView, key: Seq<char>, job: YamlView) -> Result<
    Seq<JobView>,
    ErrorView,
> {
    let body = models::left(job, "strategy"@);
    let plain = match plain_job(ctx, key, body) {
        Ok(d) => Ok(seq![d]),
        Err(e) => Err(e),
    };
    match combinations(ctx, job) {
        Err(e) => Err(e),
        Ok(None) => plain,
        Ok(Some(all)) => if all.len() == 0 {
            plain
        } else {
            fold::try_fold(seq![], all, add_derived(ctx, key, body))
        },
    }
}

/// Takes the jobs that come of one more entry of the workflow.
pub open spec fn add_jobs(ctx: ConfigView) -> spec_fn(
    Seq<JobView>,
    (Seq<char>, YamlView),
) -> Result<Seq<JobView>, ErrorView> {
    |done: Seq<JobView>, entry: (Seq<char>, YamlView)|
        match jobs_of(ctx, entry.0, entry.1) {
            Ok(more) => Ok(done + more),
            Err(e) => Err(e),
        }
}

fn derived_text(name: &str, values: &OrderedMap<Yaml>) -> (r: String)
    ensures
        r@ == derived_name(name@, values.deep_view()),
{
    let pairs = values.pairs();
    let ghost all = values.deep_view();
    let mut out = text::joined(name, " (");
    let ghost head = out@;
    let mut first = true;
    assert(all.take(0) =~= seq![]);
    assert(texts_of(all.take(0)) =~= seq![]);
    for k in 0..pairs.len()
        invariant
            all == values.deep_view(),
            pairs@.len() == all.len(),
            forall|i: int| 0 <= i < all.len() ==> (#[trigger] pairs@[i]).1@ == all[i].1,
            first == (texts_of(all.take(k as int)).len() == 0),
            out@ == head + text::join(texts_of(all.take(k as int)), ", "@),
    {
        let ghost before = texts_of(all.take(k as int));
        assert(all.take(k + 1).drop_last() =~= all.take(k as int));
        assert(all.take(k + 1).last() == all[k as int]);
        assert(pairs@[k as int].1@ == all[k as int].1);
        if let Yaml::Text(s) = pairs[k].1 {
            if first {
                first = false;
            } else {
                out.push_str(", ");
            }
            out.push_str(s.as_str());
            assert(before.push(s@).drop_last() =~= before);
            assert(out@ =~= head + text::join(before.push(s@), ", "@));
        }
    }
    assert(all.take(all.len() as int) =~= all);
    out.push(')');
    proof {
        reveal_strlit(")");
        assert(")"@ =~= seq![')']);
        assert(out@ =~= derived_name(name@, all));
    }
    out
}

fn describe_derived(
    ctx: &RunnerContext,
    key: &str,
    job: &Job,
    values: &OrderedMap<Yaml>,
) -> (r: Result<JobDescription, RunnerError>)
    ensures
        error::outcome(r) == derived_job(
            ctx.deep_view(),
            key@,
            job.deep_view(),
            values.deep_view(),
        ),
{
    let mut context = JobPostStrategyContext::new(ctx, values);
    let runs_on = job.clone_runs_on(&context)?;
    let name = match job.clone_name(&context)? {
        Some(name) => name,
        None => text::copy(key),
    };
    context.set_job_name(name.clone());
    let job_env = job.clone_env(&context)?;
    let derived = derived_text(name.as_str(), values);
    let steps = job.clone_steps(&context)?;
    Ok(
        JobDescription {
            name: derived,
            matrix_values: matrix::copy_values(values),
            job_env,
            runs_on,
            steps,
        },
    )
}

fn describe_plain(ctx: &RunnerContext, key: &str, job: &Job) -> (r: Result<
    JobDescription,
    RunnerError,
>)
    ensures
        error::outcome(r) == plain_job(ctx.deep_view(), key@, job.deep_view()),
{
    let empty: OrderedMap<Yaml> = OrderedMap::new();
    assert(empty.deep_view() =~= seq![]);
    let mut context = JobPostStrategyContext::new(ctx, &empty);
    let name = match job.clone_name(&context)? {
        Some(name) => name,
        None => text::copy(key),
    };
    context.set_job_name(name.clone());
    let steps = job.clone_steps(&context)?;
    let runs_on = job.clone_runs_on(&context)?;
    let job_env = job.clone_env(&context)?;
    Ok(JobDescription { name, matrix_values: matrix::copy_values(&empty), job_env, runs_on, steps })
}

fn combine(ctx: &RunnerContext, job: &mut Job) -> (r: Result<
    Option<Vec<OrderedMap<Yaml>>>,
    RunnerError,
>)
    ensures
        error::outcome(r) == combinations(ctx.deep_view(), old(job).deep_view()),
        final(job).deep_view() == models::left(old(job).deep_view(), "strategy"@),
{
    let context = JobContext::new(ctx);
    let mut strategy = match job.take_strategy(&context)? {
        Some(strategy) => strategy,
        None => {
            return Ok(None);
        },
    };
    let mut m = match strategy.take_matrix(&context)? {
        Some(m) => m,
        None => {
            return Ok(None);
        },
    };
    let keys = m.take_keys(&context)?;
    let mut values = matrix::cartesian_product(&keys);
    let mut included = m.take_include(&context)?;
    let ghost expected = values.deep_view() + included.deep_view();
    values.append(&mut included);
    assert(values.deep_view() =~= expected);
    Ok(Some(values))
}

fn describe_jobs(ctx: &RunnerContext, key: &str, job: Job) -> (r: Result<
    Vec<JobDescription>,
    RunnerError,
>)
    ensures
        error::outcome(r) == jobs_of(ctx.deep_view(), key@, job.deep_view()),
{
    let mut body = job;
    let found = combine(ctx, &mut body)?;
    let ghost config = ctx.deep_view();
    let mut out: Vec<JobDescription> = Vec::new();
    assert(out.deep_view() =~= seq![]);
    if let Some(values) = found {
        if values.len() > 0 {
            let ghost all = values.deep_view();
            let ghost step = add_derived(config, key@, body.deep_view());
            let ghost none: Seq<JobView> = seq![];
            proof {
                fold::lemma_start(none, all, step);
            }
            for k in 0..values.len()
                invariant
                    config == ctx.deep_view(),
                    all == values.deep_view(),
                    none == Seq::<JobView>::empty(),
                    step == add_derived(config, key@, body.deep_view()),
                    jobs_of(config, key@, job.deep_view()) == fold::try_fold(none, all, step),
                    fold::try_fold(none, all.take(k as int), step) == Ok::<
                        Seq<JobView>,
                        ErrorView,
                    >(out.deep_view()),
            {
                let ghost done = out.deep_view();
                proof {
                    fold::lemma_next(none, all, step, k as int);
                }
                match describe_derived(ctx, key, &body, &values[k]) {
                    Ok(description) => {
                        let ghost d = description.deep_view();
                        out.push(description);
                        assert(out.deep_view() =~= done.push(d));
                    },
                    Err(e) => {
                        proof {
                            fold::lemma_stop(none, all, step, k as int);
                        }
                        return Err(e);
                    },
                }
            }
            proof {
                fold::lemma_end(none, all, step);
            }
            return Ok(out);
        }
    }
    let description = describe_plain(ctx, key, &body)?;
    let ghost d = description.deep_view();
    out.push(description);
    assert(out.deep_view() =~= seq![d]);
    Ok(out)
}

// ---------------------------------------------------------------------------
// Workflows
// ---------------------------------------------------------------------------

/// Analyzes and runs a specific Github Actions workflow.
pub struct Runner {
    ctx: RunnerContext,
    workflow_env: OrderedMap<String>,
    workflow_name: Option<String>,
    job_descriptions: Vec<JobDescription>,
}

/// What a `Runner` stands for.
#[verifier::ext_equal]
pub struct RunnerView {
    /// The values that the workflow is run with.
    pub ctx: ConfigView,
    /// The workflow's environment variables.
    pub env: Seq<(Seq<char>, Seq<char>)>,
    /// The workflow's name.
    pub name: Option<Seq<char>>,
    /// The jobs.
    pub jobs: Seq<JobView>,
}

impl DeepView for Runner {
    type V = RunnerView;

    closed spec fn deep_view(&self) -> RunnerView {
        RunnerView {
            ctx: self.ctx.deep_view(),
            env: self.workflow_env.deep_view(),
            name: self.workflow_name.deep_view(),
            jobs: self.job_descriptions.deep_view(),
        }
    }
}

/// The runner for a workflow: its environment variables, its jobs and its name
/// are read, in this order.
pub open spec fn runner_for(ctx: ConfigView, workflow: YamlView) -> Result<RunnerView, ErrorView> {
    let scope = contexts::root_scope(RootView::Workflow, ctx);
    match models::map_field::<String>(scope, workflow, "env"@) {
        Err(e) => Err(e),
        Ok(env) => {
            let rest = models::left(workflow, "env"@);
            match models::map_field::<Job>(scope, rest, "jobs"@) {
                Err(e) => Err(e),
                Ok(entries) => match fold::try_fold(seq![], entries, add_jobs(ctx)) {
                    Err(e) => Err(e),
                    Ok(jobs) => match models::text_field(
                        scope,
                        models::left(rest, "jobs"@),
                        "name"@,
                    ) {
                        Err(e) => Err(e),
                        Ok(name) => Ok(RunnerView { ctx, env, name, jobs }),
                    },
                },
            }
        },
    }
}

/// The runner for the contents of a workflow file.
pub open spec fn runner_for_file(ctx: ConfigView, data: Seq<u8>) -> Result<RunnerView, ErrorView> {
    match yaml::yaml_document(data) {
        Ok(workflow) => runner_for(ctx, workflow),
        Err(e) => Err(error::bare(KindView::InvalidWorkflowYaml(e))),
    }
}

fn describe_all(ctx: &RunnerContext, jobs: &OrderedMap<Job>) -> (r: Result<
    Vec<JobDescription>,
    RunnerError,
>)
    ensures
        error::outcome(r) == fold::try_fold(seq![], jobs.deep_view(), add_jobs(ctx.deep_view())),
{
    let pairs = jobs.pairs();
    let ghost config = ctx.deep_view();
    let ghost all = jobs.deep_view();
    let ghost step = add_jobs(config);
    let ghost none: Seq<JobView> = seq![];
    let mut out: Vec<JobDescription> = Vec::new();
    proof {
        fold::lemma_start(none, all, step);
        assert(out.deep_view() =~= none);
    }
    for k in 0..pairs.len()
        invariant
            config == ctx.deep_view(),
            all == jobs.deep_view(),
            none == Seq::<JobView>::empty(),
            step == add_jobs(config),
            pairs@.len() == all.len(),
            forall|i: int|
                0 <= i < all.len() ==> (#[trigger] pairs@[i]).0@ == all[i].0
                    && pairs@[i].1.deep_view() == all[i].1,
            fold::try_fold(none, all.take(k as int), step) == Ok::<Seq<JobView>, ErrorView>(
                out.deep_view(),
            ),
    {
        let ghost done = out.deep_view();
        proof {
            fold::lemma_next(none, all, step, k as int);
        }
        let pair = &pairs[k];
        match describe_jobs(ctx, pair.0.as_str(), pair.1.clone()) {
            Ok(found) => {
                let mut more = found;
                let ghost d = more.deep_view();
                out.append(&mut more);
                assert(out.deep_view() =~= done + d);
            },
            Err(e) => {
                proof {
                    fold::lemma_stop(none, all, step, k as int);
                }
                return Err(e);
            },
        }
    }
    proof {
        fold::lemma_end(none, all, step);
    }
    Ok(out)
}

impl Runner {
    /// Create a new runner. `workflow` is the workflow YAML file contents.
    /// Normally you would fetch this from Github but you can instead pass anything
    /// you want here.
    pub fn new(ctx: RunnerContext, workflow: &[u8]) -> (r: Result<Runner, RunnerError>)
        ensures
            error::outcome(r) == runner_for_file(ctx.deep_view(), workflow@),
    {
        match yaml::parse(workflow) {
            Ok(v) => Runner::from_workflow(ctx, Workflow(v)),
            Err(inner) => Err(RunnerError::from(RunnerErrorKind::InvalidWorkflowYaml { inner })),
        }
    }

    /// Create a new runner for a workflow that was parsed already.
    pub fn from_workflow(ctx: RunnerContext, workflow: Workflow) -> (r: Result<Runner, RunnerError>)
        ensures
            error::outcome(r) == runner_for(ctx.deep_view(), workflow.deep_view()),
    {
        let mut rest = workflow;
        let root_context = RootContext::new(&ctx, ErrorContextRoot::Workflow);
        let workflow_env = rest.take_env(&root_context)?;
        let jobs = rest.take_jobs(&root_context)?;
        let job_descriptions = describe_all(&ctx, &jobs)?;
        let workflow_name = rest.take_name(&root_context)?;
        Ok(Runner { ctx, workflow_env, workflow_name, job_descriptions })
    }

    /// Get descriptions of all the jobs in the workflow.
    pub fn job_descriptions(&self) -> (r: &[JobDescription])
        ensures
            r.deep_view() == self.deep_view().jobs,
    {
        self.job_descriptions.as_slice()
    }

    /// Create a JobRunner that can be used to run the given job.
    pub fn job_runner(
        &self,
        description: &JobDescription,
        image_mapping: &DockerImageMapping,
    ) -> (r: Result<JobRunner, RunnerError>)
        ensures
            error::outcome(r) == job_runner_for(
                self.deep_view(),
                description.deep_view(),
                *image_mapping,
            ),
    {
        let mut images: Vec<ContainerImage> = Vec::new();
        match description.main_container(image_mapping) {
            Some(image) => {
                let ghost name = image.deep_view();
                images.push(image);
                assert(images.deep_view() =~= seq![name]);
            },
            None => {
                let runs_on = if description.runs_on.len() == 0 {
                    text::copy("<none>")
                } else {
                    assert(description.runs_on.deep_view()[0] == description.runs_on@[0]@);
                    description.runs_on[0].clone()
                };
                return Err(
                    RunnerError::from(RunnerErrorKind::UnsupportedPlatform { runs_on }),
                );
            },
        }
        let workflow_name = match &self.workflow_name {
            Some(name) => Some(name.clone()),
            None => None,
        };
        let mut env = self.ctx.create_env(workflow_name);
        config::put_all(&mut env, &self.workflow_env);
        config::put_all(&mut env, &description.job_env);
        let mut steps: Vec<Step> = Vec::new();
        for k in 0..description.steps.len()
            invariant
                steps@.len() == k,
                forall|i: int|
                    0 <= i < k ==> (#[trigger] steps@[i]).deep_view()
                        == description.steps@[i].deep_view(),
        {
            steps.push(description.steps[k].clone());
        }
        assert(steps.deep_view() =~= description.steps.deep_view());
        Ok(
            JobRunner::new(
                self.ctx.clone(),
                description.name.clone(),
                matrix::copy_values(&description.matrix_values),
                env,
                images,
                steps,
            ),
        )
    }
}

/// The environment variables that a job starts with: those that every step
/// gets, then the workflow's, then the job's.
pub open spec fn initial_env(runner: RunnerView, job: JobView) -> Seq<(Seq<char>, Seq<char>)> {
    ordered_map::set_all(
        ordered_map::set_all(config::base_env(runner.ctx, runner.name), runner.env),
        job.env,
    )
}

/// A runner for a job, before its first step. A platform without an image is
/// not supported.
pub open spec fn job_runner_for(
    runner: RunnerView,
    job: JobView,
    images: DockerImageMapping,
) -> Result<JobRunnerView, ErrorView> {
    match image_for(job.runs_on, images) {
        Some(image) => Ok(
            JobRunnerView {
                ctx: runner.ctx,
                job_name: job.name,
                matrix: job.matrix,
                env: initial_env(runner, job),
                paths: seq![],
                images: seq![image],
                steps: job.steps,
                outputs: seq![],
                next: 0,
            },
        ),
        None => Err(
            error::bare(
                KindView::UnsupportedPlatform(
                    if job.runs_on.len() == 0 {
                        "<none>"@
                    } else {
                        job.runs_on[0]
                    },
                ),
            ),
        ),
    }
}

// ---------------------------------------------------------------------------
// Laws
// ---------------------------------------------------------------------------

/// A job's environment variables count before the workflow's, and these before
/// those that every step gets.
pub proof fn law_initial_env(runner: RunnerView, job: JobView, key: Seq<char>)
    ensures
        ordered_map::lookup(initial_env(runner, job), key) == (match ordered_map::lookup(
            job.env,
            key,
        ) {
            Some(value) => Some(value),
            None => match ordered_map::lookup(runner.env, key) {
                Some(value) => Some(value),
                None => ordered_map::lookup(config::base_env(runner.ctx, runner.name), key),
            },
        }),
{
    let base = config::base_env(runner.ctx, runner.name);
    ordered_map::law_set_all(base, runner.env, key);
    ordered_map::law_set_all(ordered_map::set_all(base, runner.env), job.env, key);
}

/// A job with a matrix comes to as many jobs as there are combinations of
/// values, in their order and each with its own values; a job without one, or
/// with one that has no combinations, comes to one job without values.
pub proof fn law_jobs_of(ctx: ConfigView, key: Seq<char>, job: YamlView)
    ensures
        match (jobs_of(ctx, key, job), combinations(ctx, job)) {
            (Ok(jobs), Ok(Some(all))) => if all.len() == 0 {
                jobs.len() == 1 && jobs[0].matrix == Seq::<(Seq<char>, YamlView)>::empty()
            } else {
                jobs.len() == all.len() && forall|i: int|
                    0 <= i < all.len() ==> (#[trigger] jobs[i]).matrix == all[i]
            },
            (Ok(jobs), Ok(None)) => jobs.len() == 1 && jobs[0].matrix == Seq::<
                (Seq<char>, YamlView),
            >::empty(),
            (Ok(_), Err(_)) => false,
            (Err(_), _) => true,
        },
{
    if let Ok(Some(all)) = combinations(ctx, job) {
        lemma_derived(ctx, key, models::left(job, "strategy"@), all);
    }
}

proof fn lemma_derived(
    ctx: ConfigView,
    key: Seq<char>,
    job: YamlView,
    all: Seq<Seq<(Seq<char>, YamlView)>>,
)
    ensures
        fold::try_fold(seq![], all, add_derived(ctx, key, job)) matches Ok(jobs) ==> jobs.len()
            == all.len() && forall|i: int|
            0 <= i < all.len() ==> (#[trigger] jobs[i]).matrix == all[i],
    decreases all.len(),
{
    if all.len() > 0 {
        lemma_derived(ctx, key, job, all.drop_last());
    }
}

/// The values that every step is documented to get are there in the first step,
/// unless the workflow, the job, the step or an override sets the variable.
pub proof fn law_documented_variables_reach_the_first_step(
    runner: RunnerView,
    description: JobView,
    images: DockerImageMapping,
    own: Seq<(Seq<char>, Seq<char>)>,
    key: Seq<char>,
)
    requires
        ordered_map::lookup(runner.env, key) is None,
        ordered_map::lookup(description.env, key) is None,
        ordered_map::lookup(own, key) is None,
        ordered_map::lookup(runner.ctx.override_env, key) is None,
    ensures
        job_runner_for(runner, description, images) matches Ok(v) ==> ordered_map::lookup(
            job::step_env(v, own),
            key,
        ) == ordered_map::lookup(config::base_env(runner.ctx, runner.name), key),
{
    if let Ok(v) = job_runner_for(runner, description, images) {
        job::law_step_env(v, own, key);
        law_initial_env(runner, description, key);
    }
}

/// What the combination of values adds to a job's name: of the values those that
/// are texts, in their order.
pub proof fn law_derived_name(
    name: Seq<char>,
    values: Seq<(Seq<char>, YamlView)>,
    key: Seq<char>,
    value: YamlView,
)
    ensures
        derived_name(name, values) == name + " ("@ + text::join(texts_of(values), ", "@) + ")"@,
        texts_of(Seq::empty()) == Seq::<Seq<char>>::empty(),
        texts_of(values.push((key, value))) == (match value {
            YamlView::Text(s) => texts_of(values).push(s),
            _ => texts_of(values),
        }),
{
    assert(values.push((key, value)).drop_last() =~= values);
}

/// The variables are those of an `env` field: each of its entries is set to the
/// text that its value expands to in the scope, and nothing else is set.
pub open spec fn is_env_of(
    env: Seq<(Seq<char>, Seq<char>)>,
    scope: Scope,
    entry: Option<YamlView>,
) -> bool {
    match entry {
        None => env.len() == 0,
        Some(field) => expressions::expanded(scope, field) matches Ok(YamlView::Mapping(list)) && (
        yaml::distinct_fields(list) ==> env.len() == list.len() && forall|key: Seq<char>|
            match yaml::field(list, key) {
                Some(x) => expressions::expanded(scope, x) matches Ok(y) && models::string_of(
                    scope,
                    y,
                ) matches Ok(t) && #[trigger] ordered_map::lookup(env, key) == Some(t),
                None => ordered_map::lookup(env, key) is None,
            }),
    }
}

/// The texts are those of a `runs-on` field: its text, or the texts in its list.
pub open spec fn are_platforms_of(
    runs_on: Seq<Seq<char>>,
    scope: Scope,
    entry: Option<YamlView>,
) -> bool {
    entry matches Some(x) && match expressions::expanded(scope, x) {
        Ok(YamlView::Text(s)) => runs_on == seq![s],
        Ok(YamlView::Sequence(items)) => runs_on.len() == items.len() && forall|i: int|
            0 <= i < items.len() ==> #[trigger] models::string_of(scope, items[i]) == Ok::<
                Seq<char>,
                ErrorView,
            >(runs_on[i]),
        _ => false,
    }
}

/// The name is the one that a job gives itself in the scope, or else the key that
/// it stands under.
pub open spec fn is_own_name(
    name: Seq<char>,
    scope: Scope,
    key: Seq<char>,
    entry: Option<YamlView>,
) -> bool {
    match entry {
        None => name == key,
        Some(x) => expressions::expanded(scope, x) matches Ok(y) && models::string_of(scope, y)
            == Ok::<Seq<char>, ErrorView>(name),
    }
}

proof fn lemma_job_env(
    scope: Scope,
    v: YamlView,
    m: Seq<(YamlView, YamlView)>,
    env: Seq<(Seq<char>, Seq<char>)>,
)
    requires
        yaml::mapping_of(v) == Some(m),
        models::job_env(scope, v) == Ok::<Seq<(Seq<char>, Seq<char>)>, ErrorView>(env),
    ensures
        is_env_of(env, scope, yaml::field(m, "env"@)),
{
    models::law_parts_of_a_job(scope, v, m);
    if let Some(x) = yaml::field(m, "env"@) {
        lemma_env_of(scope, x, env);
    }
}

proof fn lemma_env_of(scope: Scope, x: YamlView, env: Seq<(Seq<char>, Seq<char>)>)
    requires
        expressions::expanded(scope, x) matches Ok(y) && models::string_map::<String>(scope, y)
            == Ok::<Seq<(Seq<char>, Seq<char>)>, ErrorView>(env),
    ensures
        is_env_of(env, scope, Some(x)),
{
    if let Ok(YamlView::Mapping(list)) = expressions::expanded(scope, x) {
        if yaml::distinct_fields(list) {
            models::law_string_map::<String>(scope, list);
            assert forall|key: Seq<char>|
                match yaml::field(list, key) {
                    Some(x) => expressions::expanded(scope, x) matches Ok(y) && models::string_of(
                        scope,
                        y,
                    ) matches Ok(t) && #[trigger] ordered_map::lookup(env, key) == Some(t),
                    None => ordered_map::lookup(env, key) is None,
                } by {
                models::law_texts_are_looked_up(scope, list, key);
            }
        }
    }
}

/// A job that was derived with a combination of values has those values, and all
/// else that it has is read in their scope: its platforms, its own name, to which
/// the texts among the values are added, its environment variables and its steps.
/// It can be derived exactly when all of these can be read.
pub proof fn law_derived_job(
    ctx: ConfigView,
    key: Seq<char>,
    v: YamlView,
    m: Seq<(YamlView, YamlView)>,
    values: Seq<(Seq<char>, YamlView)>,
    own: Seq<char>,
)
    requires
        yaml::mapping_of(v) == Some(m),
        is_own_name(
            own,
            contexts::post_strategy_scope(ctx, values, None),
            key,
            yaml::field(m, "name"@),
        ),
    ensures
        ({
            let unnamed = contexts::post_strategy_scope(ctx, values, None);
            let scope = contexts::post_strategy_scope(ctx, values, Some(own));
            &&& derived_job(ctx, key, v, values) matches Ok(d) ==> {
                &&& d.matrix == values
                &&& d.name == own + " ("@ + text::join(texts_of(values), ", "@) + ")"@
                &&& is_env_of(d.env, scope, yaml::field(m, "env"@))
                &&& are_platforms_of(d.runs_on, unnamed, yaml::field(m, "runs-on"@))
                &&& yaml::field(m, "steps"@) matches Some(x) && expressions::expanded(scope, x)
                    == Ok::<YamlView, ErrorView>(YamlView::Sequence(d.steps))
            }
            &&& derived_job(ctx, key, v, values) is Ok <==> models::platforms(unnamed, v) is Ok
                && models::job_env(scope, v) is Ok && models::steps(scope, v) is Ok
        }),
{
    let unnamed = contexts::post_strategy_scope(ctx, values, None);
    let scope = contexts::post_strategy_scope(ctx, values, Some(own));
    models::law_parts_of_a_job(unnamed, v, m);
    models::law_parts_of_a_job(scope, v, m);
    if let Ok(d) = derived_job(ctx, key, v, values) {
        lemma_job_env(scope, v, m, d.env);
    }
}

/// A job without a combination of values is read in the scope without any: its own
/// name, its environment variables, its platforms and its steps.
pub proof fn law_plain_job(
    ctx: ConfigView,
    key: Seq<char>,
    v: YamlView,
    m: Seq<(YamlView, YamlView)>,
    own: Seq<char>,
)
    requires
        yaml::mapping_of(v) == Some(m),
        is_own_name(
            own,
            contexts::post_strategy_scope(ctx, Seq::empty(), None),
            key,
            yaml::field(m, "name"@),
        ),
    ensures
        ({
            let none = Seq::<(Seq<char>, YamlView)>::empty();
            let scope = contexts::post_strategy_scope(ctx, none, Some(own));
            &&& plain_job(ctx, key, v) matches Ok(d) ==> {
                &&& d.matrix == none
                &&& d.name == own
                &&& is_env_of(d.env, scope, yaml::field(m, "env"@))
                &&& are_platforms_of(d.runs_on, scope, yaml::field(m, "runs-on"@))
                &&& yaml::field(m, "steps"@) matches Some(x) && expressions::expanded(scope, x)
                    == Ok::<YamlView, ErrorView>(YamlView::Sequence(d.steps))
            }
            &&& plain_job(ctx, key, v) is Ok <==> models::platforms(scope, v) is Ok
                && models::job_env(scope, v) is Ok && models::steps(scope, v) is Ok
        }),
{
    let none = Seq::<(Seq<char>, YamlView)>::empty();
    let unnamed = contexts::post_strategy_scope(ctx, none, None);
    let scope = contexts::post_strategy_scope(ctx, none, Some(own));
    models::law_parts_of_a_job(unnamed, v, m);
    models::law_parts_of_a_job(scope, v, m);
    if let Ok(d) = plain_job(ctx, key, v) {
        lemma_job_env(scope, v, m, d.env);
    }
}

/// Each combination of values derives one job, in their order, out of what the job
/// is but for its strategy. Where one cannot be derived none is.
pub proof fn law_each_combination_derives_a_job(ctx: ConfigView, key: Seq<char>, job: YamlView)
    ensures
        combinations(ctx, job) matches Ok(Some(all)) ==> all.len() > 0 ==> match jobs_of(
            ctx,
            key,
            job,
        ) {
            Ok(jobs) => jobs.len() == all.len() && forall|i: int|
                0 <= i < all.len() ==> #[trigger] derived_job(
                    ctx,
                    key,
                    models::left(job, "strategy"@),
                    all[i],
                ) == Ok::<JobView, ErrorView>(jobs[i]),
            Err(e) => exists|i: int|
                0 <= i < all.len() && #[trigger] derived_job(
                    ctx,
                    key,
                    models::left(job, "strategy"@),
                    all[i],
                ) == Err::<JobView, ErrorView>(e),
        },
        (combinations(ctx, job) == Ok::<Option<Seq<Seq<(Seq<char>, YamlView)>>>, ErrorView>(None)
            || combinations(ctx, job) == Ok::<Option<Seq<Seq<(Seq<char>, YamlView)>>>, ErrorView>(
            Some(Seq::empty()),
        )) ==> match plain_job(ctx, key, models::left(job, "strategy"@)) {
            Ok(d) => jobs_of(ctx, key, job) == Ok::<Seq<JobView>, ErrorView>(seq![d]),
            Err(e) => jobs_of(ctx, key, job) == Err::<Seq<JobView>, ErrorView>(e),
        },
        combinations(ctx, job) matches Err(e) ==> jobs_of(ctx, key, job) == Err::<
            Seq<JobView>,
            ErrorView,
        >(e),
{
    if let Ok(Some(all)) = combinations(ctx, job) {
        lemma_each_is_derived(ctx, key, models::left(job, "strategy"@), all);
    }
}

proof fn lemma_each_is_derived(
    ctx: ConfigView,
    key: Seq<char>,
    job: YamlView,
    all: Seq<Seq<(Seq<char>, YamlView)>>,
)
    ensures
        match fold::try_fold(seq![], all, add_derived(ctx, key, job)) {
            Ok(jobs) => jobs.len() == all.len() && forall|i: int|
                0 <= i < all.len() ==> #[trigger] derived_job(ctx, key, job, all[i]) == Ok::<
                    JobView,
                    ErrorView,
                >(jobs[i]),
            Err(e) => exists|i: int|
                0 <= i < all.len() && #[trigger] derived_job(ctx, key, job, all[i]) == Err::<
                    JobView,
                    ErrorView,
                >(e),
        },
    decreases all.len(),
{
    if all.len() > 0 {
        let front = all.drop_last();
        lemma_each_is_derived(ctx, key, job, front);
        assert(all[all.len() - 1] == all.last());
        match fold::try_fold(seq![], front, add_derived(ctx, key, job)) {
            Ok(jobs) => {
                assert forall|i: int| 0 <= i < front.len() implies #[trigger] derived_job(
                    ctx,
                    key,
                    job,
                    all[i],
                ) == Ok::<JobView, ErrorView>(jobs[i]) by {
                    assert(front[i] == all[i]);
                }
            },
            Err(e) => {
                let i = choose|i: int|
                    0 <= i < front.len() && #[trigger] derived_job(ctx, key, job, front[i])
                        == Err::<JobView, ErrorView>(e);
                assert(front[i] == all[i]);
            },
        }
    }
}

/// The jobs that a matrix derives, read off the job itself: each has its own
/// combination of values, and the variables, platforms and steps that the job's
/// entries give in the scope of that combination.
pub proof fn law_jobs_of_a_matrix(
    ctx: ConfigView,
    key: Seq<char>,
    job: YamlView,
    m: Seq<(YamlView, YamlView)>,
    all: Seq<Seq<(Seq<char>, YamlView)>>,
    i: int,
    own: Seq<char>,
)
    requires
        yaml::mapping_of(job) == Some(m),
        yaml::distinct_fields(m),
        combinations(ctx, job) == Ok::<Option<Seq<Seq<(Seq<char>, YamlView)>>>, ErrorView>(
            Some(all),
        ),
        0 <= i < all.len(),
        is_own_name(
            own,
            contexts::post_strategy_scope(ctx, all[i], None),
            key,
            yaml::field(m, "name"@),
        ),
    ensures
        jobs_of(ctx, key, job) matches Ok(jobs) ==> {
            let unnamed = contexts::post_strategy_scope(ctx, all[i], None);
            let scope = contexts::post_strategy_scope(ctx, all[i], Some(own));
            &&& jobs.len() == all.len()
            &&& jobs[i].matrix == all[i]
            &&& jobs[i].name == own + " ("@ + text::join(texts_of(all[i]), ", "@) + ")"@
            &&& is_env_of(jobs[i].env, scope, yaml::field(m, "env"@))
            &&& are_platforms_of(jobs[i].runs_on, unnamed, yaml::field(m, "runs-on"@))
            &&& yaml::field(m, "steps"@) matches Some(x) && expressions::expanded(scope, x) == Ok::<
                YamlView,
                ErrorView,
            >(YamlView::Sequence(jobs[i].steps))
        },
{
    let body = models::left(job, "strategy"@);
    let rest = yaml::without_field(m, "strategy"@);
    yaml::law_with_mapping(job, rest);
    yaml::law_without_field(m, "strategy"@);
    lemma_strategy_is_another_field();
    law_each_combination_derives_a_job(ctx, key, job);
    assert(yaml::field(rest, "name"@) == yaml::field(m, "name"@));
    assert(yaml::field(rest, "env"@) == yaml::field(m, "env"@));
    assert(yaml::field(rest, "runs-on"@) == yaml::field(m, "runs-on"@));
    assert(yaml::field(rest, "steps"@) == yaml::field(m, "steps"@));
    law_derived_job(ctx, key, body, rest, all[i], own);
    if let Ok(jobs) = jobs_of(ctx, key, job) {
        assert(derived_job(ctx, key, body, all[i]) == Ok::<JobView, ErrorView>(jobs[i]));
    }
}

proof fn lemma_strategy_is_another_field()
    ensures
        "strategy"@ != "name"@,
        "strategy"@ != "env"@,
        "strategy"@ != "runs-on"@,
        "strategy"@ != "steps"@,
{
    reveal_strlit("strategy");
    reveal_strlit("name");
    reveal_strlit("env");
    reveal_strlit("runs-on");
    reveal_strlit("steps");
    assert("strategy"@.len() == 8);
    assert("name"@.len() == 4);
    assert("env"@.len() == 3);
    assert("runs-on"@.len() == 7);
    assert("steps"@.len() == 5);
}

/// The combinations of a matrix are all choices of one value for each of its keys,
/// and behind them those that it lists itself. Without a strategy, or a matrix in
/// it, there are none.
pub proof fn law_combinations(
    ctx: ConfigView,
    job: YamlView,
    m: Seq<(YamlView, YamlView)>,
    strategy: Seq<(YamlView, YamlView)>,
    list: Seq<(YamlView, YamlView)>,
)
    requires
        yaml::mapping_of(job) == Some(m),
        yaml::distinct_fields(list),
    ensures
        yaml::field(m, "strategy"@) is None ==> combinations(ctx, job) == Ok::<
            Option<Seq<Seq<(Seq<char>, YamlView)>>>,
            ErrorView,
        >(None),
        yaml::field(m, "strategy"@) == Some(YamlView::Mapping(strategy)) ==> {
            &&& yaml::field(strategy, "matrix"@) is None ==> combinations(ctx, job) == Ok::<
                Option<Seq<Seq<(Seq<char>, YamlView)>>>,
                ErrorView,
            >(None)
            &&& yaml::field(strategy, "matrix"@) == Some(YamlView::Mapping(list)) ==> match (
                models::matrix_keys(contexts::job_scope(ctx), YamlView::Mapping(list)),
                combinations(ctx, job),
            ) {
                (Err(e), found) => found == Err::<
                    Option<Seq<Seq<(Seq<char>, YamlView)>>>,
                    ErrorView,
                >(e),
                (Ok(keys), Ok(None)) => false,
                (Ok(keys), Ok(Some(all))) => {
                    let count = matrix::product(keys).len() as int;
                    &&& all.len() >= count
                    &&& all.take(count) == matrix::product(keys)
                    &&& match yaml::field(list, "include"@) {
                        None => all.len() == count,
                        Some(x) => expressions::expanded(
                            contexts::job_scope(ctx),
                            x,
                        ) matches Ok(YamlView::Sequence(items)) && all.len() == count + items.len()
                            && forall|i: int|
                            0 <= i < items.len() ==> #[trigger] models::string_map::<Yaml>(
                                contexts::job_scope(ctx),
                                items[i],
                            ) == Ok::<Seq<(Seq<char>, YamlView)>, ErrorView>(all[count + i]),
                    }
                },
                (Ok(_), Err(_)) => yaml::field(list, "include"@) is Some,
            }
        },
{
    let scope = contexts::job_scope(ctx);
    models::law_fields(scope, job, m, "strategy"@);
    if yaml::field(m, "strategy"@) == Some(YamlView::Mapping(strategy)) {
        models::law_fields(scope, YamlView::Mapping(strategy), strategy, "matrix"@);
        if yaml::field(strategy, "matrix"@) == Some(YamlView::Mapping(list)) {
            let v = YamlView::Mapping(list);
            if let Ok(keys) = models::matrix_keys(scope, v) {
                models::law_matrix_includes(scope, v, list);
                if let Ok(Some(all)) = combinations(ctx, job) {
                    let count = matrix::product(keys).len() as int;
                    assert(all.take(count) =~= matrix::product(keys));
                }
            }
        }
    }
}

/// A workflow has the variables and the name that its own fields give, and the
/// jobs of its entries under `jobs`, one entry behind the other.
pub proof fn law_workflow(
    ctx: ConfigView,
    v: YamlView,
    m: Seq<(YamlView, YamlView)>,
    list: Seq<(YamlView, YamlView)>,
)
    requires
        yaml::mapping_of(v) == Some(m),
        yaml::distinct_fields(m),
        yaml::distinct_fields(list),
    ensures
        runner_for(ctx, v) matches Ok(runner) ==> {
            let scope = contexts::root_scope(RootView::Workflow, ctx);
            &&& runner.ctx == ctx
            &&& is_env_of(runner.env, scope, yaml::field(m, "env"@))
            &&& match yaml::field(m, "name"@) {
                None => runner.name is None,
                Some(x) => expressions::expanded(scope, x) matches Ok(y) && models::string_of(
                    scope,
                    y,
                ) matches Ok(t) && runner.name == Some(t),
            }
            &&& yaml::field(m, "jobs"@) is None ==> runner.jobs.len() == 0
            &&& yaml::field(m, "jobs"@) == Some(YamlView::Mapping(list)) ==> {
                &&& forall|i: int| 0 <= i < list.len() ==> #[trigger] jobs_of_entry(ctx, list[i]) is Ok
                &&& runner.jobs == Seq::new(
                    list.len(),
                    |i: int| jobs_of_entry(ctx, list[i])->Ok_0,
                ).flatten()
            }
        },
{
    let scope = contexts::root_scope(RootView::Workflow, ctx);
    let without_env = yaml::without_field(m, "env"@);
    let without_jobs = yaml::without_field(without_env, "jobs"@);
    let rest = models::left(v, "env"@);
    reveal_strlit("env");
    reveal_strlit("jobs");
    reveal_strlit("name");
    assert("env"@.len() == 3);
    assert("jobs"@.len() == 4);
    assert("name"@.len() == 4);
    assert("jobs"@[0] == 'j');
    assert("name"@[0] == 'n');
    yaml::law_with_mapping(v, without_env);
    yaml::law_without_field(m, "env"@);
    yaml::law_with_mapping(rest, without_jobs);
    yaml::law_without_field(without_env, "jobs"@);
    assert(yaml::field(without_env, "jobs"@) == yaml::field(m, "jobs"@));
    assert(yaml::field(without_env, "name"@) == yaml::field(m, "name"@));
    assert(yaml::field(without_jobs, "name"@) == yaml::field(without_env, "name"@));
    models::law_fields(scope, v, m, "env"@);
    models::law_fields(scope, rest, without_env, "jobs"@);
    models::law_fields(scope, models::left(rest, "jobs"@), without_jobs, "name"@);
    if let Ok(runner) = runner_for(ctx, v) {
        if let Some(x) = yaml::field(m, "env"@) {
            lemma_env_of(scope, x, runner.env);
        }
        if yaml::field(m, "jobs"@) == Some(YamlView::Mapping(list)) {
            models::law_string_map::<Job>(scope, list);
            let entries = models::string_map::<Job>(scope, YamlView::Mapping(list))->Ok_0;
            lemma_jobs_of_entries(ctx, entries);
            let found = Seq::new(list.len(), |i: int| jobs_of_entry(ctx, list[i])->Ok_0);
            assert forall|i: int| 0 <= i < list.len() implies #[trigger] jobs_of_entry(
                ctx,
                list[i],
            ) == jobs_of(ctx, entries[i].0, entries[i].1) by {
                assert(models::entry_read::<Job>(scope, list[i]) == Ok::<
                    (Seq<char>, YamlView),
                    ErrorView,
                >(entries[i]));
            }
            assert(found =~= Seq::new(
                entries.len(),
                |i: int| jobs_of(ctx, entries[i].0, entries[i].1)->Ok_0,
            ));
        }
    }
}

/// The jobs that come of an entry of a workflow's jobs: those of its expanded
/// value, under its key.
pub open spec fn jobs_of_entry(ctx: ConfigView, entry: (YamlView, YamlView)) -> Result<
    Seq<JobView>,
    ErrorView,
> {
    match (entry.0, expressions::expanded(contexts::root_scope(RootView::Workflow, ctx), entry.1)) {
        (YamlView::Text(key), Ok(job)) => jobs_of(ctx, key, job),
        (YamlView::Text(_), Err(e)) => Err(e),
        (key, _) => Err(error::bare(KindView::TypeMismatch("string key"@, key))),
    }
}

proof fn lemma_jobs_of_entries(ctx: ConfigView, entries: Seq<(Seq<char>, YamlView)>)
    ensures
        fold::try_fold(seq![], entries, add_jobs(ctx)) matches Ok(jobs) ==> {
            &&& forall|i: int|
                0 <= i < entries.len() ==> #[trigger] jobs_of(ctx, entries[i].0, entries[i].1) is Ok
            &&& jobs == Seq::new(
                entries.len(),
                |i: int| jobs_of(ctx, entries[i].0, entries[i].1)->Ok_0,
            ).flatten()
        },
{
    let brings = |entry: (Seq<char>, YamlView)| jobs_of(ctx, entry.0, entry.1);
    fold::lemma_concatenated(entries, brings, add_jobs(ctx));
    assert(Seq::new(entries.len(), |i: int| jobs_of(ctx, entries[i].0, entries[i].1)->Ok_0)
        =~= Seq::new(entries.len(), |i: int| brings(entries[i])->Ok_0));
    assert forall|i: int|
        0 <= i < entries.len() && fold::try_fold(seq![], entries, add_jobs(ctx)) is Ok implies
        #[trigger] jobs_of(ctx, entries[i].0, entries[i].1) is Ok by {
        assert(brings(entries[i]) is Ok);
    }
}

/// A runner for a job starts at the job's first step, with the job's name, steps
/// and values, in one container, whose image is that of the first platform. It
/// has no path entries and no outputs yet.
pub proof fn law_job_runner(runner: RunnerView, job: JobView, images: DockerImageMapping)
    ensures
        match job_runner_for(runner, job, images) {
            Ok(v) => {
                &&& v.ctx == runner.ctx
                &&& v.job_name == job.name
                &&& v.matrix == job.matrix
                &&& v.steps == job.steps
                &&& v.next == 0
                &&& v.paths.len() == 0
                &&& v.outputs.len() == 0
                &&& v.images.len() == 1
                &&& job.runs_on.len() > 0
                &&& job.runs_on[0] == "ubuntu-18.04"@ ==> v.images[0]
                    == images.ubuntu_18_04.deep_view()
                &&& job.runs_on[0] != "ubuntu-18.04"@ ==> v.images[0]
                    == images.ubuntu_20_04.deep_view() && (job.runs_on[0] == "ubuntu-20.04"@
                    || job.runs_on[0] == "ubuntu-latest"@)
                &&& forall|key: Seq<char>| #[trigger]
                    ordered_map::lookup(v.env, key) == (match ordered_map::lookup(job.env, key) {
                        Some(value) => Some(value),
                        None => match ordered_map::lookup(runner.env, key) {
                            Some(value) => Some(value),
                            None => ordered_map::lookup(
                                config::base_env(runner.ctx, runner.name),
                                key,
                            ),
                        },
                    })
            },
            Err(e) => {
                &&& job.runs_on.len() == 0 ==> e == (ErrorView {
                    kind: KindView::UnsupportedPlatform("<none>"@),
                    context: None,
                })
                &&& job.runs_on.len() > 0 ==> {
                    &&& e == (ErrorView {
                        kind: KindView::UnsupportedPlatform(job.runs_on[0]),
                        context: None,
                    })
                    &&& job.runs_on[0] != "ubuntu-18.04"@
                    &&& job.runs_on[0] != "ubuntu-20.04"@
                    &&& job.runs_on[0] != "ubuntu-latest"@
                }
            },
        },
{
    reveal_strlit("ubuntu-18.04");
    reveal_strlit("ubuntu-20.04");
    reveal_strlit("ubuntu-latest");
    assert("ubuntu-18.04"@.len() == 12);
    assert("ubuntu-20.04"@.len() == 12);
    assert("ubuntu-latest"@.len() == 13);
    assert("ubuntu-18.04"@[7] == '1');
    assert("ubuntu-20.04"@[7] == '2');
    if let Ok(v) = job_runner_for(runner, job, images) {
        assert forall|key: Seq<char>| #[trigger]
            ordered_map::lookup(v.env, key) == (match ordered_map::lookup(job.env, key) {
                Some(value) => Some(value),
                None => match ordered_map::lookup(runner.env, key) {
                    Some(value) => Some(value),
                    None => ordered_map::lookup(config::base_env(runner.ctx, runner.name), key),
                },
            }) by {
            law_initial_env(runner, job, key);
        }
    }
}

/// A workflow file that can be parsed is read as the workflow in it; one that
/// cannot is an error that says why.
pub proof fn law_workflow_file(ctx: ConfigView, data: Seq<u8>)
    ensures
        match yaml::yaml_document(data) {
            Ok(workflow) => runner_for_file(ctx, data) == runner_for(ctx, workflow),
            Err(e) => runner_for_file(ctx, data) == Err::<RunnerView, ErrorView>(
                ErrorView { kind: KindView::InvalidWorkflowYaml(e), context: None },
            ),
        },
{
}

/// A workflow can be read exactly when its variables, its jobs and its name can.
pub proof fn law_readable_workflow(
    ctx: ConfigView,
    v: YamlView,
    m: Seq<(YamlView, YamlView)>,
)
    requires
        yaml::mapping_of(v) == Some(m),
        yaml::distinct_fields(m),
    ensures
        ({
            let scope = contexts::root_scope(RootView::Workflow, ctx);
            runner_for(ctx, v) is Ok <==> models::map_field::<String>(scope, v, "env"@) is Ok
                && models::text_field(scope, v, "name"@) is Ok && (models::map_field::<Job>(
                scope,
                v,
                "jobs"@,
            ) matches Ok(entries) && fold::try_fold(seq![], entries, add_jobs(ctx)) is Ok)
        }),
{
    let scope = contexts::root_scope(RootView::Workflow, ctx);
    let rest = models::left(v, "env"@);
    let without_env = yaml::without_field(m, "env"@);
    reveal_strlit("env");
    reveal_strlit("jobs");
    reveal_strlit("name");
    assert("env"@.len() == 3);
    assert("jobs"@.len() == 4);
    assert("name"@.len() == 4);
    assert("jobs"@[0] == 'j');
    assert("name"@[0] == 'n');
    yaml::law_with_mapping(v, without_env);
    yaml::law_without_field(m, "env"@);
    models::law_taken_is_gone(scope, v, "env"@, "jobs"@);
    models::law_taken_is_gone(scope, v, "env"@, "name"@);
    models::law_taken_is_gone(scope, rest, "jobs"@, "name"@);
}

} // verus!
