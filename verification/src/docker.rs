//! Running workflows in local Docker containers: what is asked of the docker
//! CLI, what its answers mean, and when a workflow is over.

use vstd::prelude::*;

use crate::config;
use crate::config::{ConfigView, RunnerContext};
use crate::error;
use crate::error::{ErrorView, RunnerError, StepIndex};
use crate::job;
use crate::job::{JobRunner, JobRunnerView};
use crate::runner::{ContainerImage, DockerImageMapping, JobDescription, JobView};
use crate::text;

verus! {

// ---------------------------------------------------------------------------
// Commands
// ---------------------------------------------------------------------------

/// The arguments that create a container, which sleeps so that steps can be run
/// in it. The global directory is mounted as `/github`.
pub open spec fn create_args(github_dir: Seq<char>, image: Seq<char>) -> Seq<Seq<char>> {
    seq![
        "run"@,
        "--detach=true"@,
        "--tmpfs"@,
        "/tmp:exec"@,
        "--init"@,
        "--cap-add"@,
        "LINUX_IMMUTABLE"@,
        "--mount"@,
        "type=bind,src="@ + github_dir + ",dst=/github"@,
        "--entrypoint"@,
        "sleep"@,
        image,
        "1000000"@,
    ]
}

/// The arguments that run a command in a container.
pub open spec fn exec_args(id: Seq<char>, command: Seq<Seq<char>>) -> Seq<Seq<char>> {
    seq!["exec"@, "--tty"@, id] + command
}

/// The arguments that remove a container.
pub open spec fn remove_args(id: Seq<char>) -> Seq<Seq<char>> {
    seq!["rm"@, "-f"@, id]
}

/// The arguments that create a container.
pub fn docker_create_args(github_dir: &str, image: &ContainerImage) -> (r: Vec<String>)
    ensures
        r.deep_view() == create_args(github_dir@, image.deep_view()),
{
    let mut out: Vec<String> = Vec::new();
    out.push(text::copy("run"));
    out.push(text::copy("--detach=true"));
    out.push(text::copy("--tmpfs"));
    out.push(text::copy("/tmp:exec"));
    out.push(text::copy("--init"));
    out.push(text::copy("--cap-add"));
    out.push(text::copy("LINUX_IMMUTABLE"));
    out.push(text::copy("--mount"));
    out.push(text::joined3("type=bind,src=", github_dir, ",dst=/github"));
    out.push(text::copy("--entrypoint"));
    out.push(text::copy("sleep"));
    out.push(image.0.clone());
    out.push(text::copy("1000000"));
    assert(out.deep_view() =~= create_args(github_dir@, image.deep_view()));
    out
}

/// The arguments that run a command in a container.
pub fn docker_exec_args(id: &str, command: &Vec<String>) -> (r: Vec<String>)
    ensures
        r.deep_view() == exec_args(id@, command.deep_view()),
{
    let mut out: Vec<String> = Vec::new();
    out.push(text::copy("exec"));
    out.push(text::copy("--tty"));
    out.push(text::copy(id));
    let mut rest = text::copy_texts(command);
    let ghost expected = seq!["exec"@, "--tty"@, id@] + rest.deep_view();
    out.append(&mut rest);
    assert(out.deep_view() =~= expected);
    out
}

/// The arguments that remove a container.
pub fn docker_remove_args(id: &str) -> (r: Vec<String>)
    ensures
        r.deep_view() == remove_args(id@),
{
    let mut out: Vec<String> = Vec::new();
    out.push(text::copy("rm"));
    out.push(text::copy("-f"));
    out.push(text::copy(id));
    assert(out.deep_view() =~= remove_args(id@));
    out
}

/// What is said when a container could not be created.
pub fn create_failure(image: &ContainerImage, stderr: &str) -> (r: String)
    ensures
        r@ == "Failed to create docker container for "@ + image.deep_view() + ":\n"@ + stderr@,
{
    let mut out = text::joined3("Failed to create docker container for ", image.0.as_str(), ":\n");
    out.push_str(stderr);
    out
}

/// What is said when a container could not be created and docker printed these
/// bytes, which need not be text.
pub fn create_failure_of(image: &ContainerImage, stderr: &[u8]) -> (r: String)
    ensures
        r@ == "Failed to create docker container for "@ + image.deep_view() + ":\n"@ + text::lossy(
            stderr@,
        ),
        vstd::utf8::valid_utf8(stderr@) ==> r@ == "Failed to create docker container for "@
            + image.deep_view() + ":\n"@ + vstd::utf8::decode_utf8(stderr@),
{
    create_failure(image, text::lossy_text(stderr).as_str())
}

/// The id of a container in what docker printed when it was created, if that is
/// text.
pub open spec fn container_id_in(stdout: Seq<u8>) -> Option<Seq<char>> {
    if vstd::utf8::valid_utf8(stdout) {
        Some(text::trim_end(text::trim_start(vstd::utf8::decode_utf8(stdout))))
    } else {
        None
    }
}

/// The id of a container in what docker printed when it was created.
pub fn read_container_id(stdout: &[u8]) -> (r: Option<String>)
    ensures
        r.deep_view() == container_id_in(stdout@),
{
    match text::utf8_text(stdout) {
        Some(s) => Some(text::trimmed(s)),
        None => None,
    }
}

/// The exit code of a process, which is -1 where a signal ended it.
pub fn exit_code_of(code: Option<i32>) -> (r: i32)
    ensures
        r == (match code {
            Some(code) => code,
            None => -1i32,
        }),
{
    match code {
        Some(code) => code,
        None => -1,
    }
}

// ---------------------------------------------------------------------------
// The output of a command
// ---------------------------------------------------------------------------

/// Where output comes from.
#[derive(Clone, Copy, Debug, PartialEq, Eq, Structural)]
pub enum Stream {
    /// The standard output.
    Stdout,
    /// The standard error.
    Stderr,
}

/// What is done with what was read.
#[derive(Clone, Copy, Debug, PartialEq, Eq, Structural)]
pub enum ReadAction {
    /// The data goes to the filter for workflow commands and to the handler
    /// for standard output.
    FilterAndHandle,
    /// The data goes to the handler for standard error.
    Handle,
    /// There is no data, and the stream is not read any more.
    Close,
}

/// Which streams of a command are still read.
#[derive(Clone, Copy, Debug, PartialEq, Eq, Structural)]
pub struct OpenStreams {
    /// The standard output is.
    pub stdout: bool,
    /// The standard error is.
    pub stderr: bool,
}

impl OpenStreams {
    /// The stream is still read.
    pub open spec fn has(self, stream: Stream) -> bool {
        match stream {
            Stream::Stdout => self.stdout,
            Stream::Stderr => self.stderr,
        }
    }

    /// Both streams are read.
    pub fn both() -> (r: OpenStreams)
        ensures
            r.has(Stream::Stdout),
            r.has(Stream::Stderr),
    {
        OpenStreams { stdout: true, stderr: true }
    }

    /// Whether any stream is still read.
    pub fn any(&self) -> (r: bool)
        ensures
            r == (exists|stream: Stream| self.has(stream)),
    {
        let r = self.stdout || self.stderr;
        proof {
            assert(self.has(Stream::Stdout) == self.stdout);
            assert(self.has(Stream::Stderr) == self.stderr);
        }
        r
    }

    /// Takes note that `len` bytes were read from a stream, and says what is
    /// done with them. A stream that gave nothing has ended.
    pub fn read(&mut self, stream: Stream, len: usize) -> (r: ReadAction)
        ensures
            len == 0 ==> r == ReadAction::Close && !final(self).has(stream),
            len > 0 ==> *final(self) == *old(self) && r == (match stream {
                Stream::Stdout => ReadAction::FilterAndHandle,
                Stream::Stderr => ReadAction::Handle,
            }),
            forall|other: Stream|
                other != stream ==> #[trigger] final(self).has(other) == old(self).has(other),
    {
        if len == 0 {
            match stream {
                Stream::Stdout => {
                    self.stdout = false;
                },
                Stream::Stderr => {
                    self.stderr = false;
                },
            }
            ReadAction::Close
        } else {
            match stream {
                Stream::Stdout => ReadAction::FilterAndHandle,
                Stream::Stderr => ReadAction::Handle,
            }
        }
    }
}

// ---------------------------------------------------------------------------
// Workflows
// ---------------------------------------------------------------------------

/// A token without rights.
pub open spec fn zero_token() -> Seq<char> {
    "ghp_"@ + "7EMsGDj8ZsOEJxDSXBoC9XsEjFgMWw2NvXQk"@
}

/// Returns a Github personal access token that has no rights to access anything.
/// It will work for read-only access to public resources. For anything more you
/// have to supply your own token.
pub fn zero_access_token() -> (r: String)
    ensures
        r@ == zero_token(),
{
    // Try to avoid it being picked up by scanners.
    // This token is harmless. It has no rights to access anything and is owned
    // by the pernosco-unauthorized Github account which itself has no special
    // access to anything; it exists solely to own this token.
    text::joined("ghp_", "7EMsGDj8ZsOEJxDSXBoC9XsEjFgMWw2NvXQk")
}

/// Where the data of a workflow is to be had.
pub enum WorkflowSource {
    /// In a file on the local filesystem.
    File,
    /// In the repository, under the workflow's own path.
    Repository,
}

/// An absolute path names a file on the local filesystem.
pub open spec fn is_absolute(workflow: Seq<char>) -> bool {
    workflow.len() > 0 && workflow[0] == '/'
}

/// The name that a workflow has in the repository.
pub open spec fn repo_path(workflow: Seq<char>) -> Seq<char> {
    if is_absolute(workflow) {
        ".github/workflows/"@ + workflow
    } else {
        workflow
    }
}

/// Where the data of a workflow is to be had, and the name that it has in the
/// repository. It is fetched from the repository if `workflow` is a relative
/// path, and read from the local filesystem if it is an absolute one.
pub fn locate_workflow(workflow: &str) -> (r: (WorkflowSource, String))
    ensures
        r.0 is File <==> is_absolute(workflow@),
        r.1@ == repo_path(workflow@),
{
    if workflow.unicode_len() > 0 && workflow.get_char(0) == '/' {
        (WorkflowSource::File, text::joined(".github/workflows/", workflow))
    } else {
        (WorkflowSource::Repository, text::copy(workflow))
    }
}

/// The values that a workflow is run with locally.
pub open spec fn local_config(
    owner: Seq<char>,
    repo: Seq<char>,
    commit_sha: Seq<u8>,
    workflow_repo_path: Seq<char>,
    token: Seq<char>,
) -> ConfigView {
    ConfigView {
        owner,
        repo,
        commit_sha,
        commit_ref: None,
        workflow_repo_path,
        run_id: 1,
        run_number: 1,
        job_id: 1,
        actor: "gha-runner"@,
        token,
        override_env: seq![],
    }
}

/// The values that a workflow is run with locally. Nothing comes back when the
/// hash of the commit is not hexadecimal.
pub fn local_context(
    owner: &str,
    repo: &str,
    sha: &str,
    workflow_repo_path: String,
    token: String,
) -> (r: Option<RunnerContext>)
    ensures
        r.deep_view() == (if config::is_hex(sha@) {
            Some(
                local_config(owner@, repo@, config::hex_bytes(sha@), workflow_repo_path@, token@),
            )
        } else {
            None
        }),
{
    let commit_sha = match config::decode_sha(sha) {
        Some(v) => v,
        None => {
            return None;
        },
    };
    let override_env: Vec<(String, String)> = Vec::new();
    assert(override_env.deep_view() =~= seq![]);
    Some(
        RunnerContext {
            owner: text::copy(owner),
            repo: text::copy(repo),
            commit_sha,
            commit_ref: None,
            workflow_repo_path,
            run_id: 1,
            run_number: 1,
            job_id: 1,
            actor: text::copy("gha-runner"),
            token,
            override_env,
        },
    )
}

/// The job at `i` is the first one of that name.
pub open spec fn is_job(jobs: Seq<JobView>, name: Seq<char>, i: int) -> bool {
    &&& 0 <= i < jobs.len()
    &&& jobs[i].name == name
    &&& forall|j: int| 0 <= j < i ==> (#[trigger] jobs[j]).name != name
}

/// Finds the first job of a name.
pub fn find_job(jobs: &[JobDescription], name: &str) -> (r: Option<usize>)
    ensures
        match r {
            Some(i) => is_job(jobs.deep_view(), name@, i as int),
            None => forall|j: int|
                0 <= j < jobs.deep_view().len() ==> (#[trigger] jobs.deep_view()[j]).name != name@,
        },
{
    let ghost all = jobs.deep_view();
    for i in 0..jobs.len()
        invariant
            all == jobs.deep_view(),
            forall|j: int| 0 <= j < i ==> (#[trigger] all[j]).name != name@,
    {
        assert(all[i as int] == jobs@[i as int].deep_view());
        if text::same(jobs[i].name(), name) {
            return Some(i);
        }
    }
    None
}

/// The result of running a workflow
#[derive(Debug, Eq, PartialEq)]
pub enum WorkflowResult {
    /// All steps completed successfully
    AllStepsPassed,
    /// A step failed.
    StepFailed {
        /// The name of the failing step (if it has one)
        step_name: Option<String>,
        /// The step's exit code
        exit_code: i32,
    },
}

/// What a `WorkflowResult` stands for.
pub enum ResultView {
    /// All steps completed successfully.
    AllStepsPassed,
    /// A step failed: its name, and its exit code.
    StepFailed(Option<Seq<char>>, i32),
}

impl DeepView for WorkflowResult {
    type V = ResultView;

    open spec fn deep_view(&self) -> ResultView {
        match *self {
            WorkflowResult::AllStepsPassed => ResultView::AllStepsPassed,
            WorkflowResult::StepFailed { step_name, exit_code } => ResultView::StepFailed(
                step_name.deep_view(),
                exit_code,
            ),
        }
    }
}

impl Clone for WorkflowResult {
    fn clone(&self) -> (r: Self)
        ensures
            r.deep_view() == self.deep_view(),
    {
        match self {
            WorkflowResult::AllStepsPassed => WorkflowResult::AllStepsPassed,
            WorkflowResult::StepFailed { step_name, exit_code } => {
                let name = match step_name {
                    Some(name) => Some(name.clone()),
                    None => None,
                };
                WorkflowResult::StepFailed { step_name: name, exit_code: *exit_code }
            },
        }
    }
}

/// The step to run next.
pub struct NextStep {
    /// Its index.
    pub index: StepIndex,
    /// Its name, if it has one.
    pub name: Option<String>,
}

impl DeepView for NextStep {
    type V = (nat, Option<Seq<char>>);

    open spec fn deep_view(&self) -> (nat, Option<Seq<char>>) {
        (self.index.0 as nat, self.name.deep_view())
    }
}

/// The step to run next, unless all were run.
pub open spec fn step_to_run(v: JobRunnerView) -> Result<
    Option<(nat, Option<Seq<char>>)>,
    ErrorView,
> {
    if all_run(v) {
        Ok(None)
    } else {
        match job::next_name(v) {
            Ok(name) => Ok(Some((v.next, name))),
            Err(e) => Err(e),
        }
    }
}

/// The step to run next, unless all were run.
pub fn next_step(job_runner: &JobRunner) -> (r: Result<Option<NextStep>, RunnerError>)
    ensures
        error::outcome(r) == step_to_run(job_runner.deep_view()),
{
    let index = job_runner.next_step_index();
    if index.0 >= job_runner.step_count().0 {
        return Ok(None);
    }
    let name = job_runner.next_step_name()?;
    Ok(Some(NextStep { index, name }))
}

/// The result that the exit code of a step makes for, if any: the first step
/// that fails ends the workflow.
pub open spec fn result_of_exit(step_name: Option<Seq<char>>, exit_code: i32) -> Option<
    ResultView,
> {
    if exit_code != 0 {
        Some(ResultView::StepFailed(step_name, exit_code))
    } else {
        None
    }
}

/// The result that the exit code of a step makes for, if any.
pub fn after_exit(step_name: Option<String>, exit_code: i32) -> (r: Option<WorkflowResult>)
    ensures
        r.deep_view() == result_of_exit(step_name.deep_view(), exit_code),
{
    if exit_code != 0 {
        Some(WorkflowResult::StepFailed { step_name, exit_code })
    } else {
        None
    }
}

/// No step is left.
pub open spec fn all_run(v: JobRunnerView) -> bool {
    v.next >= v.steps.len() as u32
}

/// The result of a workflow before a step is run, if it has one: without steps
/// it has passed.
pub open spec fn result_at_start(v: JobRunnerView) -> Option<ResultView> {
    if all_run(v) {
        Some(ResultView::AllStepsPassed)
    } else {
        None
    }
}

/// The result of a workflow whose last step had this name and exit code, if it
/// has one: it ends where that step failed, and passes where it did not and no
/// step is left.
pub open spec fn result_after_step(
    v: JobRunnerView,
    step_name: Option<Seq<char>>,
    exit_code: i32,
) -> Option<ResultView> {
    match result_of_exit(step_name, exit_code) {
        Some(result) => Some(result),
        None => result_at_start(v),
    }
}

/// The result of a workflow before a step is run, if it has one.
pub fn before_steps(job_runner: &JobRunner) -> (r: Option<WorkflowResult>)
    ensures
        r.deep_view() == result_at_start(job_runner.deep_view()),
{
    if job_runner.next_step_index().0 >= job_runner.step_count().0 {
        Some(WorkflowResult::AllStepsPassed)
    } else {
        None
    }
}

/// The result of a workflow after a step was run, if it has one.
pub fn after_step(job_runner: &JobRunner, step_name: Option<String>, exit_code: i32) -> (r: Option<
    WorkflowResult,
>)
    ensures
        r.deep_view() == result_after_step(
            job_runner.deep_view(),
            step_name.deep_view(),
            exit_code,
        ),
{
    match after_exit(step_name, exit_code) {
        Some(result) => Some(result),
        None => before_steps(job_runner),
    }
}

/// What a step is called in messages.
pub fn step_label(name: &Option<String>) -> (r: String)
    ensures
        r@ == (match *name {
            Some(name) => name@,
            None => "<anonymous>"@,
        }),
{
    match name {
        Some(name) => name.clone(),
        None => text::copy("<anonymous>"),
    }
}

/// The result of a workflow whose steps have these names and exit codes.
pub open spec fn result_of_steps(steps: Seq<(Option<Seq<char>>, i32)>) -> ResultView
    decreases steps.len(),
{
    if steps.len() == 0 {
        ResultView::AllStepsPassed
    } else {
        match result_of_exit(steps[0].0, steps[0].1) {
            Some(result) => result,
            None => result_of_steps(steps.skip(1)),
        }
    }
}

/// A workflow passes exactly when every step exits with 0; else its result is
/// that of the first step that does not.
pub proof fn law_first_failure_decides(steps: Seq<(Option<Seq<char>>, i32)>)
    ensures
        match result_of_steps(steps) {
            ResultView::AllStepsPassed => forall|i: int|
                0 <= i < steps.len() ==> (#[trigger] steps[i]).1 == 0,
            ResultView::StepFailed(name, code) => exists|i: int|
                {
                    &&& 0 <= i < steps.len()
                    &&& #[trigger] steps[i] == (name, code)
                    &&& code != 0
                    &&& forall|j: int| 0 <= j < i ==> (#[trigger] steps[j]).1 == 0
                },
        },
    decreases steps.len(),
{
    if steps.len() > 0 {
        let rest = steps.skip(1);
        if steps[0].1 == 0 {
            law_first_failure_decides(rest);
            match result_of_steps(rest) {
                ResultView::AllStepsPassed => {
                    assert forall|i: int| 0 <= i < steps.len() implies (#[trigger] steps[i]).1
                        == 0 by {
                        if i > 0 {
                            assert(steps[i] == rest[i - 1]);
                        }
                    }
                },
                ResultView::StepFailed(name, code) => {
                    let k = choose|i: int|
                        {
                            &&& 0 <= i < rest.len()
                            &&& #[trigger] rest[i] == (name, code)
                            &&& code != 0
                            &&& forall|j: int| 0 <= j < i ==> (#[trigger] rest[j]).1 == 0
                        };
                    assert(steps[k + 1] == rest[k]);
                    assert forall|j: int| 0 <= j < k + 1 implies (#[trigger] steps[j]).1 == 0 by {
                        if j > 0 {
                            assert(steps[j] == rest[j - 1]);
                        }
                    }
                },
            }
        }
    }
}

/// The job after a step, the name of the step, and its exit code.
pub struct StepRun {
    /// The job after the step.
    pub job: JobRunnerView,
    /// The name of the step.
    pub name: Option<Seq<char>>,
    /// The exit code of the step.
    pub code: i32,
}

/// The result after a step, if there is one.
pub open spec fn result_after(run: StepRun) -> Option<ResultView> {
    result_after_step(run.job, run.name, run.code)
}

/// The names and exit codes of steps.
pub open spec fn exits(runs: Seq<StepRun>) -> Seq<(Option<Seq<char>>, i32)> {
    Seq::new(runs.len(), |i: int| (runs[i].name, runs[i].code))
}

/// Where no step but the last brought a result, the result is that of all steps
/// that were run, and it is a pass only where no step is left. A workflow
/// without steps has the result of no steps.
pub proof fn law_first_result_is_that_of_the_steps(start: JobRunnerView, runs: Seq<StepRun>)
    requires
        forall|i: int| 0 <= i < runs.len() - 1 ==> result_after(#[trigger] runs[i]) is None,
    ensures
        runs.len() == 0 ==> (result_at_start(start) matches Some(r) ==> r == result_of_steps(
            exits(runs),
        )),
        runs.len() > 0 ==> (result_after(runs.last()) matches Some(r) ==> r == result_of_steps(
            exits(runs),
        ) && (r is AllStepsPassed ==> all_run(runs.last().job))),
    decreases runs.len(),
{
    if runs.len() > 0 {
        let rest = runs.skip(1);
        assert(exits(runs).skip(1) =~= exits(rest));
        if runs.len() > 1 {
            assert(result_after(runs[0]) is None);
            assert forall|i: int| 0 <= i < rest.len() - 1 implies result_after(
                #[trigger] rest[i],
            ) is None by {
                assert(rest[i] == runs[i + 1]);
            }
            law_first_result_is_that_of_the_steps(start, rest);
        } else {
            assert(exits(rest) =~= seq![]);
        }
    }
}

/// A workflow comes to a result: once each of its steps was run there is one.
pub proof fn law_workflow_comes_to_a_result(runs: Seq<StepRun>)
    requires
        0 < runs.len() <= u32::MAX,
        forall|i: int|
            0 <= i < runs.len() ==> (#[trigger] runs[i]).job.next == i + 1
                && runs[i].job.steps.len() == runs.len(),
    ensures
        result_after(runs.last()) is Some,
{
    assert(runs[runs.len() - 1] == runs.last());
}

// ---------------------------------------------------------------------------
// The command line program
// ---------------------------------------------------------------------------

/// The images at a path, one for each platform.
pub fn images_at(image_path: &str) -> (r: DockerImageMapping)
    ensures
        r.ubuntu_18_04.deep_view() == image_path@ + "-18.04"@,
        r.ubuntu_20_04.deep_view() == image_path@ + "-20.04"@,
{
    DockerImageMapping {
        ubuntu_18_04: ContainerImage::from(text::joined(image_path, "-18.04")),
        ubuntu_20_04: ContainerImage::from(text::joined(image_path, "-20.04")),
    }
}

/// A command run under strace.
pub open spec fn traced(command: Seq<Seq<char>>) -> Seq<Seq<char>> {
    seq!["strace"@, "-f"@, "-o"@, "/github/.gha-runner/strace.out"@] + command
}

/// Runs a command under strace.
pub fn strace_command(command: &mut Vec<String>)
    ensures
        final(command).deep_view() == traced(old(command).deep_view()),
{
    let mut out: Vec<String> = Vec::new();
    out.push(text::copy("strace"));
    out.push(text::copy("-f"));
    out.push(text::copy("-o"));
    out.push(text::copy("/github/.gha-runner/strace.out"));
    let ghost expected = traced(command.deep_view());
    out.append(command);
    assert(out.deep_view() =~= expected);
    *command = out;
}

/// The commands that install strace.
pub open spec fn strace_setup() -> Seq<Seq<Seq<char>>> {
    seq![
        seq!["sudo"@, "apt"@, "update"@],
        seq!["sudo"@, "apt"@, "install"@, "-y"@, "strace"@],
    ]
}

/// The commands that install strace.
pub fn strace_setup_commands() -> (r: Vec<Vec<String>>)
    ensures
        r.deep_view() == strace_setup(),
{
    let mut update: Vec<String> = Vec::new();
    update.push(text::copy("sudo"));
    update.push(text::copy("apt"));
    update.push(text::copy("update"));
    let mut install: Vec<String> = Vec::new();
    install.push(text::copy("sudo"));
    install.push(text::copy("apt"));
    install.push(text::copy("install"));
    install.push(text::copy("-y"));
    install.push(text::copy("strace"));
    assert(update.deep_view() =~= strace_setup()[0]);
    assert(install.deep_view() =~= strace_setup()[1]);
    let mut out: Vec<Vec<String>> = Vec::new();
    out.push(update);
    out.push(install);
    assert(out.deep_view() =~= strace_setup());
    out
}

/// A container is run detached, with the directory mounted as `/github`, from the
/// image, and sleeps; a command is run in it as it is; and it is removed by force.
pub proof fn law_docker_arguments(
    github_dir: Seq<char>,
    image: Seq<char>,
    id: Seq<char>,
    command: Seq<Seq<char>>,
)
    ensures
        ({
            let args = create_args(github_dir, image);
            &&& args.take(7) == seq![
                "run"@,
                "--detach=true"@,
                "--tmpfs"@,
                "/tmp:exec"@,
                "--init"@,
                "--cap-add"@,
                "LINUX_IMMUTABLE"@,
            ]
            &&& args.skip(7) == seq![
                "--mount"@,
                "type=bind,src="@ + github_dir + ",dst=/github"@,
                "--entrypoint"@,
                "sleep"@,
                image,
                "1000000"@,
            ]
        }),
        exec_args(id, command).take(3) == seq!["exec"@, "--tty"@, id],
        exec_args(id, command).skip(3) == command,
        remove_args(id) == seq!["rm"@, "-f"@, id],
        traced(command).take(4) == seq![
            "strace"@,
            "-f"@,
            "-o"@,
            "/github/.gha-runner/strace.out"@,
        ],
        traced(command).skip(4) == command,
{
    let args = create_args(github_dir, image);
    assert(args.take(7) =~= seq![
        "run"@,
        "--detach=true"@,
        "--tmpfs"@,
        "/tmp:exec"@,
        "--init"@,
        "--cap-add"@,
        "LINUX_IMMUTABLE"@,
    ]);
    assert(args.skip(7) =~= seq![
        "--mount"@,
        "type=bind,src="@ + github_dir + ",dst=/github"@,
        "--entrypoint"@,
        "sleep"@,
        image,
        "1000000"@,
    ]);
    assert(exec_args(id, command).take(3) =~= seq!["exec"@, "--tty"@, id]);
    assert(exec_args(id, command).skip(3) =~= command);
    assert(traced(command).take(4) =~= seq![
        "strace"@,
        "-f"@,
        "-o"@,
        "/github/.gha-runner/strace.out"@,
    ]);
    assert(traced(command).skip(4) =~= command);
}

/// The id of a container is what docker printed but for the white space around it,
/// where that is text.
pub proof fn law_container_id(stdout: Seq<u8>)
    ensures
        vstd::utf8::valid_utf8(stdout) <==> container_id_in(stdout) is Some,
        container_id_in(stdout) matches Some(id) ==> {
            let s = vstd::utf8::decode_utf8(stdout);
            &&& id.len() > 0 ==> !text::is_white_space(id[0]) && !text::is_white_space(id.last())
            &&& exists|a: int, b: int|
                #![trigger s.subrange(a, b)]
                0 <= a <= b <= s.len() && id == s.subrange(a, b) && forall|i: int|
                    0 <= i < a || b <= i < s.len() ==> text::is_white_space(#[trigger] s[i])
        },
{
    text::law_trimmed(vstd::utf8::decode_utf8(stdout));
}

/// A workflow given by a path from the root is a local file, and counts as one below
/// `.github/workflows/`; any other path is that of the workflow in the repository.
/// It is run with what the caller gives, with the first numbers for run and job.
pub proof fn law_local_workflow(
    workflow: Seq<char>,
    owner: Seq<char>,
    repo: Seq<char>,
    commit_sha: Seq<u8>,
    token: Seq<char>,
)
    ensures
        is_absolute(seq!['/'] + workflow),
        repo_path(seq!['/'] + workflow) == ".github/workflows//"@ + workflow,
        is_absolute(workflow) ==> workflow == seq!['/'] + workflow.skip(1),
        !is_absolute(workflow) ==> repo_path(workflow) == workflow,
        ({
            let config = local_config(owner, repo, commit_sha, workflow, token);
            &&& config.owner == owner
            &&& config.repo == repo
            &&& config.commit_sha == commit_sha
            &&& config.commit_ref is None
            &&& config.workflow_repo_path == workflow
            &&& config.run_id == 1
            &&& config.run_number == 1
            &&& config.job_id == 1
            &&& config.actor == "gha-runner"@
            &&& config.token == token
            &&& config.override_env.len() == 0
        }),
{
    reveal_strlit(".github/workflows/");
    reveal_strlit(".github/workflows//");
    assert(".github/workflows//"@ =~= ".github/workflows/"@ + seq!['/']);
    assert(".github/workflows/"@ + (seq!['/'] + workflow) =~= ".github/workflows//"@ + workflow);
    if is_absolute(workflow) {
        assert(workflow =~= seq!['/'] + workflow.skip(1));
    }
}

/// While a job has a step left that step is run next, under its own index and name;
/// a step that exits with anything but zero ends the workflow at once, and a step
/// that exits with zero ends it only where no step is left.
pub proof fn law_next_step(v: JobRunnerView, name: Option<Seq<char>>, code: i32)
    requires
        v.steps.len() <= u32::MAX,
    ensures
        v.next >= v.steps.len() ==> step_to_run(v) == Ok::<
            Option<(nat, Option<Seq<char>>)>,
            ErrorView,
        >(None) && result_at_start(v) == Some(ResultView::AllStepsPassed),
        v.next < v.steps.len() ==> result_at_start(v) is None && match job::next_name(v) {
            Ok(found) => step_to_run(v) == Ok::<Option<(nat, Option<Seq<char>>)>, ErrorView>(
                Some((v.next, found)),
            ),
            Err(e) => step_to_run(v) == Err::<Option<(nat, Option<Seq<char>>)>, ErrorView>(e),
        },
        code != 0 ==> result_after_step(v, name, code) == Some(ResultView::StepFailed(name, code)),
        code == 0 && v.next < v.steps.len() ==> result_after_step(v, name, code) is None,
        code == 0 && v.next >= v.steps.len() ==> result_after_step(v, name, code) == Some(
            ResultView::AllStepsPassed,
        ),
{
}

} // verus!
