use gha_runner::docker::{after_exit, after_step, before_steps, next_step, step_label};
use gha_runner::job::{
    action_download_error, action_file_name, parse_action_name, read_action_yaml, ActionPlan,
    JobRunner, Preparation, StepPlan,
};
use gha_runner::step::{StepAction, StepEvent, StepState};
use gha_runner::{
    ContainerId, DockerImageMapping, OrderedMap, RunSpec, Runner, RunnerContext, RunnerErrorKind,
    StepIndex, WorkflowResult,
};

fn config() -> RunnerContext {
    RunnerContext {
        owner: "o".to_string(),
        repo: "r".to_string(),
        commit_sha: vec![0xab],
        commit_ref: None,
        workflow_repo_path: "w.yml".to_string(),
        run_id: 1,
        run_number: 1,
        job_id: 1,
        actor: "me".to_string(),
        token: "tok".to_string(),
        override_env: vec![("FORCED".to_string(), "yes".to_string())],
    }
}

fn job(env: &str, steps: &str) -> JobRunner {
    let workflow = format!(
        "env: {{WHO: workflow, W: workflow}}\njobs:\n  j:\n    runs-on: ubuntu-20.04\n    env: {}\n    steps: {}\n",
        env, steps
    );
    let images = DockerImageMapping { ubuntu_18_04: "old".into(), ubuntu_20_04: "new".into() };
    let runner = Runner::new(config(), workflow.as_bytes()).unwrap_or_else(|e| panic!("{}", e.message()));
    match runner.job_runner(&runner.job_descriptions()[0], &images) {
        Ok(j) => j,
        Err(e) => panic!("{}", e.message()),
    }
}

fn command_of(job: &JobRunner) -> RunSpec {
    match job.plan_step() {
        Ok(StepPlan::Command(spec)) => spec,
        Ok(StepPlan::Action(_)) => panic!("the step uses an action"),
        Err(e) => panic!("{}", e.message()),
    }
}

fn action_of(job: &JobRunner) -> ActionPlan {
    match job.plan_step() {
        Ok(StepPlan::Action(plan)) => plan,
        Ok(StepPlan::Command(_)) => panic!("the step runs a command"),
        Err(e) => panic!("{}", e.message()),
    }
}

fn failure_of(job: &JobRunner) -> String {
    match job.plan_step() {
        Ok(_) => panic!("the step should fail"),
        Err(e) => e.message(),
    }
}

#[test]
fn the_environment_of_a_step() {
    let job = job(
        "{WHO: job, J: job}",
        "[{run: make, env: {WHO: step, S: step, FORCED: no}, working-directory: sub}]",
    );
    let spec = command_of(&job);
    let get = |key: &str| spec.env.get(key).cloned();
    assert_eq!(get("WHO"), Some("step".to_string()));
    assert_eq!(get("W"), Some("workflow".to_string()));
    assert_eq!(get("J"), Some("job".to_string()));
    assert_eq!(get("S"), Some("step".to_string()));
    assert_eq!(get("FORCED"), Some("yes".to_string()));
    assert_eq!(get("GITHUB_SHA"), Some("ab".to_string()));
    assert_eq!(get("NOTHING"), None);
    assert_eq!(spec.working_directory, Some("sub".to_string()));
    assert_eq!(spec.command, vec!["make"]);
    assert_eq!(spec.paths.len(), 0);
}

#[test]
fn commands_are_run_by_their_shell() {
    let simple = job("{}", "[{run: make all, shell: sh}]");
    assert_eq!(command_of(&simple).command, vec!["make", "all"]);
    let bash = job("{}", "[{run: 'a && b'}]");
    let expected = vec!["bash", "--noprofile", "--norc", "-eo", "pipefail", "-c", "a && b"];
    assert_eq!(command_of(&bash).command, expected);
    let bash = job("{}", "[{run: 'a && b', shell: bash}]");
    assert_eq!(command_of(&bash).command, expected);
    let sh = job("{}", "[{run: 'a && b', shell: sh}]");
    assert_eq!(command_of(&sh).command, vec!["sh", "-e", "-c", "a && b"]);
    let other = job("{}", "[{run: make, shell: pwsh}]");
    assert_eq!(failure_of(&other), "Shell 'pwsh' not supported");
}

#[test]
fn a_step_needs_something_to_run() {
    let job = job("{}", "[{id: x, env: {A: b}}]");
    assert_eq!(
        failure_of(&job),
        "Expected field uses/run, missing in Mapping {\"id\": String(\"x\")} at workflow job 'j' step 0"
    );
}

#[test]
fn names_of_actions() {
    let name = parse_action_name("actions/cache/save@v2@x").unwrap();
    assert_eq!(name.owner, "actions");
    assert_eq!(name.repo, "cache/save");
    assert_eq!(name.git_ref, "v2@x");
    for bad in ["actions/cache", "actions@v2", "", "@a/b", "docker:a@b"] {
        match parse_action_name(bad) {
            Ok(_) => panic!("{} is no action", bad),
            Err(e) => {
                assert_eq!(e.kind(), &RunnerErrorKind::BadActionName { action: bad.to_string() });
                assert_eq!(e.message(), format!("Cannot parse action name '{}'", bad));
            }
        }
    }
}

const ACTION: &str = "
inputs:
  fetch-depth: {default: 1}
  token: {default: '${{ github.token }}'}
  path: {}
  given: {default: unused}
runs: {using: node12, main: dist/index.js}
";

#[test]
fn an_action_gets_its_inputs() {
    let job = job("{}", "[{uses: 'a/b@c', with: {given: '${{ github.repository }}', unknown: x}}]");
    let plan = action_of(&job);
    assert_eq!(plan.name, "a/b@c");
    let spec = match job.configure_action_file(plan, ACTION.as_bytes()) {
        Ok(spec) => spec,
        Err(e) => panic!("{}", e.message()),
    };
    let get = |key: &str| spec.env.get(key).cloned();
    assert_eq!(get("INPUT_FETCH_DEPTH"), Some("1".to_string()));
    assert_eq!(get("INPUT_TOKEN"), Some("tok".to_string()));
    assert_eq!(get("INPUT_PATH"), None);
    assert_eq!(get("INPUT_GIVEN"), Some("o/r".to_string()));
    assert_eq!(get("INPUT_UNKNOWN"), None);
    assert_eq!(get("FORCED"), Some("yes".to_string()));
    assert_eq!(
        spec.command,
        vec!["node", "/github/.gha-runner/step0/action/dist/index.js"]
    );
}

fn action_failure(action: &str) -> String {
    let job = job("{}", "[{uses: 'a/b@c'}]");
    match job.configure_action_file(action_of(&job), action.as_bytes()) {
        Ok(_) => panic!("the action should be refused"),
        Err(e) => e.message(),
    }
}

#[test]
fn actions_that_cannot_be_run() {
    assert_eq!(
        action_failure("runs: {using: node12, main: m, pre: p}"),
        "'pre' rules not supported for action 'a/b@c'"
    );
    assert_eq!(
        action_failure("runs: {using: docker, image: i}"),
        "Unsupported type 'docker' for action 'a/b@c'"
    );
    assert_eq!(
        action_failure("runs: {main: m}"),
        "Expected field using, missing in Mapping {\"main\": String(\"m\")}"
    );
    assert_eq!(action_failure("name: n"), "Expected field runs, missing in Mapping {\"name\": String(\"n\")}");
    assert_eq!(
        action_failure("inputs: x\nruns: {using: node12, main: m}"),
        "Expected mapping, got String(\"x\") at action a/b@c job 'j' step 0"
    );
}

#[test]
fn an_action_that_is_no_yaml_is_refused() {
    let data = b"runs: [";
    let expected = serde_yaml::from_slice::<serde_yaml::Value>(data).unwrap_err().to_string();
    match read_action_yaml("a/b@c", data) {
        Ok(_) => panic!("the action should be refused"),
        Err(e) => {
            assert_eq!(e.message(), format!("Invalid YAML for action 'a/b@c': {}", expected))
        }
    }
    assert_eq!(
        action_download_error("a/b@c", "action.yml not found".to_string()).message(),
        "Failed to download action 'a/b@c': action.yml not found"
    );
}

fn paths_of(list: &[Preparation]) -> Vec<String> {
    list.iter()
        .map(|p| match p {
            Preparation::PublicDir(path) => format!("public {}", path),
            Preparation::Dir(path) => format!("dir {}", path),
            Preparation::File(path, contents) => format!("file {} {}", path, contents),
        })
        .collect()
}

/// Runs a step of a job whose script prints `printed`.
fn run_step(job: &mut JobRunner, printed: &[&[u8]], code: i32, env: &[u8], path: &[u8]) -> String {
    let (state, action) = StepState::Start.advance(job, StepEvent::Begin);
    match action {
        StepAction::Prepare(list) => assert!(list.len() == 1 || list.len() == 5),
        _ => panic!("a step starts with its preparations"),
    }
    let (state, action) = state.advance(job, StepEvent::Prepared);
    let (mut script, command) = match action {
        StepAction::BeginScript { head, command, .. } => (head, command),
        StepAction::Done(Err(e)) => return e.message(),
        _ => panic!("a command is ready to be run"),
    };
    let (mut state, action) = state.advance(job, StepEvent::Interposed(command));
    match action {
        StepAction::Run { path, tail, container, command } => {
            assert_eq!(format!("/github/{}", path), command);
            assert_eq!(container, ContainerId(0));
            script.push_str(&tail);
        }
        _ => panic!("the script is run"),
    }
    for piece in printed {
        let (next, action) = state.advance(job, StepEvent::Output(piece.to_vec()));
        assert!(matches!(action, StepAction::Listen));
        state = next;
    }
    let (state, action) = state.advance(job, StepEvent::Exited(code));
    assert!(matches!(action, StepAction::ReadFiles));
    let (state, action) = state.advance(job, StepEvent::FilesRead(env.to_vec(), path.to_vec()));
    assert!(matches!(state, StepState::Over));
    match action {
        StepAction::Done(Ok(c)) => assert_eq!(c, code),
        _ => panic!("the step has ended"),
    }
    script
}

#[test]
fn steps_run_one_after_the_other() {
    let mut job = job("{}", "[{run: one}, {run: two, name: second}, {run: three}]");
    assert_eq!(
        paths_of(&job.prepare_step()),
        vec![
            "public workspace",
            "public .gha-runner",
            "file .gha-runner/event {}",
            "public .gha-runner/hostedtoolcache",
            "dir .gha-runner/step0",
        ]
    );
    let script = run_step(
        &mut job,
        &[b"::set-output na", b"me=a::1\n"],
        0,
        b"NEW=value\n",
        b"/added\n/last\n",
    );
    assert!(script.ends_with(
        "ln -s /github/.gha-runner/hostedtoolcache $RUNNER_TOOL_CACHE\ncd /github/workspace\nexec one"
    ));
    assert!(!script.contains("NEW"));
    assert_eq!(job.next_step_index(), StepIndex(1));
    assert_eq!(job.next_step_name().unwrap(), Some("second".to_string()));
    assert_eq!(job.find_step_by_name("second").unwrap(), Some(StepIndex(1)));
    assert_eq!(paths_of(&job.prepare_step()), vec!["dir .gha-runner/step1"]);
    let script = run_step(&mut job, &[], 3, b"", b"");
    assert!(script.contains("export NEW=value\n"));
    assert!(script.ends_with("export PATH=/last:/added:$PATH\ncd /github/workspace\nexec two"));
    assert_eq!(job.next_step_index(), StepIndex(2));
    assert_eq!(job.find_step_by_name("second").unwrap(), None);
    run_step(&mut job, &[], 0, b"", b"");
    assert_eq!(job.next_step_index(), job.step_count());
    assert_eq!(job.next_step_name().unwrap(), None);
}

#[test]
fn a_step_that_cannot_be_planned_does_not_advance() {
    let mut job = job("{}", "[{run: make, shell: pwsh}]");
    assert_eq!(run_step(&mut job, &[], 0, b"", b""), "Shell 'pwsh' not supported");
    assert_eq!(job.next_step_index(), StepIndex(0));
}

#[test]
fn a_step_whose_script_cannot_be_written_advances() {
    let mut job = job("{}", "[{run: make, env: {'A=B': x}}]");
    let (state, _) = StepState::Start.advance(&mut job, StepEvent::Begin);
    let (state, action) = state.advance(&mut job, StepEvent::Prepared);
    assert!(matches!(state, StepState::Over));
    match action {
        StepAction::AbortScript { path, head, error } => {
            assert_eq!(path, ".gha-runner/step0/run");
            assert!(head.starts_with("#!/bin/bash -l\nexport CI=true\n"));
            assert_eq!(
                error.kind(),
                &RunnerErrorKind::InvalidEnvironmentVariableName { name: "A=B".to_string() }
            );
        }
        _ => panic!("the script cannot be written"),
    }
    assert_eq!(job.next_step_index(), StepIndex(1));
}

#[test]
fn an_action_is_fetched_before_it_is_run() {
    let mut job = job("{}", "[{uses: 'a/b@c'}]");
    let (state, _) = StepState::Start.advance(&mut job, StepEvent::Begin);
    let (state, action) = state.advance(&mut job, StepEvent::Prepared);
    match action {
        StepAction::Fetch { action, dir } => {
            assert_eq!((action.owner.as_str(), action.repo.as_str()), ("a", "b"));
            assert_eq!(action.git_ref, "c");
            assert_eq!(dir, ".gha-runner/step0/action");
        }
        _ => panic!("the action is fetched"),
    }
    let (_, action) = state.advance(&mut job, StepEvent::Fetched(ACTION.as_bytes().to_vec()));
    match action {
        StepAction::BeginScript { path, head, command } => {
            assert_eq!(path, ".gha-runner/step0/run");
            assert!(head.contains("export INPUT_TOKEN=tok\n"));
            assert_eq!(command[0], "node");
        }
        _ => panic!("the script is begun"),
    }
}

#[test]
fn an_action_that_cannot_be_fetched_ends_the_step() {
    let mut job = job("{}", "[{uses: 'a/b@c'}]");
    let (state, _) = StepState::Start.advance(&mut job, StepEvent::Begin);
    let (state, _) = state.advance(&mut job, StepEvent::Prepared);
    let (state, action) = state.advance(&mut job, StepEvent::FetchFailed("offline".to_string()));
    assert!(matches!(state, StepState::Over));
    match action {
        StepAction::Done(Err(e)) => {
            assert_eq!(
                e.kind(),
                &RunnerErrorKind::ActionDownloadError {
                    action: "a/b@c".to_string(),
                    inner: "offline".to_string()
                }
            );
        }
        _ => panic!("the step has failed"),
    }
    assert_eq!(job.next_step_index(), StepIndex(0));
}

#[test]
fn the_first_failing_step_decides() {
    let mut job = job("{}", "[{run: one}, {run: two, name: second}, {run: three}]");
    let codes = [0, 101, 7];
    let mut at = 0;
    let mut result = before_steps(&job);
    while result.is_none() {
        let step = next_step(&job).unwrap_or_else(|e| panic!("{}", e.message())).unwrap();
        assert_eq!(step.index, StepIndex(at as u32));
        run_step(&mut job, &[], codes[at], b"", b"");
        result = after_step(&job, step.name, codes[at]);
        at += 1;
    }
    assert_eq!(at, 2);
    assert_eq!(
        result.clone(),
        Some(WorkflowResult::StepFailed { step_name: Some("second".to_string()), exit_code: 101 })
    );
    assert_eq!(after_exit(None, 0), None);
    assert_eq!(step_label(&None), "<anonymous>");
    assert_eq!(step_label(&Some("x".to_string())), "x");
}

#[test]
fn a_job_without_steps_is_over_at_once() {
    let job = job("{}", "[]");
    assert_eq!(before_steps(&job), Some(WorkflowResult::AllStepsPassed));
    assert!(next_step(&job).unwrap_or_else(|e| panic!("{}", e.message())).is_none());
}

#[test]
fn going_on_keeps_what_is_set() {
    let mut job = job("{}", "[{run: one}, {run: two}]");
    let mut outputs = OrderedMap::new();
    outputs.insert("a".to_string(), "b".to_string());
    job.finish_step(outputs, &b"K=1\n".to_vec(), &b"/p".to_vec());
    let spec = command_of(&job);
    assert_eq!(spec.env.get("K"), Some(&"1".to_string()));
    assert_eq!(spec.paths, vec!["/p"]);
    job.fail_step();
    assert_eq!(job.next_step_index(), StepIndex(2));
}

#[test]
fn a_workflow_passes_once_no_step_is_left() {
    let mut job = job("{}", "[{run: one}, {run: two}]");
    assert_eq!(before_steps(&job), None);
    run_step(&mut job, &[], 0, b"", b"");
    assert_eq!(after_step(&job, None, 0), None);
    run_step(&mut job, &[], 0, b"", b"");
    assert_eq!(after_step(&job, None, 0), Some(WorkflowResult::AllStepsPassed));
    assert_eq!(
        after_step(&job, None, -1),
        Some(WorkflowResult::StepFailed { step_name: None, exit_code: -1 })
    );
}

#[test]
fn an_action_is_described_by_one_of_two_files() {
    assert_eq!(action_file_name(0), Some("action.yml".to_string()));
    assert_eq!(action_file_name(1), Some("action.yaml".to_string()));
    assert_eq!(action_file_name(2), None);
}

#[test]
fn a_step_is_run_from_its_start_to_its_end() {
    let mut job = job("{}", "[{run: one}, {run: two}]");
    assert_eq!(job.next_step_index(), StepIndex(0));
    let (state, _) = StepState::Start.advance(&mut job, StepEvent::Begin);
    let (state, action) = state.advance(&mut job, StepEvent::Prepared);
    let command = match action {
        StepAction::BeginScript { command, .. } => command,
        _ => panic!("the script is not begun"),
    };
    let (state, _) = state.advance(&mut job, StepEvent::Interposed(command));
    let (state, _) = state.advance(&mut job, StepEvent::Output(b"::set-out".to_vec()));
    let (state, _) = state.advance(&mut job, StepEvent::Output(b"put name=k::v\n".to_vec()));
    let (state, _) = state.advance(&mut job, StepEvent::Exited(3));
    assert_eq!(job.next_step_index(), StepIndex(0));
    let (_, action) = state.advance(&mut job, StepEvent::FilesRead(Vec::new(), Vec::new()));
    assert!(matches!(action, StepAction::Done(Ok(3))));
    assert_eq!(job.next_step_index(), StepIndex(1));
    assert_eq!(job.step_count(), StepIndex(2));
}
