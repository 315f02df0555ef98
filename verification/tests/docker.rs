use gha_runner::docker::{
    create_failure, create_failure_of, docker_create_args, docker_exec_args, docker_remove_args,
    exit_code_of, find_job, images_at, local_context, locate_workflow, read_container_id, strace_command,
    strace_setup_commands, OpenStreams, ReadAction, Stream, WorkflowSource,
};
use gha_runner::{zero_access_token, ContainerImage, ErrorContext, ErrorContextRoot, Runner, StepIndex};

#[test]
fn the_arguments_of_docker() {
    let image = ContainerImage::from("some/image:tag");
    assert_eq!(
        docker_create_args("/tmp/x y", &image),
        vec![
            "run",
            "--detach=true",
            "--tmpfs",
            "/tmp:exec",
            "--init",
            "--cap-add",
            "LINUX_IMMUTABLE",
            "--mount",
            "type=bind,src=/tmp/x y,dst=/github",
            "--entrypoint",
            "sleep",
            "some/image:tag",
            "1000000",
        ]
    );
    assert_eq!(
        docker_exec_args("id", &vec!["sudo".to_string(), "apt".to_string()]),
        vec!["exec", "--tty", "id", "sudo", "apt"]
    );
    assert_eq!(docker_remove_args("id"), vec!["rm", "-f", "id"]);
    assert_eq!(
        create_failure(&image, "no"),
        "Failed to create docker container for some/image:tag:\nno"
    );
    assert_eq!(
        create_failure_of(&image, "n\u{f6}".as_bytes()),
        "Failed to create docker container for some/image:tag:\nn\u{f6}"
    );
    assert_eq!(
        create_failure_of(&image, b"n\xf6!"),
        "Failed to create docker container for some/image:tag:\nn\u{fffd}!"
    );
}

#[test]
fn the_answers_of_docker() {
    assert_eq!(read_container_id(b" \n0123 abc\r\n"), Some("0123 abc".to_string()));
    assert_eq!(read_container_id(b"\xe2\x80\x83x\xe2\x80\x83"), Some("x".to_string()));
    assert_eq!(read_container_id(b" \t\n"), Some("".to_string()));
    assert_eq!(read_container_id(b"\xff"), None);
    assert_eq!(exit_code_of(Some(7)), 7);
    assert_eq!(exit_code_of(None), -1);
}

#[test]
fn both_streams_are_read_to_their_end() {
    let mut open = OpenStreams::both();
    assert!(open.any());
    assert_eq!(open.read(Stream::Stdout, 3), ReadAction::FilterAndHandle);
    assert_eq!(open.read(Stream::Stderr, 1), ReadAction::Handle);
    assert_eq!(open, OpenStreams::both());
    assert_eq!(open.read(Stream::Stdout, 0), ReadAction::Close);
    assert!(open.any() && !open.stdout && open.stderr);
    assert_eq!(open.read(Stream::Stderr, 2), ReadAction::Handle);
    assert_eq!(open.read(Stream::Stderr, 0), ReadAction::Close);
    assert!(!open.any());
}

#[test]
fn workflows_are_files_or_in_the_repository() {
    let (source, path) = locate_workflow("/home/me/build.yml");
    assert!(matches!(source, WorkflowSource::File));
    assert_eq!(path, ".github/workflows//home/me/build.yml");
    let (source, path) = locate_workflow(".github/workflows/build.yml");
    assert!(matches!(source, WorkflowSource::Repository));
    assert_eq!(path, ".github/workflows/build.yml");
    let (source, _) = locate_workflow("");
    assert!(matches!(source, WorkflowSource::Repository));
}

#[test]
fn the_token_without_rights() {
    assert_eq!(zero_access_token().len(), 40);
    assert!(zero_access_token().starts_with("ghp_7EMsGDj8"));
}

#[test]
fn local_runs_have_fixed_numbers() {
    let ctx = local_context("o", "r", "0aFF", "w.yml".to_string(), "tok".to_string()).unwrap();
    assert_eq!(ctx.owner, "o");
    assert_eq!(ctx.repo, "r");
    assert_eq!(ctx.commit_sha, vec![0x0a, 0xff]);
    assert_eq!(ctx.commit_ref, None);
    assert_eq!(ctx.workflow_repo_path, "w.yml");
    assert_eq!((ctx.run_id, ctx.run_number, ctx.job_id), (1, 1, 1));
    assert_eq!(ctx.actor, "gha-runner");
    assert_eq!(ctx.token, "tok");
    assert_eq!(ctx.override_env.len(), 0);
    assert!(local_context("o", "r", "0aF", "w".to_string(), "t".to_string()).is_none());

    let data = b"jobs: {a: {name: x, runs-on: l, steps: []}, b: {runs-on: l, steps: []}, c: {name: x, runs-on: l, steps: []}}";
    let runner = Runner::new(ctx, data).unwrap_or_else(|e| panic!("{}", e.message()));
    assert_eq!(find_job(runner.job_descriptions(), "x"), Some(0));
    assert_eq!(find_job(runner.job_descriptions(), "b"), Some(1));
    assert_eq!(find_job(runner.job_descriptions(), "a"), None);
}

#[test]
fn steps_can_be_traced() {
    let mut command = vec!["make".to_string(), "all".to_string()];
    strace_command(&mut command);
    assert_eq!(
        command,
        vec!["strace", "-f", "-o", "/github/.gha-runner/strace.out", "make", "all"]
    );
    assert_eq!(
        strace_setup_commands(),
        vec![vec!["sudo", "apt", "update"], vec!["sudo", "apt", "install", "-y", "strace"]]
    );
    let images = images_at("ghcr.io/catthehacker/ubuntu:act");
    assert_eq!(images.ubuntu_18_04.0, "ghcr.io/catthehacker/ubuntu:act-18.04");
    assert_eq!(images.ubuntu_20_04.clone().0, "ghcr.io/catthehacker/ubuntu:act-20.04");
}

#[test]
fn contexts_are_printed() {
    let action = ErrorContext::new(ErrorContextRoot::Action("a/b@c".to_string()));
    assert_eq!(action.message(), "action a/b@c");
    assert_eq!(action.clone().step(StepIndex(4)).message(), "action a/b@c");
    let named = action.job_name(Some("j".to_string()));
    assert_eq!(named.message(), "action a/b@c job 'j'");
    assert_eq!(named.step(StepIndex(4)).message(), "action a/b@c job 'j' step 4");
    assert_eq!(ErrorContextRoot::Workflow.message(), "workflow");
}
