use gha_runner::yaml::{parse, Number};
use gha_runner::{
    ContainerImage, DockerImageMapping, ErrorContextRoot, JobDescription, JobRunner, Runner,
    RunnerContext, RunnerError, RunnerErrorKind, StepIndex, Yaml,
};

fn config() -> RunnerContext {
    RunnerContext {
        owner: "Pernosco".to_string(),
        repo: "github-actions-test".to_string(),
        commit_sha: vec![0x64, 0x75, 0xd0, 0xf0],
        commit_ref: Some("refs/heads/main".to_string()),
        workflow_repo_path: ".github/workflows/build.yml".to_string(),
        run_id: 7,
        run_number: -3,
        job_id: 9,
        actor: "somebody".to_string(),
        token: "secret".to_string(),
        override_env: vec![("FORCED".to_string(), "yes".to_string())],
    }
}

fn images() -> DockerImageMapping {
    DockerImageMapping {
        ubuntu_18_04: "ghcr.io/catthehacker/ubuntu:act-18.04".into(),
        ubuntu_20_04: "ghcr.io/catthehacker/ubuntu:act-20.04".to_string().into(),
    }
}

fn runner(workflow: &str) -> Runner {
    Runner::new(config(), workflow.as_bytes()).unwrap_or_else(|e| panic!("{}", e.message()))
}

fn refused(workflow: &str) -> RunnerError {
    match Runner::new(config(), workflow.as_bytes()) {
        Ok(_) => panic!("the workflow should be refused"),
        Err(e) => e,
    }
}

fn names(runner: &Runner) -> Vec<String> {
    runner.job_descriptions().iter().map(|d| d.name().to_string()).collect()
}

fn job_runner(runner: &Runner, job: usize) -> JobRunner {
    let description: &JobDescription = &runner.job_descriptions()[job];
    match runner.job_runner(description, &images()) {
        Ok(r) => r,
        Err(e) => panic!("{}", e.message()),
    }
}

fn mismatch(expected: &str, got: &str) -> RunnerErrorKind {
    RunnerErrorKind::TypeMismatch {
        expected: expected.to_string(),
        got: parse(got.as_bytes()).unwrap(),
    }
}

const BUILD: &str = "
name: Build
env: {LEVEL: 2, FLAG: true, WHO: workflow}
jobs:
  build:
    name: 'Build+test'
    runs-on: ${{ matrix.os }}
    strategy:
      matrix:
        toolchain: [stable, nightly]
        os: [ubuntu-18.04, ubuntu-latest]
        include:
          - toolchain: beta
            os: windows-latest
            number: 3
    env: {WHO: 'job ${{ matrix.toolchain }}'}
    steps:
      - uses: actions/checkout@v2
      - name: 'test ${{ matrix.toolchain }}'
        run: cargo test
        env: {OWN: 'x', FORCED: 'no'}
  lint:
    runs-on: [self-hosted, 5]
    steps: []
";

#[test]
fn a_matrix_derives_jobs() {
    let runner = runner(BUILD);
    assert_eq!(
        names(&runner),
        vec![
            "Build+test (stable, ubuntu-18.04)",
            "Build+test (stable, ubuntu-latest)",
            "Build+test (nightly, ubuntu-18.04)",
            "Build+test (nightly, ubuntu-latest)",
            "Build+test (beta, windows-latest)",
            "lint",
        ]
    );
    let jobs = runner.job_descriptions();
    assert_eq!(jobs[0].runs_on(), ["ubuntu-18.04".to_string()]);
    assert_eq!(jobs[5].runs_on(), ["self-hosted".to_string(), "5".to_string()]);
    assert_eq!(
        jobs[0].main_container(&images()),
        Some(ContainerImage("ghcr.io/catthehacker/ubuntu:act-18.04".to_string()))
    );
    assert_eq!(
        jobs[1].main_container(&images()),
        Some(ContainerImage("ghcr.io/catthehacker/ubuntu:act-20.04".to_string()))
    );
    assert_eq!(jobs[4].main_container(&images()), None);
}

#[test]
fn a_matrix_with_includes_alone_has_an_empty_combination_too() {
    let runner = runner(
        "jobs: {j: {runs-on: ubuntu-20.04, steps: [], strategy: {matrix: {include: [{a: x}]}}}}",
    );
    assert_eq!(names(&runner), vec!["j ()", "j (x)"]);
}

#[test]
fn a_matrix_without_combinations_derives_nothing() {
    let runner = runner(
        "jobs: {j: {runs-on: ubuntu-20.04, steps: [], strategy: {matrix: {a: []}}}, k: {runs-on: x, steps: [], strategy: {fail-fast: false}}}",
    );
    assert_eq!(names(&runner), vec!["j", "k"]);
}

#[test]
fn a_workflow_without_jobs_has_none() {
    assert_eq!(names(&runner("name: empty")).len(), 0);
    assert_eq!(names(&runner("jobs: {}")).len(), 0);
}

#[test]
fn platforms_without_an_image_are_not_supported() {
    let runner = runner("jobs: {a: {runs-on: windows-latest, steps: []}, b: {runs-on: [], steps: []}, c: {runs-on: ubuntu-20.04, steps: []}}");
    for (job, platform) in [(0, "windows-latest"), (1, "<none>")] {
        match runner.job_runner(&runner.job_descriptions()[job], &images()) {
            Ok(_) => panic!("not supported"),
            Err(e) => {
                assert_eq!(
                    e.kind(),
                    &RunnerErrorKind::UnsupportedPlatform { runs_on: platform.to_string() }
                );
                assert_eq!(e.message(), format!("Platform '{}' not supported", platform));
            }
        }
    }
    let job = job_runner(&runner, 2);
    assert_eq!(
        job.container_images(),
        [ContainerImage("ghcr.io/catthehacker/ubuntu:act-20.04".to_string())]
    );
    assert_eq!(job.step_count(), StepIndex(0));
    assert_eq!(job.next_step_name().unwrap(), None);
}

#[test]
fn a_workflow_that_is_no_yaml_is_refused() {
    let data = "a: [";
    let expected = serde_yaml::from_str::<serde_yaml::Value>(data).unwrap_err().to_string();
    let e = refused(data);
    assert_eq!(e.message(), format!("Invalid workflow YAML: {}", expected));
    assert_eq!(e.context(), None);
}

#[test]
fn parts_of_the_wrong_type_are_refused() {
    // The whole workflow.
    let e = refused("[1]");
    assert_eq!(e.kind(), &mismatch("mapping", "[1]"));
    assert_eq!(e.context(), None);
    // The jobs.
    let e = refused("jobs: text");
    assert_eq!(e.kind(), &mismatch("mapping", "text"));
    assert_eq!(e.message(), "Expected mapping, got String(\"text\") at workflow");
    // A key.
    let e = refused("env: {1: x}");
    assert_eq!(e.kind(), &mismatch("string key", "1"));
    // A value.
    let e = refused("env: {a: [x]}");
    assert_eq!(e.kind(), &mismatch("string", "[x]"));
    // A job.
    let e = refused("jobs: {j: text}");
    assert_eq!(e.kind(), &mismatch("mapping", "text"));
    assert_eq!(e.context(), None);
    // A strategy.
    let e = refused("jobs: {j: {strategy: 1}}");
    assert_eq!(e.kind(), &mismatch("mapping", "1"));
    // A matrix.
    let e = refused("jobs: {j: {strategy: {matrix: [1]}}}");
    assert_eq!(e.kind(), &mismatch("mapping", "[1]"));
    assert_eq!(e.context().unwrap().message(), "workflow");
    let e = refused("jobs: {j: {strategy: {matrix: {a: 1}}}}");
    assert_eq!(e.kind(), &mismatch("matrix list of values", "1"));
    let e = refused("jobs: {j: {strategy: {matrix: {~: [x]}}}}");
    assert_eq!(e.kind(), &mismatch("string key", "~"));
    let e = refused("jobs: {j: {strategy: {matrix: {include: x}}}}");
    assert_eq!(e.kind(), &mismatch("sequence of includes", "x"));
    let e = refused("jobs: {j: {strategy: {matrix: {include: [x]}}}}");
    assert_eq!(e.kind(), &mismatch("mapping", "x"));
    // The platforms.
    let e = refused("jobs: {j: {runs-on: {a: b}, steps: []}}");
    assert_eq!(e.kind(), &mismatch("String or array of strings", "{a: b}"));
    assert_eq!(e.context().unwrap().message(), "workflow job 'j'");
    let e = refused("jobs: {j: {runs-on: [[x]], steps: []}}");
    assert_eq!(e.kind(), &mismatch("string", "[x]"));
    // The steps.
    let e = refused("jobs: {j: {name: J, runs-on: x, steps: ~}}");
    assert_eq!(e.kind(), &mismatch("Array of steps", "~"));
    assert_eq!(e.context().unwrap().job_name, Some("J".to_string()));
    assert_eq!(e.context().unwrap().root, ErrorContextRoot::Workflow);
    assert_eq!(e.context().unwrap().step, None);
}

#[test]
fn missing_fields_are_reported() {
    let e = refused("jobs: {j: {runs-on: x}}");
    assert_eq!(
        e.kind(),
        &RunnerErrorKind::RequiredFieldMissing {
            field_name: "steps",
            got: parse(b"{runs-on: x}").unwrap()
        }
    );
    assert_eq!(
        e.message(),
        "Expected field steps, missing in Mapping {\"runs-on\": String(\"x\")} at workflow job 'j'"
    );
    let e = refused("jobs: {j: {strategy: {matrix: {a: [b]}}, steps: []}}");
    assert_eq!(
        e.message(),
        "Expected field runs-on, missing in Mapping {\"steps\": Sequence []} at workflow"
    );
}

#[test]
fn numbers_that_are_not_whole_are_not_implemented() {
    let e = refused("env: {a: 1.5}");
    assert_eq!(
        e.kind(),
        &RunnerErrorKind::NotImplemented { what: "Unsupported number Number(1.5)".to_string() }
    );
    assert_eq!(e.message(), "Unsupported number Number(1.5)");
}

#[test]
fn a_parsed_workflow_gives_the_same_runner() {
    let value = parse(BUILD.as_bytes()).unwrap();
    let parsed =
        Runner::from_workflow(config(), gha_runner::models::Workflow(value)).unwrap_or_else(|e| {
            panic!("{}", e.message())
        });
    assert_eq!(names(&parsed), names(&runner(BUILD)));
}

#[test]
fn steps_have_names() {
    let runner = runner(BUILD);
    let job = job_runner(&runner, 2);
    assert_eq!(job.job_name(), "Build+test (nightly, ubuntu-18.04)");
    assert_eq!(job.step_count(), StepIndex(2));
    assert_eq!(job.next_step_index(), StepIndex(0));
    assert_eq!(job.next_step_name().unwrap(), None);
    assert_eq!(job.find_step_by_name("test nightly").unwrap(), Some(StepIndex(1)));
    assert_eq!(job.find_step_by_name("test stable").unwrap(), None);
    let env = job.peek_step_env(StepIndex(1)).unwrap();
    assert_eq!(env.keys(), vec!["OWN", "FORCED"]);
    assert_eq!(env.get("FORCED"), Some(&"yes".to_string()));
    let env = job.peek_step_env(StepIndex(0)).unwrap();
    assert_eq!(env.keys(), vec!["FORCED"]);
}

#[test]
fn a_bad_step_name_is_reported_with_its_step() {
    let runner = runner("jobs: {j: {runs-on: ubuntu-20.04, steps: [{name: a}, {name: [b]}]}}");
    let job = job_runner(&runner, 0);
    assert_eq!(job.next_step_name().unwrap(), Some("a".to_string()));
    assert_eq!(job.find_step_by_name("a").unwrap(), Some(StepIndex(0)));
    let e = job.find_step_by_name("b").unwrap_err();
    assert_eq!(e.message(), "Expected string, got Sequence [String(\"b\")] at workflow job 'j' step 1");
}

#[test]
fn every_documented_variable_is_set() {
    let env = config().create_env(Some("Build".to_string()));
    let expected = [
        ("CI", "true"),
        ("GITHUB_WORKFLOW", "Build"),
        ("GITHUB_RUN_ID", "7"),
        ("GITHUB_RUN_NUMBER", "-3"),
        ("GITHUB_JOB", "9"),
        ("GITHUB_ACTIONS", "true"),
        ("GITHUB_ACTOR", "somebody"),
        ("GITHUB_REPOSITORY", "Pernosco/github-actions-test"),
        ("GITHUB_EVENT_NAME", "push"),
        ("GITHUB_EVENT_PATH", "/github/.gha-runner/event"),
        ("GITHUB_PATH", "/github/.gha-runner/path"),
        ("GITHUB_ENV", "/github/.gha-runner/env"),
        ("GITHUB_WORKSPACE", "/github/workspace"),
        ("GITHUB_SHA", "6475d0f0"),
        ("GITHUB_REF", "refs/heads/main"),
        ("GITHUB_SERVER_URL", "https://github.com"),
        ("GITHUB_API_URL", "https://api.github.com"),
        ("GITHUB_GRAPHQL_URL", "https://api.github.com/graphql"),
        ("GITHUB_TOKEN", "secret"),
        ("RUNNER_OS", "Linux"),
        ("RUNNER_TEMP", "/tmp"),
        ("RUNNER_TOOL_CACHE", "/opt/hostedtoolcache"),
    ];
    let listed: Vec<(String, String)> =
        env.pairs().into_iter().map(|(k, v)| (k, v.clone())).collect();
    let expected: Vec<(String, String)> =
        expected.iter().map(|(k, v)| (k.to_string(), v.to_string())).collect();
    assert_eq!(listed, expected);
    let mut without_ref = config();
    without_ref.commit_ref = None;
    let env = without_ref.create_env(None);
    assert_eq!(env.get("GITHUB_REF"), None);
    assert_eq!(env.get("GITHUB_WORKFLOW"), Some(&".github/workflows/build.yml".to_string()));
}

#[test]
fn overriding_variables_come_last() {
    let mut ctx = config();
    ctx.override_env = vec![
        ("A".to_string(), "1".to_string()),
        ("B".to_string(), "2".to_string()),
        ("A".to_string(), "3".to_string()),
    ];
    let mut env = gha_runner::OrderedMap::new();
    env.insert("B".to_string(), "old".to_string());
    env.insert("C".to_string(), "kept".to_string());
    let env = ctx.clone().apply_env(env);
    assert_eq!(env.keys(), vec!["C", "B", "A"]);
    assert_eq!(env.get("A"), Some(&"3".to_string()));
    assert_eq!(env.get("B"), Some(&"2".to_string()));
}

#[test]
fn hashes_are_hexadecimal() {
    assert_eq!(gha_runner::decode_sha("6475d0F0"), Some(vec![0x64, 0x75, 0xd0, 0xf0]));
    assert_eq!(gha_runner::decode_sha(""), Some(vec![]));
    assert_eq!(gha_runner::decode_sha("647"), None);
    assert_eq!(gha_runner::decode_sha("6g"), None);
    assert_eq!(gha_runner::decode_sha("é"), None);
    let bytes: Vec<u8> = (0..=255u8).collect();
    let mut ctx = config();
    ctx.commit_sha = bytes.clone();
    let sha = ctx.create_env(None).get("GITHUB_SHA").unwrap().clone();
    assert_eq!(gha_runner::decode_sha(&sha), Some(bytes));
}

#[test]
fn whole_numbers_are_printed_in_full() {
    for (n, expected) in [
        (Number::Signed(i64::MIN), "-9223372036854775808"),
        (Number::Signed(0), "0"),
        (Number::Signed(10), "10"),
        (Number::Unsigned(u64::MAX), "18446744073709551615"),
        (Number::Float("1e3".to_string()), "1e3"),
    ] {
        assert_eq!(n.text(), expected);
        assert_eq!(Yaml::Number(n).show(), format!("Number({})", expected));
    }
}
