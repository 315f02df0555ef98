use gha_runner::contexts::{
    ActionContext, JobContext, JobPostStrategyContext, PreStepContext, RootContext, StepContext,
};
use gha_runner::models::{
    take_field, to_string_map, Action, Job, Matrix, Step, Strategy, Workflow,
};
use gha_runner::yaml::parse;
use gha_runner::{
    ErrorContextRoot, OrderedMap, RunnerContext, RunnerErrorKind, StepIndex, Yaml,
};

fn config() -> RunnerContext {
    RunnerContext {
        owner: "o".to_string(),
        repo: "r".to_string(),
        commit_sha: Vec::new(),
        commit_ref: None,
        workflow_repo_path: "w.yml".to_string(),
        run_id: 1,
        run_number: 1,
        job_id: 1,
        actor: "a".to_string(),
        token: "tok".to_string(),
        override_env: Vec::new(),
    }
}

fn yaml(s: &str) -> Yaml {
    parse(s.as_bytes()).unwrap()
}

#[test]
fn fields_are_taken_out_of_a_workflow() {
    let ctx = config();
    let root = RootContext::new(&ctx, ErrorContextRoot::Workflow);
    let mut w = Workflow(yaml("{name: n, env: {A: '${{ github.token }}', B: false}, jobs: {x: {}, y: 1}}"));
    assert_eq!(w.take_name(&root).unwrap(), Some("n".to_string()));
    assert_eq!(w.take_name(&root).unwrap(), None);
    let env = w.take_env(&root).unwrap();
    assert_eq!(env.keys(), vec!["A", "B"]);
    assert_eq!(env.get("A"), Some(&"tok".to_string()));
    assert_eq!(env.get("B"), Some(&"false".to_string()));
    let jobs = w.take_jobs(&root).unwrap();
    assert_eq!(jobs.keys(), vec!["x", "y"]);
    assert_eq!(jobs.get("y").unwrap().0, yaml("1"));
    assert_eq!(w.0, yaml("{}"));
    assert_eq!(w.take_env(&root).unwrap().keys().len(), 0);
    assert_eq!(w.take_jobs(&root).unwrap().keys().len(), 0);
}

#[test]
fn the_keys_of_a_matrix_leave_its_includes() {
    let ctx = config();
    let context = JobContext::new(&ctx);
    let mut m = Matrix(yaml("{a: [1, 2], include: [{b: '${{ github.token }}'}], c: ['x']}"));
    let keys = m.take_keys(&context).unwrap();
    assert_eq!(keys.keys(), vec!["a", "c"]);
    assert_eq!(keys.get("c"), Some(&vec![yaml("x")]));
    assert_eq!(m.0, yaml("{include: [{b: '${{ github.token }}'}]}"));
    let included = m.take_include(&context).unwrap();
    assert_eq!(included.len(), 1);
    assert_eq!(included[0].get("b"), Some(&yaml("tok")));
    assert_eq!(m.0, yaml("{}"));
    assert_eq!(m.take_include(&context).unwrap().len(), 0);
}

#[test]
fn a_matrix_error_leaves_the_includes_before_it() {
    let ctx = config();
    let context = JobContext::new(&ctx);
    let mut m = Matrix(yaml("{include: [1], a: x, b: [2]}"));
    assert!(m.take_keys(&context).is_err());
    assert_eq!(m.0, yaml("{include: [1]}"));
    let mut m = Matrix(yaml("{a: x, include: [1]}"));
    assert!(m.take_keys(&context).is_err());
    assert_eq!(m.0, yaml("{}"));
}

#[test]
fn strategies_and_jobs() {
    let ctx = config();
    let context = JobContext::new(&ctx);
    let mut job = Job(yaml("{strategy: {matrix: {a: [1]}}, name: '${{ matrix.a }}', env: {V: '${{ matrix.b }}'}}"));
    let mut strategy: Strategy = job.take_strategy(&context).unwrap().unwrap();
    assert!(job.take_strategy(&context).unwrap().is_none());
    assert_eq!(strategy.take_matrix(&context).unwrap().unwrap().0, yaml("{a: [1]}"));
    assert!(strategy.take_matrix(&context).unwrap().is_none());
    let mut values = OrderedMap::new();
    values.insert("a".to_string(), yaml("12"));
    let post = JobPostStrategyContext::new(&ctx, &values);
    assert_eq!(job.clone_name(&post).unwrap(), Some("12".to_string()));
    assert_eq!(job.clone_name(&post).unwrap(), Some("12".to_string()));
    assert_eq!(
        job.clone_env(&post).err().unwrap().kind(),
        &RunnerErrorKind::ExpressionParseError { expression: "matrix.b ".to_string() }
    );
    let plain = Job(yaml("{runs-on: [a, 1], steps: [{run: x}]}"));
    assert_eq!(plain.clone_runs_on(&post).unwrap(), vec!["a", "1"]);
    assert_eq!(plain.clone_steps(&post).unwrap()[0].0, yaml("{run: x}"));
    assert_eq!(plain.clone_name(&post).unwrap(), None);
    assert_eq!(plain.clone_env(&post).unwrap().keys().len(), 0);
}

#[test]
fn fields_are_taken_out_of_a_step() {
    let ctx = config();
    let values = OrderedMap::new();
    let context = StepContext::new(&ctx, &values, "j", StepIndex(1));
    let pre = PreStepContext::new(&ctx, &values, "j", StepIndex(1));
    let source = "{name: 1, uses: u, run: r, shell: sh, working-directory: d, env: {A: b}, with: {c: true}}";
    let mut step = Step(yaml(source));
    assert_eq!(step.take_name(&context).unwrap(), Some("1".to_string()));
    assert_eq!(step.take_uses(&context).unwrap(), Some("u".to_string()));
    assert_eq!(step.take_run(&context).unwrap(), Some("r".to_string()));
    assert_eq!(step.take_shell(&context).unwrap(), Some("sh".to_string()));
    assert_eq!(step.take_working_directory(&context).unwrap(), Some("d".to_string()));
    assert_eq!(step.take_env(&context).unwrap().get("A"), Some(&"b".to_string()));
    assert_eq!(step.take_with(&context).unwrap().get("c"), Some(&"true".to_string()));
    assert_eq!(step.0, yaml("{}"));
    let mut step = Step(yaml(source));
    assert_eq!(step.take_name_pre(&pre).unwrap(), Some("1".to_string()));
    assert_eq!(step.take_env_pre(&pre).unwrap().get("A"), Some(&"b".to_string()));
    assert_eq!(step.take_run(&context).unwrap(), Some("r".to_string()));
}

#[test]
fn fields_are_taken_out_of_an_action() {
    let ctx = config();
    let context = ActionContext::new(&ctx, "a/b@c", "j", StepIndex(1));
    let mut action = Action(yaml(
        "{inputs: {x: {default: '${{ github.repository }}'}, y: {}}, runs: {using: node12, main: m.js, pre: p}}",
    ));
    let inputs = action.take_inputs(&context).unwrap();
    assert_eq!(inputs.keys(), vec!["x", "y"]);
    let mut x = inputs.get("x").unwrap().clone();
    assert_eq!(x.take_default(&context).unwrap(), Some("o/r".to_string()));
    let mut y = inputs.get("y").unwrap().clone();
    assert_eq!(y.take_default(&context).unwrap(), None);
    assert_eq!(action.take_inputs(&context).unwrap().keys().len(), 0);
    let mut runs = action.take_runs(&context).unwrap();
    assert_eq!(runs.take_pre(&context).unwrap(), Some("p".to_string()));
    assert_eq!(runs.take_using(&context).unwrap(), "node12");
    assert_eq!(runs.take_main(&context).unwrap(), "m.js");
    let e = runs.take_main(&context).unwrap_err();
    assert_eq!(
        e.kind(),
        &RunnerErrorKind::RequiredFieldMissing { field_name: "main", got: yaml("{}") }
    );
    assert_eq!(e.context(), None);
}

#[test]
fn inputs_of_the_wrong_type_are_shown() {
    let ctx = config();
    let context = ActionContext::new(&ctx, "a/b@c", "j", StepIndex(1));
    let mut action = Action(yaml("{inputs: [1], runs: r}"));
    let e = action.take_inputs(&context).err().unwrap();
    assert_eq!(
        e.kind(),
        &RunnerErrorKind::TypeMismatch { expected: "mapping".to_string(), got: yaml("[1]") }
    );
    assert_eq!(e.context().unwrap().message(), "action a/b@c job 'j' step 1");
    let mut action = Action(yaml("{inputs: {1: x}}"));
    assert_eq!(
        action.take_inputs(&context).err().unwrap().kind(),
        &RunnerErrorKind::TypeMismatch { expected: "string key".to_string(), got: yaml("1") }
    );
}

#[test]
fn a_field_is_taken_once() {
    let ctx = config();
    let root = RootContext::new(&ctx, ErrorContextRoot::Workflow);
    let mut v = yaml("{a: '${{ github.token }}', b: 2, c: 3}");
    assert_eq!(take_field(&root, &mut v, "a").unwrap(), Some(yaml("tok")));
    assert_eq!(v, yaml("{c: 3, b: 2}"));
    assert_eq!(take_field(&root, &mut v, "a").unwrap(), None);
    assert_eq!(v, yaml("{c: 3, b: 2}"));
}

#[test]
fn a_field_that_does_not_expand_is_gone_too() {
    let ctx = config();
    let root = RootContext::new(&ctx, ErrorContextRoot::Workflow);
    let mut v = yaml("{a: '${{ ? }}', b: 2}");
    assert!(take_field(&root, &mut v, "a").is_err());
    assert_eq!(v, yaml("{b: 2}"));
}

#[test]
fn nothing_is_taken_out_of_a_list() {
    let ctx = config();
    let root = RootContext::new(&ctx, ErrorContextRoot::Workflow);
    let mut v = yaml("[a]");
    let e = take_field(&root, &mut v, "a").err().unwrap();
    assert_eq!(
        e.kind(),
        &RunnerErrorKind::TypeMismatch { expected: "mapping".to_string(), got: yaml("[a]") }
    );
    assert_eq!(e.context(), None);
    assert_eq!(v, yaml("[a]"));
}

#[test]
fn the_keys_of_a_map_are_texts() {
    let ctx = config();
    let root = RootContext::new(&ctx, ErrorContextRoot::Workflow);
    let map = to_string_map::<String, _>(&root, yaml("{a: '${{ github.token }}', b: 2}")).unwrap();
    assert_eq!(map.keys(), vec!["a", "b"]);
    assert_eq!(map.get("a"), Some(&"tok".to_string()));
    assert_eq!(map.get("b"), Some(&"2".to_string()));
    let e = to_string_map::<String, _>(&root, yaml("{a: x, true: y}")).err().unwrap();
    assert_eq!(
        e.kind(),
        &RunnerErrorKind::TypeMismatch { expected: "string key".to_string(), got: yaml("true") }
    );
    let e = to_string_map::<String, _>(&root, yaml("x")).err().unwrap();
    assert_eq!(
        e.kind(),
        &RunnerErrorKind::TypeMismatch { expected: "mapping".to_string(), got: yaml("x") }
    );
}
