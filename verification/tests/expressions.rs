use gha_runner::contexts::{
    ActionContext, JobContext, JobPostStrategyContext, PreStepContext, RootContext, StepContext,
};
use gha_runner::expressions::{
    evaluate, evaluate_context_field, evaluate_context_name, expand, get_context_value,
    is_context_field_char, is_context_identifier_char, ContextResolver, ResolverValue,
};
use gha_runner::text::CharClass;
use gha_runner::yaml::parse;
use gha_runner::{
    ErrorContext, ErrorContextRoot, OrderedMap, RunnerContext, RunnerErrorKind, StepIndex, Yaml,
};

fn config() -> RunnerContext {
    RunnerContext {
        owner: "Pernosco".to_string(),
        repo: "github-actions-test".to_string(),
        commit_sha: vec![0x64, 0x75],
        commit_ref: None,
        workflow_repo_path: ".github/workflows/build.yml".to_string(),
        run_id: 7,
        run_number: -3,
        job_id: 9,
        actor: "somebody".to_string(),
        token: "secret".to_string(),
        override_env: Vec::new(),
    }
}

fn matrix() -> OrderedMap<Yaml> {
    let mut m = OrderedMap::new();
    m.insert("os".to_string(), text("ubuntu-18.04"));
    m.insert("fast".to_string(), Yaml::Bool(true));
    m.insert("list".to_string(), parse(b"[1, two]").unwrap());
    m.insert("tree".to_string(), parse(b"a: {b: deep}\n'c d': 3").unwrap());
    m.insert("tagged".to_string(), parse(b"!thing {a: inside}").unwrap());
    m
}

fn text(s: &str) -> Yaml {
    Yaml::Text(s.to_string())
}

fn expanded(s: &str) -> Yaml {
    let ctx = config();
    let m = matrix();
    let context = JobPostStrategyContext::new(&ctx, &m);
    expand(&context, text(s)).unwrap()
}

fn failed(s: &str) -> RunnerErrorKind {
    let ctx = config();
    let m = matrix();
    let context = JobPostStrategyContext::new(&ctx, &m);
    let error = expand(&context, text(s)).unwrap_err();
    assert_eq!(error.context(), None);
    match error.kind() {
        RunnerErrorKind::ExpressionParseError { expression } => {
            RunnerErrorKind::ExpressionParseError { expression: expression.clone() }
        }
        RunnerErrorKind::ExpressionNonString { expression, value } => {
            RunnerErrorKind::ExpressionNonString {
                expression: expression.clone(),
                value: value.clone(),
            }
        }
        RunnerErrorKind::NotImplemented { what } => {
            RunnerErrorKind::NotImplemented { what: what.clone() }
        }
        other => panic!("unexpected error {:?}", other),
    }
}

fn unreadable(s: &str) -> RunnerErrorKind {
    RunnerErrorKind::ExpressionParseError { expression: s.to_string() }
}

#[test]
fn identifier_and_field_characters() {
    for n in 0..=0x10FFFFu32 {
        if let Some(c) = char::from_u32(n) {
            assert_eq!(is_context_identifier_char(c), c.is_ascii_lowercase());
            assert_eq!(is_context_field_char(c), c.is_ascii_alphanumeric() || c == '_');
            assert_eq!(CharClass::WhiteSpace.contains(c), c.is_whitespace());
            assert_eq!(CharClass::AsciiSpace.contains(c), c.is_ascii_whitespace());
        }
    }
}

#[test]
fn names_and_fields_are_split_off() {
    assert_eq!(evaluate_context_name("github.token"), Some(("github", ".token")));
    assert_eq!(evaluate_context_name("github \u{2003}\n.x "), Some(("github", ".x ")));
    assert_eq!(evaluate_context_name("abc"), Some(("abc", "")));
    assert_eq!(evaluate_context_name("Abc"), None);
    assert_eq!(evaluate_context_name(""), None);
    assert_eq!(evaluate_context_field("event_Name0 )"), Some(("event_Name0", ")")));
    assert_eq!(evaluate_context_field("-x"), None);
    assert_eq!(evaluate_context_field(""), None);
}

#[test]
fn text_without_expressions_is_kept() {
    assert_eq!(expanded("plain $ { text }}"), text("plain $ { text }}"));
    assert_eq!(expanded(""), text(""));
    assert_eq!(expanded("open ${{ github.token"), text("open ${{ github.token"));
}

#[test]
fn lone_expressions_keep_their_type() {
    assert_eq!(expanded("${{ github.repository }}"), text("Pernosco/github-actions-test"));
    assert_eq!(expanded("${{github.token}}"), text("secret"));
    assert_eq!(expanded("${{ github.event_name }}"), text("pernosco"));
    assert_eq!(expanded("${{ matrix.fast }}"), Yaml::Bool(true));
    assert_eq!(expanded("${{ matrix.list }}"), parse(b"[1, two]").unwrap());
    assert_eq!(expanded("${{ matrix .tree  .a .b }}"), text("deep"));
    assert_eq!(expanded("${{ matrix.tagged.a }}"), text("inside"));
}

#[test]
fn expressions_are_interpolated() {
    assert_eq!(
        expanded("<${{ matrix.os }}> ${{ matrix.fast }}!"),
        text("<ubuntu-18.04> true!")
    );
    assert_eq!(expanded(" ${{ github.token }}"), text(" secret"));
    assert_eq!(expanded("${{ github.token }}${{ github.token }}"), text("secretsecret"));
    assert_eq!(expanded("${{ github.token }} ${{ open"), text("secret ${{ open"));
}

#[test]
fn unreadable_expressions() {
    assert_eq!(failed("${{ }}"), unreadable(""));
    assert_eq!(failed("x ${{  1 + 2 }}"), unreadable("1 + 2 "));
    assert_eq!(failed("${{ github.nothing }}"), unreadable("github.nothing "));
    assert_eq!(failed("${{ nowhere }}"), unreadable("nowhere "));
    assert_eq!(failed("${{ github.token.more }}"), unreadable("github.token.more "));
    assert_eq!(failed("${{ github.token x }}"), unreadable("github.token x "));
    assert_eq!(failed("${{ github.token. }}"), unreadable("github.token. "));
    assert_eq!(failed("${{ matrix. tree }}"), unreadable("matrix. tree "));
    assert_eq!(failed("${{ needs.x }}"), unreadable("needs.x "));
    assert_eq!(failed("${{ matrix.list.a }}"), unreadable("matrix.list.a "));
}

#[test]
fn values_that_are_no_text_cannot_be_interpolated() {
    assert_eq!(
        failed("a${{ matrix.list }}"),
        RunnerErrorKind::ExpressionNonString {
            expression: " matrix.list ".to_string(),
            value: parse(b"[1, two]").unwrap(),
        }
    );
}

#[test]
fn what_is_not_implemented_is_reported() {
    assert_eq!(
        failed("${{ github['token'] }}"),
        RunnerErrorKind::NotImplemented { what: "Not supported yet".to_string() }
    );
    assert_eq!(
        failed("${{ github }}"),
        RunnerErrorKind::NotImplemented {
            what: "Tried to pass a context object as the result of the expression, we don't support this yet"
                .to_string()
        }
    );
}

#[test]
fn sequences_expand_item_by_item() {
    let ctx = config();
    let context = JobContext::new(&ctx);
    let list = parse(b"[a, '${{ github.token }}', ['x${{github.token}}'], {k: '${{ x }}'}, 5]").unwrap();
    assert_eq!(
        expand(&context, list).unwrap(),
        parse(b"[a, secret, [xsecret], {k: '${{ x }}'}, 5]").unwrap()
    );
    let bad = parse(b"[a, '${{ one }}', '${{ two }}']").unwrap();
    assert_eq!(expand(&context, bad).unwrap_err().kind(), &unreadable("one "));
}

#[test]
fn evaluation_gives_objects_too() {
    let ctx = config();
    let context = RootContext::new(&ctx, ErrorContextRoot::Workflow);
    match evaluate(&context, "github").unwrap() {
        ResolverValue::Context(object) => {
            assert_eq!(object.keys(), vec!["repository".to_string(), "token".to_string()]);
            assert!(object.resolve("event_name").is_some());
            assert!(object.resolve("other").is_none());
            assert_eq!(object.error_context(), ErrorContext::new(ErrorContextRoot::Workflow));
        }
        ResolverValue::Yaml(_) => panic!("github is an object"),
    }
    match ResolverValue::from("x".to_string()) {
        ResolverValue::Yaml(v) => assert_eq!(v, text("x")),
        ResolverValue::Context(_) => panic!("a text is a value"),
    }
}

#[test]
fn every_place_has_its_names() {
    let ctx = config();
    let m = matrix();
    let root = RootContext::new(&ctx, ErrorContextRoot::Workflow);
    assert_eq!(root.keys(), vec!["github"]);
    let job = JobContext::new(&ctx);
    assert_eq!(job.keys(), vec!["github", "needs"]);
    let mut named = JobPostStrategyContext::new(&ctx, &m);
    assert_eq!(named.keys(), vec!["github", "needs", "strategy", "matrix"]);
    let pre = PreStepContext::new(&ctx, &m, "build", StepIndex(2));
    assert_eq!(
        pre.keys(),
        vec!["github", "needs", "strategy", "matrix", "job", "runner"]
    );
    let step = StepContext::new(&ctx, &m, "build", StepIndex(2));
    assert_eq!(
        step.keys(),
        vec!["github", "needs", "strategy", "matrix", "job", "runner", "steps", "env"]
    );
    for key in step.keys() {
        assert!(step.resolve(&key).is_some());
    }
    assert!(step.resolve("secrets").is_none());
    assert!(pre.resolve("steps").is_none());
    let action = ActionContext::new(&ctx, "actions/checkout@v2", "build", StepIndex(2));
    assert_eq!(action.keys(), vec!["github", "runner"]);
    assert!(action.resolve("matrix").is_none());

    assert_eq!(job.error_context().message(), "workflow");
    assert_eq!(named.error_context().message(), "workflow");
    named.set_job_name("build".to_string());
    assert_eq!(named.error_context().message(), "workflow job 'build'");
    assert_eq!(step.error_context().message(), "workflow job 'build' step 2");
    assert_eq!(
        action.error_context().message(),
        "action actions/checkout@v2 job 'build' step 2"
    );
    assert_eq!(action.runner_context().run_id, 7);
    assert_eq!(step.runner_context().run_id, 7);
    assert_eq!(pre.runner_context().run_id, 7);
    assert_eq!(named.runner_context().run_id, 7);
    assert_eq!(job.runner_context().run_id, 7);
    assert_eq!(root.runner_context().run_id, 7);
}

#[test]
fn the_matrix_is_an_object_with_its_keys() {
    let ctx = config();
    let m = matrix();
    let context = JobPostStrategyContext::new(&ctx, &m);
    match context.resolve("matrix") {
        Some(ResolverValue::Context(object)) => {
            assert_eq!(object.keys(), vec!["os", "fast", "list", "tree", "tagged"]);
            assert_eq!(object.error_context().message(), "workflow");
        }
        _ => panic!("matrix is an object"),
    }
}

fn led_to(base: &str, components: &[&str]) -> Option<Yaml> {
    let ctx = config();
    let m = matrix();
    let context = JobPostStrategyContext::new(&ctx, &m);
    match get_context_value(&context, base, &components.to_vec()) {
        Some(ResolverValue::Yaml(v)) => Some(v),
        Some(ResolverValue::Context(_)) => Some(text("an object")),
        None => None,
    }
}

#[test]
fn a_path_is_followed_name_by_name() {
    assert_eq!(led_to("matrix", &[]), Some(text("an object")));
    assert_eq!(led_to("matrix", &["tree"]), Some(parse(b"a: {b: deep}\n'c d': 3").unwrap()));
    assert_eq!(led_to("matrix", &["tree", "a"]), Some(parse(b"{b: deep}").unwrap()));
    assert_eq!(led_to("matrix", &["tree", "a", "b"]), Some(text("deep")));
    assert_eq!(led_to("matrix", &["tree", "a", "b", "c"]), None);
    assert_eq!(led_to("matrix", &["none", "a"]), None);
    assert_eq!(led_to("nothing", &[]), None);
}
