//! What the names in an expression stand for in the different places of a
//! workflow.

use vstd::prelude::*;

use crate::config::{ConfigView, RunnerContext};
use crate::error::{
    ErrorContext, ErrorContextRoot, ErrorView, PlaceView, RootView, StepIndex,
};
use crate::expressions;
use crate::expressions::{ContextResolver, ResolvedView, ResolverValue, Scope};
use crate::ordered_map;
use crate::ordered_map::OrderedMap;
use crate::text;
use crate::yaml::{Yaml, YamlView};

verus! {

// ---------------------------------------------------------------------------
// Objects
// ---------------------------------------------------------------------------

/// A place that names neither a job nor a step.
pub open spec fn root_place(root: RootView) -> PlaceView {
    PlaceView { root, job_name: None, step: None }
}

/// The "github" object.
pub open spec fn github_object(root: RootView, ctx: ConfigView) -> Scope {
    Scope {
        place: root_place(root),
        keys: seq!["repository"@, "token"@],
        names: Map::empty().insert(
            "event_name"@,
            ResolvedView::Yaml(YamlView::Text("pernosco"@)),
        ).insert("token"@, ResolvedView::Yaml(YamlView::Text(ctx.token))).insert(
            "repository"@,
            ResolvedView::Yaml(YamlView::Text(ctx.owner + "/"@ + ctx.repo)),
        ),
    }
}

/// An object without names.
pub open spec fn dummy_object(root: RootView) -> Scope {
    Scope { place: root_place(root), keys: seq![], names: Map::empty() }
}

/// The "matrix" object: the values that a job was derived with.
pub open spec fn matrix_object(matrix: Seq<(Seq<char>, YamlView)>) -> Scope {
    Scope {
        place: root_place(RootView::Workflow),
        keys: ordered_map::keys(matrix),
        names: Map::new(
            |k: Seq<char>| ordered_map::lookup(matrix, k) is Some,
            |k: Seq<char>| ResolvedView::Yaml(ordered_map::lookup(matrix, k)->0),
        ),
    }
}

/// Implementation of "github" object
pub struct GithubContext<'a> {
    error_context_root: ErrorContextRoot,
    ctx: &'a RunnerContext,
}

/// An object that is known but has no names yet.
pub struct DummyContext {
    error_context_root: ErrorContextRoot,
}

/// Implementation of "matrix" object
pub struct MatrixContext<'a> {
    matrix_values: &'a OrderedMap<Yaml>,
}

/// An object with names of its own.
pub enum ContextObject<'a> {
    /// The "github" object.
    Github(GithubContext<'a>),
    /// An object without names.
    Dummy(DummyContext),
    /// The "matrix" object.
    Matrix(MatrixContext<'a>),
}

impl<'a> GithubContext<'a> {
    /// What the names of the object stand for.
    pub closed spec fn object(&self) -> Scope {
        github_object(self.error_context_root.deep_view(), self.ctx.deep_view())
    }

    fn new(error_context_root: ErrorContextRoot, ctx: &'a RunnerContext) -> (r: Self)
        ensures
            r.object() == github_object(error_context_root.deep_view(), ctx.deep_view()),
    {
        GithubContext { error_context_root, ctx }
    }
}

impl DummyContext {
    /// What the names of the object stand for.
    pub closed spec fn object(&self) -> Scope {
        dummy_object(self.error_context_root.deep_view())
    }

    fn new(error_context_root: ErrorContextRoot) -> (r: Self)
        ensures
            r.object() == dummy_object(error_context_root.deep_view()),
    {
        DummyContext { error_context_root }
    }
}

impl<'a> MatrixContext<'a> {
    /// What the names of the object stand for.
    pub closed spec fn object(&self) -> Scope {
        matrix_object(self.matrix_values.deep_view())
    }

    fn new(matrix_values: &'a OrderedMap<Yaml>) -> (r: Self)
        ensures
            r.object() == matrix_object(matrix_values.deep_view()),
    {
        MatrixContext { matrix_values }
    }
}

impl<'a> ContextObject<'a> {
    /// What the names of the object stand for.
    pub open spec fn object(&self) -> Scope {
        match *self {
            ContextObject::Github(c) => c.object(),
            ContextObject::Dummy(c) => c.object(),
            ContextObject::Matrix(c) => c.object(),
        }
    }
}

fn dummy<'a>(error_context_root: ErrorContextRoot) -> (r: Option<ResolverValue<'a>>)
    ensures
        r.deep_view() == Some(
            ResolvedView::Context(dummy_object(error_context_root.deep_view())),
        ),
{
    Some(ResolverValue::Context(ContextObject::Dummy(DummyContext::new(error_context_root))))
}

fn text_list(name: &str) -> (r: Vec<String>)
    ensures
        r.deep_view() == seq![name@],
{
    let mut out: Vec<String> = Vec::new();
    out.push(text::copy(name));
    assert(out.deep_view() =~= seq![name@]);
    out
}

fn push_text(list: &mut Vec<String>, name: &str)
    ensures
        final(list).deep_view() == old(list).deep_view().push(name@),
{
    list.push(text::copy(name));
    assert(list.deep_view() =~= old(list).deep_view().push(name@));
}

impl<'a> ContextResolver<'a> for GithubContext<'a> {
    open spec fn scope(&self) -> Scope {
        self.object()
    }

    fn error_context(&self) -> (r: ErrorContext) {
        ErrorContext::new(self.error_context_root.clone())
    }

    fn keys(&self) -> (r: Vec<String>) {
        let mut keys = text_list("repository");
        push_text(&mut keys, "token");
        assert(keys.deep_view() =~= seq!["repository"@, "token"@]);
        keys
    }

    fn resolve(&self, s: &str) -> (r: Option<ResolverValue<'a>>) {
        if text::same(s, "repository") {
            Some(
                ResolverValue::from(
                    text::joined3(self.ctx.owner.as_str(), "/", self.ctx.repo.as_str()),
                ),
            )
        } else if text::same(s, "token") {
            Some(ResolverValue::from(self.ctx.token.clone()))
        } else if text::same(s, "event_name") {
            Some(ResolverValue::from(text::copy("pernosco")))
        } else {
            None
        }
    }
}

impl<'a> ContextResolver<'a> for DummyContext {
    open spec fn scope(&self) -> Scope {
        self.object()
    }

    fn error_context(&self) -> (r: ErrorContext) {
        ErrorContext::new(self.error_context_root.clone())
    }

    fn keys(&self) -> (r: Vec<String>) {
        let keys: Vec<String> = Vec::new();
        assert(keys.deep_view() =~= seq![]);
        keys
    }

    fn resolve(&self, _s: &str) -> (r: Option<ResolverValue<'a>>) {
        None
    }
}

impl<'a> ContextResolver<'a> for MatrixContext<'a> {
    open spec fn scope(&self) -> Scope {
        self.object()
    }

    fn error_context(&self) -> (r: ErrorContext) {
        ErrorContext::new(ErrorContextRoot::Workflow)
    }

    fn keys(&self) -> (r: Vec<String>) {
        let keys = self.matrix_values.keys();
        assert(ordered_map::keys(self.matrix_values.deep_view()) =~= keys.deep_view());
        keys
    }

    fn resolve(&self, s: &str) -> (r: Option<ResolverValue<'a>>) {
        proof {
            ordered_map::lemma_deep_lookup(self.matrix_values.entries(), s@);
        }
        match self.matrix_values.get(s) {
            Some(v) => Some(ResolverValue::Yaml(v.clone())),
            None => None,
        }
    }
}

impl<'a> ContextResolver<'a> for ContextObject<'a> {
    open spec fn scope(&self) -> Scope {
        self.object()
    }

    fn error_context(&self) -> (r: ErrorContext) {
        match self {
            ContextObject::Github(c) => c.error_context(),
            ContextObject::Dummy(c) => c.error_context(),
            ContextObject::Matrix(c) => c.error_context(),
        }
    }

    fn keys(&self) -> (r: Vec<String>) {
        match self {
            ContextObject::Github(c) => c.keys(),
            ContextObject::Dummy(c) => c.keys(),
            ContextObject::Matrix(c) => c.keys(),
        }
    }

    fn resolve(&self, s: &str) -> (r: Option<ResolverValue<'a>>) {
        match self {
            ContextObject::Github(c) => c.resolve(s),
            ContextObject::Dummy(c) => c.resolve(s),
            ContextObject::Matrix(c) => c.resolve(s),
        }
    }
}

// ---------------------------------------------------------------------------
// Places
// ---------------------------------------------------------------------------

/// The scope with one more name, which is listed last.
pub open spec fn extended(scope: Scope, name: Seq<char>, object: Scope) -> Scope {
    Scope {
        place: scope.place,
        keys: scope.keys.push(name),
        names: scope.names.insert(name, ResolvedView::Context(object)),
    }
}

/// The scope at another place.
pub open spec fn placed(scope: Scope, place: PlaceView) -> Scope {
    Scope { place, ..scope }
}

/// What can be named anywhere.
pub open spec fn root_scope(root: RootView, ctx: ConfigView) -> Scope {
    extended(
        Scope { place: root_place(root), keys: seq![], names: Map::empty() },
        "github"@,
        github_object(root, ctx),
    )
}

/// What can be named anywhere in a job.
pub open spec fn job_scope(ctx: ConfigView) -> Scope {
    extended(
        root_scope(RootView::Workflow, ctx),
        "needs"@,
        dummy_object(RootView::Workflow),
    )
}

/// What can be named in a job outside its strategy.
pub open spec fn post_strategy_scope(
    ctx: ConfigView,
    matrix: Seq<(Seq<char>, YamlView)>,
    job_name: Option<Seq<char>>,
) -> Scope {
    let parent = placed(
        job_scope(ctx),
        PlaceView { root: RootView::Workflow, job_name, step: None },
    );
    extended(
        extended(parent, "strategy"@, dummy_object(RootView::Workflow)),
        "matrix"@,
        matrix_object(matrix),
    )
}

/// What can be named in a step before any previous steps have run.
pub open spec fn pre_step_scope(
    ctx: ConfigView,
    matrix: Seq<(Seq<char>, YamlView)>,
    job_name: Seq<char>,
    step: nat,
) -> Scope {
    let parent = placed(
        post_strategy_scope(ctx, matrix, Some(job_name)),
        PlaceView { root: RootView::Workflow, job_name: Some(job_name), step: Some(step) },
    );
    extended(
        extended(parent, "job"@, dummy_object(RootView::Workflow)),
        "runner"@,
        dummy_object(RootView::Workflow),
    )
}

/// What can be named in a step after previous steps have run.
pub open spec fn step_scope(
    ctx: ConfigView,
    matrix: Seq<(Seq<char>, YamlView)>,
    job_name: Seq<char>,
    step: nat,
) -> Scope {
    extended(
        extended(
            pre_step_scope(ctx, matrix, job_name, step),
            "steps"@,
            dummy_object(RootView::Workflow),
        ),
        "env"@,
        dummy_object(RootView::Workflow),
    )
}

/// What can be named in an action.
pub open spec fn action_scope(
    ctx: ConfigView,
    action: Seq<char>,
    job_name: Seq<char>,
    step: nat,
) -> Scope {
    let root = RootView::Action(action);
    extended(
        placed(
            root_scope(root, ctx),
            PlaceView { root, job_name: Some(job_name), step: Some(step) },
        ),
        "runner"@,
        dummy_object(root),
    )
}

/// Context objects that can be used anywhere in the workflow description
pub struct RootContext<'a> {
    error_context_root: ErrorContextRoot,
    ctx: &'a RunnerContext,
}

/// Context objects that can be used anywhere in a workflow job
pub struct JobContext<'a> {
    parent: RootContext<'a>,
}

/// Context objects that can be used anywhere in a workflow job outside the strategy
pub struct JobPostStrategyContext<'a> {
    parent: JobContext<'a>,
    matrix_values: &'a OrderedMap<Yaml>,
    job_name: Option<String>,
}

/// Context objects that can be used in a build step before any previous steps have run
pub struct PreStepContext<'a> {
    parent: JobPostStrategyContext<'a>,
    step: StepIndex,
}

/// Context objects that can be used in a build step after previous steps have run
pub struct StepContext<'a> {
    parent: PreStepContext<'a>,
}

/// Context objects that can be used anywhere in an action
pub struct ActionContext<'a> {
    parent: RootContext<'a>,
    job_name: String,
    step: StepIndex,
}

impl<'a> RootContext<'a> {
    /// The values that the workflow is run with.
    pub closed spec fn config(&self) -> ConfigView {
        self.ctx.deep_view()
    }

    /// The context of a whole file.
    pub fn new(ctx: &'a RunnerContext, error_context_root: ErrorContextRoot) -> (r: Self)
        ensures
            r.scope() == root_scope(error_context_root.deep_view(), ctx.deep_view()),
            r.config() == ctx.deep_view(),
    {
        RootContext { error_context_root, ctx }
    }

    /// The values that the workflow is run with.
    pub fn runner_context(&self) -> (r: &'a RunnerContext)
        ensures
            r.deep_view() == self.config(),
    {
        self.ctx
    }
}

impl<'a> ContextResolver<'a> for RootContext<'a> {
    closed spec fn scope(&self) -> Scope {
        root_scope(self.error_context_root.deep_view(), self.ctx.deep_view())
    }

    fn error_context(&self) -> (r: ErrorContext) {
        ErrorContext::new(self.error_context_root.clone())
    }

    fn keys(&self) -> (r: Vec<String>) {
        let keys = text_list("github");
        assert(keys.deep_view() =~= self.scope().keys);
        keys
    }

    fn resolve(&self, s: &str) -> (r: Option<ResolverValue<'a>>) {
        if text::same(s, "github") {
            Some(
                ResolverValue::Context(
                    ContextObject::Github(
                        GithubContext::new(self.error_context_root.clone(), self.runner_context()),
                    ),
                ),
            )
        } else {
            None
        }
    }
}

impl<'a> JobContext<'a> {
    /// The values that the workflow is run with.
    pub closed spec fn config(&self) -> ConfigView {
        self.parent.config()
    }

    /// The context of a job.
    pub fn new(ctx: &'a RunnerContext) -> (r: Self)
        ensures
            r.scope() == job_scope(ctx.deep_view()),
            r.config() == ctx.deep_view(),
    {
        JobContext { parent: RootContext::new(ctx, ErrorContextRoot::Workflow) }
    }

    /// The values that the workflow is run with.
    pub fn runner_context(&self) -> (r: &'a RunnerContext)
        ensures
            r.deep_view() == self.config(),
    {
        self.parent.runner_context()
    }
}

impl<'a> ContextResolver<'a> for JobContext<'a> {
    closed spec fn scope(&self) -> Scope {
        extended(
            self.parent.scope(),
            "needs"@,
            dummy_object(self.parent.error_context_root.deep_view()),
        )
    }

    fn error_context(&self) -> (r: ErrorContext) {
        self.parent.error_context()
    }

    fn keys(&self) -> (r: Vec<String>) {
        let mut keys = self.parent.keys();
        push_text(&mut keys, "needs");
        keys
    }

    fn resolve(&self, s: &str) -> (r: Option<ResolverValue<'a>>) {
        if text::same(s, "needs") {
            dummy(self.parent.error_context_root.clone())
        } else {
            self.parent.resolve(s)
        }
    }
}

impl<'a> JobPostStrategyContext<'a> {
    /// The values that the workflow is run with.
    pub closed spec fn config(&self) -> ConfigView {
        self.parent.config()
    }

    /// The values that the job was derived with.
    pub closed spec fn matrix(&self) -> Seq<(Seq<char>, YamlView)> {
        self.matrix_values.deep_view()
    }

    /// The context of a job whose name is not known yet.
    pub fn new(ctx: &'a RunnerContext, matrix_values: &'a OrderedMap<Yaml>) -> (r: Self)
        ensures
            r.scope() == post_strategy_scope(ctx.deep_view(), matrix_values.deep_view(), None),
            r.config() == ctx.deep_view(),
            r.matrix() == matrix_values.deep_view(),
    {
        JobPostStrategyContext { parent: JobContext::new(ctx), matrix_values, job_name: None }
    }

    /// Sets the name of the job.
    pub fn set_job_name(&mut self, v: String)
        ensures
            final(self).scope() == placed(
                old(self).scope(),
                PlaceView { job_name: Some(v@), ..old(self).scope().place },
            ),
            final(self).config() == old(self).config(),
            final(self).matrix() == old(self).matrix(),
    {
        self.job_name = Some(v);
    }

    /// The values that the workflow is run with.
    pub fn runner_context(&self) -> (r: &'a RunnerContext)
        ensures
            r.deep_view() == self.config(),
    {
        self.parent.runner_context()
    }
}

impl<'a> ContextResolver<'a> for JobPostStrategyContext<'a> {
    closed spec fn scope(&self) -> Scope {
        let parent = self.parent.scope();
        extended(
            extended(
                placed(
                    parent,
                    PlaceView { job_name: self.job_name.deep_view(), ..parent.place },
                ),
                "strategy"@,
                dummy_object(RootView::Workflow),
            ),
            "matrix"@,
            matrix_object(self.matrix_values.deep_view()),
        )
    }

    fn error_context(&self) -> (r: ErrorContext) {
        let job_name = match &self.job_name {
            Some(name) => Some(name.clone()),
            None => None,
        };
        self.parent.error_context().job_name(job_name)
    }

    fn keys(&self) -> (r: Vec<String>) {
        let mut keys = self.parent.keys();
        push_text(&mut keys, "strategy");
        push_text(&mut keys, "matrix");
        keys
    }

    fn resolve(&self, s: &str) -> (r: Option<ResolverValue<'a>>) {
        if text::same(s, "matrix") {
            Some(
                ResolverValue::Context(
                    ContextObject::Matrix(MatrixContext::new(self.matrix_values)),
                ),
            )
        } else if text::same(s, "strategy") {
            dummy(ErrorContextRoot::Workflow)
        } else {
            self.parent.resolve(s)
        }
    }
}

impl<'a> PreStepContext<'a> {
    /// The values that the workflow is run with.
    pub closed spec fn config(&self) -> ConfigView {
        self.parent.config()
    }

    /// The context of a step.
    pub fn new(
        ctx: &'a RunnerContext,
        matrix_values: &'a OrderedMap<Yaml>,
        job_name: &str,
        step: StepIndex,
    ) -> (r: Self)
        ensures
            r.scope() == pre_step_scope(
                ctx.deep_view(),
                matrix_values.deep_view(),
                job_name@,
                step.0 as nat,
            ),
            r.config() == ctx.deep_view(),
    {
        let mut parent = JobPostStrategyContext::new(ctx, matrix_values);
        parent.set_job_name(text::copy(job_name));
        PreStepContext { parent, step }
    }

    /// The values that the workflow is run with.
    pub fn runner_context(&self) -> (r: &'a RunnerContext)
        ensures
            r.deep_view() == self.config(),
    {
        self.parent.runner_context()
    }
}

impl<'a> ContextResolver<'a> for PreStepContext<'a> {
    closed spec fn scope(&self) -> Scope {
        let parent = self.parent.scope();
        extended(
            extended(
                placed(parent, PlaceView { step: Some(self.step.0 as nat), ..parent.place }),
                "job"@,
                dummy_object(RootView::Workflow),
            ),
            "runner"@,
            dummy_object(RootView::Workflow),
        )
    }

    fn error_context(&self) -> (r: ErrorContext) {
        self.parent.error_context().step(self.step)
    }

    fn keys(&self) -> (r: Vec<String>) {
        let mut keys = self.parent.keys();
        push_text(&mut keys, "job");
        push_text(&mut keys, "runner");
        keys
    }

    fn resolve(&self, s: &str) -> (r: Option<ResolverValue<'a>>) {
        if text::same(s, "runner") {
            dummy(ErrorContextRoot::Workflow)
        } else if text::same(s, "job") {
            dummy(ErrorContextRoot::Workflow)
        } else {
            self.parent.resolve(s)
        }
    }
}

impl<'a> StepContext<'a> {
    /// The values that the workflow is run with.
    pub closed spec fn config(&self) -> ConfigView {
        self.parent.config()
    }

    /// The context of a step.
    pub fn new(
        ctx: &'a RunnerContext,
        matrix_values: &'a OrderedMap<Yaml>,
        job_name: &str,
        step: StepIndex,
    ) -> (r: Self)
        ensures
            r.scope() == step_scope(
                ctx.deep_view(),
                matrix_values.deep_view(),
                job_name@,
                step.0 as nat,
            ),
            r.config() == ctx.deep_view(),
    {
        StepContext { parent: PreStepContext::new(ctx, matrix_values, job_name, step) }
    }

    /// The values that the workflow is run with.
    pub fn runner_context(&self) -> (r: &'a RunnerContext)
        ensures
            r.deep_view() == self.config(),
    {
        self.parent.runner_context()
    }
}

impl<'a> ContextResolver<'a> for StepContext<'a> {
    closed spec fn scope(&self) -> Scope {
        extended(
            extended(self.parent.scope(), "steps"@, dummy_object(RootView::Workflow)),
            "env"@,
            dummy_object(RootView::Workflow),
        )
    }

    fn error_context(&self) -> (r: ErrorContext) {
        self.parent.error_context()
    }

    fn keys(&self) -> (r: Vec<String>) {
        let mut keys = self.parent.keys();
        push_text(&mut keys, "steps");
        push_text(&mut keys, "env");
        keys
    }

    fn resolve(&self, s: &str) -> (r: Option<ResolverValue<'a>>) {
        if text::same(s, "env") {
            dummy(ErrorContextRoot::Workflow)
        } else if text::same(s, "steps") {
            dummy(ErrorContextRoot::Workflow)
        } else {
            self.parent.resolve(s)
        }
    }
}

impl<'a> ActionContext<'a> {
    /// The values that the workflow is run with.
    pub closed spec fn config(&self) -> ConfigView {
        self.parent.config()
    }

    /// The context of an action that a step uses.
    pub fn new(ctx: &'a RunnerContext, action: &str, job_name: &str, step: StepIndex) -> (r: Self)
        ensures
            r.scope() == action_scope(ctx.deep_view(), action@, job_name@, step.0 as nat),
            r.config() == ctx.deep_view(),
    {
        ActionContext {
            parent: RootContext::new(ctx, ErrorContextRoot::Action(text::copy(action))),
            job_name: text::copy(job_name),
            step,
        }
    }

    /// The values that the workflow is run with.
    pub fn runner_context(&self) -> (r: &'a RunnerContext)
        ensures
            r.deep_view() == self.config(),
    {
        self.parent.runner_context()
    }
}

impl<'a> ContextResolver<'a> for ActionContext<'a> {
    closed spec fn scope(&self) -> Scope {
        let parent = self.parent.scope();
        extended(
            placed(
                parent,
                PlaceView {
                    job_name: Some(self.job_name@),
                    step: Some(self.step.0 as nat),
                    ..parent.place
                },
            ),
            "runner"@,
            dummy_object(self.parent.error_context_root.deep_view()),
        )
    }

    fn error_context(&self) -> (r: ErrorContext) {
        self.parent.error_context().job_name(Some(self.job_name.clone())).step(self.step)
    }

    fn keys(&self) -> (r: Vec<String>) {
        let mut keys = self.parent.keys();
        push_text(&mut keys, "runner");
        keys
    }

    fn resolve(&self, s: &str) -> (r: Option<ResolverValue<'a>>) {
        if text::same(s, "runner") {
            dummy(self.parent.error_context_root.clone())
        } else {
            self.parent.resolve(s)
        }
    }
}

// ---------------------------------------------------------------------------
// Laws
// ---------------------------------------------------------------------------

/// Where a name stands among those that can be used anywhere.
spec fn name_index(name: Seq<char>) -> int {
    if name == "github"@ {
        0
    } else if name == "needs"@ {
        1
    } else if name == "strategy"@ {
        2
    } else if name == "matrix"@ {
        3
    } else if name == "job"@ {
        4
    } else if name == "runner"@ {
        5
    } else if name == "steps"@ {
        6
    } else if name == "env"@ {
        7
    } else {
        -1
    }
}

/// No two objects have the same name.
proof fn lemma_names_differ()
    ensures
        name_index("github"@) == 0,
        name_index("needs"@) == 1,
        name_index("strategy"@) == 2,
        name_index("matrix"@) == 3,
        name_index("job"@) == 4,
        name_index("runner"@) == 5,
        name_index("steps"@) == 6,
        name_index("env"@) == 7,
{
    reveal_strlit("github");
    reveal_strlit("needs");
    reveal_strlit("strategy");
    reveal_strlit("matrix");
    reveal_strlit("job");
    reveal_strlit("runner");
    reveal_strlit("steps");
    reveal_strlit("env");
    assert("github"@[0] == 'g');
    assert("matrix"@[0] == 'm');
    assert("runner"@[0] == 'r');
    assert("needs"@[0] == 'n');
    assert("steps"@[0] == 's');
    assert("job"@[0] == 'j');
    assert("env"@[0] == 'e');
    assert("strategy"@.len() == 8);
    assert("github"@.len() == 6);
    assert("matrix"@.len() == 6);
    assert("runner"@.len() == 6);
    assert("needs"@.len() == 5);
    assert("steps"@.len() == 5);
    assert("job"@.len() == 3);
    assert("env"@.len() == 3);
}

/// Stands for an object in which nothing has a name.
pub open spec fn is_empty_object(v: Option<ResolvedView>) -> bool {
    v matches Some(ResolvedView::Context(object)) && forall|name: Seq<char>|
        expressions::named(object, name) is None
}

/// Everywhere, the name `github` stands for an object that knows the repository,
/// the access token and the name of the event, and nothing else.
pub proof fn law_github_object(
    root: RootView,
    ctx: ConfigView,
    matrix: Seq<(Seq<char>, YamlView)>,
    named_job: Option<Seq<char>>,
    job_name: Seq<char>,
    step: nat,
    action: Seq<char>,
    scope: Scope,
)
    requires
        scope == root_scope(root, ctx) || scope == job_scope(ctx) || scope == post_strategy_scope(
            ctx,
            matrix,
            named_job,
        ) || scope == pre_step_scope(ctx, matrix, job_name, step) || scope == step_scope(
            ctx,
            matrix,
            job_name,
            step,
        ) || scope == action_scope(ctx, action, job_name, step),
    ensures
        expressions::named(scope, "github"@) matches Some(ResolvedView::Context(github)) && {
            &&& expressions::named(github, "repository"@) == Some(
                ResolvedView::Yaml(YamlView::Text(ctx.owner + "/"@ + ctx.repo)),
            )
            &&& expressions::named(github, "token"@) == Some(
                ResolvedView::Yaml(YamlView::Text(ctx.token)),
            )
            &&& expressions::named(github, "event_name"@) == Some(
                ResolvedView::Yaml(YamlView::Text("pernosco"@)),
            )
            &&& forall|name: Seq<char>|
                name != "repository"@ && name != "token"@ && name != "event_name"@
                    ==> #[trigger] expressions::named(github, name) is None
        },
{
    lemma_names_differ();
    reveal_strlit("repository");
    reveal_strlit("token");
    reveal_strlit("event_name");
    assert("repository"@.len() == 10);
    assert("token"@.len() == 5);
    assert("event_name"@.len() == 10);
    assert("repository"@[0] == 'r');
    assert("event_name"@[0] == 'e');
}

/// In a job outside its strategy and in its steps, whether a step is looked at
/// ahead or run, the name `matrix` stands for an object in which every key of the
/// combination that the job was derived with stands for its value, and nothing
/// else has a name.
pub proof fn law_matrix_object(
    ctx: ConfigView,
    matrix: Seq<(Seq<char>, YamlView)>,
    named_job: Option<Seq<char>>,
    job_name: Seq<char>,
    step: nat,
    scope: Scope,
)
    requires
        scope == post_strategy_scope(ctx, matrix, named_job) || scope == pre_step_scope(
            ctx,
            matrix,
            job_name,
            step,
        ) || scope == step_scope(ctx, matrix, job_name, step),
    ensures
        expressions::named(scope, "matrix"@) matches Some(ResolvedView::Context(object))
            && forall|key: Seq<char>| #[trigger]
            expressions::named(object, key) == (match ordered_map::lookup(matrix, key) {
                Some(value) => Some(ResolvedView::Yaml(value)),
                None => None,
            }),
{
    lemma_names_differ();
}

/// What can be named where: the names that stand for objects without names of
/// their own, and those that stand for nothing.
pub proof fn law_names_in_scopes(
    root: RootView,
    ctx: ConfigView,
    matrix: Seq<(Seq<char>, YamlView)>,
    named_job: Option<Seq<char>>,
    job_name: Seq<char>,
    step: nat,
    action: Seq<char>,
    name: Seq<char>,
)
    ensures
        ({
            let scope = root_scope(root, ctx);
            name != "github"@ ==> expressions::named(scope, name) is None
        }),
        ({
            let scope = job_scope(ctx);
            &&& is_empty_object(expressions::named(scope, "needs"@))
            &&& name != "github"@ && name != "needs"@ ==> expressions::named(scope, name) is None
        }),
        ({
            let scope = post_strategy_scope(ctx, matrix, named_job);
            &&& is_empty_object(expressions::named(scope, "needs"@))
            &&& is_empty_object(expressions::named(scope, "strategy"@))
            &&& name != "github"@ && name != "needs"@ && name != "strategy"@ && name != "matrix"@
                ==> expressions::named(scope, name) is None
        }),
        ({
            let scope = pre_step_scope(ctx, matrix, job_name, step);
            &&& is_empty_object(expressions::named(scope, "job"@))
            &&& is_empty_object(expressions::named(scope, "runner"@))
            &&& name != "job"@ && name != "runner"@ ==> expressions::named(scope, name)
                == expressions::named(post_strategy_scope(ctx, matrix, named_job), name)
        }),
        ({
            let scope = step_scope(ctx, matrix, job_name, step);
            &&& is_empty_object(expressions::named(scope, "steps"@))
            &&& is_empty_object(expressions::named(scope, "env"@))
            &&& name != "steps"@ && name != "env"@ ==> expressions::named(scope, name)
                == expressions::named(pre_step_scope(ctx, matrix, job_name, step), name)
        }),
        ({
            let scope = action_scope(ctx, action, job_name, step);
            &&& is_empty_object(expressions::named(scope, "runner"@))
            &&& name != "github"@ && name != "runner"@ ==> expressions::named(scope, name) is None
        }),
{
    lemma_names_differ();
}

/// Where an error is said to be: a step's errors name the job and the step, and
/// an action's name the action too.
pub proof fn law_places(
    root: RootView,
    ctx: ConfigView,
    matrix: Seq<(Seq<char>, YamlView)>,
    named_job: Option<Seq<char>>,
    job_name: Seq<char>,
    step: nat,
    action: Seq<char>,
)
    ensures
        root_scope(root, ctx).place == (PlaceView { root, job_name: None, step: None }),
        job_scope(ctx).place == (PlaceView {
            root: RootView::Workflow,
            job_name: None,
            step: None,
        }),
        post_strategy_scope(ctx, matrix, named_job).place == (PlaceView {
            root: RootView::Workflow,
            job_name: named_job,
            step: None,
        }),
        pre_step_scope(ctx, matrix, job_name, step).place == (PlaceView {
            root: RootView::Workflow,
            job_name: Some(job_name),
            step: Some(step),
        }),
        step_scope(ctx, matrix, job_name, step).place == pre_step_scope(
            ctx,
            matrix,
            job_name,
            step,
        ).place,
        action_scope(ctx, action, job_name, step).place == (PlaceView {
            root: RootView::Action(action),
            job_name: Some(job_name),
            step: Some(step),
        }),
        step_scope(ctx, matrix, job_name, step).keys == seq![
            "github"@,
            "needs"@,
            "strategy"@,
            "matrix"@,
            "job"@,
            "runner"@,
            "steps"@,
            "env"@,
        ],
        action_scope(ctx, action, job_name, step).keys == seq!["github"@, "runner"@],
        root_scope(root, ctx).keys == seq!["github"@],
        job_scope(ctx).keys == root_scope(root, ctx).keys.push("needs"@),
        post_strategy_scope(ctx, matrix, named_job).keys == job_scope(ctx).keys + seq![
            "strategy"@,
            "matrix"@,
        ],
        pre_step_scope(ctx, matrix, job_name, step).keys == post_strategy_scope(
            ctx,
            matrix,
            named_job,
        ).keys + seq!["job"@, "runner"@],
        github_object(root, ctx).keys == seq!["repository"@, "token"@],
        github_object(root, ctx).place == (PlaceView { root, job_name: None, step: None }),
        dummy_object(root).keys.len() == 0,
        dummy_object(root).place == (PlaceView { root, job_name: None, step: None }),
        matrix_object(matrix).keys == Seq::new(matrix.len(), |i: int| matrix[i].0),
        matrix_object(matrix).place == (PlaceView {
            root: RootView::Workflow,
            job_name: None,
            step: None,
        }),
{
    assert(root_scope(root, ctx).keys =~= seq!["github"@]);
    assert(post_strategy_scope(ctx, matrix, named_job).keys =~= job_scope(ctx).keys + seq![
        "strategy"@,
        "matrix"@,
    ]);
    assert(pre_step_scope(ctx, matrix, job_name, step).keys =~= post_strategy_scope(
        ctx,
        matrix,
        named_job,
    ).keys + seq!["job"@, "runner"@]);
    assert(matrix_object(matrix).keys =~= Seq::new(matrix.len(), |i: int| matrix[i].0));
    assert(step_scope(ctx, matrix, job_name, step).keys =~= seq![
        "github"@,
        "needs"@,
        "strategy"@,
        "matrix"@,
        "job"@,
        "runner"@,
        "steps"@,
        "env"@,
    ]);
    assert(action_scope(ctx, action, job_name, step).keys =~= seq!["github"@, "runner"@]);
}

/// An expression that names a key of the matrix gives the value of that key in
/// the combination that the job was derived with, whatever white space stands
/// around it; a key that the combination does not have cannot be read.
pub proof fn law_matrix_values_are_named(
    ctx: ConfigView,
    matrix: Seq<(Seq<char>, YamlView)>,
    named_job: Option<Seq<char>>,
    job_name: Seq<char>,
    step: nat,
    scope: Scope,
    before: Seq<char>,
    key: Seq<char>,
    after: Seq<char>,
)
    requires
        scope == post_strategy_scope(ctx, matrix, named_job) || scope == pre_step_scope(
            ctx,
            matrix,
            job_name,
            step,
        ) || scope == step_scope(ctx, matrix, job_name, step),
        expressions::is_blank(before),
        expressions::is_blank(after),
        expressions::is_name(key, text::CharClass::Field),
    ensures
        match ordered_map::lookup(matrix, key) {
            Some(value) => expressions::evaluated(scope, before + "matrix."@ + key + after) == Ok::<
                ResolvedView,
                ErrorView,
            >(ResolvedView::Yaml(value)) && expressions::expanded(
                scope,
                YamlView::Text("${{"@ + before + "matrix."@ + key + after + "}}"@),
            ) == Ok::<YamlView, ErrorView>(value),
            None => expressions::evaluated(scope, before + "matrix."@ + key + after) is Err,
        },
{
    law_matrix_object(ctx, matrix, named_job, job_name, step, scope);
    let fields = seq![key];
    let inner = before + "matrix."@ + key + after;
    reveal_strlit("matrix");
    reveal_strlit("matrix.");
    assert("matrix."@ =~= "matrix"@ + seq!['.']);
    assert(fields.skip(1) =~= seq![]);
    let none: Seq<char> = seq![];
    assert(expressions::dotted(fields.skip(1)) == none);
    assert(expressions::dotted(fields) =~= seq!['.'] + key);
    assert(inner =~= before + "matrix"@ + expressions::dotted(fields) + after);
    expressions::law_dotted_names_within_white_space(scope, before, "matrix"@, fields, after);
    expressions::law_paths_are_followed_in_turn(scope, "matrix"@, seq![], key);
    assert(Seq::<Seq<char>>::empty().push(key) =~= fields);
    assert forall|i: int| 0 <= i < inner.len() implies #[trigger] inner[i] != '}' by {
        if i < before.len() {
            assert(inner[i] == before[i]);
            assert(text::is_white_space(before[i]));
        } else if i < before.len() + 7 {
            assert(inner[i] == "matrix."@[i - before.len()]);
        } else if i < before.len() + 7 + key.len() {
            assert(inner[i] == key[i - before.len() - 7]);
            assert(text::CharClass::Field.has(key[i - before.len() - 7]));
        } else {
            assert(inner[i] == after[i - before.len() - 7 - key.len()]);
            assert(text::is_white_space(after[i - before.len() - 7 - key.len()]));
        }
    }
    let whole = inner + "}}"@;
    let n = inner.len() as int;
    reveal_strlit("}}");
    assert(whole.subrange(n, n + 2) =~= "}}"@);
    assert forall|j: int| 0 <= j < n implies !text::stands_at(whole, "}}"@, j) by {
        if text::stands_at(whole, "}}"@, j) {
            assert(whole.subrange(j, j + 2)[0] == '}');
            assert(whole[j] == inner[j]);
        }
    }
    text::lemma_find_is(whole, "}}"@, n);
    expressions::law_lone_expression(scope, inner);
    assert("${{"@ + before + "matrix."@ + key + after + "}}"@ =~= "${{"@ + inner + "}}"@);
}

} // verus!
