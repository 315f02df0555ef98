//! The parts of workflow and action files. The values in them have already
//! been expanded.

use vstd::prelude::*;

use crate::contexts::{
    ActionContext, JobContext, JobPostStrategyContext, PreStepContext, RootContext, StepContext,
};
use crate::error;
use crate::error::{ErrorView, KindView, RunnerError, RunnerErrorKind};
use crate::expressions;
use crate::expressions::{expand, ContextResolver, Scope};
use crate::fold;
use crate::ordered_map;
use crate::ordered_map::OrderedMap;
use crate::text;
use crate::yaml;
use crate::yaml::{Number, NumberView, Yaml, YamlView};

verus! {

// ---------------------------------------------------------------------------
// Texts and maps out of values
// ---------------------------------------------------------------------------

/// The error for a value of the wrong type.
pub open spec fn mismatch(scope: Scope, expected: Seq<char>, got: YamlView) -> ErrorView {
    error::at(KindView::TypeMismatch(expected, got), scope.place)
}

/// The text that a value stands for where a text is needed.
pub open spec fn string_of(scope: Scope, v: YamlView) -> Result<Seq<char>, ErrorView> {
    match v {
        YamlView::Text(s) => Ok(s),
        YamlView::Bool(b) => Ok(yaml::bool_text(b)),
        YamlView::Number(NumberView::Whole(n)) => Ok(text::decimal(n)),
        YamlView::Number(NumberView::Float(s)) => Err(
            error::bare(KindView::NotImplemented("Unsupported number Number("@ + s + ")"@)),
        ),
        _ => Err(mismatch(scope, "string"@, v)),
    }
}

/// The text that a value stands for, if there is a value.
pub open spec fn string_opt(scope: Scope, v: Option<YamlView>) -> Result<
    Option<Seq<char>>,
    ErrorView,
> {
    match v {
        Some(v) => match string_of(scope, v) {
            Ok(s) => Ok(Some(s)),
            Err(e) => Err(e),
        },
        None => Ok(None),
    }
}

/// What can be read out of an expanded value.
pub trait FromYaml: Sized + DeepView {
    /// What is read.
    spec fn read(scope: Scope, v: YamlView) -> Result<Self::V, ErrorView>;

    /// Reads it.
    fn from_yaml<'a, C: ContextResolver<'a>>(context: &C, v: Yaml) -> (r: Result<Self, RunnerError>)
        ensures
            error::outcome(r) == Self::read(context.scope(), v@),
    ;
}

impl FromYaml for String {
    open spec fn read(scope: Scope, v: YamlView) -> Result<Seq<char>, ErrorView> {
        string_of(scope, v)
    }

    fn from_yaml<'a, C: ContextResolver<'a>>(context: &C, v: Yaml) -> (r: Result<
        String,
        RunnerError,
    >) {
        to_string(context, v)
    }
}

impl FromYaml for Yaml {
    open spec fn read(scope: Scope, v: YamlView) -> Result<YamlView, ErrorView> {
        Ok(v)
    }

    fn from_yaml<'a, C: ContextResolver<'a>>(_context: &C, v: Yaml) -> (r: Result<
        Yaml,
        RunnerError,
    >) {
        Ok(v)
    }
}

/// Takes one more entry of a mapping into a map: the value is expanded, and
/// what is read out of it is set under the key.
pub open spec fn set_entry<T: FromYaml>(scope: Scope) -> spec_fn(
    Seq<(Seq<char>, T::V)>,
    (YamlView, YamlView),
) -> Result<Seq<(Seq<char>, T::V)>, ErrorView> {
    |done: Seq<(Seq<char>, T::V)>, entry: (YamlView, YamlView)|
        match entry.0 {
            YamlView::Text(key) => match expressions::expanded(scope, entry.1) {
                Ok(v) => match T::read(scope, v) {
                    Ok(x) => Ok(ordered_map::set(done, key, x)),
                    Err(e) => Err(e),
                },
                Err(e) => Err(e),
            },
            _ => Err(mismatch(scope, "string key"@, entry.0)),
        }
}

/// The map that a mapping stands for: texts, with what is read out of the
/// expanded values.
pub open spec fn string_map<T: FromYaml>(scope: Scope, v: YamlView) -> Result<
    Seq<(Seq<char>, T::V)>,
    ErrorView,
> {
    match v {
        YamlView::Mapping(m) => fold::try_fold(seq![], m, set_entry::<T>(scope)),
        _ => Err(mismatch(scope, "mapping"@, v)),
    }
}

fn mismatch_error<'a, C: ContextResolver<'a>>(context: &C, expected: &str, got: Yaml) -> (r:
    RunnerError)
    ensures
        r.deep_view() == mismatch(context.scope(), expected@, got@),
{
    RunnerErrorKind::TypeMismatch { expected: text::copy(expected), got }.error(context)
}

/// Converts the YAML value to a string-keyed map, expanding
/// the values in the map before reading them.
pub fn to_string_map<'a, T: FromYaml, C: ContextResolver<'a>>(context: &C, yaml: Yaml) -> (r: Result<
    OrderedMap<T>,
    RunnerError,
>)
    ensures
        error::outcome(r) == string_map::<T>(context.scope(), yaml@),
{
    match yaml {
        Yaml::Mapping(m) => {
            let pairs = m.into_pairs();
            let ghost source = pairs@;
            let ghost all = yaml::entries(pairs@);
            let ghost scope = context.scope();
            let ghost step = set_entry::<T>(scope);
            let ghost none: Seq<(Seq<char>, T::V)> = seq![];
            let mut out: OrderedMap<T> = OrderedMap::new();
            proof {
                fold::lemma_start(none, all, step);
                assert(out.deep_view() =~= none);
            }
            for entry in it: pairs
                invariant
                    it.seq() == source,
                    all == yaml::entries(source),
                    scope == context.scope(),
                    step == set_entry::<T>(scope),
                    none == Seq::<(Seq<char>, T::V)>::empty(),
                    yaml@ == YamlView::Mapping(all),
                    fold::try_fold(none, all.take(it.index() as int), step) == Ok::<
                        Seq<(Seq<char>, T::V)>,
                        ErrorView,
                    >(out.deep_view()),
            {
                let ghost k = it.index() as int;
                let (key, value) = entry;
                proof {
                    fold::lemma_next(none, all, step, k);
                }
                match key {
                    Yaml::Text(s) => {
                        let x = match expand(context, value) {
                            Ok(x) => x,
                            Err(e) => {
                                proof {
                                    fold::lemma_stop(none, all, step, k);
                                }
                                return Err(e);
                            },
                        };
                        let x = match T::from_yaml(context, x) {
                            Ok(x) => x,
                            Err(e) => {
                                proof {
                                    fold::lemma_stop(none, all, step, k);
                                }
                                return Err(e);
                            },
                        };
                        proof {
                            ordered_map::lemma_deep_set(out.entries(), s@, x);
                        }
                        out.insert(s, x);
                    },
                    other => {
                        proof {
                            fold::lemma_stop(none, all, step, k);
                        }
                        return Err(mismatch_error(context, "string key", other));
                    },
                }
            }
            proof {
                fold::lemma_end(none, all, step);
            }
            Ok(out)
        },
        other => Err(mismatch_error(context, "mapping", other)),
    }
}

/// A whole number in print. Other numbers are not supported.
fn num_to_string(n: Number) -> (r: Result<String, RunnerError>)
    ensures
        error::outcome(r) == (match n@ {
            NumberView::Whole(n) => Ok::<Seq<char>, ErrorView>(text::decimal(n)),
            NumberView::Float(s) => Err(
                error::bare(KindView::NotImplemented("Unsupported number Number("@ + s + ")"@)),
            ),
        }),
{
    match n {
        Number::Signed(v) => Ok(text::decimal_i64(v)),
        Number::Unsigned(v) => Ok(text::decimal_u64(v)),
        Number::Float(s) => Err(
            RunnerError::from(
                RunnerErrorKind::NotImplemented {
                    what: text::joined3("Unsupported number Number(", s.as_str(), ")"),
                },
            ),
        ),
    }
}

fn to_string<'a, C: ContextResolver<'a>>(context: &C, yaml: Yaml) -> (r: Result<
    String,
    RunnerError,
>)
    ensures
        error::outcome(r) == string_of(context.scope(), yaml@),
{
    match yaml {
        Yaml::Text(s) => Ok(s),
        Yaml::Bool(b) => Ok(yaml::bool_string(b)),
        Yaml::Number(n) => num_to_string(n),
        other => Err(mismatch_error(context, "string", other)),
    }
}

fn to_string_opt<'a, C: ContextResolver<'a>>(context: &C, yaml: Option<Yaml>) -> (r: Result<
    Option<String>,
    RunnerError,
>)
    ensures
        error::outcome(r) == string_opt(context.scope(), yaml.deep_view()),
{
    match yaml {
        Some(v) => Ok(Some(to_string(context, v)?)),
        None => Ok(None),
    }
}

// ---------------------------------------------------------------------------
// Fields
// ---------------------------------------------------------------------------

/// The expanded value of a field of a mapping, if the mapping has that field.
pub open spec fn taken(scope: Scope, v: YamlView, name: Seq<char>) -> Result<
    Option<YamlView>,
    ErrorView,
> {
    match yaml::mapping_of(v) {
        Some(m) => match yaml::field(m, name) {
            Some(x) => match expressions::expanded(scope, x) {
                Ok(y) => Ok(Some(y)),
                Err(e) => Err(e),
            },
            None => Ok(None),
        },
        None => Err(error::bare(KindView::TypeMismatch("mapping"@, v))),
    }
}

/// What is left of a value once a field was taken out.
pub open spec fn left(v: YamlView, name: Seq<char>) -> YamlView {
    match yaml::mapping_of(v) {
        Some(m) => yaml::with_mapping(v, yaml::without_field(m, name)),
        None => v,
    }
}

/// The expanded value of a field that a mapping must have.
pub open spec fn taken_required(scope: Scope, v: YamlView, name: Seq<char>) -> Result<
    YamlView,
    ErrorView,
> {
    match taken(scope, v, name) {
        Ok(Some(x)) => Ok(x),
        Ok(None) => Err(error::bare(KindView::RequiredFieldMissing(name, v))),
        Err(e) => Err(e),
    }
}

/// The same, where an error names the place.
pub open spec fn copied(scope: Scope, v: YamlView, name: Seq<char>) -> Result<
    Option<YamlView>,
    ErrorView,
> {
    match yaml::mapping_of(v) {
        Some(_) => taken(scope, v, name),
        None => Err(mismatch(scope, "mapping"@, v)),
    }
}

/// The same for a field that the mapping must have.
pub open spec fn copied_required(scope: Scope, v: YamlView, name: Seq<char>) -> Result<
    YamlView,
    ErrorView,
> {
    match copied(scope, v, name) {
        Ok(Some(x)) => Ok(x),
        Ok(None) => Err(error::at(KindView::RequiredFieldMissing(name, v), scope.place)),
        Err(e) => Err(e),
    }
}

/// The text in a field.
pub open spec fn text_field(scope: Scope, v: YamlView, name: Seq<char>) -> Result<
    Option<Seq<char>>,
    ErrorView,
> {
    match taken(scope, v, name) {
        Ok(x) => string_opt(scope, x),
        Err(e) => Err(e),
    }
}

/// The text in a field that the mapping must have.
pub open spec fn required_text_field(scope: Scope, v: YamlView, name: Seq<char>) -> Result<
    Seq<char>,
    ErrorView,
> {
    match taken_required(scope, v, name) {
        Ok(x) => string_of(scope, x),
        Err(e) => Err(e),
    }
}

/// The map in a field, which is empty where the mapping does not have the
/// field.
pub open spec fn map_field<T: FromYaml>(scope: Scope, v: YamlView, name: Seq<char>) -> Result<
    Seq<(Seq<char>, T::V)>,
    ErrorView,
> {
    match taken(scope, v, name) {
        Ok(Some(x)) => string_map::<T>(scope, x),
        Ok(None) => Ok(seq![]),
        Err(e) => Err(e),
    }
}

/// A value with the entries that it has is the value itself.
proof fn lemma_own_mapping(v: YamlView)
    requires
        yaml::mapping_of(v) is Some,
    ensures
        yaml::with_mapping(v, yaml::mapping_of(v)->0) == v,
    decreases v,
{
    match v {
        YamlView::Tagged(_, inner) => {
            lemma_own_mapping(*inner);
        },
        _ => {},
    }
}

/// Takes the field value and also applies expansion. A mapping does not have
/// the field any more then, so that taking it again gives nothing.
pub fn take_field<'a, C: ContextResolver<'a>>(
    resolver: &C,
    value: &mut Yaml,
    field_name: &'static str,
) -> (r: Result<Option<Yaml>, RunnerError>)
    ensures
        error::outcome(r) == taken(resolver.scope(), old(value)@, field_name@),
        final(value)@ == left(old(value)@, field_name@),
        yaml::mapping_of(old(value)@) is Some ==> taken(
            resolver.scope(),
            final(value)@,
            field_name@,
        ) == Ok::<Option<YamlView>, ErrorView>(None),
{
    proof {
        if let Some(m) = yaml::mapping_of(value@) {
            yaml::law_with_mapping(value@, yaml::without_field(m, field_name@));
        }
    }
    match value.take_entry(field_name) {
        Some(Some(v)) => Ok(Some(expand(resolver, v)?)),
        Some(None) => Ok(None),
        None => Err(
            RunnerError::from(
                RunnerErrorKind::TypeMismatch {
                    expected: text::copy("mapping"),
                    got: value.clone(),
                },
            ),
        ),
    }
}

/// Takes the field value and also applies expansion.
fn take_required_field<'a, C: ContextResolver<'a>>(
    resolver: &C,
    value: &mut Yaml,
    field_name: &'static str,
) -> (r: Result<Yaml, RunnerError>)
    ensures
        error::outcome(r) == taken_required(resolver.scope(), old(value)@, field_name@),
        final(value)@ == left(old(value)@, field_name@),
{
    match take_field(resolver, value, field_name)? {
        Some(v) => Ok(v),
        None => {
            proof {
                let m = yaml::mapping_of(old(value)@)->0;
                assert(yaml::without_field(m, field_name@) == m);
                lemma_own_mapping(old(value)@);
            }
            Err(
                RunnerError::from(
                    RunnerErrorKind::RequiredFieldMissing { field_name, got: value.clone() },
                ),
            )
        },
    }
}

/// Clone the field value and also applies expansion.
fn clone_field<'a, C: ContextResolver<'a>>(
    resolver: &C,
    value: &Yaml,
    field_name: &'static str,
) -> (r: Result<Option<Yaml>, RunnerError>)
    ensures
        error::outcome(r) == copied(resolver.scope(), value@, field_name@),
{
    match value.get_field(field_name) {
        Some(Some(v)) => Ok(Some(expand(resolver, v)?)),
        Some(None) => Ok(None),
        None => Err(mismatch_error(resolver, "mapping", value.clone())),
    }
}

/// Clone the field value and also applies expansion.
fn clone_required_field<'a, C: ContextResolver<'a>>(
    resolver: &C,
    value: &Yaml,
    field_name: &'static str,
) -> (r: Result<Yaml, RunnerError>)
    ensures
        error::outcome(r) == copied_required(resolver.scope(), value@, field_name@),
{
    match clone_field(resolver, value, field_name)? {
        Some(v) => Ok(v),
        None => Err(
            RunnerErrorKind::RequiredFieldMissing { field_name, got: value.clone() }.error(resolver),
        ),
    }
}

fn take_text<'a, C: ContextResolver<'a>>(
    resolver: &C,
    value: &mut Yaml,
    field_name: &'static str,
) -> (r: Result<Option<String>, RunnerError>)
    ensures
        error::outcome(r) == text_field(resolver.scope(), old(value)@, field_name@),
        final(value)@ == left(old(value)@, field_name@),
{
    let v = take_field(resolver, value, field_name)?;
    to_string_opt(resolver, v)
}

fn take_required_text<'a, C: ContextResolver<'a>>(
    resolver: &C,
    value: &mut Yaml,
    field_name: &'static str,
) -> (r: Result<String, RunnerError>)
    ensures
        error::outcome(r) == required_text_field(resolver.scope(), old(value)@, field_name@),
        final(value)@ == left(old(value)@, field_name@),
{
    let v = take_required_field(resolver, value, field_name)?;
    to_string(resolver, v)
}

fn take_map<'a, T: FromYaml, C: ContextResolver<'a>>(
    resolver: &C,
    value: &mut Yaml,
    field_name: &'static str,
) -> (r: Result<OrderedMap<T>, RunnerError>)
    ensures
        error::outcome(r) == map_field::<T>(resolver.scope(), old(value)@, field_name@),
        final(value)@ == left(old(value)@, field_name@),
{
    match take_field(resolver, value, field_name)? {
        Some(yaml) => to_string_map(resolver, yaml),
        None => {
            let out: OrderedMap<T> = OrderedMap::new();
            assert(out.deep_view() =~= seq![]);
            Ok(out)
        },
    }
}

// ---------------------------------------------------------------------------
// Workflow files
// ---------------------------------------------------------------------------

/// A workflow. It is never an expression as a whole.
pub struct Workflow(pub Yaml);

impl DeepView for Workflow {
    type V = YamlView;

    open spec fn deep_view(&self) -> YamlView {
        self.0@
    }
}

impl Clone for Workflow {
    fn clone(&self) -> (r: Self)
        ensures
            r.deep_view() == self.deep_view(),
    {
        Workflow(self.0.clone())
    }
}

/// A job of a workflow.
pub struct Job(pub Yaml);

impl DeepView for Job {
    type V = YamlView;

    open spec fn deep_view(&self) -> YamlView {
        self.0@
    }
}

impl Clone for Job {
    fn clone(&self) -> (r: Self)
        ensures
            r.deep_view() == self.deep_view(),
    {
        Job(self.0.clone())
    }
}

/// The strategy of a job.
pub struct Strategy(pub Yaml);

impl DeepView for Strategy {
    type V = YamlView;

    open spec fn deep_view(&self) -> YamlView {
        self.0@
    }
}

impl Clone for Strategy {
    fn clone(&self) -> (r: Self)
        ensures
            r.deep_view() == self.deep_view(),
    {
        Strategy(self.0.clone())
    }
}

/// The matrix of a strategy.
pub struct Matrix(pub Yaml);

impl DeepView for Matrix {
    type V = YamlView;

    open spec fn deep_view(&self) -> YamlView {
        self.0@
    }
}

impl Clone for Matrix {
    fn clone(&self) -> (r: Self)
        ensures
            r.deep_view() == self.deep_view(),
    {
        Matrix(self.0.clone())
    }
}

/// A step of a job.
pub struct Step(pub Yaml);

impl DeepView for Step {
    type V = YamlView;

    open spec fn deep_view(&self) -> YamlView {
        self.0@
    }
}

impl Clone for Step {
    fn clone(&self) -> (r: Self)
        ensures
            r.deep_view() == self.deep_view(),
    {
        Step(self.0.clone())
    }
}

impl FromYaml for Job {
    open spec fn read(scope: Scope, v: YamlView) -> Result<YamlView, ErrorView> {
        Ok(v)
    }

    fn from_yaml<'a, C: ContextResolver<'a>>(_context: &C, v: Yaml) -> (r: Result<
        Job,
        RunnerError,
    >) {
        Ok(Job(v))
    }
}

impl Workflow {
    /// The workflow's name.
    pub fn take_name<'a>(&mut self, context: &RootContext<'a>) -> (r: Result<
        Option<String>,
        RunnerError,
    >)
        ensures
            error::outcome(r) == text_field(context.scope(), old(self).0@, "name"@),
            final(self).0@ == left(old(self).0@, "name"@),
    {
        take_text(context, &mut self.0, "name")
    }

    /// The workflow's environment variables.
    pub fn take_env<'a>(&mut self, context: &RootContext<'a>) -> (r: Result<
        OrderedMap<String>,
        RunnerError,
    >)
        ensures
            error::outcome(r) == map_field::<String>(context.scope(), old(self).0@, "env"@),
            final(self).0@ == left(old(self).0@, "env"@),
    {
        take_map(context, &mut self.0, "env")
    }

    /// The workflow's jobs.
    pub fn take_jobs<'a>(&mut self, context: &RootContext<'a>) -> (r: Result<
        OrderedMap<Job>,
        RunnerError,
    >)
        ensures
            error::outcome(r) == map_field::<Job>(context.scope(), old(self).0@, "jobs"@),
            final(self).0@ == left(old(self).0@, "jobs"@),
    {
        take_map(context, &mut self.0, "jobs")
    }
}

impl Strategy {
    /// The matrix, if the strategy has one.
    pub fn take_matrix<'a>(&mut self, context: &JobContext<'a>) -> (r: Result<
        Option<Matrix>,
        RunnerError,
    >)
        ensures
            error::outcome(r) == taken(context.scope(), old(self).0@, "matrix"@),
            final(self).0@ == left(old(self).0@, "matrix"@),
    {
        match take_field(context, &mut self.0, "matrix")? {
            Some(v) => Ok(Some(Matrix(v))),
            None => Ok(None),
        }
    }
}

impl Step {
    /// The step's name, before any previous steps have run.
    pub fn take_name_pre<'a>(&mut self, context: &PreStepContext<'a>) -> (r: Result<
        Option<String>,
        RunnerError,
    >)
        ensures
            error::outcome(r) == text_field(context.scope(), old(self).0@, "name"@),
            final(self).0@ == left(old(self).0@, "name"@),
    {
        take_text(context, &mut self.0, "name")
    }

    /// The step's name.
    pub fn take_name<'a>(&mut self, context: &StepContext<'a>) -> (r: Result<
        Option<String>,
        RunnerError,
    >)
        ensures
            error::outcome(r) == text_field(context.scope(), old(self).0@, "name"@),
            final(self).0@ == left(old(self).0@, "name"@),
    {
        take_text(context, &mut self.0, "name")
    }

    /// The action that the step uses.
    pub fn take_uses<'a>(&mut self, context: &StepContext<'a>) -> (r: Result<
        Option<String>,
        RunnerError,
    >)
        ensures
            error::outcome(r) == text_field(context.scope(), old(self).0@, "uses"@),
            final(self).0@ == left(old(self).0@, "uses"@),
    {
        take_text(context, &mut self.0, "uses")
    }

    /// The command that the step runs.
    pub fn take_run<'a>(&mut self, context: &StepContext<'a>) -> (r: Result<
        Option<String>,
        RunnerError,
    >)
        ensures
            error::outcome(r) == text_field(context.scope(), old(self).0@, "run"@),
            final(self).0@ == left(old(self).0@, "run"@),
    {
        take_text(context, &mut self.0, "run")
    }

    /// The shell that the command is for.
    pub fn take_shell<'a>(&mut self, context: &StepContext<'a>) -> (r: Result<
        Option<String>,
        RunnerError,
    >)
        ensures
            error::outcome(r) == text_field(context.scope(), old(self).0@, "shell"@),
            final(self).0@ == left(old(self).0@, "shell"@),
    {
        take_text(context, &mut self.0, "shell")
    }

    /// The directory that the step runs in.
    pub fn take_working_directory<'a>(&mut self, context: &StepContext<'a>) -> (r: Result<
        Option<String>,
        RunnerError,
    >)
        ensures
            error::outcome(r) == text_field(context.scope(), old(self).0@, "working-directory"@),
            final(self).0@ == left(old(self).0@, "working-directory"@),
    {
        take_text(context, &mut self.0, "working-directory")
    }

    /// The step's environment variables.
    pub fn take_env<'a>(&mut self, context: &StepContext<'a>) -> (r: Result<
        OrderedMap<String>,
        RunnerError,
    >)
        ensures
            error::outcome(r) == map_field::<String>(context.scope(), old(self).0@, "env"@),
            final(self).0@ == left(old(self).0@, "env"@),
    {
        take_map(context, &mut self.0, "env")
    }

    /// The step's environment variables, before any previous steps have run.
    pub fn take_env_pre<'a>(&mut self, context: &PreStepContext<'a>) -> (r: Result<
        OrderedMap<String>,
        RunnerError,
    >)
        ensures
            error::outcome(r) == map_field::<String>(context.scope(), old(self).0@, "env"@),
            final(self).0@ == left(old(self).0@, "env"@),
    {
        take_map(context, &mut self.0, "env")
    }

    /// The inputs for the action that the step uses.
    pub fn take_with<'a>(&mut self, context: &StepContext<'a>) -> (r: Result<
        OrderedMap<String>,
        RunnerError,
    >)
        ensures
            error::outcome(r) == map_field::<String>(context.scope(), old(self).0@, "with"@),
            final(self).0@ == left(old(self).0@, "with"@),
    {
        take_map(context, &mut self.0, "with")
    }
}

/// Takes one more value into a list of texts.
pub open spec fn add_string(scope: Scope) -> spec_fn(Seq<Seq<char>>, YamlView) -> Result<
    Seq<Seq<char>>,
    ErrorView,
> {
    |done: Seq<Seq<char>>, v: YamlView|
        match string_of(scope, v) {
            Ok(s) => Ok(done.push(s)),
            Err(e) => Err(e),
        }
}

/// The platforms that a job runs on.
pub open spec fn platforms(scope: Scope, job: YamlView) -> Result<Seq<Seq<char>>, ErrorView> {
    match copied_required(scope, job, "runs-on"@) {
        Ok(YamlView::Text(s)) => Ok(seq![s]),
        Ok(YamlView::Sequence(items)) => fold::try_fold(seq![], items, add_string(scope)),
        Ok(v) => Err(mismatch(scope, "String or array of strings"@, v)),
        Err(e) => Err(e),
    }
}

/// The steps of a job.
pub open spec fn steps(scope: Scope, job: YamlView) -> Result<Seq<YamlView>, ErrorView> {
    match copied_required(scope, job, "steps"@) {
        Ok(YamlView::Sequence(items)) => Ok(items),
        Ok(v) => Err(mismatch(scope, "Array of steps"@, v)),
        Err(e) => Err(e),
    }
}

/// The name of a job.
pub open spec fn job_name(scope: Scope, job: YamlView) -> Result<Option<Seq<char>>, ErrorView> {
    match copied(scope, job, "name"@) {
        Ok(v) => string_opt(scope, v),
        Err(e) => Err(e),
    }
}

/// The environment variables of a job.
pub open spec fn job_env(scope: Scope, job: YamlView) -> Result<
    Seq<(Seq<char>, Seq<char>)>,
    ErrorView,
> {
    match copied(scope, job, "env"@) {
        Ok(Some(v)) => string_map::<String>(scope, v),
        Ok(None) => Ok(seq![]),
        Err(e) => Err(e),
    }
}

impl Job {
    /// The strategy, if the job has one.
    pub fn take_strategy<'a>(&mut self, context: &JobContext<'a>) -> (r: Result<
        Option<Strategy>,
        RunnerError,
    >)
        ensures
            error::outcome(r) == taken(context.scope(), old(self).0@, "strategy"@),
            final(self).0@ == left(old(self).0@, "strategy"@),
    {
        match take_field(context, &mut self.0, "strategy")? {
            Some(v) => Ok(Some(Strategy(v))),
            None => Ok(None),
        }
    }

    /// The job's environment variables.
    pub fn clone_env<'a>(&self, context: &JobPostStrategyContext<'a>) -> (r: Result<
        OrderedMap<String>,
        RunnerError,
    >)
        ensures
            error::outcome(r) == job_env(context.scope(), self.0@),
    {
        match clone_field(context, &self.0, "env")? {
            Some(yaml) => to_string_map(context, yaml),
            None => {
                let out: OrderedMap<String> = OrderedMap::new();
                assert(out.deep_view() =~= seq![]);
                Ok(out)
            },
        }
    }

    /// The job's name.
    pub fn clone_name<'a>(&self, context: &JobPostStrategyContext<'a>) -> (r: Result<
        Option<String>,
        RunnerError,
    >)
        ensures
            error::outcome(r) == job_name(context.scope(), self.0@),
    {
        let v = clone_field(context, &self.0, "name")?;
        to_string_opt(context, v)
    }

    /// The platforms that the job runs on.
    pub fn clone_runs_on<'a>(&self, context: &JobPostStrategyContext<'a>) -> (r: Result<
        Vec<String>,
        RunnerError,
    >)
        ensures
            error::outcome(r) == platforms(context.scope(), self.0@),
    {
        let yaml = clone_required_field(context, &self.0, "runs-on")?;
        proof {
            yaml::lemma_value_view(yaml);
        }
        match yaml {
            Yaml::Text(s) => {
                let mut out: Vec<String> = Vec::new();
                let ghost name = s@;
                out.push(s);
                assert(out.deep_view() =~= seq![name]);
                Ok(out)
            },
            Yaml::Sequence(items) => {
                let ghost source = items@;
                let ghost all = items.deep_view();
                let ghost scope = context.scope();
                let ghost step = add_string(scope);
                let ghost none: Seq<Seq<char>> = seq![];
                let mut out: Vec<String> = Vec::new();
                proof {
                    fold::lemma_start(none, all, step);
                    assert(out.deep_view() =~= none);
                }
                for v in it: items
                    invariant
                        it.seq() == source,
                        all.len() == source.len(),
                        forall|i: int| 0 <= i < source.len() ==> #[trigger] all[i] == source[i]@,
                        scope == context.scope(),
                        step == add_string(scope),
                        none == Seq::<Seq<char>>::empty(),
                        platforms(scope, self.0@) == fold::try_fold(none, all, step),
                        fold::try_fold(none, all.take(it.index() as int), step) == Ok::<
                            Seq<Seq<char>>,
                            ErrorView,
                        >(out.deep_view()),
                {
                    let ghost k = it.index() as int;
                    let ghost done = out.deep_view();
                    proof {
                        fold::lemma_next(none, all, step, k);
                    }
                    match to_string(context, v) {
                        Ok(s) => {
                            let ghost t = s@;
                            out.push(s);
                            assert(out.deep_view() =~= done.push(t));
                        },
                        Err(e) => {
                            proof {
                                fold::lemma_stop(none, all, step, k);
                            }
                            return Err(e);
                        },
                    }
                }
                proof {
                    fold::lemma_end(none, all, step);
                }
                Ok(out)
            },
            other => Err(mismatch_error(context, "String or array of strings", other)),
        }
    }

    /// The job's steps.
    pub fn clone_steps<'a>(&self, context: &JobPostStrategyContext<'a>) -> (r: Result<
        Vec<Step>,
        RunnerError,
    >)
        ensures
            error::outcome(r) == steps(context.scope(), self.0@),
    {
        let yaml = clone_required_field(context, &self.0, "steps")?;
        proof {
            yaml::lemma_value_view(yaml);
        }
        match yaml {
            Yaml::Sequence(items) => {
                let ghost source = items@;
                let ghost all = items.deep_view();
                let mut out: Vec<Step> = Vec::new();
                for v in it: items
                    invariant
                        it.seq() == source,
                        out@.len() == it.index(),
                        forall|i: int| 0 <= i < out@.len() ==> (#[trigger] out@[i]).0 == source[i],
                {
                    out.push(Step(v));
                }
                assert(out.deep_view() =~= all);
                Ok(out)
            },
            other => Err(mismatch_error(context, "Array of steps", other)),
        }
    }
}

/// Takes one more entry of a matrix into its keys: the expanded list of values
/// is set under the key. The entry "include" is passed over.
pub open spec fn add_matrix_key(scope: Scope) -> spec_fn(
    Seq<(Seq<char>, Seq<YamlView>)>,
    (YamlView, YamlView),
) -> Result<Seq<(Seq<char>, Seq<YamlView>)>, ErrorView> {
    |done: Seq<(Seq<char>, Seq<YamlView>)>, entry: (YamlView, YamlView)|
        match entry.0 {
            YamlView::Text(key) => if key == "include"@ {
                Ok(done)
            } else {
                match expressions::expanded(scope, entry.1) {
                    Ok(YamlView::Sequence(items)) => Ok(ordered_map::set(done, key, items)),
                    Ok(v) => Err(mismatch(scope, "matrix list of values"@, v)),
                    Err(e) => Err(e),
                }
            },
            _ => Err(mismatch(scope, "string key"@, entry.0)),
        }
}

/// The keys of a matrix, each with its list of values.
pub open spec fn matrix_keys(scope: Scope, v: YamlView) -> Result<
    Seq<(Seq<char>, Seq<YamlView>)>,
    ErrorView,
> {
    match yaml::mapping_of(v) {
        Some(m) => fold::try_fold(seq![], m, add_matrix_key(scope)),
        None => Err(mismatch(scope, "mapping"@, v)),
    }
}

/// The entry "include" of a list of entries, as the only one.
pub open spec fn kept_includes(m: Seq<(YamlView, YamlView)>) -> Seq<(YamlView, YamlView)>
    decreases m.len(),
{
    if m.len() == 0 {
        seq![]
    } else if m.last().0 == YamlView::Text("include"@) {
        yaml::with_field(kept_includes(m.drop_last()), "include"@, m.last().1)
    } else {
        kept_includes(m.drop_last())
    }
}

/// What is left of a matrix once its keys were taken out: the entry "include",
/// if it was reached before something went wrong.
pub open spec fn matrix_left(scope: Scope, v: YamlView) -> YamlView {
    match yaml::mapping_of(v) {
        Some(m) => yaml::with_mapping(
            v,
            kept_includes(m.take(fold::folded(seq![], m, add_matrix_key(scope)) as int)),
        ),
        None => v,
    }
}

/// Takes one more included combination of values into a list.
pub open spec fn add_include(scope: Scope) -> spec_fn(
    Seq<Seq<(Seq<char>, YamlView)>>,
    YamlView,
) -> Result<Seq<Seq<(Seq<char>, YamlView)>>, ErrorView> {
    |done: Seq<Seq<(Seq<char>, YamlView)>>, v: YamlView|
        match string_map::<Yaml>(scope, v) {
            Ok(m) => Ok(done.push(m)),
            Err(e) => Err(e),
        }
}

/// The combinations of values that a matrix includes.
pub open spec fn matrix_includes(scope: Scope, v: YamlView) -> Result<
    Seq<Seq<(Seq<char>, YamlView)>>,
    ErrorView,
> {
    match taken(scope, v, "include"@) {
        Ok(Some(YamlView::Sequence(items))) => fold::try_fold(seq![], items, add_include(scope)),
        Ok(Some(v)) => Err(mismatch(scope, "sequence of includes"@, v)),
        Ok(None) => Ok(seq![]),
        Err(e) => Err(e),
    }
}

/// Changing the entries twice leaves the later ones.
proof fn lemma_with_mapping_twice(
    v: YamlView,
    a: Seq<(YamlView, YamlView)>,
    b: Seq<(YamlView, YamlView)>,
)
    ensures
        yaml::with_mapping(yaml::with_mapping(v, a), b) == yaml::with_mapping(v, b),
    decreases v,
{
    match v {
        YamlView::Tagged(_, inner) => {
            lemma_with_mapping_twice(*inner, a, b);
        },
        _ => {},
    }
}

impl Matrix {
    /// The keys of the matrix, each with its list of values. The entry
    /// "include" stays behind.
    pub fn take_keys<'a>(&mut self, context: &JobContext<'a>) -> (r: Result<
        OrderedMap<Vec<Yaml>>,
        RunnerError,
    >)
        ensures
            error::outcome(r) == matrix_keys(context.scope(), old(self).0@),
            final(self).0@ == matrix_left(context.scope(), old(self).0@),
    {
        let ghost before = self.0@;
        let all = match self.0.take_entries() {
            Some(all) => all,
            None => {
                return Err(mismatch_error(context, "mapping", self.0.clone()));
            },
        };
        let ghost source = all@;
        let ghost m = yaml::entries(all@);
        let ghost scope = context.scope();
        let ghost step = add_matrix_key(scope);
        let ghost none: Seq<(Seq<char>, Seq<YamlView>)> = seq![];
        let mut out: OrderedMap<Vec<Yaml>> = OrderedMap::new();
        proof {
            fold::lemma_start(none, m, step);
            assert(out.deep_view() =~= none);
            assert(kept_includes(m.take(0)) =~= seq![]);
        }
        for entry in it: all
            invariant
                it.seq() == source,
                m == yaml::entries(source),
                yaml::mapping_of(before) == Some(m),
                before == old(self).0@,
                scope == context.scope(),
                step == add_matrix_key(scope),
                none == Seq::<(Seq<char>, Seq<YamlView>)>::empty(),
                self.0@ == yaml::with_mapping(before, kept_includes(m.take(it.index() as int))),
                fold::try_fold(none, m.take(it.index() as int), step) == Ok::<
                    Seq<(Seq<char>, Seq<YamlView>)>,
                    ErrorView,
                >(out.deep_view()),
        {
            let ghost k = it.index() as int;
            let (key, value) = entry;
            proof {
                fold::lemma_next(none, m, step, k);
                assert(m.take(k + 1).drop_last() =~= m.take(k));
                assert(m.take(k + 1).last() == m[k]);
                yaml::law_with_mapping(before, kept_includes(m.take(k)));
            }
            match key {
                Yaml::Text(s) => {
                    if text::same(s.as_str(), "include") {
                        proof {
                            lemma_with_mapping_twice(
                                before,
                                kept_includes(m.take(k)),
                                kept_includes(m.take(k + 1)),
                            );
                        }
                        self.0.put_entry("include", value);
                    } else {
                        let expanded = match expand(context, value) {
                            Ok(v) => v,
                            Err(e) => {
                                proof {
                                    fold::lemma_stop(none, m, step, k);
                                }
                                return Err(e);
                            },
                        };
                        proof {
                            yaml::lemma_value_view(expanded);
                        }
                        match expanded {
                            Yaml::Sequence(items) => {
                                proof {
                                    ordered_map::lemma_deep_set(out.entries(), s@, items);
                                }
                                out.insert(s, items);
                            },
                            other => {
                                proof {
                                    fold::lemma_stop(none, m, step, k);
                                }
                                return Err(mismatch_error(context, "matrix list of values", other));
                            },
                        }
                    }
                },
                other => {
                    proof {
                        fold::lemma_stop(none, m, step, k);
                    }
                    return Err(mismatch_error(context, "string key", other));
                },
            }
        }
        proof {
            fold::lemma_end(none, m, step);
        }
        Ok(out)
    }

    /// The combinations of values that the matrix includes.
    pub fn take_include<'a>(&mut self, context: &JobContext<'a>) -> (r: Result<
        Vec<OrderedMap<Yaml>>,
        RunnerError,
    >)
        ensures
            error::outcome(r) == matrix_includes(context.scope(), old(self).0@),
            final(self).0@ == left(old(self).0@, "include"@),
    {
        let included = match take_field(context, &mut self.0, "include")? {
            Some(v) => v,
            None => {
                let out: Vec<OrderedMap<Yaml>> = Vec::new();
                assert(out.deep_view() =~= seq![]);
                return Ok(out);
            },
        };
        proof {
            yaml::lemma_value_view(included);
        }
        match included {
            Yaml::Sequence(items) => {
                let ghost source = items@;
                let ghost all = items.deep_view();
                let ghost scope = context.scope();
                let ghost step = add_include(scope);
                let ghost none: Seq<Seq<(Seq<char>, YamlView)>> = seq![];
                let mut out: Vec<OrderedMap<Yaml>> = Vec::new();
                proof {
                    fold::lemma_start(none, all, step);
                    assert(out.deep_view() =~= none);
                }
                for v in it: items
                    invariant
                        it.seq() == source,
                        all.len() == source.len(),
                        forall|i: int| 0 <= i < source.len() ==> #[trigger] all[i] == source[i]@,
                        scope == context.scope(),
                        step == add_include(scope),
                        none == Seq::<Seq<(Seq<char>, YamlView)>>::empty(),
                        matrix_includes(scope, old(self).0@) == fold::try_fold(none, all, step),
                        self.0@ == left(old(self).0@, "include"@),
                        fold::try_fold(none, all.take(it.index() as int), step) == Ok::<
                            Seq<Seq<(Seq<char>, YamlView)>>,
                            ErrorView,
                        >(out.deep_view()),
                {
                    let ghost k = it.index() as int;
                    let ghost done = out.deep_view();
                    proof {
                        fold::lemma_next(none, all, step, k);
                    }
                    let one: Result<OrderedMap<Yaml>, RunnerError> = to_string_map(context, v);
                    match one {
                        Ok(m) => {
                            let ghost t = m.deep_view();
                            out.push(m);
                            assert(out.deep_view() =~= done.push(t));
                        },
                        Err(e) => {
                            proof {
                                fold::lemma_stop(none, all, step, k);
                            }
                            return Err(e);
                        },
                    }
                }
                proof {
                    fold::lemma_end(none, all, step);
                }
                Ok(out)
            },
            other => Err(mismatch_error(context, "sequence of includes", other)),
        }
    }
}

// ---------------------------------------------------------------------------
// Action files
// ---------------------------------------------------------------------------

/// An input of an action.
pub struct Input(pub Yaml);

impl DeepView for Input {
    type V = YamlView;

    open spec fn deep_view(&self) -> YamlView {
        self.0@
    }
}

impl Clone for Input {
    fn clone(&self) -> (r: Self)
        ensures
            r.deep_view() == self.deep_view(),
    {
        Input(self.0.clone())
    }
}

/// How an action is run.
pub struct Runs(pub Yaml);

impl DeepView for Runs {
    type V = YamlView;

    open spec fn deep_view(&self) -> YamlView {
        self.0@
    }
}

impl Clone for Runs {
    fn clone(&self) -> (r: Self)
        ensures
            r.deep_view() == self.deep_view(),
    {
        Runs(self.0.clone())
    }
}

/// An action. It is never an expression as a whole.
pub struct Action(pub Yaml);

impl DeepView for Action {
    type V = YamlView;

    open spec fn deep_view(&self) -> YamlView {
        self.0@
    }
}

impl Clone for Action {
    fn clone(&self) -> (r: Self)
        ensures
            r.deep_view() == self.deep_view(),
    {
        Action(self.0.clone())
    }
}

impl Input {
    /// The default value.
    pub fn take_default<'a>(&mut self, context: &ActionContext<'a>) -> (r: Result<
        Option<String>,
        RunnerError,
    >)
        ensures
            error::outcome(r) == text_field(context.scope(), old(self).0@, "default"@),
            final(self).0@ == left(old(self).0@, "default"@),
    {
        take_text(context, &mut self.0, "default")
    }
}

impl Runs {
    /// What the action is run with.
    pub fn take_using<'a>(&mut self, context: &ActionContext<'a>) -> (r: Result<
        String,
        RunnerError,
    >)
        ensures
            error::outcome(r) == required_text_field(context.scope(), old(self).0@, "using"@),
            final(self).0@ == left(old(self).0@, "using"@),
    {
        take_required_text(context, &mut self.0, "using")
    }

    /// What is run.
    pub fn take_main<'a>(&mut self, context: &ActionContext<'a>) -> (r: Result<String, RunnerError>)
        ensures
            error::outcome(r) == required_text_field(context.scope(), old(self).0@, "main"@),
            final(self).0@ == left(old(self).0@, "main"@),
    {
        take_required_text(context, &mut self.0, "main")
    }

    /// What is run before everything else.
    pub fn take_pre<'a>(&mut self, context: &ActionContext<'a>) -> (r: Result<
        Option<String>,
        RunnerError,
    >)
        ensures
            error::outcome(r) == text_field(context.scope(), old(self).0@, "pre"@),
            final(self).0@ == left(old(self).0@, "pre"@),
    {
        take_text(context, &mut self.0, "pre")
    }
}

/// Takes one more entry of a mapping into a map, as it is.
pub open spec fn set_plain_entry(scope: Scope) -> spec_fn(
    Seq<(Seq<char>, YamlView)>,
    (YamlView, YamlView),
) -> Result<Seq<(Seq<char>, YamlView)>, ErrorView> {
    |done: Seq<(Seq<char>, YamlView)>, entry: (YamlView, YamlView)|
        match entry.0 {
            YamlView::Text(key) => Ok(ordered_map::set(done, key, entry.1)),
            _ => Err(mismatch(scope, "string key"@, entry.0)),
        }
}

/// The inputs of an action, whose values are not expanded yet.
pub open spec fn inputs(scope: Scope, action: YamlView) -> Result<
    Seq<(Seq<char>, YamlView)>,
    ErrorView,
> {
    match taken(scope, action, "inputs"@) {
        Ok(Some(v)) => match yaml::mapping_of(v) {
            Some(m) => fold::try_fold(seq![], m, set_plain_entry(scope)),
            None => Err(mismatch(scope, "mapping"@, v)),
        },
        Ok(None) => Ok(seq![]),
        Err(e) => Err(e),
    }
}

impl Action {
    /// The inputs of the action.
    pub fn take_inputs<'a>(&mut self, context: &ActionContext<'a>) -> (r: Result<
        OrderedMap<Input>,
        RunnerError,
    >)
        ensures
            error::outcome(r) == inputs(context.scope(), old(self).0@),
            final(self).0@ == left(old(self).0@, "inputs"@),
    {
        let mut inputs = match take_field(context, &mut self.0, "inputs")? {
            Some(v) => v,
            None => {
                let out: OrderedMap<Input> = OrderedMap::new();
                assert(out.deep_view() =~= seq![]);
                return Ok(out);
            },
        };
        let all = match inputs.take_entries() {
            Some(all) => all,
            None => {
                return Err(mismatch_error(context, "mapping", inputs));
            },
        };
        let ghost source = all@;
        let ghost m = yaml::entries(all@);
        let ghost scope = context.scope();
        let ghost step = set_plain_entry(scope);
        let ghost none: Seq<(Seq<char>, YamlView)> = seq![];
        let mut out: OrderedMap<Input> = OrderedMap::new();
        proof {
            fold::lemma_start(none, m, step);
            assert(out.deep_view() =~= none);
        }
        for entry in it: all
            invariant
                it.seq() == source,
                m == yaml::entries(source),
                scope == context.scope(),
                step == set_plain_entry(scope),
                none == Seq::<(Seq<char>, YamlView)>::empty(),
                self::inputs(scope, old(self).0@) == fold::try_fold(none, m, step),
                self.0@ == left(old(self).0@, "inputs"@),
                fold::try_fold(none, m.take(it.index() as int), step) == Ok::<
                    Seq<(Seq<char>, YamlView)>,
                    ErrorView,
                >(out.deep_view()),
        {
            let ghost k = it.index() as int;
            let (key, value) = entry;
            proof {
                fold::lemma_next(none, m, step, k);
            }
            match key {
                Yaml::Text(s) => {
                    let input = Input(value);
                    proof {
                        ordered_map::lemma_deep_set(out.entries(), s@, input);
                    }
                    out.insert(s, input);
                },
                other => {
                    proof {
                        fold::lemma_stop(none, m, step, k);
                    }
                    return Err(mismatch_error(context, "string key", other));
                },
            }
        }
        proof {
            fold::lemma_end(none, m, step);
        }
        Ok(out)
    }

    /// How the action is run.
    pub fn take_runs<'a>(&mut self, context: &ActionContext<'a>) -> (r: Result<Runs, RunnerError>)
        ensures
            error::outcome(r) == taken_required(context.scope(), old(self).0@, "runs"@),
            final(self).0@ == left(old(self).0@, "runs"@),
    {
        Ok(Runs(take_required_field(context, &mut self.0, "runs")?))
    }
}

// ---------------------------------------------------------------------------
// Laws
// ---------------------------------------------------------------------------

/// What taking a field comes to. From a mapping that has it, just that entry is
/// lost, even where its expansion fails; a mapping without it and a value that
/// is no mapping stay as they are. Where no mapping has a key twice, none has
/// afterwards, and taking the field of a mapping again gives nothing.
pub proof fn law_take_field(scope: Scope, v: YamlView, name: Seq<char>)
    ensures
        match yaml::mapping_of(v) {
            Some(m) => match yaml::field(m, name) {
                Some(x) => {
                    &&& taken(scope, v, name) == (match expressions::expanded(scope, x) {
                        Ok(y) => Ok::<Option<YamlView>, ErrorView>(Some(y)),
                        Err(e) => Err(e),
                    })
                    &&& yaml::mapping_of(left(v, name)) == Some(yaml::without_field(m, name))
                    &&& exists|i: int|
                        #[trigger] yaml::is_field(m, name, i) && yaml::without_field(m, name)
                            == m.update(i, m.last()).drop_last()
                },
                None => {
                    &&& taken(scope, v, name) == Ok::<Option<YamlView>, ErrorView>(None)
                    &&& left(v, name) == v
                },
            },
            None => {
                &&& taken(scope, v, name) == Err::<Option<YamlView>, ErrorView>(
                    error::bare(KindView::TypeMismatch("mapping"@, v)),
                )
                &&& left(v, name) == v
            },
        },
        yaml::keys_are_distinct(v) ==> yaml::keys_are_distinct(left(v, name)) && (yaml::mapping_of(
            v,
        ) is Some ==> taken(scope, left(v, name), name) == Ok::<Option<YamlView>, ErrorView>(
            None,
        )),
{
    if yaml::keys_are_distinct(v) {
        yaml::law_distinct_keys_are_kept(v, name);
    }
    if let Some(m) = yaml::mapping_of(v) {
        yaml::law_with_mapping(v, yaml::without_field(m, name));
        if yaml::distinct_fields(m) {
            yaml::law_without_field(m, name);
        }
        match yaml::field_index(m, name) {
            Some(i) => {
                assert(yaml::is_field(m, name, i));
            },
            None => {
                lemma_own_mapping(v);
            },
        }
    }
}

/// A field that was taken out of a mapping with distinct keys is gone, and
/// every other field is still there.
pub proof fn law_taken_is_gone(scope: Scope, v: YamlView, name: Seq<char>, other: Seq<char>)
    requires
        yaml::mapping_of(v) matches Some(m) && yaml::distinct_fields(m),
        other != name,
    ensures
        taken(scope, left(v, name), name) == Ok::<Option<YamlView>, ErrorView>(None),
        taken(scope, left(v, name), other) == taken(scope, v, other),
{
    let m = yaml::mapping_of(v)->0;
    yaml::law_without_field(m, name);
    yaml::law_with_mapping(v, yaml::without_field(m, name));
    assert(yaml::field(yaml::without_field(m, name), other) == yaml::field(m, other));
}

/// Once its keys were taken out, nothing but the entry "include" is left of a
/// matrix.
pub proof fn law_only_includes_are_left(scope: Scope, v: YamlView)
    requires
        yaml::mapping_of(v) is Some,
    ensures
        yaml::mapping_of(matrix_left(scope, v)) matches Some(rest) && rest.len() <= 1 && (rest.len()
            == 1 ==> rest[0].0 == YamlView::Text("include"@)),
{
    let m = yaml::mapping_of(v)->0;
    let n = fold::folded(seq![], m, add_matrix_key(scope)) as int;
    lemma_kept_includes(m.take(n));
    yaml::law_with_mapping(v, kept_includes(m.take(n)));
}

proof fn lemma_kept_includes(m: Seq<(YamlView, YamlView)>)
    ensures
        kept_includes(m).len() <= 1,
        kept_includes(m).len() == 1 ==> kept_includes(m)[0].0 == YamlView::Text("include"@),
    decreases m.len(),
{
    if m.len() > 0 {
        lemma_kept_includes(m.drop_last());
        let before = kept_includes(m.drop_last());
        if m.last().0 == YamlView::Text("include"@) && before.len() == 1 {
            assert(yaml::is_field(before, "include"@, 0));
        }
    }
}

/// Where a text is needed, a text stands for itself, a truth value and a whole
/// number for what is printed of them, and nothing else will do.
pub proof fn law_string_of(scope: Scope, v: YamlView)
    ensures
        match v {
            YamlView::Text(s) => string_of(scope, v) == Ok::<Seq<char>, ErrorView>(s),
            YamlView::Bool(b) => string_of(scope, v) == Ok::<Seq<char>, ErrorView>(
                if b {
                    "true"@
                } else {
                    "false"@
                },
            ),
            YamlView::Number(NumberView::Whole(n)) => string_of(scope, v) == Ok::<
                Seq<char>,
                ErrorView,
            >(text::decimal(n)),
            YamlView::Number(NumberView::Float(printed)) => string_of(scope, v) == Err::<
                Seq<char>,
                ErrorView,
            >(
                ErrorView {
                    kind: KindView::NotImplemented("Unsupported number Number("@ + printed + ")"@),
                    context: None,
                },
            ),
            _ => string_of(scope, v) == Err::<Seq<char>, ErrorView>(
                ErrorView {
                    kind: KindView::TypeMismatch("string"@, v),
                    context: Some(scope.place),
                },
            ),
        },
{
}

/// What one entry of a mapping is read as: its key, which has to be a text, with
/// what is read out of its expanded value.
pub open spec fn entry_read<T: FromYaml>(scope: Scope, entry: (YamlView, YamlView)) -> Result<
    (Seq<char>, T::V),
    ErrorView,
> {
    match (entry.0, expressions::expanded(scope, entry.1)) {
        (YamlView::Text(key), Ok(v)) => match T::read(scope, v) {
            Ok(x) => Ok((key, x)),
            Err(e) => Err(e),
        },
        (YamlView::Text(_), Err(e)) => Err(e),
        (key, _) => Err(
            ErrorView {
                kind: KindView::TypeMismatch("string key"@, key),
                context: Some(scope.place),
            },
        ),
    }
}

/// A mapping is read entry by entry and in its order: it can be read exactly when
/// every entry can, and then the entries are what is read out of them. Else the
/// error is that of the first entry that cannot be read.
pub proof fn law_string_map<T: FromYaml>(scope: Scope, m: Seq<(YamlView, YamlView)>)
    requires
        yaml::distinct_fields(m),
    ensures
        match string_map::<T>(scope, YamlView::Mapping(m)) {
            Ok(read) => {
                &&& read.len() == m.len()
                &&& ordered_map::distinct_keys(read)
                &&& forall|i: int|
                    0 <= i < m.len() ==> #[trigger] entry_read::<T>(scope, m[i]) == Ok::<
                        (Seq<char>, T::V),
                        ErrorView,
                    >(read[i])
            },
            Err(e) => exists|i: int|
                {
                    &&& 0 <= i < m.len()
                    &&& #[trigger] entry_read::<T>(scope, m[i]) == Err::<
                        (Seq<char>, T::V),
                        ErrorView,
                    >(e)
                    &&& forall|j: int|
                        0 <= j < i ==> #[trigger] entry_read::<T>(scope, m[j]) is Ok
                },
        },
    decreases m.len(),
{
    if m.len() > 0 {
        let front = m.drop_last();
        assert forall|i: int, j: int| 0 <= i < j < front.len() implies (#[trigger] front[i]).0 != (
        #[trigger] front[j]).0 by {
            assert(m[i].0 != m[j].0);
        }
        law_string_map::<T>(scope, front);
        let last = m.len() - 1;
        assert(m[last] == m.last());
        match string_map::<T>(scope, YamlView::Mapping(front)) {
            Ok(read) => {
                if let Ok(x) = entry_read::<T>(scope, m.last()) {
                    assert forall|i: int| 0 <= i < read.len() implies (#[trigger] read[i]).0
                        != x.0 by {
                        assert(entry_read::<T>(scope, front[i]) == Ok::<
                            (Seq<char>, T::V),
                            ErrorView,
                        >(read[i]));
                        assert(m[i].0 != m[last].0);
                        assert(front[i] == m[i]);
                    }
                    ordered_map::law_lookup(read, x, x.0);
                    ordered_map::law_set_new_key(read, x.0, x.1);
                    let all = read.push(x);
                    assert(string_map::<T>(scope, YamlView::Mapping(m)) == Ok::<
                        Seq<(Seq<char>, T::V)>,
                        ErrorView,
                    >(all));
                    assert forall|i: int| 0 <= i < m.len() implies #[trigger] entry_read::<T>(
                        scope,
                        m[i],
                    ) == Ok::<(Seq<char>, T::V), ErrorView>(all[i]) by {
                        if i < last {
                            assert(front[i] == m[i]);
                        }
                    }
                } else {
                    assert forall|j: int| 0 <= j < last implies #[trigger] entry_read::<T>(
                        scope,
                        m[j],
                    ) is Ok by {
                        assert(front[j] == m[j]);
                    }
                    assert(entry_read::<T>(scope, m[last]) is Err);
                }
            },
            Err(e) => {
                let i = choose|i: int|
                    {
                        &&& 0 <= i < front.len()
                        &&& #[trigger] entry_read::<T>(scope, front[i]) == Err::<
                            (Seq<char>, T::V),
                            ErrorView,
                        >(e)
                        &&& forall|j: int|
                            0 <= j < i ==> #[trigger] entry_read::<T>(scope, front[j]) is Ok
                    };
                assert(front[i] == m[i]);
                assert(entry_read::<T>(scope, m[i]) == Err::<(Seq<char>, T::V), ErrorView>(e));
                assert forall|j: int| 0 <= j < i implies #[trigger] entry_read::<T>(
                    scope,
                    m[j],
                ) is Ok by {
                    assert(front[j] == m[j]);
                }
            },
        }
    }
}

/// A text that is a text after expansion is set under its key: every entry of a
/// mapping of texts that can be read is looked up under its key, and nothing is
/// set under any other.
pub proof fn law_texts_are_looked_up(scope: Scope, m: Seq<(YamlView, YamlView)>, key: Seq<char>)
    requires
        yaml::distinct_fields(m),
    ensures
        string_map::<String>(scope, YamlView::Mapping(m)) matches Ok(read) ==> match yaml::field(
            m,
            key,
        ) {
            Some(x) => expressions::expanded(scope, x) matches Ok(v) && string_of(scope, v) matches Ok(
                t,
            ) && ordered_map::lookup(read, key) == Some(t),
            None => ordered_map::lookup(read, key) is None,
        },
{
    law_string_map::<String>(scope, m);
    yaml::law_field_is_its_entry(m, key);
    if let Ok(read) = string_map::<String>(scope, YamlView::Mapping(m)) {
        match yaml::field(m, key) {
            Some(x) => {
                let i = choose|i: int|
                    0 <= i < m.len() && #[trigger] m[i] == (YamlView::Text(key), x);
                assert(entry_read::<String>(scope, m[i]) == Ok::<
                    (Seq<char>, Seq<char>),
                    ErrorView,
                >(read[i]));
                ordered_map::law_entries_are_looked_up(read, i);
            },
            None => {
                assert forall|i: int| 0 <= i < read.len() implies (#[trigger] read[i]).0 != key by {
                    assert(entry_read::<String>(scope, m[i]) == Ok::<
                        (Seq<char>, Seq<char>),
                        ErrorView,
                    >(read[i]));
                    assert(m[i].0 == YamlView::Text(read[i].0));
                }
                ordered_map::law_lookup(read, (key, key), key);
            },
        }
    }
}

/// What is no mapping cannot be read as one.
pub proof fn law_only_mappings_are_read<T: FromYaml>(scope: Scope, v: YamlView)
    requires
        !(v is Mapping),
    ensures
        string_map::<T>(scope, v) == Err::<Seq<(Seq<char>, T::V)>, ErrorView>(
            ErrorView {
                kind: KindView::TypeMismatch("mapping"@, v),
                context: Some(scope.place),
            },
        ),
{
}

/// A field of a mapping, whether it is taken or copied, is its value expanded: as
/// a text, as a map of texts, or as it is. A field that is not there is no text,
/// an empty map, and an error where it is required.
pub proof fn law_fields(
    scope: Scope,
    v: YamlView,
    m: Seq<(YamlView, YamlView)>,
    name: Seq<char>,
)
    requires
        yaml::mapping_of(v) == Some(m),
    ensures
        match yaml::field(m, name) {
            None => {
                &&& taken(scope, v, name) == Ok::<Option<YamlView>, ErrorView>(None)
                &&& copied(scope, v, name) == Ok::<Option<YamlView>, ErrorView>(None)
                &&& text_field(scope, v, name) == Ok::<Option<Seq<char>>, ErrorView>(None)
                &&& map_field::<String>(scope, v, name) == Ok::<
                    Seq<(Seq<char>, Seq<char>)>,
                    ErrorView,
                >(Seq::empty())
                &&& map_field::<Job>(scope, v, name) == Ok::<
                    Seq<(Seq<char>, YamlView)>,
                    ErrorView,
                >(Seq::empty())
                &&& taken_required(scope, v, name) == Err::<YamlView, ErrorView>(
                    ErrorView { kind: KindView::RequiredFieldMissing(name, v), context: None },
                )
                &&& copied_required(scope, v, name) == Err::<YamlView, ErrorView>(
                    ErrorView {
                        kind: KindView::RequiredFieldMissing(name, v),
                        context: Some(scope.place),
                    },
                )
                &&& required_text_field(scope, v, name) is Err
            },
            Some(x) => match expressions::expanded(scope, x) {
                Err(e) => {
                    &&& taken(scope, v, name) == Err::<Option<YamlView>, ErrorView>(e)
                    &&& copied(scope, v, name) == Err::<Option<YamlView>, ErrorView>(e)
                    &&& text_field(scope, v, name) == Err::<Option<Seq<char>>, ErrorView>(e)
                    &&& map_field::<String>(scope, v, name) == Err::<
                        Seq<(Seq<char>, Seq<char>)>,
                        ErrorView,
                    >(e)
                    &&& map_field::<Job>(scope, v, name) == Err::<
                        Seq<(Seq<char>, YamlView)>,
                        ErrorView,
                    >(e)
                    &&& taken_required(scope, v, name) == Err::<YamlView, ErrorView>(e)
                    &&& copied_required(scope, v, name) == Err::<YamlView, ErrorView>(e)
                    &&& required_text_field(scope, v, name) == Err::<Seq<char>, ErrorView>(e)
                },
                Ok(y) => {
                    &&& taken(scope, v, name) == Ok::<Option<YamlView>, ErrorView>(Some(y))
                    &&& copied(scope, v, name) == Ok::<Option<YamlView>, ErrorView>(Some(y))
                    &&& taken_required(scope, v, name) == Ok::<YamlView, ErrorView>(y)
                    &&& copied_required(scope, v, name) == Ok::<YamlView, ErrorView>(y)
                    &&& map_field::<String>(scope, v, name) == string_map::<String>(scope, y)
                    &&& map_field::<Job>(scope, v, name) == string_map::<Job>(scope, y)
                    &&& match string_of(scope, y) {
                        Ok(s) => {
                            &&& text_field(scope, v, name) == Ok::<Option<Seq<char>>, ErrorView>(
                                Some(s),
                            )
                            &&& required_text_field(scope, v, name) == Ok::<Seq<char>, ErrorView>(s)
                        },
                        Err(e) => {
                            &&& text_field(scope, v, name) == Err::<Option<Seq<char>>, ErrorView>(e)
                            &&& required_text_field(scope, v, name) == Err::<Seq<char>, ErrorView>(
                                e,
                            )
                        },
                    }
                },
            },
        },
{
}

/// A job is read out of its mapping: its name under `name`, its environment
/// variables under `env`, its steps under `steps` and its platforms, one text or a
/// list of texts, under `runs-on`.
pub proof fn law_parts_of_a_job(scope: Scope, v: YamlView, m: Seq<(YamlView, YamlView)>)
    requires
        yaml::mapping_of(v) == Some(m),
    ensures
        match yaml::field(m, "name"@) {
            None => job_name(scope, v) == Ok::<Option<Seq<char>>, ErrorView>(None),
            Some(x) => match expressions::expanded(scope, x) {
                Err(e) => job_name(scope, v) == Err::<Option<Seq<char>>, ErrorView>(e),
                Ok(y) => match string_of(scope, y) {
                    Ok(s) => job_name(scope, v) == Ok::<Option<Seq<char>>, ErrorView>(Some(s)),
                    Err(e) => job_name(scope, v) == Err::<Option<Seq<char>>, ErrorView>(e),
                },
            },
        },
        match yaml::field(m, "env"@) {
            None => job_env(scope, v) == Ok::<Seq<(Seq<char>, Seq<char>)>, ErrorView>(Seq::empty()),
            Some(x) => match expressions::expanded(scope, x) {
                Err(e) => job_env(scope, v) == Err::<Seq<(Seq<char>, Seq<char>)>, ErrorView>(e),
                Ok(y) => job_env(scope, v) == string_map::<String>(scope, y),
            },
        },
        match yaml::field(m, "steps"@) {
            None => steps(scope, v) == Err::<Seq<YamlView>, ErrorView>(
                ErrorView {
                    kind: KindView::RequiredFieldMissing("steps"@, v),
                    context: Some(scope.place),
                },
            ),
            Some(x) => match expressions::expanded(scope, x) {
                Err(e) => steps(scope, v) == Err::<Seq<YamlView>, ErrorView>(e),
                Ok(YamlView::Sequence(items)) => steps(scope, v) == Ok::<Seq<YamlView>, ErrorView>(
                    items,
                ),
                Ok(y) => steps(scope, v) == Err::<Seq<YamlView>, ErrorView>(
                    ErrorView {
                        kind: KindView::TypeMismatch("Array of steps"@, y),
                        context: Some(scope.place),
                    },
                ),
            },
        },
        match yaml::field(m, "runs-on"@) {
            None => platforms(scope, v) == Err::<Seq<Seq<char>>, ErrorView>(
                ErrorView {
                    kind: KindView::RequiredFieldMissing("runs-on"@, v),
                    context: Some(scope.place),
                },
            ),
            Some(x) => match expressions::expanded(scope, x) {
                Err(e) => platforms(scope, v) == Err::<Seq<Seq<char>>, ErrorView>(e),
                Ok(YamlView::Text(s)) => platforms(scope, v) == Ok::<Seq<Seq<char>>, ErrorView>(
                    seq![s],
                ),
                Ok(YamlView::Sequence(items)) => match platforms(scope, v) {
                    Ok(list) => list.len() == items.len() && forall|i: int|
                        0 <= i < items.len() ==> #[trigger] string_of(scope, items[i]) == Ok::<
                            Seq<char>,
                            ErrorView,
                        >(list[i]),
                    Err(e) => exists|i: int|
                        0 <= i < items.len() && #[trigger] string_of(scope, items[i]) == Err::<
                            Seq<char>,
                            ErrorView,
                        >(e),
                },
                Ok(y) => platforms(scope, v) == Err::<Seq<Seq<char>>, ErrorView>(
                    ErrorView {
                        kind: KindView::TypeMismatch("String or array of strings"@, y),
                        context: Some(scope.place),
                    },
                ),
            },
        },
{
    law_fields(scope, v, m, "name"@);
    law_fields(scope, v, m, "env"@);
    law_fields(scope, v, m, "steps"@);
    law_fields(scope, v, m, "runs-on"@);
    if let Some(x) = yaml::field(m, "runs-on"@) {
        if let Ok(YamlView::Sequence(items)) = expressions::expanded(scope, x) {
            lemma_strings(scope, items);
        }
    }
}

proof fn lemma_strings(scope: Scope, items: Seq<YamlView>)
    ensures
        match fold::try_fold(seq![], items, add_string(scope)) {
            Ok(list) => list.len() == items.len() && forall|i: int|
                0 <= i < items.len() ==> #[trigger] string_of(scope, items[i]) == Ok::<
                    Seq<char>,
                    ErrorView,
                >(list[i]),
            Err(e) => exists|i: int|
                0 <= i < items.len() && #[trigger] string_of(scope, items[i]) == Err::<
                    Seq<char>,
                    ErrorView,
                >(e),
        },
    decreases items.len(),
{
    if items.len() > 0 {
        let front = items.drop_last();
        lemma_strings(scope, front);
        assert(items[items.len() - 1] == items.last());
        match fold::try_fold(seq![], front, add_string(scope)) {
            Ok(list) => {
                assert forall|i: int| 0 <= i < front.len() implies #[trigger] string_of(
                    scope,
                    items[i],
                ) == Ok::<Seq<char>, ErrorView>(list[i]) by {
                    assert(front[i] == items[i]);
                }
            },
            Err(e) => {
                let i = choose|i: int|
                    0 <= i < front.len() && #[trigger] string_of(scope, front[i]) == Err::<
                        Seq<char>,
                        ErrorView,
                    >(e);
                assert(front[i] == items[i]);
            },
        }
    }
}

/// A matrix is read entry by entry: each list of values stands under its key, in
/// the order of the entries, but for the entry `include`.
pub proof fn law_matrix_keys(
    scope: Scope,
    m: Seq<(YamlView, YamlView)>,
    key: Seq<char>,
    list: YamlView,
)
    requires
        yaml::distinct_fields(m.push((YamlView::Text(key), list))),
    ensures
        matrix_keys(scope, YamlView::Mapping(Seq::empty())) == Ok::<
            Seq<(Seq<char>, Seq<YamlView>)>,
            ErrorView,
        >(Seq::empty()),
        matrix_keys(scope, YamlView::Mapping(m)) matches Ok(keys) ==> {
            let all = matrix_keys(scope, YamlView::Mapping(m.push((YamlView::Text(key), list))));
            if key == "include"@ {
                all == Ok::<Seq<(Seq<char>, Seq<YamlView>)>, ErrorView>(keys)
            } else {
                match expressions::expanded(scope, list) {
                    Ok(YamlView::Sequence(items)) => all == Ok::<
                        Seq<(Seq<char>, Seq<YamlView>)>,
                        ErrorView,
                    >(keys.push((key, items))),
                    Ok(v) => all == Err::<Seq<(Seq<char>, Seq<YamlView>)>, ErrorView>(
                        ErrorView {
                            kind: KindView::TypeMismatch("matrix list of values"@, v),
                            context: Some(scope.place),
                        },
                    ),
                    Err(e) => all == Err::<Seq<(Seq<char>, Seq<YamlView>)>, ErrorView>(e),
                }
            }
        },
        matrix_keys(scope, YamlView::Mapping(m)) matches Err(e) ==> matrix_keys(
            scope,
            YamlView::Mapping(m.push((YamlView::Text(key), list))),
        ) == Err::<Seq<(Seq<char>, Seq<YamlView>)>, ErrorView>(e),
{
    let all = m.push((YamlView::Text(key), list));
    assert(all.drop_last() =~= m);
    assert forall|i: int, j: int| 0 <= i < j < m.len() implies (#[trigger] m[i]).0 != (
    #[trigger] m[j]).0 by {
        assert(all[i].0 != all[j].0);
    }
    lemma_matrix_keys_come_from_entries(scope, m);
    if let Ok(keys) = matrix_keys(scope, YamlView::Mapping(m)) {
        assert forall|i: int| 0 <= i < keys.len() implies (#[trigger] keys[i]).0 != key by {
            let j = choose|j: int|
                0 <= j < m.len() && (#[trigger] m[j]).0 == YamlView::Text(keys[i].0);
            assert(all[j].0 != all[m.len() as int].0);
        }
        if let Ok(YamlView::Sequence(items)) = expressions::expanded(scope, list) {
            ordered_map::law_lookup(keys, (key, items), key);
            ordered_map::law_set_new_key(keys, key, items);
        }
    }
}

proof fn lemma_matrix_keys_come_from_entries(scope: Scope, m: Seq<(YamlView, YamlView)>)
    ensures
        matrix_keys(scope, YamlView::Mapping(m)) matches Ok(keys) ==> forall|i: int|
            0 <= i < keys.len() ==> exists|j: int|
                0 <= j < m.len() && (#[trigger] m[j]).0 == YamlView::Text((#[trigger] keys[i]).0),
    decreases m.len(),
{
    if m.len() > 0 {
        let front = m.drop_last();
        lemma_matrix_keys_come_from_entries(scope, front);
        if let Ok(keys) = matrix_keys(scope, YamlView::Mapping(m)) {
            let before = matrix_keys(scope, YamlView::Mapping(front))->Ok_0;
            assert forall|i: int| 0 <= i < keys.len() implies exists|j: int|
                0 <= j < m.len() && (#[trigger] m[j]).0 == YamlView::Text(
                    (#[trigger] keys[i]).0,
                ) by {
                let e = keys[i];
                if let YamlView::Text(k) = m.last().0 {
                    if k != "include"@ {
                        ordered_map::lemma_without(before, k);
                        if i == keys.len() - 1 {
                            assert(m[m.len() - 1].0 == YamlView::Text(e.0));
                        } else {
                            assert(e == ordered_map::without(before, k)[i]);
                            assert(before.contains(e));
                        }
                    } else {
                        assert(before.contains(e));
                    }
                }
                if before.contains(e) {
                    let b = choose|b: int| 0 <= b < before.len() && before[b] == e;
                    let j = choose|j: int|
                        0 <= j < front.len() && (#[trigger] front[j]).0 == YamlView::Text(
                            before[b].0,
                        );
                    assert(m[j] == front[j]);
                }
            }
        }
    }
}

/// The combinations that a matrix lists under `include` are the maps of values in
/// that list, one by one and in order; they are still there once the keys of the
/// matrix were taken out.
pub proof fn law_matrix_includes(scope: Scope, v: YamlView, m: Seq<(YamlView, YamlView)>)
    requires
        yaml::mapping_of(v) == Some(m),
        yaml::distinct_fields(m),
        matrix_keys(scope, v) is Ok,
    ensures
        yaml::mapping_of(matrix_left(scope, v)) matches Some(rest) && yaml::field(
            rest,
            "include"@,
        ) == yaml::field(m, "include"@),
        match yaml::field(m, "include"@) {
            None => matrix_includes(scope, matrix_left(scope, v)) == Ok::<
                Seq<Seq<(Seq<char>, YamlView)>>,
                ErrorView,
            >(Seq::empty()),
            Some(x) => match expressions::expanded(scope, x) {
                Err(e) => matrix_includes(scope, matrix_left(scope, v)) == Err::<
                    Seq<Seq<(Seq<char>, YamlView)>>,
                    ErrorView,
                >(e),
                Ok(YamlView::Sequence(items)) => match matrix_includes(
                    scope,
                    matrix_left(scope, v),
                ) {
                    Ok(list) => list.len() == items.len() && forall|i: int|
                        0 <= i < items.len() ==> #[trigger] string_map::<Yaml>(scope, items[i])
                            == Ok::<Seq<(Seq<char>, YamlView)>, ErrorView>(list[i]),
                    Err(e) => exists|i: int|
                        0 <= i < items.len() && #[trigger] string_map::<Yaml>(scope, items[i])
                            == Err::<Seq<(Seq<char>, YamlView)>, ErrorView>(e),
                },
                Ok(_) => matrix_includes(scope, matrix_left(scope, v)) is Err,
            },
        },
{
    let none: Seq<(Seq<char>, Seq<YamlView>)> = seq![];
    assert(fold::folded(none, m, add_matrix_key(scope)) == m.len());
    assert(m.take(m.len() as int) =~= m);
    yaml::law_with_mapping(v, kept_includes(m));
    lemma_include_is_kept(m);
    let rest = matrix_left(scope, v);
    law_fields(scope, rest, kept_includes(m), "include"@);
    if let Some(x) = yaml::field(m, "include"@) {
        if let Ok(YamlView::Sequence(items)) = expressions::expanded(scope, x) {
            lemma_include_list(scope, items);
        }
    }
}

proof fn lemma_include_is_kept(m: Seq<(YamlView, YamlView)>)
    requires
        yaml::distinct_fields(m),
    ensures
        yaml::field(kept_includes(m), "include"@) == yaml::field(m, "include"@),
        yaml::distinct_fields(kept_includes(m)),
    decreases m.len(),
{
    yaml::law_field_is_its_entry(m, "include"@);
    if m.len() > 0 {
        let front = m.drop_last();
        assert forall|i: int, j: int| 0 <= i < j < front.len() implies (#[trigger] front[i]).0 != (
        #[trigger] front[j]).0 by {
            assert(m[i].0 != m[j].0);
        }
        lemma_include_is_kept(front);
        yaml::law_field_is_its_entry(front, "include"@);
        let last = m.len() - 1;
        assert(m[last] == m.last());
        if m.last().0 == YamlView::Text("include"@) {
            yaml::law_with_field(kept_includes(front), "include"@, m.last().1);
        } else {
            match yaml::field(front, "include"@) {
                Some(x) => {
                    let i = choose|i: int|
                        0 <= i < front.len() && #[trigger] front[i] == (
                            YamlView::Text("include"@),
                            x,
                        );
                    assert(m[i] == front[i]);
                },
                None => {
                    if let Some(x) = yaml::field(m, "include"@) {
                        let i = choose|i: int|
                            0 <= i < m.len() && #[trigger] m[i] == (YamlView::Text("include"@), x);
                        assert(front[i] == m[i]);
                    }
                },
            }
        }
    }
}

proof fn lemma_include_list(scope: Scope, items: Seq<YamlView>)
    ensures
        match fold::try_fold(seq![], items, add_include(scope)) {
            Ok(list) => list.len() == items.len() && forall|i: int|
                0 <= i < items.len() ==> #[trigger] string_map::<Yaml>(scope, items[i]) == Ok::<
                    Seq<(Seq<char>, YamlView)>,
                    ErrorView,
                >(list[i]),
            Err(e) => exists|i: int|
                0 <= i < items.len() && #[trigger] string_map::<Yaml>(scope, items[i]) == Err::<
                    Seq<(Seq<char>, YamlView)>,
                    ErrorView,
                >(e),
        },
    decreases items.len(),
{
    if items.len() > 0 {
        let front = items.drop_last();
        lemma_include_list(scope, front);
        assert(items[items.len() - 1] == items.last());
        match fold::try_fold(seq![], front, add_include(scope)) {
            Ok(list) => {
                assert forall|i: int| 0 <= i < front.len() implies #[trigger] string_map::<Yaml>(
                    scope,
                    items[i],
                ) == Ok::<Seq<(Seq<char>, YamlView)>, ErrorView>(list[i]) by {
                    assert(front[i] == items[i]);
                }
            },
            Err(e) => {
                let i = choose|i: int|
                    0 <= i < front.len() && #[trigger] string_map::<Yaml>(scope, front[i]) == Err::<
                        Seq<(Seq<char>, YamlView)>,
                        ErrorView,
                    >(e);
                assert(front[i] == items[i]);
            },
        }
    }
}

/// The inputs of an action are the entries under `inputs`, each under its key, as
/// they are and in their order.
pub proof fn law_inputs(
    scope: Scope,
    v: YamlView,
    m: Seq<(YamlView, YamlView)>,
    list: Seq<(YamlView, YamlView)>,
)
    requires
        yaml::mapping_of(v) == Some(m),
        yaml::distinct_fields(list),
    ensures
        yaml::field(m, "inputs"@) is None ==> inputs(scope, v) == Ok::<
            Seq<(Seq<char>, YamlView)>,
            ErrorView,
        >(Seq::empty()),
        yaml::field(m, "inputs"@) == Some(YamlView::Mapping(list)) ==> match inputs(scope, v) {
            Ok(found) => found.len() == list.len() && ordered_map::distinct_keys(found)
                && forall|i: int|
                0 <= i < list.len() ==> (#[trigger] list[i]) == (
                    YamlView::Text(found[i].0),
                    found[i].1,
                ),
            Err(_) => exists|i: int| 0 <= i < list.len() && !((#[trigger] list[i]).0 is Text),
        },
{
    law_fields(scope, v, m, "inputs"@);
    lemma_plain_entries(scope, list);
}

proof fn lemma_plain_entries(scope: Scope, list: Seq<(YamlView, YamlView)>)
    requires
        yaml::distinct_fields(list),
    ensures
        match fold::try_fold(seq![], list, set_plain_entry(scope)) {
            Ok(found) => found.len() == list.len() && ordered_map::distinct_keys(found)
                && forall|i: int|
                0 <= i < list.len() ==> (#[trigger] list[i]) == (
                    YamlView::Text(found[i].0),
                    found[i].1,
                ),
            Err(_) => exists|i: int| 0 <= i < list.len() && !((#[trigger] list[i]).0 is Text),
        },
    decreases list.len(),
{
    if list.len() > 0 {
        let front = list.drop_last();
        assert forall|i: int, j: int| 0 <= i < j < front.len() implies (#[trigger] front[i]).0 != (
        #[trigger] front[j]).0 by {
            assert(list[i].0 != list[j].0);
        }
        lemma_plain_entries(scope, front);
        let last = list.len() - 1;
        assert(list[last] == list.last());
        match fold::try_fold(seq![], front, set_plain_entry(scope)) {
            Ok(found) => {
                if let YamlView::Text(key) = list.last().0 {
                    assert forall|i: int| 0 <= i < found.len() implies (#[trigger] found[i]).0
                        != key by {
                        assert(front[i] == (YamlView::Text(found[i].0), found[i].1));
                        assert(list[i].0 != list[last].0);
                        assert(front[i] == list[i]);
                    }
                    ordered_map::law_lookup(found, (key, list.last().1), key);
                    ordered_map::law_set_new_key(found, key, list.last().1);
                    let all = found.push((key, list.last().1));
                    assert forall|i: int| 0 <= i < list.len() implies (#[trigger] list[i]) == (
                        YamlView::Text(all[i].0),
                        all[i].1,
                    ) by {
                        if i < last {
                            assert(front[i] == list[i]);
                        }
                    }
                }
            },
            Err(_) => {
                let i = choose|i: int| 0 <= i < front.len() && !((#[trigger] front[i]).0 is Text);
                assert(list[i] == front[i]);
            },
        }
    }
}

/// Where values are read as such, nothing is changed about them.
pub proof fn law_values_are_read_as_they_are(scope: Scope, v: YamlView)
    ensures
        <Yaml as FromYaml>::read(scope, v) == Ok::<YamlView, ErrorView>(v),
        <Job as FromYaml>::read(scope, v) == Ok::<YamlView, ErrorView>(v),
        <String as FromYaml>::read(scope, v) == string_of(scope, v),
{
}

/// What is no mapping has no fields to take or to copy, not even missing ones.
pub proof fn law_only_mappings_have_fields(scope: Scope, v: YamlView, name: Seq<char>)
    requires
        yaml::mapping_of(v) is None,
    ensures
        taken(scope, v, name) == Err::<Option<YamlView>, ErrorView>(
            ErrorView { kind: KindView::TypeMismatch("mapping"@, v), context: None },
        ),
        copied(scope, v, name) == Err::<Option<YamlView>, ErrorView>(
            ErrorView {
                kind: KindView::TypeMismatch("mapping"@, v),
                context: Some(scope.place),
            },
        ),
        matrix_keys(scope, v) == Err::<Seq<(Seq<char>, Seq<YamlView>)>, ErrorView>(
            ErrorView {
                kind: KindView::TypeMismatch("mapping"@, v),
                context: Some(scope.place),
            },
        ),
        left(v, name) == v,
{
}

} // verus!
