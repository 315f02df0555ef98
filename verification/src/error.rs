//! What can go wrong, and where it went wrong.

use vstd::prelude::*;

use crate::expressions::ContextResolver;
use crate::text;
use crate::yaml;
use crate::yaml::{Yaml, YamlError, YamlView};

verus! {

/// An index into the steps in the workflow YAML. This is not the same thing
/// as Github's "step number", which includes invisible steps like
/// job creation and isn't always numbered consecutively.
#[derive(Copy, Clone, Eq, PartialEq, Ord, PartialOrd, Debug, Structural)]
pub struct StepIndex(pub u32);

impl DeepView for StepIndex {
    type V = nat;

    open spec fn deep_view(&self) -> nat {
        self.0 as nat
    }
}

// ---------------------------------------------------------------------------
// Where
// ---------------------------------------------------------------------------

/// `ErrorContextRoot` describes what we were processing when an error occurred.
#[derive(Debug, PartialEq)]
pub enum ErrorContextRoot {
    /// The error occurred processing a workflow YAML file.
    Workflow,
    /// The error occurred processing an action's YAML file.
    Action(String),
}

/// This describes what we know about the source of an error.
#[derive(Debug, PartialEq)]
pub struct ErrorContext {
    /// Which YAML file was the context of the error.
    pub root: ErrorContextRoot,
    /// Which job we were processing.
    pub job_name: Option<String>,
    /// Which step we were processing.
    pub step: Option<StepIndex>,
}

/// What an `ErrorContextRoot` stands for.
pub enum RootView {
    /// A workflow.
    Workflow,
    /// The action of this name.
    Action(Seq<char>),
}

/// What an `ErrorContext` stands for.
pub struct PlaceView {
    /// The file.
    pub root: RootView,
    /// The job.
    pub job_name: Option<Seq<char>>,
    /// The step.
    pub step: Option<nat>,
}

impl DeepView for ErrorContextRoot {
    type V = RootView;

    open spec fn deep_view(&self) -> RootView {
        match *self {
            ErrorContextRoot::Workflow => RootView::Workflow,
            ErrorContextRoot::Action(action) => RootView::Action(action@),
        }
    }
}

impl DeepView for ErrorContext {
    type V = PlaceView;

    open spec fn deep_view(&self) -> PlaceView {
        PlaceView {
            root: self.root.deep_view(),
            job_name: self.job_name.deep_view(),
            step: self.step.deep_view(),
        }
    }
}

impl Clone for ErrorContextRoot {
    fn clone(&self) -> (r: Self)
        ensures
            r.deep_view() == self.deep_view(),
    {
        match self {
            ErrorContextRoot::Workflow => ErrorContextRoot::Workflow,
            ErrorContextRoot::Action(action) => ErrorContextRoot::Action(action.clone()),
        }
    }
}

impl Clone for ErrorContext {
    fn clone(&self) -> (r: Self)
        ensures
            r.deep_view() == self.deep_view(),
    {
        let job_name = match &self.job_name {
            Some(name) => Some(name.clone()),
            None => None,
        };
        ErrorContext { root: self.root.clone(), job_name, step: self.step }
    }
}

/// How the root of a context is printed.
pub open spec fn root_text(root: RootView) -> Seq<char> {
    match root {
        RootView::Workflow => "workflow"@,
        RootView::Action(action) => "action "@ + action,
    }
}

/// How a context is printed. A step is named only along with its job.
pub open spec fn place_text(place: PlaceView) -> Seq<char> {
    match (place.job_name, place.step) {
        (Some(job), Some(step)) => root_text(place.root) + " job '"@ + job + "' step "@
            + text::decimal(step as int),
        (Some(job), None) => root_text(place.root) + " job '"@ + job + "'"@,
        (None, _) => root_text(place.root),
    }
}

impl ErrorContextRoot {
    /// The root in print.
    pub fn message(&self) -> (r: String)
        ensures
            r@ == root_text(self.deep_view()),
    {
        match self {
            ErrorContextRoot::Workflow => {
                let mut out = String::new();
                out.push_str("workflow");
                assert(out@ =~= "workflow"@);
                out
            },
            ErrorContextRoot::Action(action) => text::joined("action ", action.as_str()),
        }
    }
}

impl ErrorContext {
    /// A context that names neither a job nor a step.
    pub fn new(root: ErrorContextRoot) -> (r: ErrorContext)
        ensures
            r.deep_view() == (PlaceView { root: root.deep_view(), job_name: None, step: None }),
    {
        ErrorContext { root, job_name: None, step: None }
    }

    /// The same context in another job.
    pub fn job_name(self, job_name: Option<String>) -> (r: ErrorContext)
        ensures
            r.deep_view() == (PlaceView { job_name: job_name.deep_view(), ..self.deep_view() }),
    {
        ErrorContext { root: self.root, job_name, step: self.step }
    }

    /// The same context in another step.
    pub fn step(self, step: StepIndex) -> (r: ErrorContext)
        ensures
            r.deep_view() == (PlaceView { step: Some(step.0 as nat), ..self.deep_view() }),
    {
        ErrorContext { root: self.root, job_name: self.job_name, step: Some(step) }
    }

    /// The context in print.
    pub fn message(&self) -> (r: String)
        ensures
            r@ == place_text(self.deep_view()),
    {
        let mut out = self.root.message();
        if let Some(job) = &self.job_name {
            out.push_str(" job '");
            out.push_str(job.as_str());
            match self.step {
                Some(step) => {
                    out.push_str("' step ");
                    out.push_str(text::decimal_u64(step.0 as u64).as_str());
                },
                None => {
                    out.push_str("'");
                },
            }
        }
        out
    }
}

// ---------------------------------------------------------------------------
// What
// ---------------------------------------------------------------------------

/// Details about an error we encountered.
#[allow(inconsistent_fields)]
#[derive(Debug, PartialEq)]
pub enum RunnerErrorKind {
    /// Error parsing workflow YAML file.
    InvalidWorkflowYaml {
        /// The actual parse error.
        inner: YamlError,
    },
    /// We expected a certain kind of JSON value but found a different kind.
    TypeMismatch {
        /// What we expected.
        expected: String,
        /// What we got.
        got: Yaml,
    },
    /// A JSON object should have had a specific field but it was missing.
    RequiredFieldMissing {
        /// Name of the missing field.
        field_name: &'static str,
        /// The JSON object.
        got: Yaml,
    },
    /// Failed to parse a Github Actions expression.
    ExpressionParseError {
        /// The unparseable expression.
        expression: String,
    },
    /// An expression occurs in a string interpolation context but produced a non-string result.
    ExpressionNonString {
        /// The expression.
        expression: String,
        /// The value it evaluated to.
        value: Yaml,
    },
    /// A 'runs-on' value is not supported.
    UnsupportedPlatform {
        /// The 'runs-on' value.
        runs_on: String,
    },
    /// Failed to parse an action name.
    BadActionName {
        /// The invalid action name.
        action: String,
    },
    /// Failed to download the code for an action.
    ActionDownloadError {
        /// The name of the action.
        action: String,
        /// How the download error is printed.
        inner: String,
    },
    /// Error parsing an action's YAML file.
    InvalidActionYaml {
        /// The name of the action.
        action: String,
        /// The actual parse error.
        inner: YamlError,
    },
    /// The workflow specified an environment variable name that's invalid (e.g. contains `=`).
    InvalidEnvironmentVariableName {
        /// The invalid environment variable name.
        name: String,
    },
    /// An action's `using` value is not supported.
    UnsupportedActionType {
        /// The name of the action.
        action: String,
        /// Its unsupported 'using' value.
        using: String,
    },
    /// `pre` is not currently supported.
    UnsupportedPre {
        /// The action that uses `pre`.
        action: String,
    },
    /// A shell type is not supported.
    UnsupportedShell {
        /// The unsupported `shell` value.
        shell: String,
    },
    /// Something that no part of the runner can deal with yet. A caller that
    /// cannot go on without it stops here.
    NotImplemented {
        /// What is missing.
        what: String,
    },
}

/// Errors returned by this crate.
#[derive(Debug, PartialEq)]
pub struct RunnerError {
    kind: RunnerErrorKind,
    context: Option<ErrorContext>,
}

/// What a `RunnerErrorKind` stands for.
pub enum KindView {
    /// See `RunnerErrorKind::InvalidWorkflowYaml`.
    InvalidWorkflowYaml(Seq<char>),
    /// What was expected, and what was found.
    TypeMismatch(Seq<char>, YamlView),
    /// The field, and where it was missing.
    RequiredFieldMissing(Seq<char>, YamlView),
    /// The expression.
    ExpressionParseError(Seq<char>),
    /// The expression, and its value.
    ExpressionNonString(Seq<char>, YamlView),
    /// The platform.
    UnsupportedPlatform(Seq<char>),
    /// The action.
    BadActionName(Seq<char>),
    /// The action, and the error.
    ActionDownloadError(Seq<char>, Seq<char>),
    /// The action, and the error.
    InvalidActionYaml(Seq<char>, Seq<char>),
    /// The variable.
    InvalidEnvironmentVariableName(Seq<char>),
    /// The action, and what it uses.
    UnsupportedActionType(Seq<char>, Seq<char>),
    /// The action.
    UnsupportedPre(Seq<char>),
    /// The shell.
    UnsupportedShell(Seq<char>),
    /// What is missing.
    NotImplemented(Seq<char>),
}

/// What a `RunnerError` stands for.
pub struct ErrorView {
    /// What went wrong.
    pub kind: KindView,
    /// Where it went wrong, where that is known.
    pub context: Option<PlaceView>,
}

impl DeepView for RunnerErrorKind {
    type V = KindView;

    open spec fn deep_view(&self) -> KindView {
        match *self {
            RunnerErrorKind::InvalidWorkflowYaml { inner } => KindView::InvalidWorkflowYaml(inner@),
            RunnerErrorKind::TypeMismatch { expected, got } => KindView::TypeMismatch(
                expected@,
                got@,
            ),
            RunnerErrorKind::RequiredFieldMissing { field_name, got } =>
                KindView::RequiredFieldMissing(field_name@, got@),
            RunnerErrorKind::ExpressionParseError { expression } =>
                KindView::ExpressionParseError(expression@),
            RunnerErrorKind::ExpressionNonString { expression, value } =>
                KindView::ExpressionNonString(expression@, value@),
            RunnerErrorKind::UnsupportedPlatform { runs_on } => KindView::UnsupportedPlatform(
                runs_on@,
            ),
            RunnerErrorKind::BadActionName { action } => KindView::BadActionName(action@),
            RunnerErrorKind::ActionDownloadError { action, inner } =>
                KindView::ActionDownloadError(action@, inner@),
            RunnerErrorKind::InvalidActionYaml { action, inner } => KindView::InvalidActionYaml(
                action@,
                inner@,
            ),
            RunnerErrorKind::InvalidEnvironmentVariableName { name } =>
                KindView::InvalidEnvironmentVariableName(name@),
            RunnerErrorKind::UnsupportedActionType { action, using } =>
                KindView::UnsupportedActionType(action@, using@),
            RunnerErrorKind::UnsupportedPre { action } => KindView::UnsupportedPre(action@),
            RunnerErrorKind::UnsupportedShell { shell } => KindView::UnsupportedShell(shell@),
            RunnerErrorKind::NotImplemented { what } => KindView::NotImplemented(what@),
        }
    }
}

impl DeepView for RunnerError {
    type V = ErrorView;

    closed spec fn deep_view(&self) -> ErrorView {
        ErrorView { kind: self.kind.deep_view(), context: self.context.deep_view() }
    }
}

/// What a result stands for.
pub open spec fn outcome<T: DeepView>(r: Result<T, RunnerError>) -> Result<T::V, ErrorView> {
    match r {
        Ok(v) => Ok(v.deep_view()),
        Err(e) => Err(e.deep_view()),
    }
}

/// An error without a place.
pub open spec fn bare(kind: KindView) -> ErrorView {
    ErrorView { kind, context: None }
}

/// An error at a place.
pub open spec fn at(kind: KindView, place: PlaceView) -> ErrorView {
    ErrorView { kind, context: Some(place) }
}

/// How the kind of an error is printed.
pub open spec fn kind_text(kind: KindView) -> Seq<char> {
    match kind {
        KindView::InvalidWorkflowYaml(inner) => "Invalid workflow YAML: "@ + inner,
        KindView::TypeMismatch(expected, got) => "Expected "@ + expected + ", got "@ + yaml::shown(
            got,
        ),
        KindView::RequiredFieldMissing(field_name, got) => "Expected field "@ + field_name
            + ", missing in "@ + yaml::shown(got),
        KindView::ExpressionParseError(expression) => "Error parsing expression '"@ + expression
            + "'"@,
        KindView::ExpressionNonString(expression, value) =>
            "Expression in string interpolation '"@ + expression + "' is not a string, got "@
            + yaml::shown(value),
        KindView::UnsupportedPlatform(runs_on) => "Platform '"@ + runs_on + "' not supported"@,
        KindView::BadActionName(action) => "Cannot parse action name '"@ + action + "'"@,
        KindView::ActionDownloadError(action, inner) => "Failed to download action '"@ + action
            + "': "@ + inner,
        KindView::InvalidActionYaml(action, inner) => "Invalid YAML for action '"@ + action + "': "@
            + inner,
        KindView::InvalidEnvironmentVariableName(name) => "Invalid evironment variable name '"@
            + name + "'"@,
        KindView::UnsupportedActionType(action, using) => "Unsupported type '"@ + using
            + "' for action '"@ + action + "'"@,
        KindView::UnsupportedPre(action) => "'pre' rules not supported for action '"@ + action
            + "'"@,
        KindView::UnsupportedShell(shell) => "Shell '"@ + shell + "' not supported"@,
        KindView::NotImplemented(what) => what,
    }
}

/// How an error is printed.
pub open spec fn error_text(e: ErrorView) -> Seq<char> {
    match e.context {
        Some(place) => kind_text(e.kind) + " at "@ + place_text(place),
        None => kind_text(e.kind),
    }
}

fn joined4(a: &str, b: &str, c: &str, d: &str) -> (r: String)
    ensures
        r@ == a@ + b@ + c@ + d@,
{
    let mut out = text::joined3(a, b, c);
    out.push_str(d);
    out
}

impl RunnerErrorKind {
    /// The kind in print.
    pub fn message(&self) -> (r: String)
        ensures
            r@ == kind_text(self.deep_view()),
    {
        match self {
            RunnerErrorKind::InvalidWorkflowYaml { inner } => text::joined(
                "Invalid workflow YAML: ",
                inner.message.as_str(),
            ),
            RunnerErrorKind::TypeMismatch { expected, got } => joined4(
                "Expected ",
                expected.as_str(),
                ", got ",
                got.show().as_str(),
            ),
            RunnerErrorKind::RequiredFieldMissing { field_name, got } => joined4(
                "Expected field ",
                field_name,
                ", missing in ",
                got.show().as_str(),
            ),
            RunnerErrorKind::ExpressionParseError { expression } => text::joined3(
                "Error parsing expression '",
                expression.as_str(),
                "'",
            ),
            RunnerErrorKind::ExpressionNonString { expression, value } => joined4(
                "Expression in string interpolation '",
                expression.as_str(),
                "' is not a string, got ",
                value.show().as_str(),
            ),
            RunnerErrorKind::UnsupportedPlatform { runs_on } => text::joined3(
                "Platform '",
                runs_on.as_str(),
                "' not supported",
            ),
            RunnerErrorKind::BadActionName { action } => text::joined3(
                "Cannot parse action name '",
                action.as_str(),
                "'",
            ),
            RunnerErrorKind::ActionDownloadError { action, inner } => joined4(
                "Failed to download action '",
                action.as_str(),
                "': ",
                inner.as_str(),
            ),
            RunnerErrorKind::InvalidActionYaml { action, inner } => joined4(
                "Invalid YAML for action '",
                action.as_str(),
                "': ",
                inner.message.as_str(),
            ),
            RunnerErrorKind::InvalidEnvironmentVariableName { name } => text::joined3(
                "Invalid evironment variable name '",
                name.as_str(),
                "'",
            ),
            RunnerErrorKind::UnsupportedActionType { action, using } => {
                let mut out = joined4(
                    "Unsupported type '",
                    using.as_str(),
                    "' for action '",
                    action.as_str(),
                );
                out.push_str("'");
                out
            },
            RunnerErrorKind::UnsupportedPre { action } => text::joined3(
                "'pre' rules not supported for action '",
                action.as_str(),
                "'",
            ),
            RunnerErrorKind::UnsupportedShell { shell } => text::joined3(
                "Shell '",
                shell.as_str(),
                "' not supported",
            ),
            RunnerErrorKind::NotImplemented { what } => what.clone(),
        }
    }

    /// The error of this kind at the place that the resolver knows.
    pub fn error<'a, C: ContextResolver<'a>>(self, context: &C) -> (r: RunnerError)
        ensures
            r.deep_view() == at(self.deep_view(), context.scope().place),
    {
        RunnerError { kind: self, context: Some(context.error_context()) }
    }
}

impl RunnerError {
    /// Get error details.
    pub fn kind(&self) -> (r: &RunnerErrorKind)
        ensures
            r.deep_view() == self.deep_view().kind,
    {
        &self.kind
    }

    /// Get the error context if there is one.
    pub fn context(&self) -> (r: Option<&ErrorContext>)
        ensures
            match r {
                Some(context) => self.deep_view().context == Some(context.deep_view()),
                None => self.deep_view().context is None,
            },
    {
        match &self.context {
            Some(context) => Some(context),
            None => None,
        }
    }

    /// The error in print.
    pub fn message(&self) -> (r: String)
        ensures
            r@ == error_text(self.deep_view()),
    {
        match &self.context {
            Some(context) => text::joined3(
                self.kind.message().as_str(),
                " at ",
                context.message().as_str(),
            ),
            None => self.kind.message(),
        }
    }
}

impl From<RunnerErrorKind> for RunnerError {
    fn from(kind: RunnerErrorKind) -> (r: RunnerError)
        ensures
            r.deep_view() == bare(kind.deep_view()),
    {
        RunnerError { kind, context: None }
    }
}

impl vstd::std_specs::convert::FromSpecImpl<RunnerErrorKind> for RunnerError {
    open spec fn obeys_from_spec() -> bool {
        true
    }

    closed spec fn from_spec(kind: RunnerErrorKind) -> RunnerError {
        RunnerError { kind, context: None }
    }
}

// ---------------------------------------------------------------------------
// Laws
// ---------------------------------------------------------------------------

/// An error that is known to be at a place is printed like the same error without
/// one, with the place behind it.
pub proof fn law_places_are_printed(kind: KindView, place: PlaceView, job: Seq<char>, step: nat)
    ensures
        error_text(ErrorView { kind, context: Some(place) }) == error_text(
            ErrorView { kind, context: None },
        ) + " at "@ + place_text(place),
        place_text(PlaceView { job_name: None, ..place }) == (match place.root {
            RootView::Workflow => "workflow"@,
            RootView::Action(action) => "action "@ + action,
        }),
        place_text(PlaceView { job_name: Some(job), step: None, ..place }) == place_text(
            PlaceView { job_name: None, ..place },
        ) + " job '"@ + job + "'"@,
        place_text(PlaceView { job_name: Some(job), step: Some(step), ..place }) == place_text(
            PlaceView { job_name: Some(job), step: None, ..place },
        ) + " step "@ + text::decimal(step as int),
{
    reveal_strlit("' step ");
    reveal_strlit("'");
    reveal_strlit(" step ");
    assert("' step "@ =~= "'"@ + " step "@);
    let head = root_text(place.root) + " job '"@ + job;
    assert(head + "' step "@ + text::decimal(step as int) =~= head + "'"@ + " step "@
        + text::decimal(step as int));
}

/// What is said of an error names everything that belongs to it.
pub proof fn law_messages(a: Seq<char>, b: Seq<char>, v: YamlView)
    ensures
        kind_text(KindView::InvalidWorkflowYaml(a)) == "Invalid workflow YAML: "@ + a,
        kind_text(KindView::TypeMismatch(a, v)) == "Expected "@ + a + ", got "@ + yaml::shown(v),
        kind_text(KindView::RequiredFieldMissing(a, v)) == "Expected field "@ + a
            + ", missing in "@ + yaml::shown(v),
        kind_text(KindView::ExpressionParseError(a)) == "Error parsing expression '"@ + a + "'"@,
        kind_text(KindView::ExpressionNonString(a, v))
            == "Expression in string interpolation '"@ + a + "' is not a string, got "@
            + yaml::shown(v),
        kind_text(KindView::UnsupportedPlatform(a)) == "Platform '"@ + a + "' not supported"@,
        kind_text(KindView::BadActionName(a)) == "Cannot parse action name '"@ + a + "'"@,
        kind_text(KindView::ActionDownloadError(a, b)) == "Failed to download action '"@ + a
            + "': "@ + b,
        kind_text(KindView::InvalidActionYaml(a, b)) == "Invalid YAML for action '"@ + a + "': "@
            + b,
        kind_text(KindView::InvalidEnvironmentVariableName(a))
            == "Invalid evironment variable name '"@ + a + "'"@,
        kind_text(KindView::UnsupportedActionType(a, b)) == "Unsupported type '"@ + b
            + "' for action '"@ + a + "'"@,
        kind_text(KindView::UnsupportedPre(a)) == "'pre' rules not supported for action '"@ + a
            + "'"@,
        kind_text(KindView::UnsupportedShell(a)) == "Shell '"@ + a + "' not supported"@,
        kind_text(KindView::NotImplemented(a)) == a,
{
}

} // verus!
