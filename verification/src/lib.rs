//! `gha_runner` analyzes and runs Github Actions workflows.
//!
//! This crate holds everything about a workflow that can be computed: which
//! jobs it describes, what the expressions in it stand for, which environment
//! variables a step gets, the script that runs it, and what its output means
//! for the steps behind it. Downloading actions, writing files and running
//! containers is left to the program around it.
//!
//! # Running a job
//!
//! * Fill out a `RunnerContext`
//! * Call `Runner::new()` to create a `Runner`
//! * Call `Runner::job_descriptions()` to get a list of `JobDescription`s and pick a job
//! * Call `Runner::job_runner()` to create a `JobRunner`
//! * Call `JobRunner::container_images()` to get a list of Docker container images that will be
//!   needed, and create one container per image
//! * For each job step, until `next_step_index() >= step_count()`, start with
//!   `StepState::Start` and the event `StepEvent::Begin`, and call `StepState::advance()` until it
//!   asks for nothing more: each call says what to do next (create files, fetch an action, write
//!   or run the script, read what it wrote), and what came of it is the next event
//! * `docker::before_steps()` says before the first step, and `docker::after_step()` after each,
//!   whether the workflow is over and how it ended
//!
//! The decisions behind `StepState::advance()` can also be had one by one:
//! `JobRunner::prepare_step()`, `plan_step()`, `configure_action_file()`, `next_script_head()`
//! and `finish_step()`, with `OutputFilter` for what a script prints.
//!
//! # How contracts are stated
//!
//! Every type has a view: texts are sequences of characters, ordered maps are
//! sequences of entries, and a YAML value is a tree. What a function returns is
//! given by a spec function over these views. A `Result` is related to one by
//! `error::outcome`, so that a contract names the error along with the value.
//! The functions named `law_...` state what holds across functions.

pub mod config;
pub mod contexts;
pub mod docker;
pub mod error;
pub mod expressions;
pub mod files;
pub mod fold;
pub mod job;
pub mod matrix;
pub mod models;
pub mod ordered_map;
pub mod output;
pub mod runner;
pub mod script;
pub mod shell;
pub mod step;
pub mod text;
pub mod yaml;

pub use crate::config::{decode_sha, RunnerContext};
pub use crate::docker::{zero_access_token, WorkflowResult};
pub use crate::error::{ErrorContext, ErrorContextRoot, RunnerError, RunnerErrorKind, StepIndex};
pub use crate::job::{parse_action_name, ActionPlan, JobRunner, Preparation, StepPlan};
pub use crate::ordered_map::OrderedMap;
pub use crate::output::{LineBuffer, OutputFilter};
pub use crate::runner::{
    ContainerId, ContainerImage, DockerImageMapping, JobDescription, Runner,
};
pub use crate::script::{write_script_tail, RunSpec};
pub use crate::step::{StepAction, StepEvent, StepState};
pub use crate::yaml::Yaml;
