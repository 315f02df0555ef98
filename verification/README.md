# gha_runner

Runs Github Actions workflows. You can run workflows locally, or use the
library with a backend of your own to run them elsewhere. The execution of a
workflow can be customized, e.g. by wrapping its steps with other tools.

The library under `src/` is verified with [Verus](https://github.com/verus-lang/verus):
every function has a contract over the mathematical view of its arguments, and
the properties that span functions are proved as `law_...` functions beside
them.

| Module | What it holds |
| --- | --- |
| `text` | searching, trimming and printing text |
| `ordered_map` | maps that keep the order in which keys were set, on top of `linked-hash-map` |
| `yaml` | YAML values, parsed by `serde_yaml` |
| `error` | errors and the places they occur at |
| `config` | the values a workflow is run with, and the environment variables they give |
| `contexts`, `expressions` | what `${{ .. }}` stands for, and expanding it |
| `fold`, `models` | the parts of workflow and action files |
| `matrix`, `runner` | the jobs of a workflow |
| `shell`, `script` | quoting, and the script that runs a step |
| `output`, `files` | what a step prints and writes for the steps behind it |
| `job`, `step` | running the steps of a job |
| `docker` | the docker command line, and the result of a workflow |

What is trusted without proof stands in the functions marked `external_body`
and in the `assume_specification` items: calls into `linked-hash-map`,
`serde_yaml`, `hex` and the standard library, each with what is claimed of it.

`app/` carries out what the library decides: it downloads actions, writes files
and runs containers. It is a library too: `run_workflow_with_local_backend` runs
a job with local docker containers, and a program of one's own can hand its
command line over to `cli::run`, which takes an owner, a repository, a commit,
the path of a workflow and the name of a job. `--image-path` says where the
container images come from, and `--strace FILE` runs the steps under `strace`.

## Status

Very simple workflows are supported. Many Github Actions features are not yet
supported, e.g.
* Action steps that use their own containers
* Much of the [expression syntax](https://docs.github.com/en/actions/learn-github-actions/expressions)
* Pre/post actions
* Workflows that run their own docker commands
