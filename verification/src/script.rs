//! What is run for a step, and the script that runs it.

use vstd::prelude::*;

use crate::error;
use crate::error::{ErrorView, KindView, RunnerError, RunnerErrorKind};
use crate::ordered_map::OrderedMap;
use crate::shell;
use crate::text;

verus! {

/// What is run for a step.
pub struct RunSpec {
    /// The environment variables.
    pub env: OrderedMap<String>,
    /// The last entry should be prepended first
    pub paths: Vec<String>,
    /// The directory to run in.
    pub working_directory: Option<String>,
    /// The command with its arguments.
    pub command: Vec<String>,
}

/// What a `RunSpec` stands for.
#[verifier::ext_equal]
pub struct SpecView {
    /// The environment variables.
    pub env: Seq<(Seq<char>, Seq<char>)>,
    /// The entries of the search path.
    pub paths: Seq<Seq<char>>,
    /// The directory to run in.
    pub working_directory: Option<Seq<char>>,
    /// The command with its arguments.
    pub command: Seq<Seq<char>>,
}

impl DeepView for RunSpec {
    type V = SpecView;

    open spec fn deep_view(&self) -> SpecView {
        SpecView {
            env: self.env.deep_view(),
            paths: self.paths.deep_view(),
            working_directory: self.working_directory.deep_view(),
            command: self.command.deep_view(),
        }
    }
}

// ---------------------------------------------------------------------------
// The text of the script
// ---------------------------------------------------------------------------

/// The line that sets an environment variable.
pub open spec fn export_line(name: Seq<char>, value: Seq<char>) -> Seq<char> {
    "export "@ + shell::quoted(name) + "="@ + shell::quoted(value) + "\n"@
}

/// The lines that set environment variables.
pub open spec fn exports(env: Seq<(Seq<char>, Seq<char>)>) -> Seq<char>
    decreases env.len(),
{
    if env.len() == 0 {
        seq![]
    } else {
        exports(env.drop_last()) + export_line(env.last().0, env.last().1)
    }
}

/// Where the first variable stands whose name holds an equals sign.
pub open spec fn first_bad_name(env: Seq<(Seq<char>, Seq<char>)>) -> Option<int>
    decreases env.len(),
{
    if env.len() == 0 {
        None
    } else {
        match first_bad_name(env.drop_last()) {
            Some(i) => Some(i),
            None => if env.last().0.contains('=') {
                Some(env.len() - 1)
            } else {
                None
            },
        }
    }
}

/// The entries of the search path, the last one first, each with a colon.
pub open spec fn path_list(paths: Seq<Seq<char>>) -> Seq<char>
    decreases paths.len(),
{
    if paths.len() == 0 {
        seq![]
    } else {
        paths.last() + ":"@ + path_list(paths.drop_last())
    }
}

/// The line that extends the search path.
pub open spec fn path_line(paths: Seq<Seq<char>>) -> Seq<char> {
    if paths.len() == 0 {
        seq![]
    } else {
        "export PATH="@ + path_list(paths) + "$PATH\n"@
    }
}

/// The line that the script of the first step has for the tool cache.
pub open spec fn tool_cache_line(step: nat) -> Seq<char> {
    if step == 0 {
        "ln -s /github/.gha-runner/hostedtoolcache $RUNNER_TOOL_CACHE\n"@
    } else {
        seq![]
    }
}

/// The line that changes to the step's own directory.
pub open spec fn directory_line(working_directory: Option<Seq<char>>) -> Seq<char> {
    match working_directory {
        Some(d) => "cd "@ + shell::quoted(d) + "\n"@,
        None => seq![],
    }
}

/// The script up to its last line, and the error that ends it early: no more is
/// written once the name of a variable holds an equals sign.
pub open spec fn script_head(spec: SpecView, step: nat) -> (Seq<char>, Option<ErrorView>) {
    match first_bad_name(spec.env) {
        Some(i) => (
            "#!/bin/bash -l\n"@ + exports(spec.env.take(i)),
            Some(error::bare(KindView::InvalidEnvironmentVariableName(spec.env[i].0))),
        ),
        None => (
            "#!/bin/bash -l\n"@ + exports(spec.env) + path_line(spec.paths) + tool_cache_line(step)
                + "cd /github/workspace\n"@ + directory_line(spec.working_directory),
            None,
        ),
    }
}

/// The arguments of the command, each behind a space.
pub open spec fn arguments(command: Seq<Seq<char>>) -> Seq<char>
    decreases command.len(),
{
    if command.len() == 0 {
        seq![]
    } else {
        arguments(command.drop_last()) + " "@ + shell::quoted(command.last())
    }
}

/// The last line of the script, which runs the command.
pub open spec fn script_tail(command: Seq<Seq<char>>) -> Seq<char> {
    "exec"@ + arguments(command)
}

fn has_equals(s: &str) -> (r: bool)
    ensures
        r == s@.contains('='),
{
    for c in it: s.chars()
        invariant
            it.seq() == s@,
            forall|j: int| 0 <= j < it.index() ==> #[trigger] s@[j] != '=',
    {
        if c == '=' {
            assert(s@[it.index() as int] == '=');
            return true;
        }
    }
    false
}

/// The first bad name of the first variables is that of all.
proof fn lemma_first_bad_name(env: Seq<(Seq<char>, Seq<char>)>, n: int)
    requires
        0 <= n <= env.len(),
        first_bad_name(env.take(n)) is Some,
    ensures
        first_bad_name(env) == first_bad_name(env.take(n)),
    decreases env.len(),
{
    if n < env.len() {
        assert(env.drop_last().take(n) =~= env.take(n));
        lemma_first_bad_name(env.drop_last(), n);
    } else {
        assert(env.take(n) =~= env);
    }
}

/// Writes the script up to its last line. An error comes with what was written
/// before it.
pub fn write_script_head(spec: &RunSpec, step: u32) -> (r: (String, Option<RunnerError>))
    ensures
        (r.0@, r.1.deep_view()) == script_head(spec.deep_view(), step as nat),
{
    let mut out = text::copy("#!/bin/bash -l\n");
    let ghost head = out@;
    let pairs = spec.env.pairs();
    let ghost all = spec.env.deep_view();
    assert(all.take(0) =~= seq![]);
    assert(out@ =~= head + exports(all.take(0)));
    for k in 0..pairs.len()
        invariant
            head == "#!/bin/bash -l\n"@,
            all == spec.env.deep_view(),
            pairs@.len() == all.len(),
            forall|i: int|
                0 <= i < all.len() ==> (#[trigger] pairs@[i]).0@ == all[i].0 && pairs@[i].1@
                    == all[i].1,
            first_bad_name(all.take(k as int)) is None,
            out@ == head + exports(all.take(k as int)),
    {
        let pair = &pairs[k];
        proof {
            assert(all.take(k + 1).drop_last() =~= all.take(k as int));
            assert(all.take(k + 1).last() == all[k as int]);
            assert(pairs@[k as int].0@ == all[k as int].0);
        }
        if has_equals(pair.0.as_str()) {
            proof {
                lemma_first_bad_name(all, k + 1);
            }
            let name = pair.0.clone();
            return (
                out,
                Some(
                    RunnerError::from(RunnerErrorKind::InvalidEnvironmentVariableName { name }),
                ),
            );
        }
        let ghost before = out@;
        out.push_str("export ");
        out.push_str(shell::shell_quote(pair.0.as_str()).as_str());
        out.push_str("=");
        out.push_str(shell::shell_quote(pair.1.as_str()).as_str());
        out.push_str("\n");
        assert(out@ =~= before + export_line(all[k as int].0, all[k as int].1));
        assert(out@ =~= head + exports(all.take(k + 1)));
    }
    assert(all.take(all.len() as int) =~= all);
    let ghost with_env = out@;
    let ghost paths = spec.paths.deep_view();
    if spec.paths.len() > 0 {
        out.push_str("export PATH=");
        let ghost start = out@;
        let len: usize = spec.paths.len();
        let mut k: usize = len;
        assert(paths.take(len as int) =~= paths);
        while k > 0
            invariant
                k <= len,
                len == spec.paths@.len(),
                paths == spec.paths.deep_view(),
                out@ + path_list(paths.take(k as int)) == start + path_list(paths),
            decreases k,
        {
            k = k - 1;
            let ghost before = out@;
            proof {
                assert(paths.take(k + 1).drop_last() =~= paths.take(k as int));
                assert(paths.take(k + 1).last() == paths[k as int]);
                assert(paths[k as int] == spec.paths@[k as int]@);
            }
            out.push_str(spec.paths[k].as_str());
            out.push_str(":");
            assert(out@ + path_list(paths.take(k as int)) =~= before + path_list(
                paths.take(k + 1),
            ));
        }
        assert(path_list(paths.take(0)) =~= seq![]);
        assert(out@ =~= start + path_list(paths));
        out.push_str("$PATH\n");
    }
    assert(out@ =~= with_env + path_line(paths));
    if step == 0 {
        out.push_str("ln -s /github/.gha-runner/hostedtoolcache $RUNNER_TOOL_CACHE\n");
    }
    assert(out@ =~= with_env + path_line(paths) + tool_cache_line(step as nat));
    out.push_str("cd /github/workspace\n");
    let ghost with_cd = out@;
    if let Some(d) = &spec.working_directory {
        out.push_str("cd ");
        out.push_str(shell::shell_quote(d.as_str()).as_str());
        out.push_str("\n");
    }
    assert(out@ =~= with_cd + directory_line(spec.working_directory.deep_view()));
    (out, None)
}

/// Writes the last line of the script.
pub fn write_script_tail(command: &Vec<String>) -> (r: String)
    ensures
        r@ == script_tail(command.deep_view()),
{
    let mut out = text::copy("exec");
    let ghost all = command.deep_view();
    assert(all.take(0) =~= seq![]);
    assert(out@ =~= "exec"@ + arguments(all.take(0)));
    for k in 0..command.len()
        invariant
            all == command.deep_view(),
            out@ == "exec"@ + arguments(all.take(k as int)),
    {
        proof {
            assert(all.take(k + 1).drop_last() =~= all.take(k as int));
            assert(all.take(k + 1).last() == command@[k as int]@);
        }
        out.push_str(" ");
        out.push_str(shell::shell_quote(command[k].as_str()).as_str());
        assert(out@ =~= "exec"@ + arguments(all.take(k + 1)));
    }
    assert(all.take(all.len() as int) =~= all);
    out
}

// ---------------------------------------------------------------------------
// Where files are
// ---------------------------------------------------------------------------

/// The directory of a step, below the global directory.
pub open spec fn step_dir(step: nat) -> Seq<char> {
    ".gha-runner/step"@ + text::decimal(step as int)
}

/// The script of a step, below the global directory.
pub open spec fn script_path(step: nat, name: Seq<char>) -> Seq<char> {
    step_dir(step) + "/"@ + name
}

/// The directory of the action that a step uses, below the global directory.
pub open spec fn action_path(step: nat) -> Seq<char> {
    step_dir(step) + "/action"@
}

/// A path below the global directory, as it is inside the containers.
pub open spec fn in_container(path: Seq<char>) -> Seq<char> {
    "/github/"@ + path
}

/// The directory of a step, below the global directory.
pub fn step_dir_of(step: u32) -> (r: String)
    ensures
        r@ == step_dir(step as nat),
{
    text::joined(".gha-runner/step", text::decimal_u64(step as u64).as_str())
}

/// The script of a step, below the global directory.
pub fn script_path_of(step: u32, name: &str) -> (r: String)
    ensures
        r@ == script_path(step as nat, name@),
{
    text::joined3(step_dir_of(step).as_str(), "/", name)
}

/// The directory of the action that a step uses, below the global directory.
pub fn action_path_of(step: u32) -> (r: String)
    ensures
        r@ == action_path(step as nat),
{
    text::joined(step_dir_of(step).as_str(), "/action")
}

/// A path below the global directory, as it is inside the containers.
pub fn path_in_container(path: &str) -> (r: String)
    ensures
        r@ == in_container(path@),
{
    text::joined("/github/", path)
}

// ---------------------------------------------------------------------------
// Laws
// ---------------------------------------------------------------------------

/// The command that runs a step starts with "/github".
pub proof fn law_command_is_below_github(step: nat, name: Seq<char>)
    ensures
        in_container(script_path(step, name)).take("/github"@.len() as int) == "/github"@,
{
    reveal_strlit("/github/");
    reveal_strlit("/github");
    assert(in_container(script_path(step, name)).take("/github"@.len() as int) =~= "/github"@);
}

/// An entry that is added to the search path comes before all others.
pub proof fn law_last_path_comes_first(paths: Seq<Seq<char>>, path: Seq<char>)
    ensures
        path_list(paths.push(path)) == path + ":"@ + path_list(paths),
{
    assert(paths.push(path).drop_last() =~= paths);
}

/// The whole script is written exactly when no variable's name holds an equals
/// sign; else the first such name is reported.
pub proof fn law_bad_names(env: Seq<(Seq<char>, Seq<char>)>)
    ensures
        match first_bad_name(env) {
            None => forall|i: int| 0 <= i < env.len() ==> !(#[trigger] env[i]).0.contains('='),
            Some(n) => 0 <= n < env.len() && env[n].0.contains('=') && forall|i: int|
                0 <= i < n ==> !(#[trigger] env[i]).0.contains('='),
        },
    decreases env.len(),
{
    if env.len() > 0 {
        let front = env.drop_last();
        law_bad_names(front);
        assert(env[env.len() - 1] == env.last());
        assert forall|i: int| 0 <= i < front.len() implies front[i] == #[trigger] env[i] by {}
    }
}

/// A shell reads the last line of the script as `exec` and the command with its
/// arguments, provided that none of these is empty.
pub proof fn law_shell_reads_the_command(command: Seq<Seq<char>>)
    requires
        forall|i: int| 0 <= i < command.len() ==> (#[trigger] command[i]).len() > 0,
    ensures
        shell::shell_words(script_tail(command)) == Some(seq!["exec"@] + command),
{
    reveal_strlit("exec");
    let exec = "exec"@;
    assert forall|i: int| 0 <= i < exec.len() implies shell::is_plain(#[trigger] exec[i]) by {
        assert(exec[0] == 'e' && exec[1] == 'x' && exec[2] == 'e' && exec[3] == 'c');
    }
    shell::lemma_reads_plain(exec, arguments(command), None);
    assert(shell::word_so_far(None) + exec =~= exec);
    lemma_reads_arguments(command, exec);
}

proof fn lemma_arguments_front(command: Seq<Seq<char>>)
    requires
        command.len() > 0,
    ensures
        arguments(command) == " "@ + shell::quoted(command[0]) + arguments(command.skip(1)),
    decreases command.len(),
{
    let tail = command.skip(1);
    if command.len() == 1 {
        assert(command.drop_last() =~= seq![]);
        assert(tail =~= seq![]);
        assert(arguments(command) =~= " "@ + shell::quoted(command[0]) + arguments(tail));
    } else {
        lemma_arguments_front(command.drop_last());
        assert(command.drop_last().skip(1) =~= tail.drop_last());
        assert(tail.last() == command.last());
        assert(arguments(command) =~= " "@ + shell::quoted(command[0]) + arguments(tail));
    }
}

proof fn lemma_reads_arguments(command: Seq<Seq<char>>, word: Seq<char>)
    requires
        forall|i: int| 0 <= i < command.len() ==> (#[trigger] command[i]).len() > 0,
    ensures
        shell::rest_of_words(arguments(command), shell::Reading::Bare, Some(word)) == Some(
            seq![word] + command,
        ),
    decreases command.len(),
{
    if command.len() == 0 {
        assert(seq![word] + command =~= seq![word]);
    } else {
        let tail = command.skip(1);
        let line = arguments(command);
        assert forall|i: int| 0 <= i < tail.len() implies (#[trigger] tail[i]).len() > 0 by {
            assert(tail[i] == command[i + 1]);
        }
        lemma_arguments_front(command);
        lemma_reads_arguments(tail, command[0]);
        reveal_strlit(" ");
        assert(line[0] == ' ');
        assert(line.skip(1) =~= shell::quoted(command[0]) + arguments(tail));
        assert(command[0].len() > 0);
        shell::law_shell_reads_quoted(command[0], arguments(tail), None);
        assert(shell::word_so_far(None) + command[0] =~= command[0]);
        assert(seq![word] + (seq![command[0]] + tail) =~= seq![word] + command);
    }
}

/// A shell reads a line that sets an environment variable as `export` and one
/// word: the name, an equals sign and the value.
pub proof fn law_shell_reads_an_export(name: Seq<char>, value: Seq<char>)
    ensures
        ({
            let line = export_line(name, value);
            let words = shell::shell_words(line.drop_last());
            &&& line.last() == '\n'
            &&& words == Some(seq!["export"@, name + "="@ + value])
        }),
{
    reveal_strlit("export ");
    reveal_strlit("export");
    reveal_strlit("=");
    reveal_strlit("\n");
    let none: Seq<char> = seq![];
    let command = "export"@;
    let after_name = "="@ + shell::quoted(value);
    let assignment = shell::quoted(name) + after_name;
    let line = export_line(name, value).drop_last();
    assert(line =~= command + (seq![' '] + assignment));
    assert forall|i: int| 0 <= i < command.len() implies shell::is_plain(
        #[trigger] command[i],
    ) by {
        assert(command[0] == 'e' && command[1] == 'x' && command[2] == 'p' && command[3] == 'o'
            && command[4] == 'r' && command[5] == 't');
    }
    shell::lemma_reads_plain(command, seq![' '] + assignment, None);
    assert(shell::word_so_far(None) + command =~= command);
    assert((seq![' '] + assignment).skip(1) =~= assignment);
    assert("="@[0] == '=');
    if name.len() == 0 {
        assert(assignment =~= after_name);
        shell::lemma_reads_plain("="@, shell::quoted(value), None);
        assert(shell::word_so_far(None) + "="@ =~= name + "="@);
    } else {
        shell::law_shell_reads_quoted(name, after_name, None);
        assert(shell::word_so_far(None) + name =~= name);
        shell::lemma_reads_plain("="@, shell::quoted(value), Some(name));
    }
    assert(shell::quoted(value) + none =~= shell::quoted(value));
    shell::law_shell_reads_quoted(value, none, Some(name + "="@));
    assert(seq![command] + seq![name + "="@ + value] =~= seq![command, name + "="@ + value]);
}

/// A shell reads the line for a step's own directory as `cd` and the directory,
/// provided that it is not empty.
pub proof fn law_shell_reads_the_directory(d: Seq<char>)
    requires
        d.len() > 0,
    ensures
        ({
            let line = directory_line(Some(d));
            let words = shell::shell_words(line.drop_last());
            &&& line.last() == '\n'
            &&& words == Some(seq!["cd"@, d])
        }),
{
    reveal_strlit("cd ");
    reveal_strlit("cd");
    reveal_strlit("\n");
    let none: Seq<char> = seq![];
    let command = "cd"@;
    let line = directory_line(Some(d)).drop_last();
    assert(line =~= command + (seq![' '] + shell::quoted(d)));
    assert(command[0] == 'c' && command[1] == 'd');
    shell::lemma_reads_plain(command, seq![' '] + shell::quoted(d), None);
    assert(shell::word_so_far(None) + command =~= command);
    assert((seq![' '] + shell::quoted(d)).skip(1) =~= shell::quoted(d) + none);
    shell::law_shell_reads_quoted(d, none, None);
    assert(shell::word_so_far(None) + d =~= d);
    assert(seq![command] + seq![d] =~= seq![command, d]);
}

/// What a script for a step does before the command, line by line: it exports the
/// variables in their order, puts the path entries in front of the search path, in
/// the first step links the tool cache, and goes to the workspace and from there to
/// the step's directory. A variable whose name holds an equals sign is an error that
/// names the first of them, and the script stops before it.
pub proof fn law_script_head(spec: SpecView, step: nat)
    ensures
        (forall|i: int| 0 <= i < spec.env.len() ==> !(#[trigger] spec.env[i]).0.contains('='))
            ==> script_head(spec, step) == (
            "#!/bin/bash -l\n"@ + exports(spec.env) + (if spec.paths.len() == 0 {
                Seq::<char>::empty()
            } else {
                "export PATH="@ + path_list(spec.paths) + "$PATH\n"@
            }) + (if step == 0 {
                "ln -s /github/.gha-runner/hostedtoolcache $RUNNER_TOOL_CACHE\n"@
            } else {
                Seq::<char>::empty()
            }) + "cd /github/workspace\n"@ + (match spec.working_directory {
                Some(d) => "cd "@ + shell::quoted(d) + "\n"@,
                None => Seq::<char>::empty(),
            }),
            None::<ErrorView>,
        ),
        forall|n: int|
            0 <= n < spec.env.len() && (#[trigger] spec.env[n]).0.contains('=') && (forall|i: int|
                0 <= i < n ==> !(#[trigger] spec.env[i]).0.contains('=')) ==> script_head(spec, step)
                == (
                "#!/bin/bash -l\n"@ + exports(spec.env.take(n)),
                Some(
                    ErrorView {
                        kind: KindView::InvalidEnvironmentVariableName(spec.env[n].0),
                        context: None,
                    },
                ),
            ),
{
    law_bad_names(spec.env);
    assert forall|n: int|
        0 <= n < spec.env.len() && (#[trigger] spec.env[n]).0.contains('=') && (forall|i: int|
            0 <= i < n ==> !(#[trigger] spec.env[i]).0.contains('=')) implies script_head(spec, step)
        == (
        "#!/bin/bash -l\n"@ + exports(spec.env.take(n)),
        Some(
            ErrorView {
                kind: KindView::InvalidEnvironmentVariableName(spec.env[n].0),
                context: None,
            },
        ),
    ) by {
        let k = first_bad_name(spec.env)->0;
        if k < n {
            assert(!spec.env[k].0.contains('='));
        } else if n < k {
            assert(!spec.env[n].0.contains('='));
        }
    }
}

/// The lines of a script grow one by one: each variable has a line behind those
/// before it, each path entry stands in front of those before it, and each argument
/// stands behind a space and quoted.
pub proof fn law_script_lines(
    env: Seq<(Seq<char>, Seq<char>)>,
    name: Seq<char>,
    value: Seq<char>,
    command: Seq<Seq<char>>,
    argument: Seq<char>,
)
    ensures
        exports(Seq::empty()) == Seq::<char>::empty(),
        exports(env.push((name, value))) == exports(env) + ("export "@ + shell::quoted(name) + "="@
            + shell::quoted(value) + "\n"@),
        path_list(Seq::empty()) == Seq::<char>::empty(),
        script_tail(Seq::empty()) == "exec"@,
        script_tail(command.push(argument)) == script_tail(command) + " "@ + shell::quoted(argument),
{
    assert(env.push((name, value)).drop_last() =~= env);
    assert(command.push(argument).drop_last() =~= command);
    assert(script_tail(Seq::empty()) =~= "exec"@);
    assert(script_tail(command.push(argument)) =~= script_tail(command) + " "@ + shell::quoted(
        argument,
    ));
}

/// Where a step has its files: in a directory of its own, which no other step has.
pub proof fn law_paths_of_a_step(step: nat, other: nat, name: Seq<char>, path: Seq<char>)
    ensures
        step_dir(step) == ".gha-runner/step"@ + text::decimal(step as int),
        script_path(step, name) == step_dir(step) + "/"@ + name,
        action_path(step) == step_dir(step) + "/action"@,
        in_container(path) == "/github/"@ + path,
        step != other ==> step_dir(step) != step_dir(other),
{
    if step_dir(step) == step_dir(other) {
        let head = ".gha-runner/step"@;
        assert(step_dir(step).skip(head.len() as int) =~= text::decimal(step as int));
        assert(step_dir(other).skip(head.len() as int) =~= text::decimal(other as int));
        text::law_numbers_in_print_differ(step, other);
    }
}

/// What a shell would not read as it stands is put between single quotes; a text of
/// nothing but plain characters stays as it is.
pub proof fn law_plain_texts_are_not_quoted(s: Seq<char>)
    ensures
        (forall|i: int|
            0 <= i < s.len()
                ==> "ABCDEFGHIJKLMNOPQRSTUVWXYZabcdefghijklmnopqrstuvwxyz0123456789_-=./:"@.contains(
                #[trigger] s[i],
            )) ==> shell::quoted(s) == s,
{
    let all = "ABCDEFGHIJKLMNOPQRSTUVWXYZabcdefghijklmnopqrstuvwxyz0123456789_-=./:"@;
    reveal_strlit("ABCDEFGHIJKLMNOPQRSTUVWXYZabcdefghijklmnopqrstuvwxyz0123456789_-=./:");
    assert(forall|i: int| 0 <= i < all.len() ==> shell::is_plain(#[trigger] all[i]));
    if forall|i: int| 0 <= i < s.len() ==> all.contains(#[trigger] s[i]) {
        assert forall|i: int| 0 <= i < s.len() implies shell::is_plain(#[trigger] s[i]) by {
            assert(all.contains(s[i]));
        }
    }
}

/// What is run for a step counts as it stands in its parts.
pub proof fn law_spec_is_what_was_given(spec: RunSpec)
    ensures
        spec.deep_view().env == spec.env.deep_view(),
        spec.deep_view().paths.len() == spec.paths@.len(),
        forall|i: int|
            0 <= i < spec.paths@.len() ==> spec.deep_view().paths[i] == (#[trigger] spec.paths@[i])@,
        spec.working_directory is None ==> spec.deep_view().working_directory is None,
        spec.working_directory matches Some(d) ==> spec.deep_view().working_directory == Some(d@),
        spec.deep_view().command.len() == spec.command@.len(),
        forall|i: int|
            0 <= i < spec.command@.len() ==> spec.deep_view().command[i] == (
            #[trigger] spec.command@[i])@,
{
}

} // verus!
