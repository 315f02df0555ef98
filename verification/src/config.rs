//! The values that a workflow is run with.

use vstd::prelude::*;

use crate::ordered_map;
use crate::ordered_map::OrderedMap;
use crate::text;

verus! {

/// This contains various configuration values needed to run a Github Actions workflow.
/// Most of these values are exposed to actions via [standard GHA environment variables](https://docs.github.com/en/actions/learn-github-actions/environment-variables).
pub struct RunnerContext {
    /// The Github owner name, e.g. `Pernosco`.
    pub owner: String,
    /// The Github repo name, e.g. `github-actions-test`.
    pub repo: String,
    /// The repo commit-SHA decoded from hex, e.g. using `decode_sha`.
    pub commit_sha: Vec<u8>,
    /// An optional git ref for the commit. Exposed as `$GITHUB_REF` in the GHA steps.
    pub commit_ref: Option<String>,
    /// Name of workflow file in the repo, e.g. `.github/workflows/build.yml`.
    pub workflow_repo_path: String,
    /// The workflow run ID. Exposed as `$GITHUB_RUN_ID` in the GHA steps.
    /// Can usually just be (e.g.) `1`, but you might want to match the ID of some real
    /// workflow run.
    pub run_id: u64,
    /// The rerun number. Exposed as `$GITHUB_RUN_NUMBER` in the GHA steps. Can usually
    /// just be `1`.
    pub run_number: i64,
    /// The job ID. Exposed as `$GITHUB_JOB` in the GHA steps. Can usually just be `1`.
    pub job_id: u64,
    /// Exposed as `$GITHUB_ACTOR` in the GHA steps.
    pub actor: String,
    /// A Github [personal access token](https://docs.github.com/en/authentication/keeping-your-account-and-data-secure/creating-a-personal-access-token)
    /// for actions to use for checkouts and other Github operations. This *must* be valid.
    /// See `zero_access_token()` for a token you can use.
    pub token: String,
    /// (key, value) pairs that override environment variable settings in a step.
    /// These are applied after all workflow-defined environment variables.
    pub override_env: Vec<(String, String)>,
}

/// What a `RunnerContext` stands for.
#[verifier::ext_equal]
pub struct ConfigView {
    /// The owner of the repository.
    pub owner: Seq<char>,
    /// The repository.
    pub repo: Seq<char>,
    /// The bytes of the commit's hash.
    pub commit_sha: Seq<u8>,
    /// The git ref of the commit.
    pub commit_ref: Option<Seq<char>>,
    /// The workflow file in the repository.
    pub workflow_repo_path: Seq<char>,
    /// The run ID.
    pub run_id: int,
    /// The rerun number.
    pub run_number: int,
    /// The job ID.
    pub job_id: int,
    /// The actor.
    pub actor: Seq<char>,
    /// The access token.
    pub token: Seq<char>,
    /// The environment variables that override others.
    pub override_env: Seq<(Seq<char>, Seq<char>)>,
}

impl DeepView for RunnerContext {
    type V = ConfigView;

    open spec fn deep_view(&self) -> ConfigView {
        ConfigView {
            owner: self.owner@,
            repo: self.repo@,
            commit_sha: self.commit_sha@,
            commit_ref: self.commit_ref.deep_view(),
            workflow_repo_path: self.workflow_repo_path@,
            run_id: self.run_id as int,
            run_number: self.run_number as int,
            job_id: self.job_id as int,
            actor: self.actor@,
            token: self.token@,
            override_env: self.override_env.deep_view(),
        }
    }
}

impl Clone for RunnerContext {
    fn clone(&self) -> (r: Self)
        ensures
            r.deep_view() == self.deep_view(),
    {
        let commit_ref = match &self.commit_ref {
            Some(v) => Some(v.clone()),
            None => None,
        };
        let mut override_env: Vec<(String, String)> = Vec::new();
        for k in 0..self.override_env.len()
            invariant
                override_env@.len() == k,
                forall|i: int|
                    0 <= i < k ==> (#[trigger] override_env@[i]).deep_view()
                        == self.override_env@[i].deep_view(),
        {
            let pair = &self.override_env[k];
            override_env.push((pair.0.clone(), pair.1.clone()));
        }
        assert(override_env.deep_view() =~= self.override_env.deep_view());
        RunnerContext {
            owner: self.owner.clone(),
            repo: self.repo.clone(),
            commit_sha: text::bytes_from(self.commit_sha.as_slice(), 0, self.commit_sha.len()),
            commit_ref,
            workflow_repo_path: self.workflow_repo_path.clone(),
            run_id: self.run_id,
            run_number: self.run_number,
            job_id: self.job_id,
            actor: self.actor.clone(),
            token: self.token.clone(),
            override_env,
        }
    }
}

// ---------------------------------------------------------------------------
// Hexadecimal
// ---------------------------------------------------------------------------

/// The hexadecimal digit for a number below 16.
pub open spec fn hex_digit(n: int) -> char {
    if n < 10 {
        (48 + n) as char
    } else {
        (87 + n) as char
    }
}

/// Bytes in hexadecimal, two lower-case digits for each.
pub open spec fn hex_text(bytes: Seq<u8>) -> Seq<char> {
    Seq::new(
        2 * bytes.len(),
        |i: int|
            if i % 2 == 0 {
                hex_digit(bytes[i / 2] as int / 16)
            } else {
                hex_digit(bytes[i / 2] as int % 16)
            },
    )
}

/// The number that a hexadecimal digit stands for.
pub open spec fn hex_value(c: char) -> Option<int> {
    if '0' <= c <= '9' {
        Some(c as int - 48)
    } else if 'a' <= c <= 'f' {
        Some(c as int - 87)
    } else if 'A' <= c <= 'F' {
        Some(c as int - 55)
    } else {
        None
    }
}

/// The text is made of pairs of hexadecimal digits.
pub open spec fn is_hex(s: Seq<char>) -> bool {
    &&& s.len() % 2 == 0
    &&& forall|i: int| 0 <= i < s.len() ==> hex_value(#[trigger] s[i]) is Some
}

/// The bytes that pairs of hexadecimal digits stand for.
pub open spec fn hex_bytes(s: Seq<char>) -> Seq<u8> {
    Seq::new(
        s.len() / 2,
        |i: int| (16 * hex_value(s[2 * i])->0 + hex_value(s[2 * i + 1])->0) as u8,
    )
}

/// `hex::encode`: two lower-case digits for each byte.
#[verifier::external_body]
fn hex_encode(data: &[u8]) -> (r: String)
    ensures
        r@ == hex_text(data@),
{
    hex::encode(data)
}

/// `hex::decode`: the bytes that the digits of either case stand for, and
/// nothing when there is an odd number of them or something else among them.
#[verifier::external_body]
fn hex_decode(s: &str) -> (r: Option<Vec<u8>>)
    ensures
        r is Some <==> is_hex(s@),
        r matches Some(v) ==> v@ == hex_bytes(s@),
{
    hex::decode(s).ok()
}

/// Decodes a commit hash.
pub fn decode_sha(sha: &str) -> (r: Option<Vec<u8>>)
    ensures
        match r {
            Some(v) => is_hex(sha@) && v@ == hex_bytes(sha@),
            None => !is_hex(sha@),
        },
{
    hex_decode(sha)
}

/// Bytes come back from their hexadecimal digits.
pub proof fn law_hex_round_trip(bytes: Seq<u8>)
    ensures
        is_hex(hex_text(bytes)),
        hex_bytes(hex_text(bytes)) == bytes,
{
    let s = hex_text(bytes);
    assert forall|i: int| 0 <= i < s.len() implies hex_value(#[trigger] s[i]) is Some by {
        let b = bytes[i / 2];
        lemma_hex_digit(b as int / 16);
        lemma_hex_digit(b as int % 16);
    }
    assert forall|i: int| 0 <= i < bytes.len() implies hex_bytes(s)[i] == bytes[i] by {
        let b = bytes[i];
        assert(s[2 * i] == hex_digit(b as int / 16)) by {
            assert((2 * i) % 2 == 0 && (2 * i) / 2 == i);
        }
        assert(s[2 * i + 1] == hex_digit(b as int % 16)) by {
            assert((2 * i + 1) % 2 == 1 && (2 * i + 1) / 2 == i);
        }
        lemma_hex_digit(b as int / 16);
        lemma_hex_digit(b as int % 16);
    }
    assert(hex_bytes(s) =~= bytes);
}

proof fn lemma_hex_digit(n: int)
    requires
        0 <= n < 16,
    ensures
        hex_value(hex_digit(n)) == Some(n),
{
}

// ---------------------------------------------------------------------------
// Environment variables
// ---------------------------------------------------------------------------

/// The environment variables that every step gets, up to the commit hash.
pub open spec fn leading_env(ctx: ConfigView, workflow_name: Option<Seq<char>>) -> Seq<
    (Seq<char>, Seq<char>),
> {
    let env = ordered_map::set(seq![], "CI"@, "true"@);
    let env = ordered_map::set(env, "GITHUB_WORKFLOW"@, match workflow_name {
        Some(name) => name,
        None => ctx.workflow_repo_path,
    });
    let env = ordered_map::set(env, "GITHUB_RUN_ID"@, text::decimal(ctx.run_id));
    let env = ordered_map::set(env, "GITHUB_RUN_NUMBER"@, text::decimal(ctx.run_number));
    let env = ordered_map::set(env, "GITHUB_JOB"@, text::decimal(ctx.job_id));
    let env = ordered_map::set(env, "GITHUB_ACTIONS"@, "true"@);
    let env = ordered_map::set(env, "GITHUB_ACTOR"@, ctx.actor);
    let env = ordered_map::set(env, "GITHUB_REPOSITORY"@, ctx.owner + "/"@ + ctx.repo);
    let env = ordered_map::set(env, "GITHUB_EVENT_NAME"@, "push"@);
    let env = ordered_map::set(env, "GITHUB_EVENT_PATH"@, "/github/.gha-runner/event"@);
    let env = ordered_map::set(env, "GITHUB_PATH"@, "/github/.gha-runner/path"@);
    let env = ordered_map::set(env, "GITHUB_ENV"@, "/github/.gha-runner/env"@);
    let env = ordered_map::set(env, "GITHUB_WORKSPACE"@, "/github/workspace"@);
    let env = ordered_map::set(env, "GITHUB_SHA"@, hex_text(ctx.commit_sha));
    env
}

/// The environment variables with those that every step gets behind the
/// commit hash.
pub open spec fn with_trailing_env(ctx: ConfigView, env: Seq<(Seq<char>, Seq<char>)>) -> Seq<
    (Seq<char>, Seq<char>),
> {
    let env = ordered_map::set(env, "GITHUB_SERVER_URL"@, "https://github.com"@);
    let env = ordered_map::set(env, "GITHUB_API_URL"@, "https://api.github.com"@);
    let env = ordered_map::set(env, "GITHUB_GRAPHQL_URL"@, "https://api.github.com/graphql"@);
    let env = ordered_map::set(env, "GITHUB_TOKEN"@, ctx.token);
    let env = ordered_map::set(env, "RUNNER_OS"@, "Linux"@);
    let env = ordered_map::set(env, "RUNNER_TEMP"@, "/tmp"@);
    let env = ordered_map::set(env, "RUNNER_TOOL_CACHE"@, "/opt/hostedtoolcache"@);
    env
}

/// The environment variables that every step gets.
pub open spec fn base_env(ctx: ConfigView, workflow_name: Option<Seq<char>>) -> Seq<
    (Seq<char>, Seq<char>),
> {
    let env = leading_env(ctx, workflow_name);
    with_trailing_env(
        ctx,
        match ctx.commit_ref {
            Some(r) => ordered_map::set(env, "GITHUB_REF"@, r),
            None => env,
        },
    )
}

fn put(env: &mut OrderedMap<String>, key: &str, value: String)
    ensures
        final(env).deep_view() == ordered_map::set(old(env).deep_view(), key@, value@),
{
    proof {
        ordered_map::lemma_deep_set(env.entries(), key@, value);
    }
    env.insert(text::copy(key), value);
}

/// Sets all variables of `more`, in order.
pub(crate) fn put_all(env: &mut OrderedMap<String>, more: &OrderedMap<String>)
    ensures
        final(env).deep_view() == ordered_map::set_all(old(env).deep_view(), more.deep_view()),
{
    let pairs = more.pairs();
    let ghost list = more.deep_view();
    let ghost start = env.deep_view();
    assert(list.take(0) =~= seq![]);
    for k in 0..pairs.len()
        invariant
            list == more.deep_view(),
            pairs@.len() == list.len(),
            forall|i: int|
                0 <= i < pairs@.len() ==> (#[trigger] pairs@[i]).0@ == list[i].0 && pairs@[i].1@
                    == list[i].1,
            env.deep_view() == ordered_map::set_all(start, list.take(k as int)),
    {
        let pair = &pairs[k];
        put(env, pair.0.as_str(), pair.1.clone());
        proof {
            assert(list.take(k + 1) =~= list.take(k as int).push(list[k as int]));
            ordered_map::lemma_set_all_push(
                start,
                list.take(k as int),
                list[k as int].0,
                list[k as int].1,
            );
        }
    }
    assert(list.take(list.len() as int) =~= list);
}

/// A copy of environment variables.
pub(crate) fn copy_env(env: &OrderedMap<String>) -> (r: OrderedMap<String>)
    ensures
        r.deep_view() == env.deep_view(),
{
    let r = env.clone();
    assert(r.deep_view() =~= env.deep_view());
    r
}

impl RunnerContext {
    /// The environment variables that every step gets.
    // See https://docs.github.com/en/actions/reference/environment-variables
    pub fn create_env(&self, workflow_name: Option<String>) -> (r: OrderedMap<String>)
        ensures
            r.deep_view() == base_env(self.deep_view(), workflow_name.deep_view()),
    {
        let workflow = match workflow_name {
            Some(name) => name,
            None => self.workflow_repo_path.clone(),
        };
        let mut env: OrderedMap<String> = OrderedMap::new();
        assert(env.deep_view() =~= seq![]);
        put(&mut env, "CI", text::copy("true"));
        put(&mut env, "GITHUB_WORKFLOW", workflow);
        put(&mut env, "GITHUB_RUN_ID", text::decimal_u64(self.run_id));
        put(&mut env, "GITHUB_RUN_NUMBER", text::decimal_i64(self.run_number));
        put(&mut env, "GITHUB_JOB", text::decimal_u64(self.job_id));
        put(&mut env, "GITHUB_ACTIONS", text::copy("true"));
        put(&mut env, "GITHUB_ACTOR", self.actor.clone());
        put(&mut env, "GITHUB_REPOSITORY", text::joined3(self.owner.as_str(), "/", self.repo.as_str()));
        put(&mut env, "GITHUB_EVENT_NAME", text::copy("push"));
        put(&mut env, "GITHUB_EVENT_PATH", text::copy("/github/.gha-runner/event"));
        put(&mut env, "GITHUB_PATH", text::copy("/github/.gha-runner/path"));
        put(&mut env, "GITHUB_ENV", text::copy("/github/.gha-runner/env"));
        put(&mut env, "GITHUB_WORKSPACE", text::copy("/github/workspace"));
        put(&mut env, "GITHUB_SHA", hex_encode(self.commit_sha.as_slice()));
        if let Some(r) = &self.commit_ref {
            put(&mut env, "GITHUB_REF", r.clone());
        }
        put(&mut env, "GITHUB_SERVER_URL", text::copy("https://github.com"));
        put(&mut env, "GITHUB_API_URL", text::copy("https://api.github.com"));
        put(&mut env, "GITHUB_GRAPHQL_URL", text::copy("https://api.github.com/graphql"));
        put(&mut env, "GITHUB_TOKEN", self.token.clone());
        put(&mut env, "RUNNER_OS", text::copy("Linux"));
        put(&mut env, "RUNNER_TEMP", text::copy("/tmp"));
        put(&mut env, "RUNNER_TOOL_CACHE", text::copy("/opt/hostedtoolcache"));
        env
    }

    /// The environment variables with those that override others.
    pub fn apply_env(&self, target: OrderedMap<String>) -> (r: OrderedMap<String>)
        ensures
            r.deep_view() == ordered_map::set_all(
                target.deep_view(),
                self.deep_view().override_env,
            ),
    {
        let mut env = target;
        let ghost start = env.deep_view();
        let ghost list = self.override_env.deep_view();
        assert(list.take(0) =~= seq![]);
        for k in 0..self.override_env.len()
            invariant
                list == self.override_env.deep_view(),
                env.deep_view() == ordered_map::set_all(start, list.take(k as int)),
        {
            let pair = &self.override_env[k];
            put(&mut env, pair.0.as_str(), pair.1.clone());
            proof {
                assert(list.take(k + 1) =~= list.take(k as int).push(list[k as int]));
                ordered_map::lemma_set_all_push(
                    start,
                    list.take(k as int),
                    list[k as int].0,
                    list[k as int].1,
                );
            }
        }
        assert(list.take(list.len() as int) =~= list);
        env
    }
}

/// Where a variable stands among those that every step gets.
spec fn variable_index(name: Seq<char>) -> int {
    if name == "CI"@ {
        0
    } else if name == "GITHUB_WORKFLOW"@ {
        1
    } else if name == "GITHUB_RUN_ID"@ {
        2
    } else if name == "GITHUB_RUN_NUMBER"@ {
        3
    } else if name == "GITHUB_JOB"@ {
        4
    } else if name == "GITHUB_ACTIONS"@ {
        5
    } else if name == "GITHUB_ACTOR"@ {
        6
    } else if name == "GITHUB_REPOSITORY"@ {
        7
    } else if name == "GITHUB_EVENT_NAME"@ {
        8
    } else if name == "GITHUB_EVENT_PATH"@ {
        9
    } else if name == "GITHUB_PATH"@ {
        10
    } else if name == "GITHUB_ENV"@ {
        11
    } else if name == "GITHUB_WORKSPACE"@ {
        12
    } else if name == "GITHUB_SHA"@ {
        13
    } else if name == "GITHUB_REF"@ {
        14
    } else if name == "GITHUB_SERVER_URL"@ {
        15
    } else if name == "GITHUB_API_URL"@ {
        16
    } else if name == "GITHUB_GRAPHQL_URL"@ {
        17
    } else if name == "GITHUB_TOKEN"@ {
        18
    } else if name == "RUNNER_OS"@ {
        19
    } else if name == "RUNNER_TEMP"@ {
        20
    } else if name == "RUNNER_TOOL_CACHE"@ {
        21
    } else {
        -1
    }
}

/// No two of the variables that every step gets have the same name: each stands
/// in a place of its own.
proof fn lemma_variables_differ()
    ensures
        variable_index("CI"@) == 0,
        variable_index("GITHUB_WORKFLOW"@) == 1,
        variable_index("GITHUB_RUN_ID"@) == 2,
        variable_index("GITHUB_RUN_NUMBER"@) == 3,
        variable_index("GITHUB_JOB"@) == 4,
        variable_index("GITHUB_ACTIONS"@) == 5,
        variable_index("GITHUB_ACTOR"@) == 6,
        variable_index("GITHUB_REPOSITORY"@) == 7,
        variable_index("GITHUB_EVENT_NAME"@) == 8,
        variable_index("GITHUB_EVENT_PATH"@) == 9,
        variable_index("GITHUB_PATH"@) == 10,
        variable_index("GITHUB_ENV"@) == 11,
        variable_index("GITHUB_WORKSPACE"@) == 12,
        variable_index("GITHUB_SHA"@) == 13,
        variable_index("GITHUB_REF"@) == 14,
        variable_index("GITHUB_SERVER_URL"@) == 15,
        variable_index("GITHUB_API_URL"@) == 16,
        variable_index("GITHUB_GRAPHQL_URL"@) == 17,
        variable_index("GITHUB_TOKEN"@) == 18,
        variable_index("RUNNER_OS"@) == 19,
        variable_index("RUNNER_TEMP"@) == 20,
        variable_index("RUNNER_TOOL_CACHE"@) == 21,
{
    reveal_strlit("CI");
    reveal_strlit("GITHUB_WORKFLOW");
    reveal_strlit("GITHUB_RUN_ID");
    reveal_strlit("GITHUB_RUN_NUMBER");
    reveal_strlit("GITHUB_JOB");
    reveal_strlit("GITHUB_ACTIONS");
    reveal_strlit("GITHUB_ACTOR");
    reveal_strlit("GITHUB_REPOSITORY");
    reveal_strlit("GITHUB_EVENT_NAME");
    reveal_strlit("GITHUB_EVENT_PATH");
    reveal_strlit("GITHUB_PATH");
    reveal_strlit("GITHUB_ENV");
    reveal_strlit("GITHUB_WORKSPACE");
    reveal_strlit("GITHUB_SHA");
    reveal_strlit("GITHUB_REF");
    reveal_strlit("GITHUB_SERVER_URL");
    reveal_strlit("GITHUB_API_URL");
    reveal_strlit("GITHUB_GRAPHQL_URL");
    reveal_strlit("GITHUB_TOKEN");
    reveal_strlit("RUNNER_OS");
    reveal_strlit("RUNNER_TEMP");
    reveal_strlit("RUNNER_TOOL_CACHE");
    assert("CI"@.len() == 2);
    assert("GITHUB_WORKFLOW"@.len() == 15);
    assert("GITHUB_RUN_ID"@.len() == 13);
    assert("GITHUB_RUN_NUMBER"@.len() == 17);
    assert("GITHUB_JOB"@.len() == 10);
    assert("GITHUB_ACTIONS"@.len() == 14);
    assert("GITHUB_ACTOR"@.len() == 12);
    assert("GITHUB_REPOSITORY"@.len() == 17);
    assert("GITHUB_EVENT_NAME"@.len() == 17);
    assert("GITHUB_EVENT_PATH"@.len() == 17);
    assert("GITHUB_PATH"@.len() == 11);
    assert("GITHUB_ENV"@.len() == 10);
    assert("GITHUB_WORKSPACE"@.len() == 16);
    assert("GITHUB_SHA"@.len() == 10);
    assert("GITHUB_REF"@.len() == 10);
    assert("GITHUB_SERVER_URL"@.len() == 17);
    assert("GITHUB_API_URL"@.len() == 14);
    assert("GITHUB_GRAPHQL_URL"@.len() == 18);
    assert("GITHUB_TOKEN"@.len() == 12);
    assert("RUNNER_OS"@.len() == 9);
    assert("RUNNER_TEMP"@.len() == 11);
    assert("RUNNER_TOOL_CACHE"@.len() == 17);
    assert("GITHUB_ACTIONS"@[8] == 'C');
    assert("GITHUB_ACTOR"@[7] == 'A');
    assert("GITHUB_API_URL"@[8] == 'P');
    assert("GITHUB_ENV"@[7] == 'E');
    assert("GITHUB_EVENT_NAME"@[0] == 'G');
    assert("GITHUB_EVENT_NAME"@[7] == 'E');
    assert("GITHUB_EVENT_NAME"@[13] == 'N');
    assert("GITHUB_EVENT_PATH"@[0] == 'G');
    assert("GITHUB_EVENT_PATH"@[7] == 'E');
    assert("GITHUB_EVENT_PATH"@[13] == 'P');
    assert("GITHUB_JOB"@[7] == 'J');
    assert("GITHUB_PATH"@[0] == 'G');
    assert("GITHUB_REF"@[7] == 'R');
    assert("GITHUB_REPOSITORY"@[0] == 'G');
    assert("GITHUB_REPOSITORY"@[7] == 'R');
    assert("GITHUB_REPOSITORY"@[8] == 'E');
    assert("GITHUB_RUN_NUMBER"@[0] == 'G');
    assert("GITHUB_RUN_NUMBER"@[7] == 'R');
    assert("GITHUB_RUN_NUMBER"@[8] == 'U');
    assert("GITHUB_SERVER_URL"@[0] == 'G');
    assert("GITHUB_SERVER_URL"@[7] == 'S');
    assert("GITHUB_SHA"@[7] == 'S');
    assert("GITHUB_TOKEN"@[7] == 'T');
    assert("RUNNER_TEMP"@[0] == 'R');
    assert("RUNNER_TOOL_CACHE"@[0] == 'R');
}

/// The variable is one of those that every step is documented to get.
pub open spec fn documented(key: Seq<char>) -> bool {
    ||| key == "CI"@
    ||| key == "GITHUB_WORKFLOW"@
    ||| key == "GITHUB_RUN_ID"@
    ||| key == "GITHUB_RUN_NUMBER"@
    ||| key == "GITHUB_JOB"@
    ||| key == "GITHUB_ACTIONS"@
    ||| key == "GITHUB_ACTOR"@
    ||| key == "GITHUB_REPOSITORY"@
    ||| key == "GITHUB_EVENT_NAME"@
    ||| key == "GITHUB_EVENT_PATH"@
    ||| key == "GITHUB_PATH"@
    ||| key == "GITHUB_ENV"@
    ||| key == "GITHUB_WORKSPACE"@
    ||| key == "GITHUB_SHA"@
    ||| key == "GITHUB_REF"@
    ||| key == "GITHUB_SERVER_URL"@
    ||| key == "GITHUB_API_URL"@
    ||| key == "GITHUB_GRAPHQL_URL"@
    ||| key == "GITHUB_TOKEN"@
    ||| key == "RUNNER_OS"@
    ||| key == "RUNNER_TEMP"@
    ||| key == "RUNNER_TOOL_CACHE"@
}

/// The variables up to the commit hash, of which the ref's is none.
proof fn lemma_leading_env(
    ctx: ConfigView,
    workflow_name: Option<Seq<char>>,
    key: Seq<char>,
)
    ensures
        ({
            let env = leading_env(ctx, workflow_name);
            &&& ordered_map::lookup(env, "CI"@) == Some("true"@)
            &&& ordered_map::lookup(env, "GITHUB_WORKFLOW"@) == Some(
                match workflow_name {
                    Some(name) => name,
                    None => ctx.workflow_repo_path,
                },
            )
            &&& ordered_map::lookup(env, "GITHUB_RUN_ID"@) == Some(text::decimal(ctx.run_id))
            &&& ordered_map::lookup(env, "GITHUB_RUN_NUMBER"@) == Some(text::decimal(ctx.run_number))
            &&& ordered_map::lookup(env, "GITHUB_JOB"@) == Some(text::decimal(ctx.job_id))
            &&& ordered_map::lookup(env, "GITHUB_ACTIONS"@) == Some("true"@)
            &&& ordered_map::lookup(env, "GITHUB_ACTOR"@) == Some(ctx.actor)
            &&& ordered_map::lookup(env, "GITHUB_REPOSITORY"@) == Some(ctx.owner + "/"@ + ctx.repo)
            &&& ordered_map::lookup(env, "GITHUB_EVENT_NAME"@) == Some("push"@)
            &&& ordered_map::lookup(env, "GITHUB_EVENT_PATH"@) == Some("/github/.gha-runner/event"@)
            &&& ordered_map::lookup(env, "GITHUB_PATH"@) == Some("/github/.gha-runner/path"@)
            &&& ordered_map::lookup(env, "GITHUB_ENV"@) == Some("/github/.gha-runner/env"@)
            &&& ordered_map::lookup(env, "GITHUB_WORKSPACE"@) == Some("/github/workspace"@)
            &&& ordered_map::lookup(env, "GITHUB_SHA"@) == Some(hex_text(ctx.commit_sha))
            &&& ordered_map::lookup(env, "GITHUB_REF"@) is None
            &&& !documented(key) ==> ordered_map::lookup(env, key) is None
            &&& ordered_map::distinct_keys(env)
        }),
{
    lemma_variables_differ();
    let none: Seq<(Seq<char>, Seq<char>)> = seq![];
    let workflow = match workflow_name {
        Some(name) => name,
        None => ctx.workflow_repo_path,
    };
    ordered_map::law_set(none, "CI"@, "true"@);
    let e1 = ordered_map::set(none, "CI"@, "true"@);
    ordered_map::law_set(e1, "GITHUB_WORKFLOW"@, workflow);
    let e2 = ordered_map::set(e1, "GITHUB_WORKFLOW"@, workflow);
    ordered_map::law_set(e2, "GITHUB_RUN_ID"@, text::decimal(ctx.run_id));
    let e3 = ordered_map::set(e2, "GITHUB_RUN_ID"@, text::decimal(ctx.run_id));
    ordered_map::law_set(e3, "GITHUB_RUN_NUMBER"@, text::decimal(ctx.run_number));
    let e4 = ordered_map::set(e3, "GITHUB_RUN_NUMBER"@, text::decimal(ctx.run_number));
    ordered_map::law_set(e4, "GITHUB_JOB"@, text::decimal(ctx.job_id));
    let e5 = ordered_map::set(e4, "GITHUB_JOB"@, text::decimal(ctx.job_id));
    ordered_map::law_set(e5, "GITHUB_ACTIONS"@, "true"@);
    let e6 = ordered_map::set(e5, "GITHUB_ACTIONS"@, "true"@);
    ordered_map::law_set(e6, "GITHUB_ACTOR"@, ctx.actor);
    let e7 = ordered_map::set(e6, "GITHUB_ACTOR"@, ctx.actor);
    ordered_map::law_set(e7, "GITHUB_REPOSITORY"@, ctx.owner + "/"@ + ctx.repo);
    let e8 = ordered_map::set(e7, "GITHUB_REPOSITORY"@, ctx.owner + "/"@ + ctx.repo);
    ordered_map::law_set(e8, "GITHUB_EVENT_NAME"@, "push"@);
    let e9 = ordered_map::set(e8, "GITHUB_EVENT_NAME"@, "push"@);
    ordered_map::law_set(e9, "GITHUB_EVENT_PATH"@, "/github/.gha-runner/event"@);
    let e10 = ordered_map::set(e9, "GITHUB_EVENT_PATH"@, "/github/.gha-runner/event"@);
    ordered_map::law_set(e10, "GITHUB_PATH"@, "/github/.gha-runner/path"@);
    let e11 = ordered_map::set(e10, "GITHUB_PATH"@, "/github/.gha-runner/path"@);
    ordered_map::law_set(e11, "GITHUB_ENV"@, "/github/.gha-runner/env"@);
    let e12 = ordered_map::set(e11, "GITHUB_ENV"@, "/github/.gha-runner/env"@);
    ordered_map::law_set(e12, "GITHUB_WORKSPACE"@, "/github/workspace"@);
    let e13 = ordered_map::set(e12, "GITHUB_WORKSPACE"@, "/github/workspace"@);
    ordered_map::law_set(e13, "GITHUB_SHA"@, hex_text(ctx.commit_sha));
    let e14 = ordered_map::set(e13, "GITHUB_SHA"@, hex_text(ctx.commit_sha));
    assert(e14 == leading_env(ctx, workflow_name));
}

/// The variables behind the commit hash, and all others as they were.
proof fn lemma_trailing_env(ctx: ConfigView, env: Seq<(Seq<char>, Seq<char>)>, key: Seq<char>)
    ensures
        ({
            let all = with_trailing_env(ctx, env);
            &&& ordered_map::lookup(all, "GITHUB_SERVER_URL"@) == Some("https://github.com"@)
            &&& ordered_map::lookup(all, "GITHUB_API_URL"@) == Some("https://api.github.com"@)
            &&& ordered_map::lookup(all, "GITHUB_GRAPHQL_URL"@) == Some("https://api.github.com/graphql"@)
            &&& ordered_map::lookup(all, "GITHUB_TOKEN"@) == Some(ctx.token)
            &&& ordered_map::lookup(all, "RUNNER_OS"@) == Some("Linux"@)
            &&& ordered_map::lookup(all, "RUNNER_TEMP"@) == Some("/tmp"@)
            &&& ordered_map::lookup(all, "RUNNER_TOOL_CACHE"@) == Some("/opt/hostedtoolcache"@)
            &&& ordered_map::distinct_keys(env) ==> ordered_map::distinct_keys(all)
            &&& (key != "GITHUB_SERVER_URL"@ && key != "GITHUB_API_URL"@ && key
                != "GITHUB_GRAPHQL_URL"@ && key != "GITHUB_TOKEN"@ && key != "RUNNER_OS"@ && key
                != "RUNNER_TEMP"@ && key != "RUNNER_TOOL_CACHE"@) ==> ordered_map::lookup(all, key)
                == ordered_map::lookup(env, key)
        }),
{
    lemma_variables_differ();
    ordered_map::law_set(env, "GITHUB_SERVER_URL"@, "https://github.com"@);
    let e1 = ordered_map::set(env, "GITHUB_SERVER_URL"@, "https://github.com"@);
    ordered_map::law_set(e1, "GITHUB_API_URL"@, "https://api.github.com"@);
    let e2 = ordered_map::set(e1, "GITHUB_API_URL"@, "https://api.github.com"@);
    ordered_map::law_set(e2, "GITHUB_GRAPHQL_URL"@, "https://api.github.com/graphql"@);
    let e3 = ordered_map::set(e2, "GITHUB_GRAPHQL_URL"@, "https://api.github.com/graphql"@);
    ordered_map::law_set(e3, "GITHUB_TOKEN"@, ctx.token);
    let e4 = ordered_map::set(e3, "GITHUB_TOKEN"@, ctx.token);
    ordered_map::law_set(e4, "RUNNER_OS"@, "Linux"@);
    let e5 = ordered_map::set(e4, "RUNNER_OS"@, "Linux"@);
    ordered_map::law_set(e5, "RUNNER_TEMP"@, "/tmp"@);
    let e6 = ordered_map::set(e5, "RUNNER_TEMP"@, "/tmp"@);
    ordered_map::law_set(e6, "RUNNER_TOOL_CACHE"@, "/opt/hostedtoolcache"@);
    let e7 = ordered_map::set(e6, "RUNNER_TOOL_CACHE"@, "/opt/hostedtoolcache"@);
    assert(e7 == with_trailing_env(ctx, env));
}

/// Every step gets the values that it is documented to get, each in its
/// environment variable. A commit without a ref leaves the ref's variable out.
pub proof fn law_base_env(ctx: ConfigView, workflow_name: Option<Seq<char>>)
    ensures
        ({
            let env = base_env(ctx, workflow_name);
            &&& ordered_map::lookup(env, "CI"@) == Some("true"@)
            &&& ordered_map::lookup(env, "GITHUB_WORKFLOW"@) == Some(
                match workflow_name {
                    Some(name) => name,
                    None => ctx.workflow_repo_path,
                },
            )
            &&& ordered_map::lookup(env, "GITHUB_RUN_ID"@) == Some(text::decimal(ctx.run_id))
            &&& ordered_map::lookup(env, "GITHUB_RUN_NUMBER"@) == Some(text::decimal(ctx.run_number))
            &&& ordered_map::lookup(env, "GITHUB_JOB"@) == Some(text::decimal(ctx.job_id))
            &&& ordered_map::lookup(env, "GITHUB_ACTIONS"@) == Some("true"@)
            &&& ordered_map::lookup(env, "GITHUB_ACTOR"@) == Some(ctx.actor)
            &&& ordered_map::lookup(env, "GITHUB_REPOSITORY"@) == Some(ctx.owner + "/"@ + ctx.repo)
            &&& ordered_map::lookup(env, "GITHUB_EVENT_NAME"@) == Some("push"@)
            &&& ordered_map::lookup(env, "GITHUB_EVENT_PATH"@) == Some("/github/.gha-runner/event"@)
            &&& ordered_map::lookup(env, "GITHUB_PATH"@) == Some("/github/.gha-runner/path"@)
            &&& ordered_map::lookup(env, "GITHUB_ENV"@) == Some("/github/.gha-runner/env"@)
            &&& ordered_map::lookup(env, "GITHUB_WORKSPACE"@) == Some("/github/workspace"@)
            &&& ordered_map::lookup(env, "GITHUB_SHA"@) == Some(hex_text(ctx.commit_sha))
            &&& ordered_map::lookup(env, "GITHUB_REF"@) == ctx.commit_ref
            &&& ordered_map::lookup(env, "GITHUB_SERVER_URL"@) == Some("https://github.com"@)
            &&& ordered_map::lookup(env, "GITHUB_API_URL"@) == Some("https://api.github.com"@)
            &&& ordered_map::lookup(env, "GITHUB_GRAPHQL_URL"@) == Some("https://api.github.com/graphql"@)
            &&& ordered_map::lookup(env, "GITHUB_TOKEN"@) == Some(ctx.token)
            &&& ordered_map::lookup(env, "RUNNER_OS"@) == Some("Linux"@)
            &&& ordered_map::lookup(env, "RUNNER_TEMP"@) == Some("/tmp"@)
            &&& ordered_map::lookup(env, "RUNNER_TOOL_CACHE"@) == Some("/opt/hostedtoolcache"@)
            &&& ordered_map::distinct_keys(env)
        }),
{
    lemma_variables_differ();
    lemma_leading_env(ctx, workflow_name, "CI"@);
    let front = leading_env(ctx, workflow_name);
    let middle = match ctx.commit_ref {
        Some(r) => ordered_map::set(front, "GITHUB_REF"@, r),
        None => front,
    };
    if let Some(r) = ctx.commit_ref {
        ordered_map::law_set(front, "GITHUB_REF"@, r);
    }
    lemma_trailing_env(ctx, middle, "CI"@);
    lemma_trailing_env(ctx, middle, "GITHUB_WORKFLOW"@);
    lemma_trailing_env(ctx, middle, "GITHUB_RUN_ID"@);
    lemma_trailing_env(ctx, middle, "GITHUB_RUN_NUMBER"@);
    lemma_trailing_env(ctx, middle, "GITHUB_JOB"@);
    lemma_trailing_env(ctx, middle, "GITHUB_ACTIONS"@);
    lemma_trailing_env(ctx, middle, "GITHUB_ACTOR"@);
    lemma_trailing_env(ctx, middle, "GITHUB_REPOSITORY"@);
    lemma_trailing_env(ctx, middle, "GITHUB_EVENT_NAME"@);
    lemma_trailing_env(ctx, middle, "GITHUB_EVENT_PATH"@);
    lemma_trailing_env(ctx, middle, "GITHUB_PATH"@);
    lemma_trailing_env(ctx, middle, "GITHUB_ENV"@);
    lemma_trailing_env(ctx, middle, "GITHUB_WORKSPACE"@);
    lemma_trailing_env(ctx, middle, "GITHUB_SHA"@);
    lemma_trailing_env(ctx, middle, "GITHUB_REF"@);
}

/// Before the workflow, the job and the step set any, there are no variables but
/// those that every step is documented to get.
pub proof fn law_no_other_variables(
    ctx: ConfigView,
    workflow_name: Option<Seq<char>>,
    key: Seq<char>,
)
    requires
        !documented(key),
    ensures
        ordered_map::lookup(base_env(ctx, workflow_name), key) is None,
{
    lemma_leading_env(ctx, workflow_name, key);
    let front = leading_env(ctx, workflow_name);
    let middle = match ctx.commit_ref {
        Some(r) => ordered_map::set(front, "GITHUB_REF"@, r),
        None => front,
    };
    if let Some(r) = ctx.commit_ref {
        ordered_map::law_set(front, "GITHUB_REF"@, r);
    }
    lemma_trailing_env(ctx, middle, key);
}

/// A byte is written as two digits, the higher one first and in small letters, and
/// read from two digits in small or capital letters.
pub proof fn law_hex_digits(bytes: Seq<u8>, s: Seq<char>, i: int)
    ensures
        ({
            let small = "0123456789abcdef"@;
            let capital = "0123456789ABCDEF"@;
            &&& hex_text(bytes).len() == 2 * bytes.len()
            &&& 0 <= i < bytes.len() ==> hex_text(bytes)[2 * i] == small[bytes[i] as int / 16]
                && hex_text(bytes)[2 * i + 1] == small[bytes[i] as int % 16]
            &&& forall|k: int|
                0 <= k < 16 ==> hex_value(#[trigger] small[k]) == Some(k) && hex_value(capital[k])
                    == Some(k)
            &&& forall|c: char|
                !small.contains(c) && !capital.contains(c) ==> #[trigger] hex_value(c) is None
            &&& is_hex(s) && 0 <= i < s.len() / 2 ==> hex_bytes(s)[i] as int == 16 * hex_value(
                s[2 * i],
            )->0 + hex_value(s[2 * i + 1])->0
        }),
{
    let small = "0123456789abcdef"@;
    let capital = "0123456789ABCDEF"@;
    reveal_strlit("0123456789abcdef");
    reveal_strlit("0123456789ABCDEF");
    assert(small.len() == 16 && capital.len() == 16);
    assert(forall|n: int| 0 <= n < 16 ==> #[trigger] hex_digit(n) == small[n]);
    if 0 <= i < bytes.len() {
        assert(hex_text(bytes)[2 * i] == hex_digit(bytes[i] as int / 16));
        assert(hex_text(bytes)[2 * i + 1] == hex_digit(bytes[i] as int % 16));
    }
    assert forall|c: char| !small.contains(c) && !capital.contains(c) implies #[trigger] hex_value(
        c,
    ) is None by {
        if '0' <= c <= '9' {
            assert(small[c as int - '0' as int] == c);
        }
        if 'a' <= c <= 'f' {
            assert(small[10 + c as int - 'a' as int] == c);
        }
        if 'A' <= c <= 'F' {
            assert(capital[10 + c as int - 'A' as int] == c);
        }
    }
    if is_hex(s) && 0 <= i < s.len() / 2 {
        assert(hex_value(s[2 * i]) is Some);
        assert(hex_value(s[2 * i + 1]) is Some);
    }
}

/// All that a workflow is run with counts as it was given.
pub proof fn law_config_is_what_was_given(ctx: RunnerContext)
    ensures
        ctx.deep_view().owner == ctx.owner@,
        ctx.deep_view().repo == ctx.repo@,
        ctx.deep_view().commit_sha == ctx.commit_sha@,
        ctx.commit_ref is None ==> ctx.deep_view().commit_ref is None,
        ctx.commit_ref matches Some(r) ==> ctx.deep_view().commit_ref == Some(r@),
        ctx.deep_view().workflow_repo_path == ctx.workflow_repo_path@,
        ctx.deep_view().run_id == ctx.run_id,
        ctx.deep_view().run_number == ctx.run_number,
        ctx.deep_view().job_id == ctx.job_id,
        ctx.deep_view().actor == ctx.actor@,
        ctx.deep_view().token == ctx.token@,
        ctx.deep_view().override_env.len() == ctx.override_env@.len(),
        forall|i: int|
            0 <= i < ctx.override_env@.len() ==> ctx.deep_view().override_env[i] == (
                (#[trigger] ctx.override_env@[i]).0@,
                ctx.override_env@[i].1@,
            ),
{
}

} // verus!
