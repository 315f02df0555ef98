use gha_runner::script::{
    action_path_of, path_in_container, script_path_of, step_dir_of, write_script_head,
};
use gha_runner::shell::{envify, parse_simple_shell_command, shell_quote};
use gha_runner::{write_script_tail, OrderedMap, RunSpec, RunnerErrorKind};

/// Reads one word as a shell does.
fn shell_reads(word: &str) -> String {
    let mut out = String::new();
    let mut quote = ' ';
    for c in word.chars() {
        match quote {
            ' ' => match c {
                '\'' | '"' => quote = c,
                _ => {
                    assert!(c.is_ascii_alphanumeric() || "_-=./:".contains(c));
                    out.push(c);
                }
            },
            _ => {
                if c == quote {
                    quote = ' ';
                } else {
                    assert!(quote == '\'' || !"$`\\".contains(c));
                    out.push(c);
                }
            }
        }
    }
    assert_eq!(quote, ' ');
    out
}

#[test]
fn names_become_environment_variables() {
    assert_eq!(envify("persist-credentials"), "PERSIST_CREDENTIALS");
    assert_eq!(envify("a B9_é"), "A_B9__");
    assert_eq!(envify(""), "");
    assert_eq!(envify(&envify("x-y.z")), envify("x-y.z"));
}

#[test]
fn plain_texts_are_not_quoted() {
    assert_eq!(shell_quote("a/B-9_=.:z"), "a/B-9_=.:z");
    assert_eq!(shell_quote(""), "");
}

#[test]
fn other_texts_are_quoted() {
    assert_eq!(shell_quote("a b"), "'a b'");
    assert_eq!(shell_quote("it's"), "'it'\"'\"'s'");
    assert_eq!(shell_quote("'"), "''\"'\"''");
    assert_eq!(shell_quote("$HOME\n"), "'$HOME\n'");
}

#[test]
fn a_shell_reads_back_what_was_quoted() {
    for s in ["plain", "a b", "it's", "''", "\"$x\" `y` \\", "line\nfeed", "é*?~#"] {
        assert_eq!(shell_reads(&shell_quote(s)), s);
    }
}

#[test]
fn simple_commands_are_split_into_words() {
    assert_eq!(
        parse_simple_shell_command("  cargo test\n --all  ./x.sh\n"),
        Some(vec![
            "cargo".to_string(),
            "test".to_string(),
            "--all".to_string(),
            "./x.sh".to_string()
        ])
    );
    assert_eq!(parse_simple_shell_command(" \n "), Some(vec![]));
    for word in parse_simple_shell_command("make -C /src all").unwrap() {
        assert_eq!(shell_quote(&word), word);
    }
}

#[test]
fn other_commands_are_not_simple() {
    for s in ["a;b", "echo $X", "a\tb", "x=1 y", "a_b", "\"q\"", "é"] {
        assert_eq!(parse_simple_shell_command(s), None);
    }
}

fn spec() -> RunSpec {
    let mut env = OrderedMap::new();
    env.insert("CI".to_string(), "true".to_string());
    env.insert("MESSAGE".to_string(), "it's on".to_string());
    RunSpec {
        env,
        paths: vec!["/first".to_string(), "/second".to_string()],
        working_directory: Some("some dir".to_string()),
        command: vec!["make".to_string(), "two words".to_string()],
    }
}

#[test]
fn the_script_of_the_first_step() {
    let (head, error) = write_script_head(&spec(), 0);
    assert!(error.is_none());
    assert_eq!(
        head,
        "#!/bin/bash -l\n\
         export CI=true\n\
         export MESSAGE='it'\"'\"'s on'\n\
         export PATH=/second:/first:$PATH\n\
         ln -s /github/.gha-runner/hostedtoolcache $RUNNER_TOOL_CACHE\n\
         cd /github/workspace\n\
         cd 'some dir'\n"
    );
    assert_eq!(write_script_tail(&spec().command), "exec make 'two words'");
}

#[test]
fn the_script_of_a_later_step() {
    let mut spec = spec();
    spec.paths = Vec::new();
    spec.working_directory = None;
    spec.env = OrderedMap::new();
    let (head, error) = write_script_head(&spec, 1);
    assert!(error.is_none());
    assert_eq!(head, "#!/bin/bash -l\ncd /github/workspace\n");
    assert_eq!(write_script_tail(&Vec::new()), "exec");
}

#[test]
fn a_variable_name_with_an_equals_sign_ends_the_script() {
    let mut spec = spec();
    spec.env.insert("A=B".to_string(), "x".to_string());
    spec.env.insert("C=D".to_string(), "y".to_string());
    let (head, error) = write_script_head(&spec, 3);
    assert_eq!(
        head,
        "#!/bin/bash -l\nexport CI=true\nexport MESSAGE='it'\"'\"'s on'\n"
    );
    let error = error.unwrap();
    assert_eq!(
        error.kind(),
        &RunnerErrorKind::InvalidEnvironmentVariableName { name: "A=B".to_string() }
    );
    assert_eq!(error.message(), "Invalid evironment variable name 'A=B'");
}

#[test]
fn files_are_below_the_global_directory() {
    assert_eq!(step_dir_of(12), ".gha-runner/step12");
    assert_eq!(script_path_of(0, "run"), ".gha-runner/step0/run");
    assert_eq!(action_path_of(4294967295), ".gha-runner/step4294967295/action");
    assert_eq!(path_in_container(".gha-runner/step0/run"), "/github/.gha-runner/step0/run");
}

#[test]
fn the_first_occurrence_is_found() {
    let chars = gha_runner::text::chars_of("aXbXXc");
    assert_eq!(gha_runner::text::find_chars(&chars, 0, "X"), Some(1));
    assert_eq!(gha_runner::text::find_chars(&chars, 2, "XX"), Some(3));
    assert_eq!(gha_runner::text::find_chars(&chars, 4, "XX"), None);
    assert_eq!(gha_runner::text::find_chars(&chars, 6, ""), Some(6));
    assert_eq!(gha_runner::text::trimmed(" \u{3000}a b\u{85}\n"), "a b");
    assert_eq!(gha_runner::text::trimmed(&gha_runner::text::trimmed("  x ")), "x");
}
