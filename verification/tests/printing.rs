use gha_runner::files::{read_env_file, read_path_file};
use gha_runner::{LineBuffer, OrderedMap, OutputFilter};

fn listed(m: &OrderedMap<String>) -> Vec<(String, String)> {
    m.pairs().into_iter().map(|(k, v)| (k, v.clone())).collect()
}

fn pair(k: &str, v: &str) -> (String, String) {
    (k.to_string(), v.to_string())
}

fn outputs(data: &[u8]) -> Vec<(String, String)> {
    let mut filter = OutputFilter::new();
    filter.filter(data);
    listed(&filter.into_outputs())
}

#[test]
fn complete_lines_are_taken_out() {
    let mut buffer = LineBuffer::new();
    buffer.append(b"one\ntw");
    assert_eq!(buffer.take_lines(), vec![b"one".to_vec()]);
    assert_eq!(buffer.take_lines(), Vec::<Vec<u8>>::new());
    buffer.append(b"o\n\nthree");
    assert_eq!(buffer.take_lines(), vec![b"two".to_vec(), b"".to_vec()]);
    buffer.append(b"\n");
    assert_eq!(buffer.take_lines(), vec![b"three".to_vec()]);
}

#[test]
fn outputs_are_set() {
    assert_eq!(
        outputs(b"hello\n::set-output name=a::1\n::set-output name=b::x::y\n::set-output name=a::2\n"),
        vec![pair("b", "x::y"), pair("a", "2")]
    );
}

#[test]
fn other_lines_set_no_output() {
    assert_eq!(outputs(b" ::set-output name=a::1\n"), vec![]);
    assert_eq!(outputs(b"::set-output name=a:1\n"), vec![]);
    assert_eq!(outputs(b"::set-output name=a::\xff\n"), vec![]);
    assert_eq!(outputs(b"::save-state\n::\n:\n\n"), vec![]);
    assert_eq!(outputs(b"::set-output name=a::1"), vec![]);
}

#[test]
fn commands_can_be_stopped_for_a_while() {
    let data = b"::set-output name=a::1\n\
        ::stop-commands::tok\n\
        ::set-output name=b::2\n\
        ::tok\n\
        ::tok:: \n\
        ::stop-commands::other\n\
        ::other::\n\
        ::tok::\n\
        ::set-output name=c::3\n";
    assert_eq!(outputs(data), vec![pair("a", "1"), pair("c", "3")]);
}

#[test]
fn an_empty_token_stops_commands_too() {
    assert_eq!(
        outputs(b"::stop-commands::\n::set-output name=a::1\n::::\n::set-output name=b::2\n"),
        vec![pair("b", "2")]
    );
}

#[test]
fn pieces_of_output_do_not_matter() {
    let data: &[u8] = b"x\n::set-output name=\xc3\xa9::1\n::stop-commands::t\n::set-output name=q::2\n::t::\n::set-output name=z::3\nrest";
    let expected = outputs(data);
    assert_eq!(expected, vec![pair("é", "1"), pair("z", "3")]);
    for cut in 0..=data.len() {
        let mut filter = OutputFilter::new();
        filter.filter(&data[..cut]);
        filter.filter(&data[cut..]);
        assert_eq!(listed(&filter.into_outputs()), expected);
    }
    let mut filter = OutputFilter::new();
    for byte in data {
        filter.filter(&[*byte]);
    }
    assert_eq!(listed(&filter.into_outputs()), expected);
}

fn env_after(data: &[u8]) -> Vec<(String, String)> {
    let mut env = OrderedMap::new();
    env.insert("A".to_string(), "old".to_string());
    env.insert("B".to_string(), "kept".to_string());
    read_env_file(&mut env, &data.to_vec());
    listed(&env)
}

#[test]
fn the_environment_file_sets_variables() {
    assert_eq!(
        env_after(b"A=new=er\nC=\n=x\nnothing\n\nD=last"),
        vec![
            pair("B", "kept"),
            pair("A", "new=er"),
            pair("C", ""),
            pair("", "x"),
            pair("D", "last"),
        ]
    );
    assert_eq!(env_after(b""), vec![pair("A", "old"), pair("B", "kept")]);
}

#[test]
fn lines_that_are_no_text_are_passed_over() {
    assert_eq!(
        env_after(b"\xff=1\nC=2\n"),
        vec![pair("A", "old"), pair("B", "kept"), pair("C", "2")]
    );
}

#[test]
fn an_open_value_takes_in_the_rest_of_the_file() {
    assert_eq!(
        env_after(b"C=1\nNAME<<EOF\nline\nEOF\nD=2\n"),
        vec![pair("A", "old"), pair("B", "kept"), pair("C", "1")]
    );
    // An equals sign comes first, wherever it stands.
    assert_eq!(
        env_after(b"X<<Y=Z\nD=2\n"),
        vec![pair("A", "old"), pair("B", "kept"), pair("X<<Y", "Z"), pair("D", "2")]
    );
}

#[test]
fn the_path_file_adds_entries() {
    let mut paths = vec!["/old".to_string()];
    read_path_file(&mut paths, &b"/a b\n\xff\n\n/c".to_vec());
    assert_eq!(paths, vec!["/old", "/a b", "", "/c"]);
    read_path_file(&mut paths, &b"/d\n".to_vec());
    assert_eq!(paths, vec!["/old", "/a b", "", "/c", "/d"]);
}

#[test]
fn lines_and_the_rest_are_the_data() {
    for data in [&b""[..], b"\n", b"a", b"a\n\nb\nc", b"a\nb\n"] {
        let mut buffer = LineBuffer::new();
        buffer.append(data);
        let mut joined = Vec::new();
        for line in buffer.take_lines() {
            assert!(!line.contains(&b'\n'));
            joined.extend_from_slice(&line);
            joined.push(b'\n');
        }
        assert!(data.starts_with(&joined));
        let rest = data[joined.len()..].to_vec();
        buffer.append(b"\n");
        assert_eq!(buffer.take_lines(), vec![rest]);
    }
}
