use gha_runner::matrix::cartesian_product;
use gha_runner::yaml::{parse, Mapping, Number};
use gha_runner::{OrderedMap, Yaml};

fn text(s: &str) -> Yaml {
    Yaml::Text(s.to_string())
}

fn listed(m: &OrderedMap<String>) -> Vec<(String, String)> {
    m.pairs().into_iter().map(|(k, v)| (k, v.clone())).collect()
}

#[test]
fn a_key_that_is_set_again_moves_to_the_end() {
    let mut m: OrderedMap<String> = OrderedMap::new();
    assert_eq!(m.get("a"), None);
    m.insert("a".to_string(), "1".to_string());
    m.insert("b".to_string(), "2".to_string());
    m.insert("c".to_string(), "3".to_string());
    m.insert("a".to_string(), "4".to_string());
    assert_eq!(m.keys(), vec!["b", "c", "a"]);
    assert_eq!(m.get("a"), Some(&"4".to_string()));
    assert_eq!(m.get("b"), Some(&"2".to_string()));
    let copy = m.clone();
    m.insert("b".to_string(), "5".to_string());
    assert_eq!(
        listed(&copy),
        vec![
            ("b".to_string(), "2".to_string()),
            ("c".to_string(), "3".to_string()),
            ("a".to_string(), "4".to_string()),
        ]
    );
    assert_eq!(m.keys(), vec!["c", "a", "b"]);
}

#[test]
fn documents_become_plain_values() {
    let v = parse(b"null: ~\ntrue: false\n-5: 18446744073709551615\n1.5: [x, 9223372036854775807]\nk: !tag v\n").unwrap();
    let pairs = match &v {
        Yaml::Mapping(m) => m.pairs(),
        _ => panic!("no mapping"),
    };
    assert_eq!(
        pairs,
        &vec![
            (Yaml::Null, Yaml::Null),
            (Yaml::Bool(true), Yaml::Bool(false)),
            (
                Yaml::Number(Number::Signed(-5)),
                Yaml::Number(Number::Unsigned(18446744073709551615))
            ),
            (
                Yaml::Number(Number::Float("1.5".to_string())),
                Yaml::Sequence(vec![
                    text("x"),
                    Yaml::Number(Number::Signed(9223372036854775807))
                ])
            ),
            (
                text("k"),
                Yaml::Tagged("!tag".to_string(), Box::new(text("v")))
            ),
        ]
    );
    assert_eq!(v.clone(), v);
}

#[test]
fn parse_errors_carry_the_parser_message() {
    let data = b"a: [1, 2";
    let expected = serde_yaml::from_slice::<serde_yaml::Value>(data).unwrap_err().to_string();
    assert_eq!(parse(data).unwrap_err().message, expected);
    let twice = b"a: 1\na: 2\n";
    let expected = serde_yaml::from_slice::<serde_yaml::Value>(twice).unwrap_err().to_string();
    assert_eq!(parse(twice).unwrap_err().message, expected);
}

#[test]
fn values_are_shown_as_the_parser_shows_them() {
    let documents: Vec<&str> = vec![
        "~",
        "true",
        "-17",
        "18446744073709551615",
        "1.25",
        ".nan",
        "-.inf",
        "plain",
        "\"quo'te \\\" \\t \\u00e9 \\u200b\"",
        "[]",
        "{}",
        "[1, [a, b], {}]",
        "{a: 1, 2: b, true: ~, 1.5: x, ~: y, [p, q]: z, {m: n}: !t w}",
        "!tag {a: [x]}",
        "k: !a [1]\nl: !b ~",
        "''",
        "-0.0",
        "1e300",
        "!a {!b c: !d {e: -1.5}}",
        "{? {x: 1, y: [2.0]} : {}, ? [] : ''}",
        "{\"a\\nb\": \"\\0\", \"\\u2028\": [[], {}]}",
    ];
    for document in documents {
        let theirs: serde_yaml::Value = serde_yaml::from_str(document).unwrap();
        let ours = parse(document.as_bytes()).unwrap();
        assert_eq!(ours.show(), format!("{:?}", theirs));
    }
}

#[test]
fn fields_are_found_under_tags() {
    let mut v = parse(b"!a {x: 1, y: 2, z: 3}").unwrap();
    assert_eq!(v.get_field("y"), Some(Some(parse(b"2").unwrap())));
    assert_eq!(v.get_field("w"), Some(None));
    assert_eq!(text("t").get_field("w"), None);
    assert_eq!(v.take_entry("x"), Some(Some(parse(b"1").unwrap())));
    // The last entry has taken the place of the one that was taken out.
    assert_eq!(v, parse(b"!a {z: 3, y: 2}").unwrap());
    assert_eq!(v.take_entry("x"), Some(None));
    assert_eq!(v.get_field("y"), Some(Some(parse(b"2").unwrap())));
    v.put_entry("y", text("new"));
    v.put_entry("n", text("more"));
    assert_eq!(v, parse(b"!a {z: 3, y: new, n: more}").unwrap());
    let all = v.take_entries().unwrap();
    assert_eq!(all.len(), 3);
    assert_eq!(v, parse(b"!a {}").unwrap());
    assert_eq!(text("t").take_entry("w"), None);
    assert_eq!(Yaml::Null.take_entries(), None);
}

fn keys(list: &[(&str, &[&str])]) -> OrderedMap<Vec<Yaml>> {
    let mut m = OrderedMap::new();
    for (key, values) in list {
        m.insert(key.to_string(), values.iter().map(|v| text(v)).collect());
    }
    m
}

fn combinations(m: &OrderedMap<Vec<Yaml>>) -> Vec<Vec<(String, Yaml)>> {
    cartesian_product(m)
        .iter()
        .map(|c| c.pairs().into_iter().map(|(k, v)| (k, v.clone())).collect())
        .collect()
}

fn combination(list: &[(&str, &str)]) -> Vec<(String, Yaml)> {
    list.iter().map(|(k, v)| (k.to_string(), text(v))).collect()
}

#[test]
fn the_first_key_varies_slowest() {
    let m = keys(&[("a", &["1", "2"]), ("b", &["x", "y", "z"])]);
    assert_eq!(
        combinations(&m),
        vec![
            combination(&[("a", "1"), ("b", "x")]),
            combination(&[("a", "1"), ("b", "y")]),
            combination(&[("a", "1"), ("b", "z")]),
            combination(&[("a", "2"), ("b", "x")]),
            combination(&[("a", "2"), ("b", "y")]),
            combination(&[("a", "2"), ("b", "z")]),
        ]
    );
}

#[test]
fn a_key_without_values_leaves_no_combination() {
    assert_eq!(combinations(&keys(&[("a", &["1"]), ("b", &[])])).len(), 0);
}

#[test]
fn without_keys_there_is_one_empty_combination() {
    assert_eq!(combinations(&keys(&[])), vec![combination(&[])]);
}

#[test]
fn the_values_of_the_first_key_vary_slowest() {
    let m = keys(&[("a", &["0", "1"]), ("b", &["0", "1", "2"]), ("c", &["0", "1"])]);
    let all = combinations(&m);
    assert_eq!(all.len(), 12);
    for a in 0..2usize {
        for b in 0..3usize {
            for c in 0..2usize {
                assert_eq!(
                    all[(a * 3 + b) * 2 + c],
                    combination(&[
                        ("a", a.to_string().as_str()),
                        ("b", b.to_string().as_str()),
                        ("c", c.to_string().as_str()),
                    ])
                );
            }
        }
    }
}

#[test]
fn a_mapping_never_has_a_key_twice() {
    let mut v = Yaml::Mapping(Mapping::new());
    v.put_entry("a", text("1"));
    v.put_entry("b", text("2"));
    v.put_entry("a", text("3"));
    assert_eq!(v, parse(b"{a: '3', b: '2'}").unwrap());
    assert_eq!(v.take_entry("a"), Some(Some(text("3"))));
    assert_eq!(v.take_entry("a"), Some(None));
    let pairs = match v {
        Yaml::Mapping(m) => m.into_pairs(),
        _ => panic!("no mapping"),
    };
    assert_eq!(pairs, vec![(text("b"), text("2"))]);
    assert!(parse(b"{a: 1, b: 2, a: 3}").is_err());
    assert!(parse(b"{? {x: 1, y: 2} : 1, ? {y: 2, x: 1} : 2}").is_err());
}
