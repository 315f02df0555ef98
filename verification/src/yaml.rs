//! YAML documents as plain values. Parsing is done by `serde_yaml`; what the
//! parser hands out is copied into a `Yaml`, which the rest of the library
//! reads and takes apart.

use vstd::prelude::*;

use crate::text;

verus! {

// ---------------------------------------------------------------------------
// Values
// ---------------------------------------------------------------------------

/// A YAML number.
#[derive(Debug, PartialEq)]
pub enum Number {
    /// A whole number that fits in 64 bits with a sign.
    Signed(i64),
    /// A whole number that fits in 64 bits without a sign.
    Unsigned(u64),
    /// Any other number, as it is printed.
    Float(String),
}

/// A YAML value.
#[derive(Debug, PartialEq)]
pub enum Yaml {
    /// No value.
    Null,
    /// A truth value.
    Bool(bool),
    /// A number.
    Number(Number),
    /// A text.
    Text(String),
    /// A list of values.
    Sequence(Vec<Yaml>),
    /// Keys, each with its value.
    Mapping(Mapping),
    /// A value with a tag, which is written with its exclamation mark.
    Tagged(String, Box<Yaml>),
}

/// A list of keys, each with its value. No key occurs twice.
#[derive(Debug, PartialEq)]
pub struct Mapping {
    entries: Vec<(Yaml, Yaml)>,
}

/// What a `Number` stands for.
pub enum NumberView {
    /// A whole number.
    Whole(int),
    /// Any other number, as it is printed.
    Float(Seq<char>),
}

/// What a `Yaml` stands for.
pub enum YamlView {
    /// No value.
    Null,
    /// A truth value.
    Bool(bool),
    /// A number.
    Number(NumberView),
    /// A text.
    Text(Seq<char>),
    /// A list of values.
    Sequence(Seq<YamlView>),
    /// A list of keys, each with its value.
    Mapping(Seq<(YamlView, YamlView)>),
    /// A value with a tag.
    Tagged(Seq<char>, Box<YamlView>),
}

impl View for Number {
    type V = NumberView;

    open spec fn view(&self) -> NumberView {
        match *self {
            Number::Signed(n) => NumberView::Whole(n as int),
            Number::Unsigned(n) => NumberView::Whole(n as int),
            Number::Float(s) => NumberView::Float(s@),
        }
    }
}

impl Yaml {
    /// What the value stands for.
    pub open spec fn tree(&self) -> YamlView
        decreases self,
    {
        match *self {
            Yaml::Null => YamlView::Null,
            Yaml::Bool(b) => YamlView::Bool(b),
            Yaml::Number(n) => YamlView::Number(n@),
            Yaml::Text(s) => YamlView::Text(s@),
            Yaml::Sequence(v) => YamlView::Sequence(
                Seq::new(
                    v@.len(),
                    |i: int|
                        if 0 <= i < v@.len() {
                            v@[i].tree()
                        } else {
                            YamlView::Null
                        },
                ),
            ),
            Yaml::Mapping(m) => YamlView::Mapping(m.trees()),
            Yaml::Tagged(tag, v) => YamlView::Tagged(tag@, Box::new(v.tree())),
        }
    }
}

impl Mapping {
    /// What the entries stand for.
    pub closed spec fn trees(&self) -> Seq<(YamlView, YamlView)>
        decreases self,
    {
        Seq::new(
            self.entries@.len(),
            |i: int|
                if 0 <= i < self.entries@.len() {
                    (self.entries@[i].0.tree(), self.entries@[i].1.tree())
                } else {
                    (YamlView::Null, YamlView::Null)
                },
        )
    }

    #[verifier::type_invariant]
    spec fn keys_differ(self) -> bool {
        distinct_fields(entries(self.entries@))
    }

    proof fn lemma_trees(self)
        ensures
            self@ == entries(self.entries@),
    {
        assert(self@ =~= entries(self.entries@));
    }
}

impl View for Mapping {
    type V = Seq<(YamlView, YamlView)>;

    open spec fn view(&self) -> Seq<(YamlView, YamlView)> {
        self.trees()
    }
}

impl View for Yaml {
    type V = YamlView;

    open spec fn view(&self) -> YamlView {
        self.tree()
    }
}

impl DeepView for Yaml {
    type V = YamlView;

    open spec fn deep_view(&self) -> YamlView {
        self.tree()
    }
}

/// What the entries of a mapping stand for.
pub open spec fn entries(m: Seq<(Yaml, Yaml)>) -> Seq<(YamlView, YamlView)> {
    Seq::new(m.len(), |i: int| (m[i].0@, m[i].1@))
}

/// The view of a sequence is the list of what its items stand for.
pub proof fn lemma_value_view(v: Yaml)
    ensures
        v matches Yaml::Sequence(s) ==> v@ == YamlView::Sequence(s.deep_view()),
{
    match v {
        Yaml::Sequence(s) => {
            assert(v@->Sequence_0 =~= s.deep_view());
        },
        _ => {},
    }
}

impl Clone for Number {
    fn clone(&self) -> (r: Self)
        ensures
            r@ == self@,
    {
        match self {
            Number::Signed(n) => Number::Signed(*n),
            Number::Unsigned(n) => Number::Unsigned(*n),
            Number::Float(s) => Number::Float(s.clone()),
        }
    }
}

impl Clone for Yaml {
    fn clone(&self) -> (r: Self)
        ensures
            r@ == self@,
        decreases self,
    {
        match self {
            Yaml::Null => Yaml::Null,
            Yaml::Bool(b) => Yaml::Bool(*b),
            Yaml::Number(n) => Yaml::Number(n.clone()),
            Yaml::Text(s) => Yaml::Text(s.clone()),
            Yaml::Sequence(v) => {
                let mut out: Vec<Yaml> = Vec::new();
                for k in 0..v.len()
                    invariant
                        decreases_to!(self => v@),
                        out@.len() == k,
                        forall|i: int| 0 <= i < k ==> (#[trigger] out@[i])@ == v@[i]@,
                {
                    out.push(v[k].clone());
                }
                let r = Yaml::Sequence(out);
                assert(r@->Sequence_0 =~= self@->Sequence_0);
                r
            },
            Yaml::Mapping(m) => Yaml::Mapping(m.clone()),
            Yaml::Tagged(tag, v) => {
                let inner: Yaml = (**v).clone();
                Yaml::Tagged(tag.clone(), Box::new(inner))
            },
        }
    }
}

impl Clone for Mapping {
    fn clone(&self) -> (r: Self)
        ensures
            r@ == self@,
        decreases self,
    {
        proof {
            use_type_invariant(self);
            self.lemma_trees();
        }
        let mut out: Vec<(Yaml, Yaml)> = Vec::new();
        for k in 0..self.entries.len()
            invariant
                decreases_to!(self => self.entries@),
                out@.len() == k,
                forall|i: int|
                    0 <= i < k ==> (#[trigger] out@[i]).0@ == self.entries@[i].0@ && out@[i].1@
                        == self.entries@[i].1@,
        {
            out.push((self.entries[k].0.clone(), self.entries[k].1.clone()));
        }
        assert(entries(out@) =~= entries(self.entries@));
        let r = Mapping { entries: out };
        proof {
            r.lemma_trees();
        }
        r
    }
}

// ---------------------------------------------------------------------------
// Parsing
// ---------------------------------------------------------------------------

/// `serde_yaml::Value`, whose contents are `yaml_contents`.
#[verifier::external_type_specification]
#[verifier::external_body]
pub struct ExYamlValue(serde_yaml::Value);

/// `serde_yaml::Error`, which prints as `yaml_error_text`.
#[verifier::external_type_specification]
#[verifier::external_body]
pub struct ExYamlError(serde_yaml::Error);

/// What a value of the parser's stands for.
pub uninterp spec fn yaml_contents(v: serde_yaml::Value) -> YamlView;

/// How an error of the parser's is printed.
pub uninterp spec fn yaml_error_text(e: serde_yaml::Error) -> Seq<char>;

/// What the parser makes of a document: the value, or how the error is
/// printed.
pub uninterp spec fn yaml_document(data: Seq<u8>) -> Result<YamlView, Seq<char>>;

/// One level of a value of the parser's.
enum Node {
    Null,
    Bool(bool),
    Number(Option<i64>, Option<u64>, String),
    Text(String),
    Sequence(Vec<serde_yaml::Value>),
    Mapping(Vec<(serde_yaml::Value, serde_yaml::Value)>),
    Tagged(String, serde_yaml::Value),
}

/// A number from what it is as a signed and as an unsigned number and how it
/// is printed.
pub open spec fn number_of(
    signed: Option<i64>,
    unsigned: Option<u64>,
    printed: Seq<char>,
) -> NumberView {
    match (signed, unsigned) {
        (Some(n), _) => NumberView::Whole(n as int),
        (None, Some(n)) => NumberView::Whole(n as int),
        (None, None) => NumberView::Float(printed),
    }
}

/// What one level of a value of the parser's stands for.
spec fn node_view(n: Node) -> YamlView {
    match n {
        Node::Null => YamlView::Null,
        Node::Bool(b) => YamlView::Bool(b),
        Node::Number(s, u, t) => YamlView::Number(number_of(s, u, t@)),
        Node::Text(s) => YamlView::Text(s@),
        Node::Sequence(v) => YamlView::Sequence(
            Seq::new(v@.len(), |i: int| yaml_contents(v@[i])),
        ),
        Node::Mapping(m) => YamlView::Mapping(
            Seq::new(m@.len(), |i: int| (yaml_contents(m@[i].0), yaml_contents(m@[i].1))),
        ),
        Node::Tagged(tag, v) => YamlView::Tagged(tag@, Box::new(yaml_contents(v))),
    }
}

/// `serde_yaml::from_slice`: the value of the document, or the error.
#[verifier::external_body]
fn parse_yaml(data: &[u8]) -> (r: Result<serde_yaml::Value, serde_yaml::Error>)
    ensures
        match r {
            Ok(v) => yaml_document(data@) == Ok::<YamlView, Seq<char>>(yaml_contents(v)),
            Err(e) => yaml_document(data@) == Err::<YamlView, Seq<char>>(yaml_error_text(e)),
        },
{
    serde_yaml::from_slice(data)
}

/// `serde_yaml::Error::to_string`: how the error is printed.
#[verifier::external_body]
fn yaml_error_message(e: &serde_yaml::Error) -> (r: String)
    ensures
        r@ == yaml_error_text(*e),
{
    e.to_string()
}

/// The variants of `serde_yaml::Value`: one level of the value, a number being
/// told by `as_i64`, `as_u64` and `to_string`, and a tag by `to_string`. The
/// keys of a `serde_yaml::Mapping` are those of a hash map: no two are equal,
/// and values that stand for the same are equal.
#[verifier::external_body]
fn open_node(v: serde_yaml::Value) -> (r: Node)
    ensures
        node_view(r) == yaml_contents(v),
        node_view(r) matches YamlView::Mapping(m) ==> distinct_fields(m),
{
    match v {
        serde_yaml::Value::Null => Node::Null,
        serde_yaml::Value::Bool(b) => Node::Bool(b),
        serde_yaml::Value::Number(n) => Node::Number(n.as_i64(), n.as_u64(), n.to_string()),
        serde_yaml::Value::String(s) => Node::Text(s),
        serde_yaml::Value::Sequence(v) => Node::Sequence(v),
        serde_yaml::Value::Mapping(m) => Node::Mapping(m.into_iter().collect()),
        serde_yaml::Value::Tagged(t) => Node::Tagged(t.tag.to_string(), t.value),
    }
}

/// Why a document could not be parsed.
#[derive(Debug, PartialEq)]
pub struct YamlError {
    /// How the parser prints the error.
    pub message: String,
}

impl View for YamlError {
    type V = Seq<char>;

    open spec fn view(&self) -> Seq<char> {
        self.message@
    }
}

impl Clone for YamlError {
    fn clone(&self) -> (r: Self)
        ensures
            r@ == self@,
    {
        YamlError { message: self.message.clone() }
    }
}

/// Copies a value of the parser's.
fn value_of(source: serde_yaml::Value) -> (r: Yaml)
    ensures
        r@ == yaml_contents(source),
        keys_are_distinct(r@),
    decreases yaml_contents(source),
{
    let ghost whole = yaml_contents(source);
    match open_node(source) {
        Node::Null => Yaml::Null,
        Node::Bool(b) => Yaml::Bool(b),
        Node::Number(signed, unsigned, printed) => {
            let n: Number = match signed {
                Some(n) => Number::Signed(n),
                None => match unsigned {
                    Some(n) => Number::Unsigned(n),
                    None => Number::Float(printed),
                },
            };
            Yaml::Number(n)
        },
        Node::Text(s) => Yaml::Text(s),
        Node::Sequence(v) => {
            let ghost items = v@;
            let mut out: Vec<Yaml> = Vec::new();
            for x in it: v
                invariant
                    it.seq() == items,
                    whole == yaml_contents(source),
                    whole matches YamlView::Sequence(all) && all == Seq::new(
                        items.len(),
                        |i: int| yaml_contents(items[i]),
                    ),
                    out@.len() == it.index(),
                    forall|i: int|
                        0 <= i < out@.len() ==> (#[trigger] out@[i])@ == yaml_contents(items[i])
                            && keys_are_distinct(out@[i]@),
            {
                assert(decreases_to!(whole => whole->Sequence_0[it.index() as int]));
                out.push(value_of(x));
            }
            let r = Yaml::Sequence(out);
            assert(r@->Sequence_0 =~= whole->Sequence_0);
            assert(forall|i: int| 0 <= i < out@.len() ==> r@->Sequence_0[i] == #[trigger] out@[i]@);
            r
        },
        Node::Mapping(m) => {
            let ghost items = m@;
            let mut out: Vec<(Yaml, Yaml)> = Vec::new();
            for x in it: m
                invariant
                    it.seq() == items,
                    whole == yaml_contents(source),
                    whole matches YamlView::Mapping(all) && distinct_fields(all) && all == Seq::new(
                        items.len(),
                        |i: int| (yaml_contents(items[i].0), yaml_contents(items[i].1)),
                    ),
                    out@.len() == it.index(),
                    forall|i: int|
                        0 <= i < out@.len() ==> (#[trigger] out@[i]).0@ == yaml_contents(items[i].0)
                            && out@[i].1@ == yaml_contents(items[i].1) && keys_are_distinct(
                            out@[i].0@,
                        ) && keys_are_distinct(out@[i].1@),
            {
                let (key, value) = x;
                assert(decreases_to!(whole => whole->Mapping_0[it.index() as int].0));
                assert(decreases_to!(whole => whole->Mapping_0[it.index() as int].1));
                out.push((value_of(key), value_of(value)));
            }
            assert(entries(out@) =~= whole->Mapping_0);
            let m = Mapping { entries: out };
            proof {
                m.lemma_trees();
            }
            Yaml::Mapping(m)
        },
        Node::Tagged(tag, v) => {
            assert(decreases_to!(whole => *whole->Tagged_1));
            Yaml::Tagged(tag, Box::new(value_of(v)))
        },
    }
}

/// Parses a document, in which no mapping has a key twice.
pub fn parse(data: &[u8]) -> (r: Result<Yaml, YamlError>)
    ensures
        match r {
            Ok(v) => yaml_document(data@) == Ok::<YamlView, Seq<char>>(v@) && keys_are_distinct(v@),
            Err(e) => yaml_document(data@) == Err::<YamlView, Seq<char>>(e@),
        },
{
    match parse_yaml(data) {
        Ok(v) => Ok(value_of(v)),
        Err(e) => Err(YamlError { message: yaml_error_message(&e) }),
    }
}

// ---------------------------------------------------------------------------
// Fields of mappings
// ---------------------------------------------------------------------------

/// The value without its tags.
pub open spec fn untagged(v: YamlView) -> YamlView
    decreases v,
{
    match v {
        YamlView::Tagged(_, inner) => untagged(*inner),
        _ => v,
    }
}

/// The entries of the mapping that the value is, apart from its tags.
pub open spec fn mapping_of(v: YamlView) -> Option<Seq<(YamlView, YamlView)>> {
    match untagged(v) {
        YamlView::Mapping(m) => Some(m),
        _ => None,
    }
}

/// The value with the same tags around a mapping with other entries.
pub open spec fn with_mapping(v: YamlView, m: Seq<(YamlView, YamlView)>) -> YamlView
    decreases v,
{
    match v {
        YamlView::Tagged(tag, inner) => YamlView::Tagged(tag, Box::new(with_mapping(*inner, m))),
        _ => YamlView::Mapping(m),
    }
}

/// The entry at `i` is the first one whose key is the text `key`.
pub open spec fn is_field(m: Seq<(YamlView, YamlView)>, key: Seq<char>, i: int) -> bool {
    &&& 0 <= i < m.len()
    &&& m[i].0 == YamlView::Text(key)
    &&& forall|j: int| 0 <= j < i ==> (#[trigger] m[j]).0 != YamlView::Text(key)
}

/// Where the entry stands whose key is the text `key`.
pub open spec fn field_index(m: Seq<(YamlView, YamlView)>, key: Seq<char>) -> Option<int> {
    if exists|i: int| is_field(m, key, i) {
        Some(choose|i: int| is_field(m, key, i))
    } else {
        None
    }
}

/// The value under the text `key`.
pub open spec fn field(m: Seq<(YamlView, YamlView)>, key: Seq<char>) -> Option<YamlView> {
    match field_index(m, key) {
        Some(i) => Some(m[i].1),
        None => None,
    }
}

/// The entries without the one under the text `key`, whose place the last one
/// takes.
pub open spec fn without_field(m: Seq<(YamlView, YamlView)>, key: Seq<char>) -> Seq<
    (YamlView, YamlView),
> {
    match field_index(m, key) {
        Some(i) => m.update(i, m.last()).drop_last(),
        None => m,
    }
}

/// No key occurs twice.
pub open spec fn distinct_fields(m: Seq<(YamlView, YamlView)>) -> bool {
    forall|i: int, j: int| 0 <= i < j < m.len() ==> (#[trigger] m[i]).0 != (#[trigger] m[j]).0
}

/// No mapping within the value has a key twice.
pub open spec fn keys_are_distinct(v: YamlView) -> bool
    decreases v,
{
    match v {
        YamlView::Sequence(items) => forall|i: int|
            0 <= i < items.len() ==> keys_are_distinct(#[trigger] items[i]),
        YamlView::Mapping(m) => distinct_fields(m) && forall|i: int|
            0 <= i < m.len() ==> keys_are_distinct((#[trigger] m[i]).0) && keys_are_distinct(m[i].1),
        YamlView::Tagged(_, inner) => keys_are_distinct(*inner),
        _ => true,
    }
}

/// Where no mapping within a value has a key twice, the mapping that it is apart
/// from its tags has none, nor has any within what is left once a field was
/// taken out.
pub proof fn law_distinct_keys_are_kept(v: YamlView, key: Seq<char>)
    requires
        keys_are_distinct(v),
    ensures
        mapping_of(v) matches Some(m) ==> distinct_fields(m) && keys_are_distinct(
            with_mapping(v, without_field(m, key)),
        ) && (field(m, key) matches Some(x) ==> keys_are_distinct(x)),
    decreases v,
{
    match v {
        YamlView::Tagged(_, inner) => {
            law_distinct_keys_are_kept(*inner, key);
        },
        YamlView::Mapping(m) => {
            law_without_field(m, key);
            let rest = without_field(m, key);
            if let Some(k) = field_index(m, key) {
                assert(is_field(m, key, k));
                assert forall|i: int| 0 <= i < rest.len() implies keys_are_distinct(
                    (#[trigger] rest[i]).0,
                ) && keys_are_distinct(rest[i].1) by {
                    let x = if i == k { m.len() - 1 } else { i };
                    assert(rest[i] == m[x]);
                }
            }
        },
        _ => {},
    }
}

proof fn lemma_field_is(m: Seq<(YamlView, YamlView)>, key: Seq<char>, i: int)
    requires
        is_field(m, key, i),
    ensures
        field_index(m, key) == Some(i),
{
    let k = choose|k: int| is_field(m, key, k);
    assert(is_field(m, key, k));
}

proof fn lemma_no_field(m: Seq<(YamlView, YamlView)>, key: Seq<char>)
    requires
        forall|j: int| 0 <= j < m.len() ==> (#[trigger] m[j]).0 != YamlView::Text(key),
    ensures
        field_index(m, key) is None,
{
    assert(forall|i: int| !is_field(m, key, i));
}

/// A mapping whose keys are distinct no longer has a field once it was taken
/// out. Its keys stay distinct, and every other field keeps its value.
pub proof fn law_without_field(m: Seq<(YamlView, YamlView)>, key: Seq<char>)
    requires
        distinct_fields(m),
    ensures
        field(without_field(m, key), key) is None,
        distinct_fields(without_field(m, key)),
        forall|other: Seq<char>|
            other != key ==> #[trigger] field(without_field(m, key), other) == field(m, other),
{
    let rest = without_field(m, key);
    match field_index(m, key) {
        None => {},
        Some(i) => {
            assert(is_field(m, key, i));
            let last = m.len() - 1;
            assert(m[last] == m.last());
            assert forall|j: int| 0 <= j < rest.len() implies (#[trigger] rest[j]).0
                != YamlView::Text(key) by {
                assert(rest[j] == if j == i { m[last] } else { m[j] });
                if j < i {
                    assert(m[j].0 != m[i].0);
                } else if j > i {
                    assert(m[i].0 != m[j].0);
                } else {
                    assert(m[i].0 != m[last].0);
                }
            }
            lemma_no_field(rest, key);
            assert forall|a: int, b: int| 0 <= a < b < rest.len() implies (#[trigger] rest[a]).0 != (
            #[trigger] rest[b]).0 by {
                let x = if a == i { last } else { a };
                let y = if b == i { last } else { b };
                assert(rest[a] == m[x] && rest[b] == m[y]);
                if x < y {
                    assert(m[x].0 != m[y].0);
                } else {
                    assert(m[y].0 != m[x].0);
                }
            }
            assert forall|other: Seq<char>| other != key implies #[trigger] field(rest, other)
                == field(m, other) by {
                match field_index(m, other) {
                    None => {
                        assert forall|j: int| 0 <= j < rest.len() implies (#[trigger] rest[j]).0
                            != YamlView::Text(other) by {
                            let x = if j == i { last } else { j };
                            assert(rest[j] == m[x]);
                            if m[x].0 == YamlView::Text(other) {
                                lemma_some_field(m, other, x);
                            }
                        }
                        lemma_no_field(rest, other);
                    },
                    Some(k) => {
                        assert(is_field(m, other, k));
                        assert(k != i);
                        let y = if k == last { i } else { k };
                        assert(rest[y] == m[k]);
                        assert(is_field(rest, other, y));
                        lemma_field_is(rest, other, y);
                    },
                }
            }
        },
    }
}

proof fn lemma_some_field(m: Seq<(YamlView, YamlView)>, key: Seq<char>, i: int)
    requires
        0 <= i < m.len(),
        m[i].0 == YamlView::Text(key),
    ensures
        field_index(m, key) is Some,
    decreases i,
{
    if exists|j: int| 0 <= j < i && (#[trigger] m[j]).0 == YamlView::Text(key) {
        let j = choose|j: int| 0 <= j < i && (#[trigger] m[j]).0 == YamlView::Text(key);
        lemma_some_field(m, key, j);
    } else {
        assert(is_field(m, key, i));
    }
}

/// Putting other entries into a value makes them its entries.
pub proof fn law_with_mapping(v: YamlView, m: Seq<(YamlView, YamlView)>)
    ensures
        mapping_of(with_mapping(v, m)) == Some(m),
    decreases v,
{
    match v {
        YamlView::Tagged(_, inner) => {
            law_with_mapping(*inner, m);
        },
        _ => {},
    }
}

fn find_field(m: &Vec<(Yaml, Yaml)>, key: &str) -> (r: Option<usize>)
    ensures
        match r {
            Some(i) => i < m@.len() && field_index(entries(m@), key@) == Some(i as int),
            None => field_index(entries(m@), key@) is None,
        },
{
    let ghost all = entries(m@);
    for i in 0..m.len()
        invariant
            all == entries(m@),
            forall|j: int| 0 <= j < i ==> (#[trigger] all[j]).0 != YamlView::Text(key@),
    {
        if let Yaml::Text(s) = &m[i].0 {
            if text::same(s.as_str(), key) {
                proof {
                    assert(is_field(all, key@, i as int));
                    lemma_field_is(all, key@, i as int);
                }
                return Some(i);
            }
        }
        assert(all[i as int].0 == m@[i as int].0@);
    }
    proof {
        lemma_no_field(all, key@);
    }
    None
}

impl Mapping {
    /// A mapping without entries.
    pub fn new() -> (r: Mapping)
        ensures
            r@ == Seq::<(YamlView, YamlView)>::empty(),
    {
        let r = Mapping { entries: Vec::new() };
        proof {
            r.lemma_trees();
        }
        assert(r@ =~= seq![]);
        r
    }

    /// The entries, in order.
    pub fn pairs(&self) -> (r: &Vec<(Yaml, Yaml)>)
        ensures
            entries(r@) == self@,
            distinct_fields(self@),
    {
        proof {
            use_type_invariant(self);
            self.lemma_trees();
        }
        &self.entries
    }

    /// The entries, in order.
    pub fn into_pairs(self) -> (r: Vec<(Yaml, Yaml)>)
        ensures
            entries(r@) == self@,
            distinct_fields(self@),
    {
        proof {
            use_type_invariant(&self);
            self.lemma_trees();
        }
        self.entries
    }

    fn take(&mut self, key: &str) -> (r: Option<Yaml>)
        ensures
            r.deep_view() == field(old(self)@, key@),
            final(self)@ == without_field(old(self)@, key@),
            field(final(self)@, key@) is None,
    {
        let ghost before = *self;
        proof {
            use_type_invariant(&*self);
            self.lemma_trees();
            law_without_field(before@, key@);
        }
        match find_field(&self.entries, key) {
            Some(i) => {
                let mut all: Vec<(Yaml, Yaml)> = Vec::new();
                std::mem::swap(&mut all, &mut self.entries);
                let (_, value) = all.swap_remove(i);
                assert(entries(all@) =~= without_field(before@, key@));
                self.entries = all;
                proof {
                    self.lemma_trees();
                }
                Some(value)
            },
            None => None,
        }
    }

    fn take_all(&mut self) -> (r: Vec<(Yaml, Yaml)>)
        ensures
            entries(r@) == old(self)@,
            distinct_fields(old(self)@),
            final(self)@ == Seq::<(YamlView, YamlView)>::empty(),
    {
        proof {
            use_type_invariant(&*self);
            self.lemma_trees();
        }
        let mut all: Vec<(Yaml, Yaml)> = Vec::new();
        std::mem::swap(&mut all, &mut self.entries);
        proof {
            self.lemma_trees();
        }
        assert(self@ =~= seq![]);
        all
    }

    fn put(&mut self, key: &str, value: Yaml)
        ensures
            final(self)@ == with_field(old(self)@, key@, value@),
    {
        let ghost before = *self;
        proof {
            use_type_invariant(&*self);
            self.lemma_trees();
            law_with_field(before@, key@, value@);
        }
        let found = find_field(&self.entries, key);
        let mut all: Vec<(Yaml, Yaml)> = Vec::new();
        std::mem::swap(&mut all, &mut self.entries);
        let ghost new = (YamlView::Text(key@), value@);
        let name = Yaml::Text(text::copy(key));
        match found {
            Some(i) => {
                all.set(i, (name, value));
            },
            None => {
                all.push((name, value));
            },
        }
        assert(entries(all@) =~= with_field(before@, key@, new.1));
        self.entries = all;
        proof {
            self.lemma_trees();
        }
    }
}

impl Yaml {
    /// A copy of the value under `key`. Nothing comes back when there is none,
    /// and nothing within it when the value is no mapping.
    pub fn get_field(&self, key: &str) -> (r: Option<Option<Yaml>>)
        ensures
            r.deep_view() == (match mapping_of(self@) {
                Some(m) => Some(field(m, key@)),
                None => None,
            }),
        decreases self,
    {
        match self {
            Yaml::Mapping(m) => {
                let pairs = m.pairs();
                match find_field(pairs, key) {
                    Some(i) => Some(Some(pairs[i].1.clone())),
                    None => Some(None),
                }
            },
            Yaml::Tagged(_, inner) => inner.get_field(key),
            _ => None,
        }
    }

    /// Takes the entry under `key` out of the mapping, which then has none
    /// under it.
    pub fn take_entry(&mut self, key: &str) -> (r: Option<Option<Yaml>>)
        ensures
            match mapping_of(old(self)@) {
                Some(m) => r.deep_view() == Some(field(m, key@)) && final(self)@ == with_mapping(
                    old(self)@,
                    without_field(m, key@),
                ) && field(without_field(m, key@), key@) is None,
                None => r is None && final(self)@ == old(self)@,
            },
        decreases *old(self),
    {
        match self {
            Yaml::Mapping(m) => Some(m.take(key)),
            Yaml::Tagged(_, inner) => inner.take_entry(key),
            _ => None,
        }
    }

    /// Takes all entries out of the mapping.
    pub fn take_entries(&mut self) -> (r: Option<Vec<(Yaml, Yaml)>>)
        ensures
            match mapping_of(old(self)@) {
                Some(m) => r matches Some(all) && entries(all@) == m && distinct_fields(m)
                    && final(self)@ == with_mapping(old(self)@, seq![]),
                None => r is None && final(self)@ == old(self)@,
            },
        decreases *old(self),
    {
        match self {
            Yaml::Mapping(m) => Some(m.take_all()),
            Yaml::Tagged(_, inner) => inner.take_entries(),
            _ => None,
        }
    }

    /// Sets an entry of the mapping to `value`: the one under the text `key` if
    /// it has one, else a new one behind the others.
    pub fn put_entry(&mut self, key: &str, value: Yaml)
        requires
            mapping_of(old(self)@) is Some,
        ensures
            final(self)@ == with_mapping(
                old(self)@,
                with_field(mapping_of(old(self)@)->0, key@, value@),
            ),
        decreases *old(self),
    {
        match self {
            Yaml::Mapping(m) => m.put(key, value),
            Yaml::Tagged(_, inner) => inner.put_entry(key, value),
            _ => {},
        }
    }
}

/// The entries after the text `key` was set to `value`.
pub open spec fn with_field(
    m: Seq<(YamlView, YamlView)>,
    key: Seq<char>,
    value: YamlView,
) -> Seq<(YamlView, YamlView)> {
    match field_index(m, key) {
        Some(i) => m.update(i, (YamlView::Text(key), value)),
        None => m.push((YamlView::Text(key), value)),
    }
}

/// Setting a field keeps the keys distinct. The field then has that value, and
/// every other field keeps its own.
pub proof fn law_with_field(m: Seq<(YamlView, YamlView)>, key: Seq<char>, value: YamlView)
    requires
        distinct_fields(m),
    ensures
        distinct_fields(with_field(m, key, value)),
        field(with_field(m, key, value), key) == Some(value),
        forall|other: Seq<char>|
            other != key ==> #[trigger] field(with_field(m, key, value), other) == field(m, other),
{
    let all = with_field(m, key, value);
    let place = match field_index(m, key) {
        Some(i) => i,
        None => m.len() as int,
    };
    if field_index(m, key) is Some {
        assert(is_field(m, key, place));
    } else {
        assert forall|j: int| 0 <= j < m.len() implies (#[trigger] m[j]).0 != YamlView::Text(
            key,
        ) by {
            if m[j].0 == YamlView::Text(key) {
                lemma_some_field(m, key, j);
            }
        }
    }
    assert forall|a: int, b: int| 0 <= a < b < all.len() implies (#[trigger] all[a]).0 != (
    #[trigger] all[b]).0 by {
        if b < m.len() {
            assert(m[a].0 != m[b].0);
        }
    }
    assert(is_field(all, key, place));
    lemma_field_is(all, key, place);
    assert forall|other: Seq<char>| other != key implies #[trigger] field(all, other) == field(
        m,
        other,
    ) by {
        match field_index(m, other) {
            Some(k) => {
                assert(is_field(m, other, k));
                assert(is_field(all, other, k));
                lemma_field_is(all, other, k);
            },
            None => {
                assert forall|j: int| 0 <= j < all.len() implies (#[trigger] all[j]).0
                    != YamlView::Text(other) by {
                    if j < m.len() && m[j].0 == YamlView::Text(other) {
                        lemma_some_field(m, other, j);
                    }
                }
                lemma_no_field(all, other);
            },
        }
    }
}

// ---------------------------------------------------------------------------
// Printing
// ---------------------------------------------------------------------------

/// How the standard library prints a text with `{:?}`.
pub uninterp spec fn quoted(s: Seq<char>) -> Seq<char>;

/// The `{:?}` format of the standard library for a text: the text in double
/// quotes, with what cannot be printed escaped.
#[verifier::external_body]
fn quoted_text(s: &str) -> (r: String)
    ensures
        r@ == quoted(s@),
{
    format!("{:?}", s)
}

/// How a truth value is printed.
pub open spec fn bool_text(b: bool) -> Seq<char> {
    if b {
        "true"@
    } else {
        "false"@
    }
}

/// How a number is printed.
pub open spec fn number_text(n: NumberView) -> Seq<char> {
    match n {
        NumberView::Whole(n) => text::decimal(n),
        NumberView::Float(s) => s,
    }
}

/// How a value is printed where a message shows what was found.
pub open spec fn shown(v: YamlView) -> Seq<char>
    decreases v, 0nat,
{
    match v {
        YamlView::Null => "Null"@,
        YamlView::Bool(b) => "Bool("@ + bool_text(b) + ")"@,
        YamlView::Number(n) => "Number("@ + number_text(n) + ")"@,
        YamlView::Text(s) => "String("@ + quoted(s) + ")"@,
        YamlView::Sequence(items) => "Sequence ["@ + text::join(shown_items(items), ", "@) + "]"@,
        YamlView::Mapping(m) => "Mapping {"@ + text::join(shown_entries(m), ", "@) + "}"@,
        YamlView::Tagged(tag, inner) => "TaggedValue { tag: "@ + tag + ", value: "@ + shown(*inner)
            + " }"@,
    }
}

/// How the items of a sequence are printed.
pub open spec fn shown_items(items: Seq<YamlView>) -> Seq<Seq<char>>
    decreases items, 0nat,
{
    Seq::new(
        items.len(),
        |i: int|
            if 0 <= i < items.len() {
                shown(items[i])
            } else {
                seq![]
            },
    )
}

/// How the entries of a mapping are printed.
pub open spec fn shown_entries(m: Seq<(YamlView, YamlView)>) -> Seq<Seq<char>>
    decreases m, 0nat,
{
    Seq::new(
        m.len(),
        |i: int|
            if 0 <= i < m.len() {
                shown_key(m[i].0) + ": "@ + shown(m[i].1)
            } else {
                seq![]
            },
    )
}

/// How the key of an entry is printed.
pub open spec fn shown_key(v: YamlView) -> Seq<char>
    decreases v, 1nat,
{
    match v {
        YamlView::Bool(b) => bool_text(b),
        YamlView::Number(n) => number_text(n),
        YamlView::Text(s) => quoted(s),
        _ => shown(v),
    }
}

/// A truth value in print.
pub fn bool_string(b: bool) -> (r: String)
    ensures
        r@ == bool_text(b),
{
    let mut out = String::new();
    if b {
        out.push_str("true");
        assert(out@ =~= "true"@);
    } else {
        out.push_str("false");
        assert(out@ =~= "false"@);
    }
    out
}

impl Number {
    /// The number in print.
    pub fn text(&self) -> (r: String)
        ensures
            r@ == number_text(self@),
    {
        match self {
            Number::Signed(n) => text::decimal_i64(*n),
            Number::Unsigned(n) => text::decimal_u64(*n),
            Number::Float(s) => s.clone(),
        }
    }
}

impl Yaml {
    #[verifier::rlimit(30)]
    fn show_into(&self, out: &mut String)
        ensures
            final(out)@ == old(out)@ + shown(self@),
        decreases self,
    {
        proof {
            lemma_value_view(*self);
        }
        let ghost start = out@;
        match self {
            Yaml::Null => {
                out.push_str("Null");
            },
            Yaml::Bool(b) => {
                out.push_str("Bool(");
                out.push_str(bool_string(*b).as_str());
                out.push_str(")");
                assert(out@ =~= start + shown(self@));
            },
            Yaml::Number(n) => {
                out.push_str("Number(");
                out.push_str(n.text().as_str());
                out.push_str(")");
                assert(out@ =~= start + shown(self@));
            },
            Yaml::Text(s) => {
                out.push_str("String(");
                out.push_str(quoted_text(s.as_str()).as_str());
                out.push_str(")");
                assert(out@ =~= start + shown(self@));
            },
            Yaml::Sequence(v) => {
                out.push_str("Sequence [");
                let ghost items = v.deep_view();
                let ghost parts = shown_items(items);
                let ghost head = out@;
                for k in 0..v.len()
                    invariant
                        decreases_to!(self => v@),
                        items == v.deep_view(),
                        parts == shown_items(items),
                        out@ == head + text::join(parts.take(k as int), ", "@),
                {
                    if k > 0 {
                        out.push_str(", ");
                    }
                    v[k].show_into(out);
                    assert(parts.take(k + 1).drop_last() =~= parts.take(k as int));
                    assert(parts[k as int] == shown(items[k as int]));
                    assert(out@ =~= head + text::join(parts.take(k + 1), ", "@));
                }
                assert(parts.take(parts.len() as int) =~= parts);
                out.push_str("]");
                assert(out@ =~= start + shown(self@));
            },
            Yaml::Mapping(m) => {
                out.push_str("Mapping {");
                proof {
                    m.lemma_trees();
                }
                let pairs = &m.entries;
                let ghost items = entries(pairs@);
                let ghost parts = shown_entries(items);
                let ghost head = out@;
                for k in 0..pairs.len()
                    invariant
                        decreases_to!(self => pairs@),
                        items == entries(pairs@),
                        parts == shown_entries(items),
                        out@ == head + text::join(parts.take(k as int), ", "@),
                {
                    if k > 0 {
                        out.push_str(", ");
                    }
                    let ghost before = out@;
                    match &pairs[k].0 {
                        Yaml::Bool(b) => out.push_str(bool_string(*b).as_str()),
                        Yaml::Number(n) => out.push_str(n.text().as_str()),
                        Yaml::Text(s) => out.push_str(quoted_text(s.as_str()).as_str()),
                        _ => pairs[k].0.show_into(out),
                    }
                    assert(out@ =~= before + shown_key(items[k as int].0));
                    out.push_str(": ");
                    pairs[k].1.show_into(out);
                    assert(out@ =~= before + parts[k as int]);
                    assert(parts.take(k + 1).drop_last() =~= parts.take(k as int));
                    assert(out@ =~= head + text::join(parts.take(k + 1), ", "@));
                }
                assert(parts.take(parts.len() as int) =~= parts);
                out.push_str("}");
                assert(out@ =~= start + shown(self@));
            },
            Yaml::Tagged(tag, inner) => {
                out.push_str("TaggedValue { tag: ");
                out.push_str(tag.as_str());
                out.push_str(", value: ");
                inner.show_into(out);
                out.push_str(" }");
                assert(out@ =~= start + shown(self@));
            },
        }
    }

    /// The value as a message shows it.
    pub fn show(&self) -> (r: String)
        ensures
            r@ == shown(self@),
    {
        let mut out = String::new();
        self.show_into(&mut out);
        assert(out@ =~= shown(self@));
        out
    }
}

/// In a mapping whose keys are distinct, the value under a text is that of the
/// entry with this text as its key, wherever the entry stands; without such an
/// entry there is none.
pub proof fn law_field_is_its_entry(m: Seq<(YamlView, YamlView)>, key: Seq<char>)
    requires
        distinct_fields(m),
    ensures
        forall|i: int|
            0 <= i < m.len() && (#[trigger] m[i]).0 == YamlView::Text(key) ==> field(m, key) == Some(
                m[i].1,
            ),
        (forall|i: int| 0 <= i < m.len() ==> (#[trigger] m[i]).0 != YamlView::Text(key)) ==> field(
            m,
            key,
        ) is None,
        field(m, key) matches Some(x) ==> exists|i: int|
            0 <= i < m.len() && #[trigger] m[i] == (YamlView::Text(key), x),
{
    assert forall|i: int| 0 <= i < m.len() && (#[trigger] m[i]).0 == YamlView::Text(key) implies field(
        m,
        key,
    ) == Some(m[i].1) by {
        assert forall|j: int| 0 <= j < i implies (#[trigger] m[j]).0 != YamlView::Text(key) by {
            assert(m[j].0 != m[i].0);
        }
        assert(is_field(m, key, i));
        lemma_field_is(m, key, i);
    }
    if forall|i: int| 0 <= i < m.len() ==> (#[trigger] m[i]).0 != YamlView::Text(key) {
        lemma_no_field(m, key);
    }
    if let Some(i) = field_index(m, key) {
        assert(is_field(m, key, i));
        assert(m[i] == (YamlView::Text(key), m[i].1));
    }
}

/// Tags around a mapping do not matter to what its entries are.
pub proof fn law_tags_do_not_matter(tag: Seq<char>, v: YamlView, m: Seq<(YamlView, YamlView)>)
    ensures
        mapping_of(YamlView::Mapping(m)) == Some(m),
        mapping_of(YamlView::Tagged(tag, Box::new(v))) == mapping_of(v),
        !(v is Mapping) && !(v is Tagged) ==> mapping_of(v) is None,
{
}

/// A value is shown with its kind and everything in it, in order: the items of a
/// sequence, the entries of a mapping with their keys, and the tag of a value.
pub proof fn law_shown(
    b: bool,
    n: int,
    s: Seq<char>,
    items: Seq<YamlView>,
    m: Seq<(YamlView, YamlView)>,
    tag: Seq<char>,
    v: YamlView,
)
    ensures
        shown(YamlView::Null) == "Null"@,
        shown(YamlView::Bool(true)) == "Bool("@ + "true"@ + ")"@,
        shown(YamlView::Bool(false)) == "Bool("@ + "false"@ + ")"@,
        shown(YamlView::Number(NumberView::Whole(n))) == "Number("@ + text::decimal(n) + ")"@,
        shown(YamlView::Number(NumberView::Float(s))) == "Number("@ + s + ")"@,
        shown(YamlView::Text(s)) == "String("@ + quoted(s) + ")"@,
        shown(YamlView::Sequence(items)) == "Sequence ["@ + text::join(
            Seq::new(items.len(), |i: int| shown(items[i])),
            ", "@,
        ) + "]"@,
        shown(YamlView::Mapping(m)) == "Mapping {"@ + text::join(
            Seq::new(m.len(), |i: int| shown_key(m[i].0) + ": "@ + shown(m[i].1)),
            ", "@,
        ) + "}"@,
        shown(YamlView::Tagged(tag, Box::new(v))) == "TaggedValue { tag: "@ + tag + ", value: "@
            + shown(v) + " }"@,
        shown_key(YamlView::Text(s)) == quoted(s),
        shown_key(YamlView::Number(NumberView::Whole(n))) == text::decimal(n),
        shown_key(YamlView::Bool(true)) == "true"@,
        shown_key(YamlView::Bool(false)) == "false"@,
        !(v is Text) && !(v is Number) && !(v is Bool) ==> shown_key(v) == shown(v),
{
    assert(shown_items(items) =~= Seq::new(items.len(), |i: int| shown(items[i])));
    assert(shown_entries(m) =~= Seq::new(
        m.len(),
        |i: int| shown_key(m[i].0) + ": "@ + shown(m[i].1),
    ));
}

/// A value stands for what it holds.
pub proof fn law_value_is_what_it_holds(
    b: bool,
    signed: i64,
    unsigned: u64,
    s: String,
    items: Vec<Yaml>,
    m: Mapping,
    inner: Yaml,
)
    ensures
        Yaml::Null@ == YamlView::Null,
        Yaml::Bool(b)@ == YamlView::Bool(b),
        Yaml::Number(Number::Signed(signed))@ == YamlView::Number(NumberView::Whole(signed as int)),
        Yaml::Number(Number::Unsigned(unsigned))@ == YamlView::Number(
            NumberView::Whole(unsigned as int),
        ),
        Yaml::Number(Number::Float(s))@ == YamlView::Number(NumberView::Float(s@)),
        Yaml::Text(s)@ == YamlView::Text(s@),
        Yaml::Sequence(items)@ matches YamlView::Sequence(list) && list.len() == items@.len()
            && forall|i: int| 0 <= i < items@.len() ==> list[i] == (#[trigger] items@[i])@,
        Yaml::Mapping(m)@ == YamlView::Mapping(m@),
        Yaml::Tagged(s, Box::new(inner))@ == YamlView::Tagged(s@, Box::new(inner@)),
{
}

/// Entries that are put into a value keep the tags around it, and a new entry stands
/// behind the others.
pub proof fn law_tags_are_kept(
    tag: Seq<char>,
    v: YamlView,
    m: Seq<(YamlView, YamlView)>,
    key: Seq<char>,
    value: YamlView,
)
    ensures
        with_mapping(YamlView::Tagged(tag, Box::new(v)), m) == YamlView::Tagged(
            tag,
            Box::new(with_mapping(v, m)),
        ),
        !(v is Tagged) ==> with_mapping(v, m) == YamlView::Mapping(m),
        field(m, key) is None ==> with_field(m, key, value) == m.push(
            (YamlView::Text(key), value),
        ),
{
}

} // verus!
