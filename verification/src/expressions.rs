//! The expressions of a workflow: `${{ .. }}` in its texts.

use vstd::prelude::*;

use crate::contexts::ContextObject;
use crate::error;
use crate::error::{ErrorContext, ErrorView, KindView, PlaceView, RunnerError, RunnerErrorKind};
use crate::text;
use crate::text::CharClass;
use crate::yaml;
use crate::yaml::{Yaml, YamlView};

verus! {

// ---------------------------------------------------------------------------
// What names stand for
// ---------------------------------------------------------------------------

/// What the names in an expression stand for, and where the expression is.
#[verifier::ext_equal]
pub struct Scope {
    /// The place that an error is reported at.
    pub place: PlaceView,
    /// The names that are listed.
    pub keys: Seq<Seq<char>>,
    /// What each name stands for.
    pub names: Map<Seq<char>, ResolvedView>,
}

/// What a name stands for.
pub enum ResolvedView {
    /// A value.
    Yaml(YamlView),
    /// An object with names of its own.
    Context(Scope),
}

/// What a name stands for.
pub enum ResolverValue<'a> {
    /// A value.
    Yaml(Yaml),
    /// An object with names of its own.
    Context(ContextObject<'a>),
}

impl<'a> DeepView for ResolverValue<'a> {
    type V = ResolvedView;

    open spec fn deep_view(&self) -> ResolvedView {
        match *self {
            ResolverValue::Yaml(v) => ResolvedView::Yaml(v@),
            ResolverValue::Context(c) => ResolvedView::Context(c.object()),
        }
    }
}

/// What a name stands for, if anything.
pub open spec fn named(scope: Scope, name: Seq<char>) -> Option<ResolvedView> {
    if scope.names.dom().contains(name) {
        Some(scope.names[name])
    } else {
        None
    }
}

/// Knows what the names in an expression stand for.
pub trait ContextResolver<'a> {
    /// What the names stand for.
    spec fn scope(&self) -> Scope;

    /// The place that an error is reported at.
    fn error_context(&self) -> (r: ErrorContext)
        ensures
            r.deep_view() == self.scope().place,
    ;

    /// The names that are listed.
    fn keys(&self) -> (r: Vec<String>)
        ensures
            r.deep_view() == self.scope().keys,
    ;

    /// What a name stands for.
    fn resolve(&self, s: &str) -> (r: Option<ResolverValue<'a>>)
        ensures
            r.deep_view() == named(self.scope(), s@),
    ;
}

impl<'a> From<String> for ResolverValue<'a> {
    fn from(v: String) -> (r: Self)
        ensures
            r.deep_view() == ResolvedView::Yaml(YamlView::Text(v@)),
    {
        ResolverValue::Yaml(Yaml::Text(v))
    }
}

impl<'a> vstd::std_specs::convert::FromSpecImpl<String> for ResolverValue<'a> {
    open spec fn obeys_from_spec() -> bool {
        true
    }

    open spec fn from_spec(v: String) -> ResolverValue<'a> {
        ResolverValue::Yaml(Yaml::Text(v))
    }
}

// ---------------------------------------------------------------------------
// Reading an expression
// ---------------------------------------------------------------------------

/// The run of characters of a class at the start of a text, and what follows
/// it behind white space.
pub open spec fn split_run(s: Seq<char>, class: CharClass) -> Option<(Seq<char>, Seq<char>)> {
    let n = text::run_len(s, class) as int;
    if n > 0 {
        Some((s.take(n), text::trim_start(s.skip(n))))
    } else {
        None
    }
}

/// The names behind dots at the start of a text, and what follows them.
pub open spec fn field_path(s: Seq<char>) -> (Seq<Seq<char>>, Seq<char>)
    decreases s.len(),
{
    if s.len() > 0 && s[0] == '.' && split_run(s.skip(1), CharClass::Field) is Some {
        let (name, rest) = split_run(s.skip(1), CharClass::Field)->0;
        proof {
            lemma_split_run_shrinks(s.skip(1), CharClass::Field);
        }
        let (path, end) = field_path(rest);
        (seq![name] + path, end)
    } else {
        (seq![], s)
    }
}

/// What follows a run is shorter than the whole text.
pub proof fn lemma_split_run_shrinks(s: Seq<char>, class: CharClass)
    ensures
        split_run(s, class) matches Some((name, rest)) ==> rest.len() < s.len(),
{
    text::lemma_run_len(s, class);
    let n = text::run_len(s, class) as int;
    text::lemma_run_len(s.skip(n), CharClass::WhiteSpace);
}

/// What a name leads to from a value.
pub open spec fn member(v: ResolvedView, name: Seq<char>) -> Option<ResolvedView> {
    match v {
        ResolvedView::Context(scope) => named(scope, name),
        ResolvedView::Yaml(y) => match yaml::mapping_of(y) {
            Some(m) => match yaml::field(m, name) {
                Some(f) => Some(ResolvedView::Yaml(f)),
                None => None,
            },
            None => None,
        },
    }
}

/// What a path of names leads to from a value.
pub open spec fn descend(v: Option<ResolvedView>, path: Seq<Seq<char>>) -> Option<ResolvedView>
    decreases path.len(),
{
    if path.len() == 0 {
        v
    } else {
        match descend(v, path.drop_last()) {
            Some(w) => member(w, path.last()),
            None => None,
        }
    }
}

/// The error for an expression that cannot be read.
pub open spec fn unreadable(s: Seq<char>) -> ErrorView {
    error::bare(KindView::ExpressionParseError(s))
}

/// What the name with names behind dots at the start of a text stands for,
/// and what follows it.
pub open spec fn context_expression(scope: Scope, s: Seq<char>) -> Result<
    Option<(ResolvedView, Seq<char>)>,
    ErrorView,
> {
    match split_run(s, CharClass::Identifier) {
        None => Ok(None),
        Some((name, behind)) => {
            let (path, rest) = field_path(behind);
            if rest.len() > 0 && rest[0] == '[' {
                Err(error::bare(KindView::NotImplemented("Not supported yet"@)))
            } else {
                match descend(named(scope, name), path) {
                    Some(v) => Ok(Some((v, rest))),
                    None => Ok(None),
                }
            }
        },
    }
}

/// What an expression evaluates to. An expression is a name with names behind
/// dots. White space may stand before the first name and behind each.
pub open spec fn evaluated(scope: Scope, s: Seq<char>) -> Result<ResolvedView, ErrorView> {
    let trimmed = text::trim_start(s);
    match context_expression(scope, trimmed) {
        Ok(Some((v, rest))) => if text::trim_start(rest).len() == 0 {
            Ok(v)
        } else {
            Err(unreadable(trimmed))
        },
        Ok(None) => Err(unreadable(trimmed)),
        Err(e) => Err(e),
    }
}

/// Whether the name of a context object may hold the character.
pub fn is_context_identifier_char(ch: char) -> (r: bool)
    ensures
        r == text::is_identifier_char(ch),
{
    CharClass::Identifier.contains(ch)
}

/// Whether the name of a field may hold the character.
pub fn is_context_field_char(ch: char) -> (r: bool)
    ensures
        r == text::is_field_char(ch),
{
    CharClass::Field.contains(ch)
}

/// The two parts of a split text.
pub open spec fn parts_of(r: Option<(&str, &str)>) -> Option<(Seq<char>, Seq<char>)> {
    match r {
        Some((a, b)) => Some((a@, b@)),
        None => None,
    }
}

fn split_class(s: &str, class: CharClass) -> (r: Option<(&str, &str)>)
    ensures
        parts_of(r) == split_run(s@, class),
{
    let chars = text::chars_of(s);
    let len: usize = chars.len();
    let end: usize = text::run_end(&chars, 0, class);
    assert(s@.skip(0) =~= s@);
    if end > 0 {
        let next: usize = text::skip_white_space(&chars, end);
        let name = s.substring_char(0, end);
        let rest = s.substring_char(next, len);
        assert(name@ =~= s@.take(end as int));
        assert(rest@ =~= s@.skip(next as int));
        Some((name, rest))
    } else {
        None
    }
}

/// Splits the name of a context object off a text.
pub fn evaluate_context_name(s: &str) -> (r: Option<(&str, &str)>)
    ensures
        parts_of(r) == split_run(s@, CharClass::Identifier),
{
    split_class(s, CharClass::Identifier)
}

/// Splits the name of a field off a text.
pub fn evaluate_context_field(s: &str) -> (r: Option<(&str, &str)>)
    ensures
        parts_of(r) == split_run(s@, CharClass::Field),
{
    split_class(s, CharClass::Field)
}

/// The texts of a list, in order.
pub open spec fn names_of(v: Seq<&str>) -> Seq<Seq<char>> {
    Seq::new(v.len(), |i: int| v[i]@)
}

/// What a path of names leads to from the object or value of the first name.
pub fn get_context_value<'a, C: ContextResolver<'a>>(
    resolver: &C,
    base: &str,
    components: &Vec<&str>,
) -> (r: Option<ResolverValue<'a>>)
    ensures
        r.deep_view() == descend(named(resolver.scope(), base@), names_of(components@)),
{
    let ghost start = named(resolver.scope(), base@);
    let ghost path = names_of(components@);
    let mut current: Option<ResolverValue<'a>> = resolver.resolve(base);
    assert(path.take(0) =~= seq![]);
    for k in 0..components.len()
        invariant
            path == names_of(components@),
            current.deep_view() == descend(start, path.take(k as int)),
    {
        assert(path.take(k + 1).drop_last() =~= path.take(k as int));
        assert(path.take(k + 1).last() == components@[k as int]@);
        current = match current {
            Some(ResolverValue::Yaml(v)) => match v.get_field(components[k]) {
                Some(Some(f)) => Some(ResolverValue::Yaml(f)),
                _ => None,
            },
            Some(ResolverValue::Context(c)) => c.resolve(components[k]),
            None => None,
        };
    }
    assert(path.take(path.len() as int) =~= path);
    current
}

/// What the result of reading an expression stands for.
pub open spec fn expression_outcome(
    r: Result<Option<(ResolverValue<'_>, &str)>, RunnerError>,
) -> Result<Option<(ResolvedView, Seq<char>)>, ErrorView> {
    match r {
        Ok(Some((v, rest))) => Ok(Some((v.deep_view(), rest@))),
        Ok(None) => Ok(None),
        Err(e) => Err(e.deep_view()),
    }
}

fn evaluate_context_expression<'a, 'b, C: ContextResolver<'a>>(
    resolver: &C,
    s: &'b str,
) -> (r: Result<Option<(ResolverValue<'a>, &'b str)>, RunnerError>)
    ensures
        expression_outcome(r) == context_expression(resolver.scope(), s@),
{
    match evaluate_context_name(s) {
        None => Ok(None),
        Some((name, behind)) => {
            let mut rest: &'b str = behind;
            let mut components: Vec<&'b str> = Vec::new();
            let ghost whole = field_path(behind@);
            assert(names_of(components@) + field_path(rest@).0 =~= whole.0);
            loop
                invariant
                    whole == field_path(behind@),
                    whole.0 == names_of(components@) + field_path(rest@).0,
                    whole.1 == field_path(rest@).1,
                ensures
                    whole.0 == names_of(components@),
                    whole.1 == rest@,
                decreases rest@.len(),
            {
                let len: usize = rest.unicode_len();
                if len > 0 && rest.get_char(0) == '.' {
                    let after = rest.substring_char(1, len);
                    assert(after@ =~= rest@.skip(1));
                    if let Some((field, rest2)) = evaluate_context_field(after) {
                        let ghost before = names_of(components@);
                        let ghost tail = field_path(rest2@).0;
                        proof {
                            lemma_split_run_shrinks(after@, CharClass::Field);
                        }
                        components.push(field);
                        rest = rest2;
                        assert(names_of(components@) =~= before.push(field@));
                        assert(before + (seq![field@] + tail) =~= before.push(field@) + tail);
                        continue ;
                    }
                }
                assert(whole.0 =~= names_of(components@));
                break ;
            }
            if rest.unicode_len() > 0 && rest.get_char(0) == '[' {
                return Err(
                    RunnerError::from(
                        RunnerErrorKind::NotImplemented { what: text::copy("Not supported yet") },
                    ),
                );
            }
            match get_context_value(resolver, name, &components) {
                Some(v) => Ok(Some((v, rest))),
                None => Ok(None),
            }
        },
    }
}

/// Evaluates an expression.
pub fn evaluate<'a, C: ContextResolver<'a>>(resolver: &C, s: &str) -> (r: Result<
    ResolverValue<'a>,
    RunnerError,
>)
    ensures
        error::outcome(r) == evaluated(resolver.scope(), s@),
{
    let chars = text::chars_of(s);
    let start: usize = text::skip_white_space(&chars, 0);
    let trimmed = s.substring_char(start, chars.len());
    assert(s@.skip(0) =~= s@);
    assert(trimmed@ =~= text::trim_start(s@));
    match evaluate_context_expression(resolver, trimmed)? {
        Some((v, rest)) => {
            let tail = text::chars_of(rest);
            let end: usize = text::skip_white_space(&tail, 0);
            assert(tail@.skip(0) =~= tail@);
            if end == tail.len() {
                Ok(v)
            } else {
                Err(
                    RunnerError::from(
                        RunnerErrorKind::ExpressionParseError { expression: text::copy(trimmed) },
                    ),
                )
            }
        },
        None => Err(
            RunnerError::from(
                RunnerErrorKind::ExpressionParseError { expression: text::copy(trimmed) },
            ),
        ),
    }
}

// ---------------------------------------------------------------------------
// Expanding values
// ---------------------------------------------------------------------------

/// The expression at the start of which `slice` stands: where it begins, and
/// how long it is.
pub open spec fn first_expression(slice: Seq<char>) -> Option<(int, int)> {
    match text::find(slice, "${{"@) {
        Some(p) => match text::find(slice.skip(p + 3), "}}"@) {
            Some(len) => Some((p, len)),
            None => None,
        },
        None => None,
    }
}

/// The first expression lies within the text.
pub proof fn lemma_first_expression(slice: Seq<char>)
    ensures
        first_expression(slice) matches Some((p, len)) ==> {
            &&& 0 <= p
            &&& 0 <= len
            &&& p + 3 + len + 2 <= slice.len()
        },
{
    reveal_strlit("${{");
    reveal_strlit("}}");
    text::law_find_is_complete(slice, "${{"@);
    if let Some(p) = text::find(slice, "${{"@) {
        text::law_find_is_complete(slice.skip(p + 3), "}}"@);
    }
}

/// A text with its expressions expanded, where `done` was expanded already and
/// `slice` is still to come. An expression that is all of the text gives its
/// value; else texts and truth values are put in the expression's place.
pub open spec fn expanded_text(scope: Scope, done: Seq<char>, slice: Seq<char>) -> Result<
    YamlView,
    ErrorView,
>
    decreases slice.len(),
{
    match first_expression(slice) {
        None => Ok(YamlView::Text(done + slice)),
        Some((p, len)) => {
            proof {
                lemma_first_expression(slice);
            }
            let expression = slice.subrange(p + 3, p + 3 + len);
            let head = done + slice.take(p);
            let rest = slice.skip(p + 3 + len + 2);
            match evaluated(scope, expression) {
                Err(e) => Err(e),
                Ok(ResolvedView::Context(_)) => Err(
                    error::bare(KindView::NotImplemented(object_as_value())),
                ),
                Ok(ResolvedView::Yaml(v)) => if head.len() == 0 && rest.len() == 0 {
                    Ok(v)
                } else {
                    match v {
                        YamlView::Text(t) => expanded_text(scope, head + t, rest),
                        YamlView::Bool(b) => expanded_text(scope, head + yaml::bool_text(b), rest),
                        _ => Err(error::bare(KindView::ExpressionNonString(expression, v))),
                    }
                },
            }
        },
    }
}

/// What is said of an expression that names an object as a whole.
pub open spec fn object_as_value() -> Seq<char> {
    "Tried to pass a context object as the result of the expression, we don't support this yet"@
}

/// A value with its expressions expanded: in a text, and in the items of a
/// sequence.
pub open spec fn expanded(scope: Scope, v: YamlView) -> Result<YamlView, ErrorView>
    decreases v,
{
    match v {
        YamlView::Text(s) => expanded_text(scope, seq![], s),
        YamlView::Sequence(items) => match expanded_items(scope, items) {
            Ok(done) => Ok(YamlView::Sequence(done)),
            Err(e) => Err(e),
        },
        _ => Ok(v),
    }
}

/// Values with their expressions expanded, or the error of the first one that
/// has one.
pub open spec fn expanded_items(scope: Scope, items: Seq<YamlView>) -> Result<
    Seq<YamlView>,
    ErrorView,
>
    decreases items,
{
    if items.len() == 0 {
        Ok(seq![])
    } else {
        match expanded_items(scope, items.drop_last()) {
            Ok(done) => match expanded(scope, items.last()) {
                Ok(v) => Ok(done.push(v)),
                Err(e) => Err(e),
            },
            Err(e) => Err(e),
        }
    }
}

/// The error of the first items is the error of all.
proof fn lemma_expanded_items_stop(scope: Scope, items: Seq<YamlView>, n: int)
    requires
        0 <= n <= items.len(),
        expanded_items(scope, items.take(n)) is Err,
    ensures
        expanded_items(scope, items) == expanded_items(scope, items.take(n)),
    decreases items.len(),
{
    if n < items.len() {
        assert(items.drop_last().take(n) =~= items.take(n));
        lemma_expanded_items_stop(scope, items.drop_last(), n);
    } else {
        assert(items.take(n) =~= items);
    }
}

fn expand_text<'a, C: ContextResolver<'a>>(resolver: &C, s: &str) -> (r: Result<Yaml, RunnerError>)
    ensures
        error::outcome(r) == expanded_text(resolver.scope(), seq![], s@),
{
    let chars = text::chars_of(s);
    let len: usize = chars.len();
    let mut done = String::new();
    let mut at: usize = 0;
    let ghost scope = resolver.scope();
    let ghost whole = expanded_text(scope, seq![], s@);
    proof {
        reveal_strlit("${{");
        reveal_strlit("}}");
        assert(s@.skip(0) =~= s@);
    }
    loop
        invariant
            chars@ == s@,
            at <= len,
            len == chars@.len(),
            scope == resolver.scope(),
            "${{"@.len() == 3,
            "}}"@.len() == 2,
            whole == expanded_text(scope, seq![], s@),
            whole == expanded_text(scope, done@, s@.skip(at as int)),
        ensures
            first_expression(s@.skip(at as int)) is None,
        decreases len - at,
    {
        let ghost slice = s@.skip(at as int);
        let p: usize = match text::find_chars(&chars, at, "${{") {
            Some(p) => p,
            None => {
                break ;
            },
        };
        let start: usize = p + 3;
        assert(slice.skip(p - at + 3) =~= s@.skip(start as int));
        let end: usize = match text::find_chars(&chars, start, "}}") {
            Some(end) => end,
            None => {
                break ;
            },
        };
        let expression = text::text_of(&chars, start, end);
        let ghost next = s@.skip(end + 2);
        assert(expression@ =~= slice.subrange(p - at + 3, p - at + 3 + (end - start)));
        assert(slice.skip(p - at + 3 + (end - start) + 2) =~= next);
        assert(slice.take(p - at) =~= s@.subrange(at as int, p as int));
        done.push_str(text::text_of(&chars, at, p).as_str());
        at = end + 2;
        let value = match evaluate(resolver, expression.as_str())? {
            ResolverValue::Yaml(v) => v,
            ResolverValue::Context(_) => {
                return Err(
                    RunnerError::from(
                        RunnerErrorKind::NotImplemented {
                            what: text::copy(
                                "Tried to pass a context object as the result of the expression, we don't support this yet",
                            ),
                        },
                    ),
                );
            },
        };
        if at == len && done.as_str().unicode_len() == 0 {
            return Ok(value);
        }
        match value {
            Yaml::Text(t) => {
                done.push_str(t.as_str());
            },
            Yaml::Bool(b) => {
                done.push_str(yaml::bool_string(b).as_str());
            },
            _ => {
                return Err(
                    RunnerError::from(RunnerErrorKind::ExpressionNonString { expression, value }),
                );
            },
        }
    }
    done.push_str(text::text_of(&chars, at, len).as_str());
    assert(s@.subrange(at as int, len as int) =~= s@.skip(at as int));
    Ok(Yaml::Text(done))
}

/// If `value` is a string, evaluate any expressions in it and return
/// the result. This can be a complex YAML object.
/// If `value` is a sequence, build a new sequence with its contents
/// expanded.
pub fn expand<'a, C: ContextResolver<'a>>(resolver: &C, value: Yaml) -> (r: Result<
    Yaml,
    RunnerError,
>)
    ensures
        error::outcome(r) == expanded(resolver.scope(), value@),
    decreases value,
{
    proof {
        yaml::lemma_value_view(value);
    }
    let ghost scope = resolver.scope();
    match value {
        Yaml::Text(s) => expand_text(resolver, s.as_str()),
        Yaml::Sequence(items) => {
            let ghost source = items@;
            let ghost all = items.deep_view();
            let mut out: Vec<Yaml> = Vec::new();
            assert(all.take(0) =~= seq![]);
            assert(out.deep_view() =~= seq![]);
            for v in it: items
                invariant
                    it.seq() == source,
                    decreases_to!(value => source),
                    scope == resolver.scope(),
                    all.len() == source.len(),
                    forall|i: int| 0 <= i < source.len() ==> #[trigger] all[i] == source[i]@,
                    value@ == YamlView::Sequence(all),
                    expanded_items(scope, all.take(it.index() as int)) == Ok::<
                        Seq<YamlView>,
                        ErrorView,
                    >(out.deep_view()),
            {
                let ghost k = it.index() as int;
                let ghost done = out.deep_view();
                assert(all.take(k + 1).drop_last() =~= all.take(k));
                assert(all.take(k + 1).last() == v@);
                match expand(resolver, v) {
                    Ok(w) => {
                        out.push(w);
                        assert(out.deep_view() =~= done.push(w@));
                    },
                    Err(e) => {
                        proof {
                            lemma_expanded_items_stop(scope, all, k + 1);
                        }
                        return Err(e);
                    },
                }
            }
            assert(all.take(all.len() as int) =~= all);
            let r = Yaml::Sequence(out);
            proof {
                yaml::lemma_value_view(r);
            }
            Ok(r)
        },
        other => Ok(other),
    }
}

// ---------------------------------------------------------------------------
// Laws
// ---------------------------------------------------------------------------

/// A text without `${{` expands to itself.
pub proof fn law_plain_text_is_kept(scope: Scope, s: Seq<char>)
    requires
        forall|i: int| !text::stands_at(s, "${{"@, i),
    ensures
        expanded(scope, YamlView::Text(s)) == Ok::<YamlView, ErrorView>(YamlView::Text(s)),
{
    text::law_find_is_complete(s, "${{"@);
    assert(seq![] + s =~= s);
}

/// Whatever is neither a text nor a sequence expands to itself.
pub proof fn law_other_values_are_kept(scope: Scope, v: YamlView)
    requires
        !(v is Text),
        !(v is Sequence),
    ensures
        expanded(scope, v) == Ok::<YamlView, ErrorView>(v),
{
}

/// An expression that stands alone gives its value, of whatever kind, or its
/// error.
pub proof fn law_lone_expression(scope: Scope, expression: Seq<char>)
    requires
        text::find(expression + "}}"@, "}}"@) == Some(expression.len() as int),
    ensures
        expanded(scope, YamlView::Text("${{"@ + expression + "}}"@)) == (match evaluated(
            scope,
            expression,
        ) {
            Ok(ResolvedView::Yaml(v)) => Ok::<YamlView, ErrorView>(v),
            Ok(ResolvedView::Context(_)) => Err(
                error::bare(KindView::NotImplemented(object_as_value())),
            ),
            Err(e) => Err(e),
        }),
{
    let none: Seq<char> = seq![];
    assert((none + "${{"@).subrange(0, "${{"@.len() as int) =~= "${{"@);
    text::lemma_find_is(none + "${{"@, "${{"@, 0);
    lemma_located(none, expression, none);
    assert("${{"@ + expression + "}}"@ =~= none + "${{"@ + expression + "}}"@ + none);
}

/// The expressions in a text are replaced one by one, from the first to the
/// last: each is replaced by the text that it gives, and nothing else changes.
pub proof fn law_expressions_are_replaced_in_turn(
    scope: Scope,
    done: Seq<char>,
    before: Seq<char>,
    expression: Seq<char>,
    after: Seq<char>,
    value: Seq<char>,
)
    requires
        text::find(before + "${{"@, "${{"@) == Some(before.len() as int),
        text::find(expression + "}}"@, "}}"@) == Some(expression.len() as int),
        evaluated(scope, expression) == Ok::<ResolvedView, ErrorView>(
            ResolvedView::Yaml(YamlView::Text(value)),
        ),
    ensures
        expanded_text(scope, done, before + "${{"@ + expression + "}}"@ + after) == expanded_text(
            scope,
            done + before + value,
            after,
        ),
{
    lemma_located(before, expression, after);
    if done.len() == 0 && before.len() == 0 && after.len() == 0 {
        text::law_find_is_complete(after, "${{"@);
        reveal_strlit("${{");
        assert(done + before + value + after =~= value);
    }
}

/// An expression in a text is replaced by the text that it gives.
pub proof fn law_interpolation(
    scope: Scope,
    before: Seq<char>,
    expression: Seq<char>,
    after: Seq<char>,
    value: Seq<char>,
)
    requires
        text::find(before + "${{"@, "${{"@) == Some(before.len() as int),
        text::find(expression + "}}"@, "}}"@) == Some(expression.len() as int),
        forall|i: int| !text::stands_at(after, "${{"@, i),
        evaluated(scope, expression) == Ok::<ResolvedView, ErrorView>(
            ResolvedView::Yaml(YamlView::Text(value)),
        ),
    ensures
        expanded(scope, YamlView::Text(before + "${{"@ + expression + "}}"@ + after)) == Ok::<
            YamlView,
            ErrorView,
        >(YamlView::Text(before + value + after)),
{
    let none: Seq<char> = seq![];
    law_expressions_are_replaced_in_turn(scope, none, before, expression, after, value);
    text::law_find_is_complete(after, "${{"@);
    assert(none + before + value =~= before + value);
    assert(expanded_text(scope, before + value, after) == Ok::<YamlView, ErrorView>(
        YamlView::Text(before + value + after),
    ));
}

/// Where the parts of a text with one expression lie.
proof fn lemma_located(before: Seq<char>, expression: Seq<char>, after: Seq<char>)
    requires
        text::find(before + "${{"@, "${{"@) == Some(before.len() as int),
        text::find(expression + "}}"@, "}}"@) == Some(expression.len() as int),
    ensures
        ({
            let s = before + "${{"@ + expression + "}}"@ + after;
            let p = before.len() as int;
            let n = expression.len() as int;
            &&& first_expression(s) == Some((p, n))
            &&& s.take(p) == before
            &&& s.subrange(p + 3, p + 3 + n) == expression
            &&& s.skip(p + 3 + n + 2) == after
        }),
{
    let s = before + "${{"@ + expression + "}}"@ + after;
    let p = before.len() as int;
    let n = expression.len() as int;
    reveal_strlit("${{");
    reveal_strlit("}}");
    lemma_find_in_longer(before + "${{"@, expression + "}}"@ + after, "${{"@);
    assert(s =~= before + "${{"@ + (expression + "}}"@ + after));
    lemma_find_in_longer(expression + "}}"@, after, "}}"@);
    assert(s.skip(p + 3) =~= expression + "}}"@ + after);
    assert(s.take(p) =~= before);
    assert(s.subrange(p + 3, p + 3 + n) =~= expression);
    assert(s.skip(p + 3 + n + 2) =~= after);
}

/// A pattern that ends a text and stands nowhere before is found first also
/// when more follows.
proof fn lemma_find_in_longer(s: Seq<char>, more: Seq<char>, pat: Seq<char>)
    requires
        text::find(s, pat) == Some(s.len() - pat.len()),
        0 < pat.len() <= s.len(),
    ensures
        text::find(s + more, pat) == Some(s.len() - pat.len()),
{
    text::law_find_is_complete(s, pat);
    let i = s.len() - pat.len();
    assert((s + more).subrange(i, i + pat.len()) =~= s.subrange(i, i + pat.len()));
    assert forall|j: int| 0 <= j < i implies !text::stands_at(s + more, pat, j) by {
        assert(text::stands_first_at(s, pat, i));
        assert(!text::stands_at(s, pat, j));
        assert((s + more).subrange(j, j + pat.len()) =~= s.subrange(j, j + pat.len()));
    }
    text::lemma_find_is(s + more, pat, i);
}

/// A sequence expands item by item: it has a result exactly when every item
/// has one, and its items are those results.
pub proof fn law_sequence_expands_item_by_item(scope: Scope, items: Seq<YamlView>)
    ensures
        match expanded_items(scope, items) {
            Ok(done) => done.len() == items.len() && forall|i: int|
                0 <= i < items.len() ==> #[trigger] expanded(scope, items[i]) == Ok::<
                    YamlView,
                    ErrorView,
                >(done[i]),
            Err(e) => exists|i: int|
                0 <= i < items.len() && #[trigger] expanded(scope, items[i]) == Err::<
                    YamlView,
                    ErrorView,
                >(e),
        },
    decreases items.len(),
{
    if items.len() > 0 {
        let front = items.drop_last();
        law_sequence_expands_item_by_item(scope, front);
        assert(items[items.len() - 1] == items.last());
        match expanded_items(scope, front) {
            Ok(done) => {
                if let Ok(v) = expanded(scope, items.last()) {
                    let all = done.push(v);
                    assert forall|i: int| 0 <= i < items.len() implies #[trigger] expanded(
                        scope,
                        items[i],
                    ) == Ok::<YamlView, ErrorView>(all[i]) by {
                        if i < front.len() {
                            assert(front[i] == items[i]);
                        }
                    }
                }
            },
            Err(e) => {
                let i = choose|i: int|
                    0 <= i < front.len() && #[trigger] expanded(scope, front[i]) == Err::<
                        YamlView,
                        ErrorView,
                    >(e);
                assert(front[i] == items[i]);
            },
        }
    }
}

/// A list of names, each behind a dot.
pub open spec fn dotted(names: Seq<Seq<char>>) -> Seq<char>
    decreases names.len(),
{
    if names.len() == 0 {
        seq![]
    } else {
        seq!['.'] + names[0] + dotted(names.skip(1))
    }
}

/// The text is a name: it is not empty, and all its characters are of the
/// class.
pub open spec fn is_name(s: Seq<char>, class: CharClass) -> bool {
    s.len() > 0 && forall|i: int| 0 <= i < s.len() ==> class.has(#[trigger] s[i])
}

/// A name with names behind dots stands for what the path of these names leads
/// to, and cannot be read where it leads nowhere.
pub proof fn law_dotted_names(scope: Scope, name: Seq<char>, fields: Seq<Seq<char>>)
    requires
        is_name(name, CharClass::Identifier),
        forall|i: int| 0 <= i < fields.len() ==> is_name(#[trigger] fields[i], CharClass::Field),
    ensures
        evaluated(scope, name + dotted(fields)) == (match descend(named(scope, name), fields) {
            Some(v) => Ok::<ResolvedView, ErrorView>(v),
            None => Err(unreadable(name + dotted(fields))),
        }),
{
    let s = name + dotted(fields);
    lemma_not_white_space(s, name[0]);
    lemma_split_name(name, dotted(fields), CharClass::Identifier);
    lemma_dotted_path(fields);
    let none: Seq<char> = seq![];
    assert(text::run_len(none, CharClass::WhiteSpace) == 0);
    assert(text::trim_start(none) =~= none);
}

/// A text that starts with a character of a name has no white space to trim.
proof fn lemma_not_white_space(s: Seq<char>, c: char)
    requires
        s.len() > 0,
        s[0] == c,
        text::is_field_char(c) || c == '.',
    ensures
        text::trim_start(s) == s,
{
    assert(!text::is_white_space(c));
    assert(text::run_len(s, CharClass::WhiteSpace) == 0);
    assert(s.skip(0) =~= s);
}

/// A name is split off what follows it, where that is empty or starts with a
/// dot.
proof fn lemma_split_name(name: Seq<char>, rest: Seq<char>, class: CharClass)
    requires
        is_name(name, class),
        class == CharClass::Identifier || class == CharClass::Field,
        rest.len() > 0 ==> rest[0] == '.',
    ensures
        split_run(name + rest, class) == Some((name, rest)),
{
    let s = name + rest;
    let n = name.len() as int;
    assert forall|i: int| 0 <= i < n implies class.has(#[trigger] s[i]) by {
        assert(s[i] == name[i]);
    }
    text::lemma_run_is(s, class, n);
    assert(s.take(n) =~= name);
    assert(s.skip(n) =~= rest);
    if rest.len() > 0 {
        lemma_not_white_space(rest, '.');
    } else {
        assert(text::run_len(rest, CharClass::WhiteSpace) == 0);
        assert(rest.skip(0) =~= rest);
    }
}

/// The names behind dots are read one by one.
proof fn lemma_dotted_path(fields: Seq<Seq<char>>)
    requires
        forall|i: int| 0 <= i < fields.len() ==> is_name(#[trigger] fields[i], CharClass::Field),
    ensures
        field_path(dotted(fields)) == (fields, Seq::<char>::empty()),
    decreases fields.len(),
{
    let s = dotted(fields);
    if fields.len() == 0 {
        assert(fields =~= seq![]);
    } else {
        let tail = fields.skip(1);
        assert forall|i: int| 0 <= i < tail.len() implies is_name(
            #[trigger] tail[i],
            CharClass::Field,
        ) by {
            assert(tail[i] == fields[i + 1]);
        }
        lemma_dotted_path(tail);
        assert(is_name(fields[0], CharClass::Field));
        lemma_split_name(fields[0], dotted(tail), CharClass::Field);
        assert(s[0] == '.');
        assert(s.skip(1) =~= fields[0] + dotted(tail));
        assert(seq![fields[0]] + tail =~= fields);
    }
}

/// A path of names is followed one by one: without any it leads to what the
/// first name stands for, and one more name leads on from where the others led,
/// into a field of a value or to a name of an object. Where they led nowhere, so
/// does it.
pub proof fn law_paths_are_followed_in_turn(
    scope: Scope,
    base: Seq<char>,
    path: Seq<Seq<char>>,
    name: Seq<char>,
)
    ensures
        descend(named(scope, base), seq![]) == named(scope, base),
        descend(named(scope, base), path.push(name)) == (match descend(
            named(scope, base),
            path,
        ) {
            None => None,
            Some(ResolvedView::Context(object)) => named(object, name),
            Some(ResolvedView::Yaml(y)) => match yaml::mapping_of(y) {
                Some(m) => match yaml::field(m, name) {
                    Some(f) => Some(ResolvedView::Yaml(f)),
                    None => None,
                },
                None => None,
            },
        }),
{
    assert(path.push(name).drop_last() =~= path);
}

/// The text is white space, or empty.
pub open spec fn is_blank(s: Seq<char>) -> bool {
    forall|i: int| 0 <= i < s.len() ==> text::is_white_space(#[trigger] s[i])
}

/// White space around a name with names behind dots does not matter: the
/// expression stands for what the path of the names leads to, and cannot be read
/// where it leads nowhere.
pub proof fn law_dotted_names_within_white_space(
    scope: Scope,
    before: Seq<char>,
    name: Seq<char>,
    fields: Seq<Seq<char>>,
    after: Seq<char>,
)
    requires
        is_blank(before),
        is_blank(after),
        is_name(name, CharClass::Identifier),
        forall|i: int| 0 <= i < fields.len() ==> is_name(#[trigger] fields[i], CharClass::Field),
    ensures
        match descend(named(scope, name), fields) {
            Some(v) => evaluated(scope, before + name + dotted(fields) + after) == Ok::<
                ResolvedView,
                ErrorView,
            >(v),
            None => evaluated(scope, before + name + dotted(fields) + after) == Err::<
                ResolvedView,
                ErrorView,
            >(error::bare(KindView::ExpressionParseError(name + dotted(fields) + after))),
        },
{
    let rest = name + dotted(fields) + after;
    let whole = before + name + dotted(fields) + after;
    let none: Seq<char> = seq![];
    assert(whole =~= before + rest);
    assert(whole[before.len() as int] == name[0]);
    assert(!text::is_white_space(name[0]));
    assert forall|i: int| 0 <= i < before.len() implies CharClass::WhiteSpace.has(
        #[trigger] whole[i],
    ) by {
        assert(whole[i] == before[i]);
    }
    text::lemma_run_is(whole, CharClass::WhiteSpace, before.len() as int);
    assert(whole.skip(before.len() as int) =~= rest);
    lemma_dotted_path_before(fields, after);
    assert(rest =~= name + (dotted(fields) + after));
    lemma_split_name_before(name, dotted(fields) + after, CharClass::Identifier);
    if fields.len() > 0 {
        let d = dotted(fields) + after;
        assert(d[0] == '.');
        lemma_not_white_space(d, '.');
    } else {
        assert(dotted(fields) + after =~= after);
        lemma_blank(after);
    }
    assert(text::run_len(none, CharClass::WhiteSpace) == 0);
    assert(text::trim_start(none) =~= none);
}

/// Nothing is left of white space that is trimmed.
proof fn lemma_blank(s: Seq<char>)
    requires
        is_blank(s),
    ensures
        text::trim_start(s) == Seq::<char>::empty(),
{
    assert forall|i: int| 0 <= i < s.len() implies CharClass::WhiteSpace.has(#[trigger] s[i]) by {
        assert(text::is_white_space(s[i]));
    }
    text::lemma_run_is(s, CharClass::WhiteSpace, s.len() as int);
    assert(text::trim_start(s) =~= Seq::<char>::empty());
}

/// A name is split off what follows it, where that does not go on with it.
proof fn lemma_split_name_before(name: Seq<char>, rest: Seq<char>, class: CharClass)
    requires
        is_name(name, class),
        rest.len() > 0 ==> !class.has(rest[0]),
    ensures
        split_run(name + rest, class) == Some((name, text::trim_start(rest))),
{
    let s = name + rest;
    let n = name.len() as int;
    assert forall|i: int| 0 <= i < n implies class.has(#[trigger] s[i]) by {
        assert(s[i] == name[i]);
    }
    text::lemma_run_is(s, class, n);
    assert(s.take(n) =~= name);
    assert(s.skip(n) =~= rest);
}

/// The names behind dots are read one by one, up to white space that follows.
proof fn lemma_dotted_path_before(fields: Seq<Seq<char>>, after: Seq<char>)
    requires
        is_blank(after),
        forall|i: int| 0 <= i < fields.len() ==> is_name(#[trigger] fields[i], CharClass::Field),
    ensures
        fields.len() > 0 ==> field_path(dotted(fields) + after) == (fields, Seq::<char>::empty()),
        fields.len() == 0 ==> field_path(text::trim_start(after)) == (fields, Seq::<char>::empty()),
    decreases fields.len(),
{
    lemma_blank(after);
    if fields.len() == 0 {
        assert(fields =~= seq![]);
    } else {
        let tail = fields.skip(1);
        let s = dotted(fields) + after;
        assert forall|i: int| 0 <= i < tail.len() implies is_name(
            #[trigger] tail[i],
            CharClass::Field,
        ) by {
            assert(tail[i] == fields[i + 1]);
        }
        lemma_dotted_path_before(tail, after);
        assert(is_name(fields[0], CharClass::Field));
        let behind = dotted(tail) + after;
        assert(s[0] == '.');
        assert(s.skip(1) =~= fields[0] + behind);
        if tail.len() > 0 {
            assert(behind[0] == '.');
            lemma_not_white_space(behind, '.');
        } else {
            assert(behind =~= after);
        }
        lemma_split_name_before(fields[0], behind, CharClass::Field);
        assert(seq![fields[0]] + tail =~= fields);
    }
}

/// What can be read as an expression: a name, then names behind dots. Whatever
/// starts with another character cannot be read.
pub proof fn law_other_starts_cannot_be_read(scope: Scope, s: Seq<char>)
    requires
        text::trim_start(s).len() > 0 ==> !('a' <= text::trim_start(s)[0] <= 'z'),
    ensures
        evaluated(scope, s) == Err::<ResolvedView, ErrorView>(
            error::bare(KindView::ExpressionParseError(text::trim_start(s))),
        ),
{
}

/// What stands behind an expression that was opened and not closed is kept.
pub proof fn law_open_expression_is_kept(scope: Scope, before: Seq<char>, behind: Seq<char>)
    requires
        text::find(before + "${{"@, "${{"@) == Some(before.len() as int),
        forall|i: int| !text::stands_at(behind, "}}"@, i),
    ensures
        expanded(scope, YamlView::Text(before + "${{"@ + behind)) == Ok::<YamlView, ErrorView>(
            YamlView::Text(before + "${{"@ + behind),
        ),
{
    let s = before + "${{"@ + behind;
    let p = before.len() as int;
    reveal_strlit("${{");
    lemma_find_in_longer(before + "${{"@, behind, "${{"@);
    text::law_find_is_complete(behind, "}}"@);
    assert(s.skip(p + 3) =~= behind);
    assert(seq![] + s =~= s);
}

/// Within a longer text an expression is replaced by the truth value or the text
/// that it gives. Any other value is an error there, and so is an object.
pub proof fn law_values_within_a_text(
    scope: Scope,
    done: Seq<char>,
    before: Seq<char>,
    expression: Seq<char>,
    after: Seq<char>,
)
    requires
        text::find(before + "${{"@, "${{"@) == Some(before.len() as int),
        text::find(expression + "}}"@, "}}"@) == Some(expression.len() as int),
        done.len() > 0 || before.len() > 0 || after.len() > 0,
    ensures
        match evaluated(scope, expression) {
            Ok(ResolvedView::Yaml(YamlView::Text(t))) => expanded_text(
                scope,
                done,
                before + "${{"@ + expression + "}}"@ + after,
            ) == expanded_text(scope, done + before + t, after),
            Ok(ResolvedView::Yaml(YamlView::Bool(b))) => expanded_text(
                scope,
                done,
                before + "${{"@ + expression + "}}"@ + after,
            ) == expanded_text(
                scope,
                done + before + (if b {
                    "true"@
                } else {
                    "false"@
                }),
                after,
            ),
            Ok(ResolvedView::Yaml(v)) => expanded_text(
                scope,
                done,
                before + "${{"@ + expression + "}}"@ + after,
            ) == Err::<YamlView, ErrorView>(
                error::bare(KindView::ExpressionNonString(expression, v)),
            ),
            Ok(ResolvedView::Context(_)) => expanded_text(
                scope,
                done,
                before + "${{"@ + expression + "}}"@ + after,
            ) is Err,
            Err(e) => expanded_text(scope, done, before + "${{"@ + expression + "}}"@ + after)
                == Err::<YamlView, ErrorView>(e),
        },
        forall|d: Seq<char>, s: Seq<char>|
            (forall|i: int| !text::stands_at(s, "${{"@, i)) ==> #[trigger] expanded_text(
                scope,
                d,
                s,
            ) == Ok::<YamlView, ErrorView>(YamlView::Text(d + s)),
{
    lemma_located(before, expression, after);
    let head = done + before;
    assert(head.len() > 0 || after.len() > 0);
    assert forall|d: Seq<char>, s: Seq<char>|
        (forall|i: int| !text::stands_at(s, "${{"@, i)) implies #[trigger] expanded_text(
        scope,
        d,
        s,
    ) == Ok::<YamlView, ErrorView>(YamlView::Text(d + s)) by {
        text::law_find_is_complete(s, "${{"@);
    }
}

/// What a sequence expands to is the sequence of what its items expand to.
pub proof fn law_expanded_sequence(scope: Scope, items: Seq<YamlView>)
    ensures
        match expanded(scope, YamlView::Sequence(items)) {
            Ok(v) => v matches YamlView::Sequence(done) && done.len() == items.len() && forall|i: int|
                0 <= i < items.len() ==> #[trigger] expanded(scope, items[i]) == Ok::<
                    YamlView,
                    ErrorView,
                >(done[i]),
            Err(e) => exists|i: int|
                0 <= i < items.len() && #[trigger] expanded(scope, items[i]) == Err::<
                    YamlView,
                    ErrorView,
                >(e),
        },
{
    law_sequence_expands_item_by_item(scope, items);
}

/// A sequence of mappings expands to itself.
pub proof fn law_mappings_in_a_sequence_are_kept(scope: Scope, items: Seq<YamlView>)
    requires
        forall|i: int| 0 <= i < items.len() ==> (#[trigger] items[i]) is Mapping,
    ensures
        expanded(scope, YamlView::Sequence(items)) == Ok::<YamlView, ErrorView>(
            YamlView::Sequence(items),
        ),
{
    law_sequence_expands_item_by_item(scope, items);
    match expanded_items(scope, items) {
        Ok(done) => {
            assert forall|i: int| 0 <= i < items.len() implies done[i] == items[i] by {
                assert(items[i] is Mapping);
                assert(expanded(scope, items[i]) == Ok::<YamlView, ErrorView>(done[i]));
            }
            assert(done =~= items);
        },
        Err(e) => {
            let i = choose|i: int|
                0 <= i < items.len() && #[trigger] expanded(scope, items[i]) == Err::<
                    YamlView,
                    ErrorView,
                >(e);
            assert(items[i] is Mapping);
        },
    }
}

/// A name with names behind dots cannot be read where anything but white space
/// follows that does not go on with it, and an index is not supported.
pub proof fn law_nothing_may_follow(
    scope: Scope,
    name: Seq<char>,
    fields: Seq<Seq<char>>,
    c: char,
    rest: Seq<char>,
)
    requires
        is_name(name, CharClass::Identifier),
        forall|i: int| 0 <= i < fields.len() ==> is_name(#[trigger] fields[i], CharClass::Field),
        !text::is_field_char(c),
        !text::is_white_space(c),
        c != '.',
    ensures
        c != '[' ==> evaluated(scope, name + dotted(fields) + seq![c] + rest) == Err::<
            ResolvedView,
            ErrorView,
        >(
            error::bare(
                KindView::ExpressionParseError(name + dotted(fields) + seq![c] + rest),
            ),
        ),
        c == '[' ==> (evaluated(scope, name + dotted(fields) + seq![c] + rest) matches Err(e)
            && e.kind is NotImplemented),
{
    let after = seq![c] + rest;
    let whole = name + dotted(fields) + seq![c] + rest;
    assert(whole =~= name + (dotted(fields) + after));
    assert(whole[0] == name[0]);
    lemma_not_white_space(whole, name[0]);
    assert(after[0] == c);
    text::lemma_run_is(after, CharClass::WhiteSpace, 0);
    assert(after.skip(0) =~= after);
    lemma_dotted_path_up_to(fields, after);
    lemma_split_name_before(name, dotted(fields) + after, CharClass::Identifier);
    if fields.len() > 0 {
        lemma_not_white_space(dotted(fields) + after, '.');
    } else {
        assert(dotted(fields) + after =~= after);
    }
}

/// The names behind dots are read one by one, up to what does not go on with them.
proof fn lemma_dotted_path_up_to(fields: Seq<Seq<char>>, after: Seq<char>)
    requires
        after.len() > 0,
        !text::is_field_char(after[0]),
        !text::is_white_space(after[0]),
        after[0] != '.',
        forall|i: int| 0 <= i < fields.len() ==> is_name(#[trigger] fields[i], CharClass::Field),
    ensures
        field_path(dotted(fields) + after) == (fields, after),
    decreases fields.len(),
{
    let s = dotted(fields) + after;
    text::lemma_run_is(after, CharClass::WhiteSpace, 0);
    assert(after.skip(0) =~= after);
    if fields.len() == 0 {
        assert(s =~= after);
        assert(fields =~= seq![]);
    } else {
        let tail = fields.skip(1);
        assert forall|i: int| 0 <= i < tail.len() implies is_name(
            #[trigger] tail[i],
            CharClass::Field,
        ) by {
            assert(tail[i] == fields[i + 1]);
        }
        lemma_dotted_path_up_to(tail, after);
        assert(is_name(fields[0], CharClass::Field));
        let behind = dotted(tail) + after;
        assert(s[0] == '.');
        assert(s.skip(1) =~= fields[0] + behind);
        if tail.len() > 0 {
            assert(behind[0] == '.');
            lemma_not_white_space(behind, '.');
        } else {
            assert(behind =~= after);
        }
        lemma_split_name_before(fields[0], behind, CharClass::Field);
        assert(seq![fields[0]] + tail =~= fields);
    }
}

/// A list of names, each behind a dot, with something before each dot.
pub open spec fn spaced(gaps: Seq<Seq<char>>, names: Seq<Seq<char>>) -> Seq<char>
    decreases names.len(),
{
    if names.len() == 0 {
        seq![]
    } else {
        gaps[0] + seq!['.'] + names[0] + spaced(gaps.skip(1), names.skip(1))
    }
}

/// White space before a dot does not matter either.
pub proof fn law_white_space_before_dots(
    scope: Scope,
    name: Seq<char>,
    gaps: Seq<Seq<char>>,
    fields: Seq<Seq<char>>,
)
    requires
        is_name(name, CharClass::Identifier),
        gaps.len() == fields.len(),
        forall|i: int| 0 <= i < gaps.len() ==> is_blank(#[trigger] gaps[i]),
        forall|i: int| 0 <= i < fields.len() ==> is_name(#[trigger] fields[i], CharClass::Field),
    ensures
        match descend(named(scope, name), fields) {
            Some(v) => evaluated(scope, name + spaced(gaps, fields)) == Ok::<
                ResolvedView,
                ErrorView,
            >(v),
            None => evaluated(scope, name + spaced(gaps, fields)) is Err,
        },
{
    let s = name + spaced(gaps, fields);
    let none: Seq<char> = seq![];
    lemma_not_white_space(s, name[0]);
    lemma_spaced_path(gaps, fields);
    lemma_spaced_start(gaps, fields, CharClass::Identifier);
    lemma_split_name_before(name, spaced(gaps, fields), CharClass::Identifier);
    assert(text::run_len(none, CharClass::WhiteSpace) == 0);
    assert(text::trim_start(none) =~= none);
}

/// What stands behind a name does not go on with it.
proof fn lemma_spaced_start(gaps: Seq<Seq<char>>, fields: Seq<Seq<char>>, class: CharClass)
    requires
        gaps.len() == fields.len(),
        forall|i: int| 0 <= i < gaps.len() ==> is_blank(#[trigger] gaps[i]),
        class == CharClass::Identifier || class == CharClass::Field,
    ensures
        spaced(gaps, fields).len() > 0 ==> !class.has(spaced(gaps, fields)[0]),
{
    if fields.len() > 0 {
        let s = spaced(gaps, fields);
        assert(is_blank(gaps[0]));
        if gaps[0].len() > 0 {
            assert(s[0] == gaps[0][0]);
            assert(text::is_white_space(gaps[0][0]));
        } else {
            assert(s[0] == '.');
        }
    }
}

proof fn lemma_spaced_path(gaps: Seq<Seq<char>>, fields: Seq<Seq<char>>)
    requires
        gaps.len() == fields.len(),
        forall|i: int| 0 <= i < gaps.len() ==> is_blank(#[trigger] gaps[i]),
        forall|i: int| 0 <= i < fields.len() ==> is_name(#[trigger] fields[i], CharClass::Field),
    ensures
        field_path(text::trim_start(spaced(gaps, fields))) == (fields, Seq::<char>::empty()),
    decreases fields.len(),
{
    let s = spaced(gaps, fields);
    let none: Seq<char> = seq![];
    if fields.len() == 0 {
        assert(s =~= none);
        assert(text::run_len(s, CharClass::WhiteSpace) == 0);
        assert(text::trim_start(s) =~= none);
        assert(fields =~= seq![]);
    } else {
        let n = gaps[0].len() as int;
        let rest_gaps = gaps.skip(1);
        let tail = fields.skip(1);
        assert(is_blank(gaps[0]));
        assert forall|i: int| 0 <= i < n implies CharClass::WhiteSpace.has(#[trigger] s[i]) by {
            assert(s[i] == gaps[0][i]);
            assert(text::is_white_space(gaps[0][i]));
        }
        assert(s[n] == '.');
        text::lemma_run_is(s, CharClass::WhiteSpace, n);
        assert forall|i: int| 0 <= i < rest_gaps.len() implies is_blank(#[trigger] rest_gaps[i]) by {
            assert(rest_gaps[i] == gaps[i + 1]);
        }
        assert forall|i: int| 0 <= i < tail.len() implies is_name(
            #[trigger] tail[i],
            CharClass::Field,
        ) by {
            assert(tail[i] == fields[i + 1]);
        }
        lemma_spaced_path(rest_gaps, tail);
        lemma_spaced_start(rest_gaps, tail, CharClass::Field);
        assert(is_name(fields[0], CharClass::Field));
        let t = text::trim_start(s);
        let behind = spaced(rest_gaps, tail);
        assert(t =~= seq!['.'] + fields[0] + behind);
        assert(t.skip(1) =~= fields[0] + behind);
        lemma_split_name_before(fields[0], behind, CharClass::Field);
        assert(seq![fields[0]] + tail =~= fields);
    }
}

} // verus!
