//! Shell commands and environment variable names.

use vstd::prelude::*;

use crate::text;
use crate::text::CharClass;

verus! {

// ---------------------------------------------------------------------------
// Environment variable names
// ---------------------------------------------------------------------------

/// The character that stands for `c` in the name of an environment variable.
pub open spec fn env_char(c: char) -> char {
    if 'A' <= c <= 'Z' || '0' <= c <= '9' {
        c
    } else if 'a' <= c <= 'z' {
        (c as u32 - 32) as char
    } else {
        '_'
    }
}

/// The environment variable name that a text is turned into.
pub open spec fn env_name(s: Seq<char>) -> Seq<char> {
    Seq::new(s.len(), |i: int| env_char(s[i]))
}

/// Turns a text into the name of an environment variable.
pub fn envify(s: &str) -> (r: String)
    ensures
        r@ == env_name(s@),
{
    let mut ret = String::new();
    for ch in it: s.chars()
        invariant
            it.seq() == s@,
            ret@ == env_name(s@).take(it.index() as int),
    {
        let c: char = ch;
        let replace: char = if ('A' <= c && c <= 'Z') || ('0' <= c && c <= '9') {
            c
        } else if 'a' <= c && c <= 'z' {
            let n: u8 = (c as u32 - 32) as u8;
            n as char
        } else {
            '_'
        };
        ret.push(replace);
        assert(ret@ =~= env_name(s@).take(it.index() + 1));
    }
    assert(ret@ =~= env_name(s@));
    ret
}

/// The name holds capital letters, digits and underscores only, and turning it
/// into a name again changes nothing.
pub proof fn law_env_name(s: Seq<char>)
    ensures
        env_name(s).len() == s.len(),
        forall|i: int|
            0 <= i < s.len() ==> {
                let c = #[trigger] env_name(s)[i];
                'A' <= c <= 'Z' || '0' <= c <= '9' || c == '_'
            },
        env_name(env_name(s)) == env_name(s),
{
    assert forall|i: int| 0 <= i < s.len() implies {
        let c = #[trigger] env_name(s)[i];
        'A' <= c <= 'Z' || '0' <= c <= '9' || c == '_'
    } by {
        let c = s[i];
        if 'a' <= c <= 'z' {
            assert(65 <= c as u32 - 32 <= 90);
        }
    }
    assert(env_name(env_name(s)) =~= env_name(s));
}

// ---------------------------------------------------------------------------
// Quoting
// ---------------------------------------------------------------------------

/// A character that means nothing special to a shell.
pub open spec fn is_plain(c: char) -> bool {
    'A' <= c <= 'Z' || 'a' <= c <= 'z' || '0' <= c <= '9' || c == '_' || c == '-' || c == '=' || c
        == '.' || c == '/' || c == ':'
}

/// All characters are plain.
pub open spec fn all_plain(s: Seq<char>) -> bool {
    forall|i: int| 0 <= i < s.len() ==> is_plain(#[trigger] s[i])
}

/// What stands for a character between single quotes: a single quote is put
/// between double quotes outside of them.
pub open spec fn quoted_char(c: char) -> Seq<char> {
    if c == '\'' {
        seq!['\'', '"', '\'', '"', '\'']
    } else {
        seq![c]
    }
}

/// What stands for a text between single quotes.
pub open spec fn quoted_body(s: Seq<char>) -> Seq<char>
    decreases s.len(),
{
    if s.len() == 0 {
        seq![]
    } else {
        quoted_body(s.drop_last()) + quoted_char(s.last())
    }
}

/// How a text is written in a shell script.
pub open spec fn quoted(s: Seq<char>) -> Seq<char> {
    if all_plain(s) {
        s
    } else {
        seq!['\''] + quoted_body(s) + seq!['\'']
    }
}

/// Quotes a text for a shell script.
pub fn shell_quote(s: &str) -> (r: String)
    ensures
        r@ == quoted(s@),
{
    let mut ret = String::new();
    let mut quote = false;
    ret.push('\'');
    proof {
        assert(ret@ =~= seq!['\'']);
        reveal_strlit("'\"'\"'");
        assert("'\"'\"'"@ =~= quoted_char('\''));
        assert(seq!['\''] + quoted_body(s@.take(0)) =~= seq!['\'']);
    }
    for ch in it: s.chars()
        invariant
            it.seq() == s@,
            "'\"'\"'"@ == quoted_char('\''),
            quote == !all_plain(s@.take(it.index() as int)),
            ret@ == seq!['\''] + quoted_body(s@.take(it.index() as int)),
    {
        let c: char = ch;
        let ghost k = it.index() as int;
        let ghost before = ret@;
        proof {
            assert(s@.take(k + 1).drop_last() =~= s@.take(k));
            assert(s@.take(k + 1).last() == c);
            if all_plain(s@.take(k)) && is_plain(c) {
                assert forall|i: int| 0 <= i < k + 1 implies is_plain(
                    #[trigger] s@.take(k + 1)[i],
                ) by {
                    if i < k {
                        assert(s@.take(k)[i] == s@.take(k + 1)[i]);
                    }
                }
            } else if !is_plain(c) {
                assert(!is_plain(s@.take(k + 1)[k]));
            } else {
                let i = choose|i: int| 0 <= i < k && !is_plain(#[trigger] s@.take(k)[i]);
                assert(s@.take(k)[i] == s@.take(k + 1)[i]);
            }
        }
        if c == '\'' {
            quote = true;
            ret.push_str("'\"'\"'");
        } else {
            if !(('A' <= c && c <= 'Z') || ('a' <= c && c <= 'z') || ('0' <= c && c <= '9') || c
                == '_' || c == '-' || c == '=' || c == '.' || c == '/' || c == ':') {
                quote = true;
            }
            ret.push(c);
        }
        assert(ret@ =~= before + quoted_char(c));
        assert(ret@ =~= seq!['\''] + quoted_body(s@.take(k + 1)));
    }
    ret.push('\'');
    assert(s@.take(s@.len() as int) =~= s@);
    if quote {
        assert(ret@ =~= quoted(s@));
        ret
    } else {
        text::copy(s)
    }
}

/// How a shell is reading a word.
pub enum Reading {
    /// Outside quotes.
    Bare,
    /// Between single quotes.
    Single,
    /// Between double quotes.
    Double,
}

/// The word that was read so far, where one was begun.
pub open spec fn word_so_far(word: Option<Seq<char>>) -> Seq<char> {
    match word {
        Some(w) => w,
        None => seq![],
    }
}

/// The word that was read, as a list of one, where one was begun.
pub open spec fn finished(word: Option<Seq<char>>) -> Seq<Seq<char>> {
    match word {
        Some(w) => seq![w],
        None => seq![],
    }
}

/// The words that a shell reads in the rest of a line, where `word` is what it
/// has read of the present one. Nothing comes back where a quote is not closed,
/// or where a character has a meaning of its own to the shell.
pub open spec fn rest_of_words(
    s: Seq<char>,
    mode: Reading,
    word: Option<Seq<char>>,
) -> Option<Seq<Seq<char>>>
    decreases s.len(),
{
    let so_far = word_so_far(word);
    if s.len() == 0 {
        match mode {
            Reading::Bare => Some(finished(word)),
            _ => None,
        }
    } else {
        let c = s[0];
        let rest = s.skip(1);
        match mode {
            Reading::Bare => if c == ' ' {
                match rest_of_words(rest, Reading::Bare, None) {
                    Some(words) => Some(finished(word) + words),
                    None => None,
                }
            } else if c == '\'' {
                rest_of_words(rest, Reading::Single, Some(so_far))
            } else if c == '"' {
                rest_of_words(rest, Reading::Double, Some(so_far))
            } else if is_plain(c) {
                rest_of_words(rest, Reading::Bare, Some(so_far.push(c)))
            } else {
                None
            },
            Reading::Single => if c == '\'' {
                rest_of_words(rest, Reading::Bare, word)
            } else {
                rest_of_words(rest, Reading::Single, Some(so_far.push(c)))
            },
            Reading::Double => if c == '"' {
                rest_of_words(rest, Reading::Bare, word)
            } else if c == '$' || c == '`' || c == '\\' {
                None
            } else {
                rest_of_words(rest, Reading::Double, Some(so_far.push(c)))
            },
        }
    }
}

/// The words that a shell reads in a line.
pub open spec fn shell_words(s: Seq<char>) -> Option<Seq<Seq<char>>> {
    rest_of_words(s, Reading::Bare, None)
}

/// Wherever it stands outside quotes, a shell reads a quoted text as the text
/// that was quoted, and goes on behind it with the same word. An empty text
/// alone begins no word.
pub proof fn law_shell_reads_quoted(s: Seq<char>, rest: Seq<char>, word: Option<Seq<char>>)
    requires
        s.len() > 0 || word is Some,
    ensures
        rest_of_words(quoted(s) + rest, Reading::Bare, word) == rest_of_words(
            rest,
            Reading::Bare,
            Some(word_so_far(word) + s),
        ),
{
    let so_far = word_so_far(word);
    if all_plain(s) {
        lemma_reads_plain(s, rest, word);
        if s.len() == 0 {
            assert(so_far + s =~= so_far);
        }
    } else {
        lemma_reads_body(s, rest, so_far);
        let q = quoted(s) + rest;
        assert(q[0] == '\'');
        assert(q.skip(1) =~= quoted_body(s) + seq!['\''] + rest);
    }
}

/// Plain characters are read as they stand.
pub(crate) proof fn lemma_reads_plain(s: Seq<char>, rest: Seq<char>, word: Option<Seq<char>>)
    requires
        all_plain(s),
    ensures
        rest_of_words(s + rest, Reading::Bare, word) == rest_of_words(
            rest,
            Reading::Bare,
            if s.len() == 0 {
                word
            } else {
                Some(word_so_far(word) + s)
            },
        ),
    decreases s.len(),
{
    if s.len() == 0 {
        assert(s + rest =~= rest);
    } else {
        let tail = s.skip(1);
        let so_far = word_so_far(word);
        assert forall|i: int| 0 <= i < tail.len() implies is_plain(#[trigger] tail[i]) by {
            assert(tail[i] == s[i + 1]);
        }
        assert(is_plain(s[0]));
        assert((s + rest)[0] == s[0]);
        assert((s + rest).skip(1) =~= tail + rest);
        lemma_reads_plain(tail, rest, Some(so_far.push(s[0])));
        assert(so_far.push(s[0]) + tail =~= so_far + s);
        if tail.len() == 0 {
            assert(so_far.push(s[0]) =~= so_far + s);
        }
    }
}

proof fn lemma_body_front(s: Seq<char>)
    requires
        s.len() > 0,
    ensures
        quoted_body(s) == quoted_char(s[0]) + quoted_body(s.skip(1)),
    decreases s.len(),
{
    if s.len() == 1 {
        assert(s.drop_last() =~= seq![]);
        assert(s.skip(1) =~= seq![]);
        assert(quoted_body(s) =~= quoted_char(s[0]) + quoted_body(s.skip(1)));
    } else {
        lemma_body_front(s.drop_last());
        assert(s.drop_last().skip(1) =~= s.skip(1).drop_last());
        assert(s.skip(1).last() == s.last());
        assert(quoted_body(s) =~= quoted_char(s[0]) + quoted_body(s.skip(1)));
    }
}

proof fn lemma_reads_body(s: Seq<char>, rest: Seq<char>, so_far: Seq<char>)
    ensures
        rest_of_words(
            quoted_body(s) + seq!['\''] + rest,
            Reading::Single,
            Some(so_far),
        ) == rest_of_words(rest, Reading::Bare, Some(so_far + s)),
    decreases s.len(),
{
    let end = seq!['\''] + rest;
    let whole = quoted_body(s) + seq!['\''] + rest;
    if s.len() == 0 {
        assert(whole =~= end);
        assert(end.skip(1) =~= rest);
        assert(so_far + s =~= so_far);
    } else {
        let tail = s.skip(1);
        let c = s[0];
        let behind = quoted_body(tail) + seq!['\''] + rest;
        lemma_body_front(s);
        lemma_reads_body(tail, rest, so_far.push(c));
        assert(so_far.push(c) + tail =~= so_far + s);
        if c == '\'' {
            let a1 = whole.skip(1);
            let a2 = a1.skip(1);
            let a3 = a2.skip(1);
            let a4 = a3.skip(1);
            assert(a4.skip(1) =~= behind);
            let read = Some(so_far.push(c));
            assert(a4[0] == '\'');
            assert(rest_of_words(a4, Reading::Bare, read) == rest_of_words(
                behind,
                Reading::Single,
                read,
            ));
            assert(a3[0] == '"');
            assert(rest_of_words(a3, Reading::Double, read) == rest_of_words(
                a4,
                Reading::Bare,
                read,
            ));
            assert(a2[0] == '\'');
            assert(rest_of_words(a2, Reading::Double, Some(so_far)) == rest_of_words(
                a3,
                Reading::Double,
                read,
            ));
            assert(a1[0] == '"');
            assert(rest_of_words(a1, Reading::Bare, Some(so_far)) == rest_of_words(
                a2,
                Reading::Double,
                Some(so_far),
            ));
            assert(whole[0] == '\'');
        } else {
            assert(whole[0] == c);
            assert(whole.skip(1) =~= behind);
        }
    }
}

// ---------------------------------------------------------------------------
// Simple commands
// ---------------------------------------------------------------------------

/// A character that a simple command may hold.
pub open spec fn is_simple(c: char) -> bool {
    '0' <= c <= '9' || 'a' <= c <= 'z' || 'A' <= c <= 'Z' || c == '-' || c == '/' || c == '.' || c
        == ' ' || c == '\n'
}

/// The words of a text, which white space separates.
pub open spec fn words(s: Seq<char>) -> Seq<Seq<char>>
    decreases s.len(),
{
    let start = s.skip(text::run_len(s, CharClass::AsciiSpace) as int);
    let n = text::run_len(start, CharClass::Word) as int;
    if n == 0 {
        seq![]
    } else {
        proof {
            text::lemma_run_len(s, CharClass::AsciiSpace);
            text::lemma_run_len(start, CharClass::Word);
        }
        seq![start.take(n)] + words(start.skip(n))
    }
}

/// The words of a simple command. A command with any other character is not
/// simple.
pub open spec fn simple_command(s: Seq<char>) -> Option<Seq<Seq<char>>> {
    if forall|i: int| 0 <= i < s.len() ==> is_simple(#[trigger] s[i]) {
        Some(words(s))
    } else {
        None
    }
}

/// Splits a command that no shell is needed for into its words.
pub fn parse_simple_shell_command(s: &str) -> (r: Option<Vec<String>>)
    ensures
        r.deep_view() == simple_command(s@),
{
    let chars = text::chars_of(s);
    let len: usize = chars.len();
    for i in 0..len
        invariant
            len == chars@.len(),
            chars@ == s@,
            forall|j: int| 0 <= j < i ==> is_simple(#[trigger] s@[j]),
    {
        let c: char = chars[i];
        if !(('0' <= c && c <= '9') || ('a' <= c && c <= 'z') || ('A' <= c && c <= 'Z') || c == '-'
            || c == '/' || c == '.' || c == ' ' || c == '\n') {
            assert(!is_simple(s@[i as int]));
            return None;
        }
    }
    let mut out: Vec<String> = Vec::new();
    let mut at: usize = 0;
    assert(s@.skip(0) =~= s@);
    assert(out.deep_view() =~= seq![]);
    assert(out.deep_view() + words(s@.skip(0)) =~= words(s@));
    loop
        invariant
            len == chars@.len(),
            chars@ == s@,
            at <= len,
            out.deep_view() + words(s@.skip(at as int)) == words(s@),
        ensures
            out.deep_view() == words(s@),
        decreases len - at,
    {
        let start: usize = text::run_end(&chars, at, CharClass::AsciiSpace);
        let end: usize = text::run_end(&chars, start, CharClass::Word);
        assert(s@.skip(at as int).skip(start - at) =~= s@.skip(start as int));
        assert(s@.skip(start as int).skip(end - start) =~= s@.skip(end as int));
        if end == start {
            assert(out.deep_view() =~= words(s@));
            break ;
        }
        let ghost done = out.deep_view();
        let word = text::text_of(&chars, start, end);
        let ghost w = word@;
        assert(w =~= s@.skip(start as int).take(end - start));
        out.push(word);
        assert(out.deep_view() =~= done.push(w));
        assert(done.push(w) + words(s@.skip(end as int)) =~= done + (seq![w] + words(
            s@.skip(end as int),
        )));
        at = end;
    }
    Some(out)
}

/// No word of a simple command is empty, and a shell reads each as it stands.
pub proof fn law_simple_words_are_plain(s: Seq<char>)
    requires
        simple_command(s) is Some,
    ensures
        forall|i: int|
            0 <= i < words(s).len() ==> (#[trigger] words(s)[i]).len() > 0 && quoted(words(s)[i])
                == words(s)[i],
    decreases s.len(),
{
    let m = text::run_len(s, CharClass::AsciiSpace) as int;
    let start = s.skip(m);
    let n = text::run_len(start, CharClass::Word) as int;
    text::lemma_run_len(s, CharClass::AsciiSpace);
    text::lemma_run_len(start, CharClass::Word);
    if n > 0 {
        let rest = start.skip(n);
        assert forall|i: int| 0 <= i < rest.len() implies is_simple(#[trigger] rest[i]) by {
            assert(rest[i] == s[m + n + i]);
        }
        law_simple_words_are_plain(rest);
        let w = start.take(n);
        assert forall|i: int| 0 <= i < w.len() implies is_plain(#[trigger] w[i]) by {
            assert(w[i] == start[i]);
            assert(w[i] == s[m + i]);
            assert(is_simple(s[m + i]));
            assert(CharClass::Word.has(start[i]));
        }
        assert forall|i: int| 0 <= i < words(s).len() implies (#[trigger] words(s)[i]).len() > 0
            && quoted(words(s)[i]) == words(s)[i] by {
            if i == 0 {
                assert(words(s)[0] == w);
            } else {
                assert(words(s)[i] == words(rest)[i - 1]);
            }
        }
    }
}

/// A simple command is one of letters, digits, dashes, slashes, dots, spaces and
/// line feeds, and comes to its words.
pub proof fn law_simple_command(s: Seq<char>)
    ensures
        simple_command(s) is Some <==> forall|i: int|
            0 <= i < s.len()
                ==> "0123456789abcdefghijklmnopqrstuvwxyzABCDEFGHIJKLMNOPQRSTUVWXYZ-/. \n"@.contains(
                #[trigger] s[i],
            ),
        simple_command(s) matches Some(found) ==> found == words(s),
{
    let all = "0123456789abcdefghijklmnopqrstuvwxyzABCDEFGHIJKLMNOPQRSTUVWXYZ-/. \n"@;
    reveal_strlit("0123456789abcdefghijklmnopqrstuvwxyzABCDEFGHIJKLMNOPQRSTUVWXYZ-/. \n");
    assert(all.len() == 67);
    assert forall|c: char| #[trigger] is_simple(c) <==> all.contains(c) by {
        if '0' <= c <= '9' {
            assert(all[c as int - '0' as int] == c);
        }
        if 'a' <= c <= 'z' {
            assert(all[10 + c as int - 'a' as int] == c);
        }
        if 'A' <= c <= 'Z' {
            assert(all[36 + c as int - 'A' as int] == c);
        }
        assert(all[62] == '-');
        assert(all[63] == '/');
        assert(all[64] == '.');
        assert(all[65] == ' ');
        assert(all[66] == '\n');
        assert(forall|i: int| 0 <= i < all.len() ==> is_simple(#[trigger] all[i]));
    }
    if simple_command(s) is Some {
        assert forall|i: int| 0 <= i < s.len() implies all.contains(#[trigger] s[i]) by {
            assert(is_simple(s[i]));
        }
    }
    if forall|i: int| 0 <= i < s.len() ==> all.contains(#[trigger] s[i]) {
        assert forall|i: int| 0 <= i < s.len() implies is_simple(#[trigger] s[i]) by {
            assert(all.contains(s[i]));
        }
    }
}

/// The words of a text are what white space separates: a text without white space
/// is one word, an empty text has none, and white space between two texts parts
/// their words, of which none is lost, none is added and none changes its place.
pub proof fn law_words(a: Seq<char>, space: char, b: Seq<char>, word: Seq<char>)
    requires
        text::is_ascii_space(space),
    ensures
        words(Seq::empty()) == Seq::<Seq<char>>::empty(),
        word.len() > 0 && (forall|i: int|
            0 <= i < word.len() ==> !text::is_ascii_space(#[trigger] word[i])) ==> words(word)
            == seq![word],
        words(a + seq![space] + b) == words(a) + words(b),
{
    if word.len() > 0 && (forall|i: int|
        0 <= i < word.len() ==> !text::is_ascii_space(#[trigger] word[i])) {
        assert(!text::is_ascii_space(word[0]));
        text::lemma_run_is(word, CharClass::AsciiSpace, 0);
        assert(word.skip(0) =~= word);
        text::lemma_run_is(word, CharClass::Word, word.len() as int);
        assert(word.take(word.len() as int) =~= word);
        assert(word.skip(word.len() as int) =~= seq![]);
        lemma_no_words();
        assert(words(word) =~= seq![word]);
    }
    lemma_no_words();
    lemma_words_are_parted(a, space, b);
}

proof fn lemma_no_words()
    ensures
        words(Seq::empty()) == Seq::<Seq<char>>::empty(),
{
    let none: Seq<char> = seq![];
    text::lemma_run_len(none, CharClass::AsciiSpace);
    text::lemma_run_len(none.skip(0), CharClass::Word);
    assert(none.skip(0) =~= none);
}

proof fn lemma_words_are_parted(a: Seq<char>, space: char, b: Seq<char>)
    requires
        text::is_ascii_space(space),
    ensures
        words(a + seq![space] + b) == words(a) + words(b),
    decreases a.len(),
{
    let s = a + seq![space] + b;
    let m = text::run_len(a, CharClass::AsciiSpace) as int;
    text::lemma_run_len(a, CharClass::AsciiSpace);
    let start = a.skip(m);
    if m == a.len() {
        let k = text::run_len(b, CharClass::AsciiSpace) as int;
        text::lemma_run_len(b, CharClass::AsciiSpace);
        let n = m + 1 + k;
        assert forall|i: int| 0 <= i < n implies CharClass::AsciiSpace.has(#[trigger] s[i]) by {
            if i < m {
                assert(s[i] == a[i]);
            } else if i > m {
                assert(s[i] == b[i - m - 1]);
            }
        }
        if n < s.len() {
            assert(s[n] == b[k]);
        }
        text::lemma_run_is(s, CharClass::AsciiSpace, n);
        assert(s.skip(n) =~= b.skip(k));
        assert(start =~= seq![]);
        assert(text::run_len(start, CharClass::Word) == 0);
        assert(words(a) =~= seq![]);
        assert(words(s) =~= words(b));
        assert(words(a) + words(b) =~= words(b));
    } else {
        let n = text::run_len(start, CharClass::Word) as int;
        text::lemma_run_len(start, CharClass::Word);
        assert(!CharClass::AsciiSpace.has(a[m]));
        assert(start[0] == a[m]);
        if n == 0 {
            assert(!CharClass::Word.has(start[0]));
        }
        assert forall|i: int| 0 <= i < m implies CharClass::AsciiSpace.has(#[trigger] s[i]) by {
            assert(s[i] == a[i]);
        }
        assert(s[m] == a[m]);
        text::lemma_run_is(s, CharClass::AsciiSpace, m);
        let longer = s.skip(m);
        assert(longer =~= start + seq![space] + b);
        assert forall|i: int| 0 <= i < n implies CharClass::Word.has(#[trigger] longer[i]) by {
            assert(longer[i] == start[i]);
        }
        if n < start.len() {
            assert(longer[n] == start[n]);
        } else {
            assert(longer[n] == space);
        }
        text::lemma_run_is(longer, CharClass::Word, n);
        let rest = start.skip(n);
        assert(longer.take(n) =~= start.take(n));
        assert(longer.skip(n) =~= rest + seq![space] + b);
        lemma_words_are_parted(rest, space, b);
        assert(words(s) =~= seq![start.take(n)] + (words(rest) + words(b)));
        assert(words(a) =~= seq![start.take(n)] + words(rest));
        assert(words(s) =~= words(a) + words(b));
    }
}

/// In the name of a variable, capital letters and digits stand for themselves,
/// small letters for their capitals, and anything else for an underscore.
pub proof fn law_env_chars(s: Seq<char>, i: int)
    requires
        0 <= i < s.len(),
    ensures
        env_name(s).len() == s.len(),
        ({
            let small = "abcdefghijklmnopqrstuvwxyz"@;
            let capital = "ABCDEFGHIJKLMNOPQRSTUVWXYZ"@;
            &&& capital.contains(s[i]) || '0' <= s[i] <= '9' ==> env_name(s)[i] == s[i]
            &&& forall|k: int|
                0 <= k < small.len() && s[i] == #[trigger] small[k] ==> env_name(s)[i] == capital[k]
            &&& !capital.contains(s[i]) && !small.contains(s[i]) && !('0' <= s[i] <= '9')
                ==> env_name(s)[i] == '_'
        }),
{
    let small = "abcdefghijklmnopqrstuvwxyz"@;
    let capital = "ABCDEFGHIJKLMNOPQRSTUVWXYZ"@;
    reveal_strlit("abcdefghijklmnopqrstuvwxyz");
    reveal_strlit("ABCDEFGHIJKLMNOPQRSTUVWXYZ");
    let c = s[i];
    assert(forall|k: int| 0 <= k < 26 ==> #[trigger] capital[k] as int == 'A' as int + k);
    assert(forall|k: int| 0 <= k < 26 ==> #[trigger] small[k] as int == 'a' as int + k);
    assert(small.len() == 26);
    assert(capital.len() == 26);
    if 'A' <= c <= 'Z' {
        assert(capital[c as int - 'A' as int] == c);
    }
    if 'a' <= c <= 'z' {
        assert(small[c as int - 'a' as int] == c);
    }
    if capital.contains(c) {
        let k = choose|k: int| 0 <= k < capital.len() && capital[k] == c;
        assert('A' <= c <= 'Z');
    }
    assert forall|k: int| 0 <= k < small.len() && s[i] == #[trigger] small[k] implies env_name(s)[i]
        == capital[k] by {
        assert('a' <= c <= 'z');
    }
}

} // verus!
