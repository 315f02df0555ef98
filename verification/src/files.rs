//! The files that a step writes to set environment variables and to extend the
//! search path of later steps.

use vstd::prelude::*;

use crate::ordered_map;
use crate::ordered_map::OrderedMap;
use crate::output;
use crate::text;

verus! {

/// The lines of a file. A last line without a line feed is a line too, unless
/// it is empty.
pub open spec fn file_lines(data: Seq<u8>) -> Seq<Seq<u8>> {
    let rest = output::unfinished(data);
    if rest.len() == 0 {
        output::complete_lines(data)
    } else {
        output::complete_lines(data).push(rest)
    }
}

/// A line as text.
pub open spec fn line_text(line: Seq<u8>) -> Option<Seq<char>> {
    if vstd::utf8::valid_utf8(line) {
        Some(vstd::utf8::decode_utf8(line))
    } else {
        None
    }
}

/// What a line of the environment file says.
pub enum EnvLine {
    /// Sets a variable.
    Sets(Seq<char>, Seq<char>),
    /// Opens a value over several lines.
    Opens,
    /// Nothing.
    Ignored,
}

/// What a line of the environment file says.
pub open spec fn env_line(line: Seq<u8>) -> EnvLine {
    match line_text(line) {
        None => EnvLine::Ignored,
        Some(s) => match text::find(s, "="@) {
            Some(p) => EnvLine::Sets(s.take(p), s.skip(p + 1)),
            None => if text::find(s, "<<"@) is Some {
                EnvLine::Opens
            } else {
                EnvLine::Ignored
            },
        },
    }
}

/// The environment variables after the lines of the environment file. A line
/// that opens a value over several lines takes in all lines behind it, and no
/// variable is set by any of them.
pub open spec fn env_after_lines(
    env: Seq<(Seq<char>, Seq<char>)>,
    lines: Seq<Seq<u8>>,
) -> Seq<(Seq<char>, Seq<char>)>
    decreases lines.len(),
{
    if lines.len() == 0 {
        env
    } else {
        match env_line(lines[0]) {
            EnvLine::Sets(name, value) => env_after_lines(
                ordered_map::set(env, name, value),
                lines.skip(1),
            ),
            EnvLine::Opens => env,
            EnvLine::Ignored => env_after_lines(env, lines.skip(1)),
        }
    }
}

/// The environment variables after a step that wrote `data` to the environment
/// file.
pub open spec fn env_after_file(env: Seq<(Seq<char>, Seq<char>)>, data: Seq<u8>) -> Seq<
    (Seq<char>, Seq<char>),
> {
    env_after_lines(env, file_lines(data))
}

/// The entries of the search path in lines: those that are text.
pub open spec fn path_lines(lines: Seq<Seq<u8>>) -> Seq<Seq<char>>
    decreases lines.len(),
{
    if lines.len() == 0 {
        seq![]
    } else {
        match line_text(lines.last()) {
            Some(s) => path_lines(lines.drop_last()).push(s),
            None => path_lines(lines.drop_last()),
        }
    }
}

/// The entries of the search path after a step that wrote `data` to the path
/// file.
pub open spec fn paths_after_file(paths: Seq<Seq<char>>, data: Seq<u8>) -> Seq<Seq<char>> {
    paths + path_lines(file_lines(data))
}

fn lines_of_file(data: &Vec<u8>) -> (r: Vec<Vec<u8>>)
    ensures
        r.deep_view() == file_lines(data@),
{
    let (found, offset) = output::split_lines(data);
    let mut lines = found;
    let len: usize = data.len();
    if offset < len {
        let ghost before = lines.deep_view();
        let rest = text::bytes_from(data.as_slice(), offset, len);
        let ghost l = rest@;
        assert(l =~= data@.skip(offset as int));
        lines.push(rest);
        assert(lines.deep_view() =~= before.push(l)) by {
            assert(rest.deep_view() =~= l);
        }
    }
    lines
}

/// Reads the environment file that a step wrote.
pub fn read_env_file(env: &mut OrderedMap<String>, data: &Vec<u8>)
    ensures
        final(env).deep_view() == env_after_file(old(env).deep_view(), data@),
{
    let lines = lines_of_file(data);
    let ghost all = lines.deep_view();
    let ghost whole = env_after_file(env.deep_view(), data@);
    assert(all.skip(0) =~= all);
    let mut k: usize = 0;
    while k < lines.len()
        invariant
            all == lines.deep_view(),
            k <= lines@.len(),
            whole == env_after_lines(env.deep_view(), all.skip(k as int)),
        ensures
            whole == env.deep_view(),
        decreases lines@.len() - k,
    {
        let line: &Vec<u8> = &lines[k];
        let ghost rest = all.skip(k as int);
        proof {
            assert(lines@[k as int].deep_view() =~= lines@[k as int]@);
            assert(rest[0] == line@);
            assert(rest.skip(1) =~= all.skip(k + 1));
            reveal_strlit("=");
            reveal_strlit("<<");
        }
        if let Some(s) = text::utf8_text(line.as_slice()) {
            let chars = text::chars_of(s);
            let len: usize = chars.len();
            assert(s@.skip(0) =~= s@);
            if let Some(p) = text::find_chars(&chars, 0, "=") {
                let name = text::text_of(&chars, 0, p);
                let value = text::text_of(&chars, p + 1, len);
                assert(name@ =~= s@.take(p as int));
                assert(value@ =~= s@.skip(p + 1));
                proof {
                    ordered_map::lemma_deep_set(env.entries(), name@, value);
                }
                env.insert(name, value);
            } else if text::find_chars(&chars, 0, "<<").is_some() {
                break ;
            }
        }
        k = k + 1;
    }
}

/// Reads the path file that a step wrote.
pub fn read_path_file(paths: &mut Vec<String>, data: &Vec<u8>)
    ensures
        final(paths).deep_view() == paths_after_file(old(paths).deep_view(), data@),
{
    let lines = lines_of_file(data);
    let ghost all = lines.deep_view();
    let ghost start = paths.deep_view();
    assert(path_lines(all.take(0)) =~= seq![]);
    assert(start + path_lines(all.take(0)) =~= start);
    for k in 0..lines.len()
        invariant
            all == lines.deep_view(),
            paths.deep_view() == start + path_lines(all.take(k as int)),
    {
        let line: &Vec<u8> = &lines[k];
        let ghost done = paths.deep_view();
        proof {
            assert(lines@[k as int].deep_view() =~= lines@[k as int]@);
            assert(all.take(k + 1).drop_last() =~= all.take(k as int));
            assert(all.take(k + 1).last() == line@);
        }
        if let Some(s) = text::utf8_text(line.as_slice()) {
            let path = text::copy(s);
            paths.push(path);
            assert(paths.deep_view() =~= done.push(s@));
            assert(done.push(s@) =~= start + path_lines(all.take(k + 1)));
        }
    }
    assert(all.take(all.len() as int) =~= all);
}

// ---------------------------------------------------------------------------
// Laws
// ---------------------------------------------------------------------------

/// A line that opens a value over several lines ends the file: whatever follows
/// sets no variable.
pub proof fn law_nothing_is_set_behind_an_open_value(
    env: Seq<(Seq<char>, Seq<char>)>,
    lines: Seq<Seq<u8>>,
    open: Seq<u8>,
    behind: Seq<Seq<u8>>,
)
    requires
        env_line(open) is Opens,
    ensures
        env_after_lines(env, lines + seq![open] + behind) == env_after_lines(env, lines),
    decreases lines.len(),
{
    let all = lines + seq![open] + behind;
    if lines.len() == 0 {
        assert(all[0] == open);
    } else {
        let rest = lines.skip(1);
        assert(all[0] == lines[0]);
        assert(all.skip(1) =~= rest + seq![open] + behind);
        match env_line(lines[0]) {
            EnvLine::Sets(name, value) => {
                law_nothing_is_set_behind_an_open_value(
                    ordered_map::set(env, name, value),
                    rest,
                    open,
                    behind,
                );
            },
            EnvLine::Opens => {},
            EnvLine::Ignored => {
                law_nothing_is_set_behind_an_open_value(env, rest, open, behind);
            },
        }
    }
}

/// A line with a name, an equals sign and a value sets the variable of that
/// name to that value.
pub proof fn law_env_line_sets(name: Seq<char>, value: Seq<char>)
    requires
        text::find(name + "="@ + value, "="@) == Some(name.len() as int),
    ensures
        env_line(output::bytes_of(name + "="@ + value)) == EnvLine::Sets(name, value),
{
    let s = name + "="@ + value;
    vstd::utf8::encode_utf8_valid_utf8(s);
    vstd::utf8::encode_utf8_decode_utf8(s);
    reveal_strlit("=");
    assert(s.take(name.len() as int) =~= name);
    assert(s.skip(name.len() as int + 1) =~= value);
}

/// A file is read line by line: each line up to its line feed, and the last one
/// also without a line feed unless it is empty.
pub proof fn law_file_lines(lines: Seq<Seq<u8>>, tail: Seq<u8>)
    requires
        forall|k: int, i: int|
            0 <= k < lines.len() && 0 <= i < lines[k].len() ==> #[trigger] lines[k][i] != 10,
        forall|i: int| 0 <= i < tail.len() ==> #[trigger] tail[i] != 10,
    ensures
        file_lines(output::rejoined(lines) + tail) == (if tail.len() == 0 {
            lines
        } else {
            lines.push(tail)
        }),
{
    output::law_lines_are_read_back(lines, tail);
}

/// What the path file adds: each of its lines that is text is an entry behind all
/// those that were there before, in the order of the lines. Nothing that was there
/// is lost, and an empty file changes nothing.
pub proof fn law_path_file(
    paths: Seq<Seq<char>>,
    lines: Seq<Seq<u8>>,
    texts: Seq<Seq<char>>,
    data: Seq<u8>,
)
    requires
        forall|k: int, i: int|
            0 <= k < lines.len() && 0 <= i < lines[k].len() ==> #[trigger] lines[k][i] != 10,
        texts.len() == lines.len(),
        forall|k: int|
            0 <= k < lines.len() ==> vstd::utf8::valid_utf8(#[trigger] lines[k])
                && vstd::utf8::decode_utf8(lines[k]) == texts[k],
    ensures
        paths_after_file(paths, output::rejoined(lines)) == paths + texts,
        paths_after_file(paths, Seq::empty()) == paths,
        paths.len() <= paths_after_file(paths, data).len(),
        paths_after_file(paths, data).take(paths.len() as int) == paths,
        paths_after_file(paths, data).skip(paths.len() as int) == paths_after_file(
            Seq::empty(),
            data,
        ),
{
    let none: Seq<u8> = seq![];
    let no_lines: Seq<Seq<u8>> = seq![];
    law_file_lines(lines, none);
    assert(output::rejoined(lines) + none =~= output::rejoined(lines));
    lemma_path_lines(lines, texts);
    law_file_lines(no_lines, none);
    assert(output::rejoined(no_lines) + none =~= none);
    assert(paths + path_lines(no_lines) =~= paths);
    assert(paths_after_file(paths, data).take(paths.len() as int) =~= paths);
    assert(paths_after_file(paths, data).skip(paths.len() as int) =~= path_lines(file_lines(data)));
    assert(paths_after_file(Seq::empty(), data) =~= path_lines(file_lines(data)));
}

proof fn lemma_path_lines(lines: Seq<Seq<u8>>, texts: Seq<Seq<char>>)
    requires
        texts.len() == lines.len(),
        forall|k: int|
            0 <= k < lines.len() ==> vstd::utf8::valid_utf8(#[trigger] lines[k])
                && vstd::utf8::decode_utf8(lines[k]) == texts[k],
    ensures
        path_lines(lines) == texts,
    decreases lines.len(),
{
    if lines.len() == 0 {
        assert(path_lines(lines) =~= texts);
    } else {
        let front = lines.drop_last();
        assert forall|k: int| 0 <= k < front.len() implies vstd::utf8::valid_utf8(
            #[trigger] front[k],
        ) && vstd::utf8::decode_utf8(front[k]) == texts.drop_last()[k] by {
            assert(front[k] == lines[k]);
        }
        lemma_path_lines(front, texts.drop_last());
        assert(lines[lines.len() - 1] == lines.last());
        assert(texts.drop_last().push(texts.last()) =~= texts);
    }
}

/// A line of the path file that is not text adds nothing.
pub proof fn law_other_path_lines_are_skipped(before: Seq<Seq<u8>>, line: Seq<u8>)
    ensures
        path_lines(before.push(line)) == (if vstd::utf8::valid_utf8(line) {
            path_lines(before).push(vstd::utf8::decode_utf8(line))
        } else {
            path_lines(before)
        }),
{
    assert(before.push(line).drop_last() =~= before);
}

/// What the environment file sets: each of its lines with a name, an equals sign
/// and a value sets the variable of that name, which holds no equals sign, to that
/// value, in the order of the lines. All other variables stay as they are.
pub proof fn law_env_file(
    env: Seq<(Seq<char>, Seq<char>)>,
    lines: Seq<Seq<u8>>,
    settings: Seq<(Seq<char>, Seq<char>)>,
    key: Seq<char>,
)
    requires
        forall|k: int, i: int|
            0 <= k < lines.len() && 0 <= i < lines[k].len() ==> #[trigger] lines[k][i] != 10,
        settings.len() == lines.len(),
        forall|k: int|
            0 <= k < lines.len() ==> {
                &&& vstd::utf8::valid_utf8(#[trigger] lines[k])
                &&& vstd::utf8::decode_utf8(lines[k]) == settings[k].0 + "="@ + settings[k].1
                &&& !settings[k].0.contains('=')
            },
    ensures
        env_after_file(env, output::rejoined(lines)) == ordered_map::set_all(env, settings),
        ordered_map::lookup(env_after_file(env, output::rejoined(lines)), key) == (
        match ordered_map::lookup(settings, key) {
            Some(value) => Some(value),
            None => ordered_map::lookup(env, key),
        }),
        env_after_file(env, Seq::empty()) == env,
{
    let none: Seq<u8> = seq![];
    let no_lines: Seq<Seq<u8>> = seq![];
    law_file_lines(lines, none);
    assert(output::rejoined(lines) + none =~= output::rejoined(lines));
    lemma_env_lines(env, lines, settings);
    ordered_map::law_set_all(env, settings, key);
    law_file_lines(no_lines, none);
    assert(output::rejoined(no_lines) + none =~= none);
}

/// The first equals sign ends the name.
proof fn lemma_env_line(line: Seq<u8>, name: Seq<char>, value: Seq<char>)
    requires
        vstd::utf8::valid_utf8(line),
        vstd::utf8::decode_utf8(line) == name + "="@ + value,
        !name.contains('='),
    ensures
        env_line(line) == EnvLine::Sets(name, value),
{
    let s = name + "="@ + value;
    let n = name.len() as int;
    reveal_strlit("=");
    assert("="@ =~= seq!['=']);
    assert(s.subrange(n, n + 1) =~= "="@);
    assert forall|j: int| 0 <= j < n implies !text::stands_at(s, "="@, j) by {
        if text::stands_at(s, "="@, j) {
            assert(s.subrange(j, j + 1)[0] == '=');
            assert(name[j] == '=');
        }
    }
    text::lemma_find_is(s, "="@, n);
    assert(s.take(n) =~= name);
    assert(s.skip(n + 1) =~= value);
}

proof fn lemma_env_lines(
    env: Seq<(Seq<char>, Seq<char>)>,
    lines: Seq<Seq<u8>>,
    settings: Seq<(Seq<char>, Seq<char>)>,
)
    requires
        settings.len() == lines.len(),
        forall|k: int|
            0 <= k < lines.len() ==> {
                &&& vstd::utf8::valid_utf8(#[trigger] lines[k])
                &&& vstd::utf8::decode_utf8(lines[k]) == settings[k].0 + "="@ + settings[k].1
                &&& !settings[k].0.contains('=')
            },
    ensures
        env_after_lines(env, lines) == ordered_map::set_all(env, settings),
    decreases lines.len(),
{
    if lines.len() > 0 {
        let (name, value) = settings[0];
        let rest = lines.skip(1);
        assert forall|k: int| 0 <= k < rest.len() implies {
            &&& vstd::utf8::valid_utf8(#[trigger] rest[k])
            &&& vstd::utf8::decode_utf8(rest[k]) == settings.skip(1)[k].0 + "="@ + settings.skip(
                1,
            )[k].1
            &&& !settings.skip(1)[k].0.contains('=')
        } by {
            assert(rest[k] == lines[k + 1]);
        }
        lemma_env_line(lines[0], name, value);
        lemma_env_lines(ordered_map::set(env, name, value), rest, settings.skip(1));
        lemma_set_all_front(env, settings);
    }
}

proof fn lemma_set_all_front(
    env: Seq<(Seq<char>, Seq<char>)>,
    settings: Seq<(Seq<char>, Seq<char>)>,
)
    requires
        settings.len() > 0,
    ensures
        ordered_map::set_all(env, settings) == ordered_map::set_all(
            ordered_map::set(env, settings[0].0, settings[0].1),
            settings.skip(1),
        ),
    decreases settings.len(),
{
    let front = settings.drop_last();
    if settings.len() == 1 {
        assert(ordered_map::set_all(env, front) == env);
        assert(settings.last() == settings[0]);
        assert(settings.skip(1).len() == 0);
    } else {
        assert(front[0] == settings[0]);
        assert(settings.skip(1).last() == settings.last());
        lemma_set_all_front(env, front);
        assert(front.skip(1) =~= settings.skip(1).drop_last());
    }
}

/// Lines that are not text, and lines with neither an equals sign nor `<<`, set
/// nothing, and those behind them are read as if they were not there.
pub proof fn law_other_env_lines_are_skipped(
    env: Seq<(Seq<char>, Seq<char>)>,
    line: Seq<u8>,
    rest: Seq<Seq<u8>>,
)
    requires
        !vstd::utf8::valid_utf8(line) || {
            let s = vstd::utf8::decode_utf8(line);
            &&& !s.contains('=')
            &&& forall|i: int| !text::stands_at(s, "<<"@, i)
        },
    ensures
        env_after_lines(env, seq![line] + rest) == env_after_lines(env, rest),
{
    let all = seq![line] + rest;
    assert(all.skip(1) =~= rest);
    if vstd::utf8::valid_utf8(line) {
        let s = vstd::utf8::decode_utf8(line);
        reveal_strlit("=");
        assert("="@ =~= seq!['=']);
        text::law_find_is_complete(s, "="@);
        text::law_find_is_complete(s, "<<"@);
        if let Some(p) = text::find(s, "="@) {
            assert(s.subrange(p, p + 1)[0] == '=');
            assert(s[p] == '=');
        }
    }
}

/// A line that is text with `<<` and without an equals sign opens a value over
/// several lines.
pub proof fn law_open_line(line: Seq<u8>, i: int)
    requires
        vstd::utf8::valid_utf8(line),
        !vstd::utf8::decode_utf8(line).contains('='),
        text::stands_at(vstd::utf8::decode_utf8(line), "<<"@, i),
    ensures
        env_line(line) is Opens,
{
    let s = vstd::utf8::decode_utf8(line);
    reveal_strlit("=");
    assert("="@ =~= seq!['=']);
    text::law_find_is_complete(s, "="@);
    text::law_find_is_complete(s, "<<"@);
    if let Some(p) = text::find(s, "="@) {
        assert(s.subrange(p, p + 1)[0] == '=');
        assert(s[p] == '=');
    }
}

} // verus!
