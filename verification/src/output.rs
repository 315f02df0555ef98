//! What a step prints: its lines, and the workflow commands among them.

use vstd::prelude::*;

use crate::ordered_map;
use crate::ordered_map::OrderedMap;
use crate::text;

verus! {

// ---------------------------------------------------------------------------
// Lines
// ---------------------------------------------------------------------------

/// How many bytes stand before the first line feed.
pub open spec fn line_len(data: Seq<u8>) -> nat
    decreases data.len(),
{
    if data.len() == 0 || data[0] == 10 {
        0
    } else {
        1 + line_len(data.skip(1))
    }
}

/// The lines that end in a line feed, which is not part of them.
pub open spec fn complete_lines(data: Seq<u8>) -> Seq<Seq<u8>>
    decreases data.len(),
{
    let n = line_len(data) as int;
    if n < data.len() {
        seq![data.take(n)] + complete_lines(data.skip(n + 1))
    } else {
        seq![]
    }
}

/// What follows the last line feed.
pub open spec fn unfinished(data: Seq<u8>) -> Seq<u8>
    decreases data.len(),
{
    let n = line_len(data) as int;
    if n < data.len() {
        unfinished(data.skip(n + 1))
    } else {
        data
    }
}

proof fn lemma_line_len(data: Seq<u8>)
    ensures
        line_len(data) <= data.len(),
        forall|i: int| 0 <= i < line_len(data) ==> #[trigger] data[i] != 10,
        line_len(data) < data.len() ==> data[line_len(data) as int] == 10,
    decreases data.len(),
{
    if data.len() > 0 && data[0] != 10 {
        lemma_line_len(data.skip(1));
        assert forall|i: int| 0 <= i < line_len(data) implies #[trigger] data[i] != 10 by {
            if i > 0 {
                assert(data[i] == data.skip(1)[i - 1]);
            }
        }
    }
}

proof fn lemma_line_len_is(data: Seq<u8>, n: int)
    requires
        0 <= n <= data.len(),
        forall|i: int| 0 <= i < n ==> #[trigger] data[i] != 10,
        n < data.len() ==> data[n] == 10,
    ensures
        line_len(data) == n,
{
    lemma_line_len(data);
    let m = line_len(data) as int;
    if m < n {
        assert(data[m] != 10);
    } else if n < m {
        assert(data[n] != 10);
    }
}

/// Splitting data into lines piece by piece gives the same lines as splitting
/// it all at once.
pub proof fn law_lines_of_pieces(a: Seq<u8>, b: Seq<u8>)
    ensures
        complete_lines(a + b) == complete_lines(a) + complete_lines(unfinished(a) + b),
        unfinished(a + b) == unfinished(unfinished(a) + b),
    decreases a.len(),
{
    let n = line_len(a) as int;
    lemma_line_len(a);
    if n < a.len() {
        let rest = a.skip(n + 1);
        law_lines_of_pieces(rest, b);
        assert forall|i: int| 0 <= i < n implies #[trigger] (a + b)[i] != 10 by {
            assert((a + b)[i] == a[i]);
        }
        lemma_line_len_is(a + b, n);
        assert((a + b).skip(n + 1) =~= rest + b);
        assert((a + b).take(n) =~= a.take(n));
        assert(complete_lines(a + b) =~= complete_lines(a) + complete_lines(unfinished(a) + b));
    } else {
        assert(complete_lines(a) =~= seq![]);
        assert(complete_lines(a + b) =~= complete_lines(a) + complete_lines(unfinished(a) + b));
    }
}

/// Lines with their line feeds, one behind the other.
pub open spec fn rejoined(lines: Seq<Seq<u8>>) -> Seq<u8>
    decreases lines.len(),
{
    if lines.len() == 0 {
        seq![]
    } else {
        lines[0].push(10) + rejoined(lines.skip(1))
    }
}

/// Nothing is lost: the lines with their line feeds, and what follows the last
/// one, are the data.
pub proof fn law_lines_are_the_data(data: Seq<u8>)
    ensures
        rejoined(complete_lines(data)) + unfinished(data) == data,
    decreases data.len(),
{
    let n = line_len(data) as int;
    lemma_line_len(data);
    if n < data.len() {
        let rest = data.skip(n + 1);
        law_lines_are_the_data(rest);
        let lines = complete_lines(data);
        assert(lines.skip(1) =~= complete_lines(rest));
        assert(lines[0] =~= data.take(n));
        assert(data =~= data.take(n).push(10) + rest);
        assert(rejoined(lines) + unfinished(data) =~= data.take(n).push(10) + (rejoined(
            complete_lines(rest),
        ) + unfinished(rest)));
    } else {
        assert(rejoined(complete_lines(data)) + unfinished(data) =~= data);
    }
}

/// No line holds a line feed.
pub proof fn law_lines_hold_no_line_feed(data: Seq<u8>)
    ensures
        forall|k: int, i: int|
            0 <= k < complete_lines(data).len() && 0 <= i < complete_lines(data)[k].len()
                ==> #[trigger] complete_lines(data)[k][i] != 10,
        forall|i: int| 0 <= i < unfinished(data).len() ==> #[trigger] unfinished(data)[i] != 10,
    decreases data.len(),
{
    let n = line_len(data) as int;
    lemma_line_len(data);
    if n < data.len() {
        law_lines_hold_no_line_feed(data.skip(n + 1));
        let lines = complete_lines(data);
        assert forall|k: int, i: int|
            0 <= k < lines.len() && 0 <= i < lines[k].len() implies #[trigger] lines[k][i]
            != 10 by {
            if k == 0 {
                assert(lines[0] == data.take(n));
                assert(data[i] != 10);
            } else {
                assert(lines[k] == complete_lines(data.skip(n + 1))[k - 1]);
            }
        }
        let tail = data.skip(n + 1);
        assert(unfinished(data) == unfinished(tail));
        assert forall|i: int| 0 <= i < unfinished(data).len() implies #[trigger] unfinished(data)[i]
            != 10 by {
            assert(unfinished(tail)[i] != 10);
        }
    }
}

/// Collects data and hands out its lines.
pub struct LineBuffer {
    buf: Vec<u8>,
}

impl View for LineBuffer {
    type V = Seq<u8>;

    closed spec fn view(&self) -> Seq<u8> {
        self.buf@
    }
}

fn find_line_feed(data: &Vec<u8>, from: usize) -> (r: usize)
    requires
        from <= data@.len(),
    ensures
        from <= r <= data@.len(),
        r - from == line_len(data@.skip(from as int)),
{
    let mut i: usize = from;
    let ghost rest = data@.skip(from as int);
    while i < data.len() && data[i] != 10
        invariant
            from <= i <= data@.len(),
            rest == data@.skip(from as int),
            forall|j: int| 0 <= j < i - from ==> #[trigger] rest[j] != 10,
        decreases data@.len() - i,
    {
        assert(rest[i - from] == data@[i as int]);
        i = i + 1;
    }
    proof {
        if i < data@.len() {
            assert(rest[i - from] == data@[i as int]);
        }
        lemma_line_len_is(rest, i - from);
    }
    i
}

/// The complete lines of some data, and where the rest begins.
pub(crate) fn split_lines(data: &Vec<u8>) -> (r: (Vec<Vec<u8>>, usize))
    ensures
        r.0.deep_view() == complete_lines(data@),
        r.1 <= data@.len(),
        data@.skip(r.1 as int) == unfinished(data@),
{
    let mut lines: Vec<Vec<u8>> = Vec::new();
    let mut offset: usize = 0;
    let len: usize = data.len();
    assert(data@.skip(0) =~= data@);
    assert(lines.deep_view() =~= seq![]);
    assert(lines.deep_view() + complete_lines(data@.skip(0)) =~= complete_lines(data@));
    loop
        invariant
            len == data@.len(),
            offset <= len,
            lines.deep_view() + complete_lines(data@.skip(offset as int)) == complete_lines(data@),
            unfinished(data@.skip(offset as int)) == unfinished(data@),
        ensures
            lines.deep_view() == complete_lines(data@),
            data@.skip(offset as int) == unfinished(data@),
            offset <= len,
        decreases len - offset,
    {
        let ghost rest = data@.skip(offset as int);
        let next: usize = find_line_feed(data, offset);
        if next >= len {
            assert(lines.deep_view() =~= complete_lines(data@));
            break ;
        }
        let ghost done = lines.deep_view();
        let line = text::bytes_from(data.as_slice(), offset, next);
        let ghost l = line@;
        assert(l =~= rest.take(next - offset));
        assert(rest.skip(next - offset + 1) =~= data@.skip(next + 1));
        lines.push(line);
        assert(lines.deep_view() =~= done.push(l)) by {
            assert(line.deep_view() =~= l);
        }
        offset = next + 1;
        assert(done.push(l) + complete_lines(data@.skip(offset as int)) =~= done + (seq![l]
            + complete_lines(data@.skip(offset as int))));
    }
    (lines, offset)
}

impl LineBuffer {
    /// A buffer without data.
    pub fn new() -> (r: LineBuffer)
        ensures
            r@ == Seq::<u8>::empty(),
    {
        LineBuffer { buf: Vec::new() }
    }

    /// Adds data.
    pub fn append(&mut self, data: &[u8])
        ensures
            final(self)@ == old(self)@ + data@,
    {
        self.buf.extend_from_slice(data);
        assert(self@ =~= old(self)@ + data@);
    }

    /// Takes out the complete lines ending in \n, with the \n stripped.
    pub fn take_lines(&mut self) -> (r: Vec<Vec<u8>>)
        ensures
            r.deep_view() == complete_lines(old(self)@),
            final(self)@ == unfinished(old(self)@),
    {
        let (lines, offset) = split_lines(&self.buf);
        let len: usize = self.buf.len();
        self.buf = text::bytes_from(self.buf.as_slice(), offset, len);
        assert(self@ =~= old(self)@.skip(offset as int));
        lines
    }
}

// ---------------------------------------------------------------------------
// Workflow commands
// ---------------------------------------------------------------------------

/// The bytes of a text.
pub open spec fn bytes_of(s: Seq<char>) -> Seq<u8> {
    vstd::utf8::encode_utf8(s)
}

/// What follows a prefix.
pub open spec fn stripped(line: Seq<u8>, prefix: Seq<u8>) -> Option<Seq<u8>> {
    if prefix.len() <= line.len() && line.take(prefix.len() as int) == prefix {
        Some(line.skip(prefix.len() as int))
    } else {
        None
    }
}

/// What the commands of a step have brought about.
#[verifier::ext_equal]
pub struct CommandsView {
    /// The token that ends a stretch without commands, within one.
    pub stop_token: Option<Seq<u8>>,
    /// The outputs of the step.
    pub outputs: Seq<(Seq<char>, Seq<char>)>,
}

/// The name and the value in a command that sets an output.
pub open spec fn output_setting(rest: Seq<u8>) -> Option<(Seq<char>, Seq<char>)> {
    if vstd::utf8::valid_utf8(rest) {
        let s = vstd::utf8::decode_utf8(rest);
        match text::find(s, "::"@) {
            Some(p) => Some((s.take(p), s.skip(p + 2))),
            None => None,
        }
    } else {
        None
    }
}

/// What a line brings about. After `::stop-commands::` and a token nothing is
/// a command until the token comes between double colons.
pub open spec fn after_line(v: CommandsView, line: Seq<u8>) -> CommandsView {
    match v.stop_token {
        Some(token) => if line == bytes_of("::"@) + token + bytes_of("::"@) {
            CommandsView { stop_token: None, ..v }
        } else {
            v
        },
        None => match stripped(line, bytes_of("::stop-commands::"@)) {
            Some(token) => CommandsView { stop_token: Some(token), ..v },
            None => match stripped(line, bytes_of("::set-output name="@)) {
                Some(rest) => match output_setting(rest) {
                    Some((name, value)) => CommandsView {
                        outputs: ordered_map::set(v.outputs, name, value),
                        ..v
                    },
                    None => v,
                },
                None => v,
            },
        },
    }
}

/// What lines bring about.
pub open spec fn after_lines(v: CommandsView, lines: Seq<Seq<u8>>) -> CommandsView
    decreases lines.len(),
{
    if lines.len() == 0 {
        v
    } else {
        after_line(after_lines(v, lines.drop_last()), lines.last())
    }
}

/// What an `OutputFilter` stands for.
#[verifier::ext_equal]
pub struct FilterView {
    /// The start of a line whose end has not come yet.
    pub pending: Seq<u8>,
    /// What the commands have brought about.
    pub commands: CommandsView,
}

/// What data brings about.
pub open spec fn after_data(v: FilterView, data: Seq<u8>) -> FilterView {
    FilterView {
        pending: unfinished(v.pending + data),
        commands: after_lines(v.commands, complete_lines(v.pending + data)),
    }
}

/// Before a step has printed anything.
pub open spec fn nothing_printed() -> FilterView {
    FilterView { pending: seq![], commands: CommandsView { stop_token: None, outputs: seq![] } }
}

/// Reads the workflow commands in what a step prints.
pub struct OutputFilter {
    line_buffer: LineBuffer,
    stop_token: Option<Vec<u8>>,
    outputs: OrderedMap<String>,
}

impl View for OutputFilter {
    type V = FilterView;

    closed spec fn view(&self) -> FilterView {
        FilterView {
            pending: self.line_buffer@,
            commands: CommandsView {
                stop_token: match self.stop_token {
                    Some(token) => Some(token@),
                    None => None,
                },
                outputs: self.outputs.deep_view(),
            },
        }
    }
}

fn strip(line: &Vec<u8>, prefix: &str) -> (r: Option<Vec<u8>>)
    ensures
        match r {
            Some(rest) => stripped(line@, bytes_of(prefix@)) == Some(rest@),
            None => stripped(line@, bytes_of(prefix@)) is None,
        },
{
    let p: &[u8] = prefix.as_bytes();
    let len: usize = p.len();
    if len > line.len() {
        return None;
    }
    let start = text::bytes_from(line.as_slice(), 0, len);
    assert(start@ =~= line@.take(len as int));
    if text::same_bytes(start.as_slice(), p) {
        let rest = text::bytes_from(line.as_slice(), len, line.len());
        assert(rest@ =~= line@.skip(len as int));
        Some(rest)
    } else {
        None
    }
}

impl OutputFilter {
    /// A filter that has seen nothing yet.
    pub fn new() -> (r: OutputFilter)
        ensures
            r@ == nothing_printed(),
    {
        let r = OutputFilter {
            line_buffer: LineBuffer::new(),
            stop_token: None,
            outputs: OrderedMap::new(),
        };
        assert(r.outputs.deep_view() =~= seq![]);
        r
    }

    fn handle_line(&mut self, line: &Vec<u8>)
        ensures
            final(self)@ == (FilterView {
                commands: after_line(old(self)@.commands, line@),
                ..old(self)@
            }),
    {
        let mut ends = false;
        if let Some(token) = &self.stop_token {
            let mut full: Vec<u8> = Vec::new();
            full.extend_from_slice("::".as_bytes());
            full.extend_from_slice(token.as_slice());
            full.extend_from_slice("::".as_bytes());
            assert(full@ =~= bytes_of("::"@) + token@ + bytes_of("::"@));
            if !text::same_bytes(line.as_slice(), full.as_slice()) {
                return ;
            }
            ends = true;
        }
        if ends {
            self.stop_token = None;
            return ;
        }
        if let Some(token) = strip(line, "::stop-commands::") {
            self.stop_token = Some(token);
            return ;
        }
        if let Some(rest) = strip(line, "::set-output name=") {
            if let Some(s) = text::utf8_text(rest.as_slice()) {
                let chars = text::chars_of(s);
                let len: usize = chars.len();
                proof {
                    reveal_strlit("::");
                    assert(s@.skip(0) =~= s@);
                }
                if let Some(p) = text::find_chars(&chars, 0, "::") {
                    let name = text::text_of(&chars, 0, p);
                    let value = text::text_of(&chars, p + 2, len);
                    assert(name@ =~= s@.take(p as int));
                    assert(value@ =~= s@.skip(p + 2));
                    proof {
                        ordered_map::lemma_deep_set(self.outputs.entries(), name@, value);
                    }
                    self.outputs.insert(name, value);
                }
            }
        }
    }

    /// Takes in data that the step printed.
    pub fn filter(&mut self, data: &[u8])
        ensures
            final(self)@ == after_data(old(self)@, data@),
    {
        let ghost start = self@;
        self.line_buffer.append(data);
        let lines = self.line_buffer.take_lines();
        let ghost all = lines.deep_view();
        assert(all.take(0) =~= seq![]);
        for k in 0..lines.len()
            invariant
                all == lines.deep_view(),
                self@ == (FilterView {
                    pending: unfinished(start.pending + data@),
                    commands: after_lines(start.commands, all.take(k as int)),
                }),
        {
            proof {
                assert(all.take(k + 1).drop_last() =~= all.take(k as int));
                assert(lines@[k as int].deep_view() =~= lines@[k as int]@);
                assert(all.take(k + 1).last() == lines@[k as int]@);
            }
            self.handle_line(&lines[k]);
        }
        assert(all.take(all.len() as int) =~= all);
    }

    /// The outputs of the step.
    pub fn into_outputs(self) -> (r: OrderedMap<String>)
        ensures
            r.deep_view() == self@.commands.outputs,
    {
        self.outputs
    }
}

// ---------------------------------------------------------------------------
// Laws
// ---------------------------------------------------------------------------

/// It does not matter in which pieces the output of a step arrives.
pub proof fn law_pieces_do_not_matter(v: FilterView, a: Seq<u8>, b: Seq<u8>)
    ensures
        after_data(after_data(v, a), b) == after_data(v, a + b),
{
    assert(v.pending + (a + b) =~= v.pending + a + b);
    law_lines_of_pieces(v.pending + a, b);
    lemma_after_more(
        v.commands,
        complete_lines(v.pending + a),
        complete_lines(unfinished(v.pending + a) + b),
    );
}

proof fn lemma_after_more(v: CommandsView, a: Seq<Seq<u8>>, b: Seq<Seq<u8>>)
    ensures
        after_lines(v, a + b) == after_lines(after_lines(v, a), b),
    decreases b.len(),
{
    if b.len() == 0 {
        assert(a + b =~= a);
    } else {
        assert((a + b).drop_last() =~= a + b.drop_last());
        lemma_after_more(v, a, b.drop_last());
    }
}

/// Lines that do not start with two colons are no commands.
pub proof fn law_other_lines_are_no_commands(v: CommandsView, line: Seq<u8>)
    requires
        stripped(line, bytes_of("::"@)) is None,
    ensures
        after_line(v, line) == v,
{
    lemma_colon_bytes();
    let colons = bytes_of("::"@);
    if let Some(token) = v.stop_token {
        let full = colons + token + colons;
        assert(full.take(2) =~= colons);
    }
    let stop = bytes_of("::stop-commands::"@);
    let output = bytes_of("::set-output name="@);
    if stripped(line, stop) is Some {
        assert(line.take(2) =~= line.take(stop.len() as int).take(2));
    }
    if stripped(line, output) is Some {
        assert(line.take(2) =~= line.take(output.len() as int).take(2));
    }
}

proof fn lemma_colon_bytes()
    ensures
        bytes_of("::"@).len() == 2,
        bytes_of("::stop-commands::"@).len() >= 2,
        bytes_of("::stop-commands::"@).take(2) == bytes_of("::"@),
        bytes_of("::set-output name="@).len() >= 2,
        bytes_of("::set-output name="@).take(2) == bytes_of("::"@),
        stripped(bytes_of("::set-output name="@), bytes_of("::stop-commands::"@)) is None,
        bytes_of("::set-output name="@)[3] != bytes_of("::stop-commands::"@)[3],
        bytes_of("::set-output name="@).len() > 3,
        bytes_of("::stop-commands::"@).len() > 3,
{
    reveal_strlit("::");
    reveal_strlit("::stop-commands::");
    reveal_strlit("::set-output name=");
    let c = "::"@;
    let a = "::stop-commands::"@;
    let b = "::set-output name="@;
    assert(vstd::utf8::is_ascii_chars(c));
    assert(vstd::utf8::is_ascii_chars(a));
    assert(vstd::utf8::is_ascii_chars(b));
    vstd::utf8::is_ascii_chars_encode_utf8(c);
    vstd::utf8::is_ascii_chars_encode_utf8(a);
    vstd::utf8::is_ascii_chars_encode_utf8(b);
    assert(a[0] == ':' && a[1] == ':' && a[3] == 't');
    assert(b[0] == ':' && b[1] == ':' && b[3] == 'e');
    assert(c[0] == ':' && c[1] == ':');
    assert(bytes_of(a).take(2) =~= bytes_of(c));
    assert(bytes_of(b).take(2) =~= bytes_of(c));
    let x = bytes_of(b);
    let y = bytes_of(a);
    if stripped(x, y) is Some {
        assert(x.take(y.len() as int)[3] == x[3]);
    }
}

/// The bytes of a text are those of its first part and then those of the rest.
pub proof fn lemma_bytes_of_parts(a: Seq<char>, b: Seq<char>)
    ensures
        bytes_of(a + b) == bytes_of(a) + bytes_of(b),
    decreases a.len(),
{
    if a.len() == 0 {
        assert(a + b =~= b);
        assert(bytes_of(a) =~= seq![]);
        assert(bytes_of(a) + bytes_of(b) =~= bytes_of(b));
    } else {
        lemma_bytes_of_parts(a.drop_first(), b);
        assert((a + b).drop_first() =~= a.drop_first() + b);
        assert(bytes_of(a + b) =~= bytes_of(a) + bytes_of(b));
    }
}

/// Where commands are read, a line `::set-output name=` with a name, two colons
/// and a value sets the output of that name to that value.
pub proof fn law_set_output(v: CommandsView, name: Seq<char>, value: Seq<char>)
    requires
        v.stop_token is None,
        text::find(name + "::"@ + value, "::"@) == Some(name.len() as int),
    ensures
        ({
            let line = bytes_of("::set-output name="@ + (name + "::"@ + value));
            after_line(v, line) == CommandsView {
                outputs: ordered_map::set(v.outputs, name, value),
                ..v
            }
        }),
{
    let prefix = "::set-output name="@;
    let stop = bytes_of("::stop-commands::"@);
    let rest = name + "::"@ + value;
    let line = bytes_of(prefix + rest);
    lemma_bytes_of_parts(prefix, rest);
    lemma_colon_bytes();
    assert(line.take(bytes_of(prefix).len() as int) =~= bytes_of(prefix));
    assert(line.skip(bytes_of(prefix).len() as int) =~= bytes_of(rest));
    if stripped(line, stop) is Some {
        assert(line.take(stop.len() as int)[3] == line[3]);
        assert(line[3] == bytes_of(prefix)[3]);
    }
    vstd::utf8::encode_utf8_valid_utf8(rest);
    vstd::utf8::encode_utf8_decode_utf8(rest);
    reveal_strlit("::");
    assert(rest.take(name.len() as int) =~= name);
    assert(rest.skip(name.len() as int + 2) =~= value);
}

/// After `::stop-commands::` and a token, lines bring nothing about until the
/// token comes between double colons; then commands are read again.
pub proof fn law_stop_commands(v: CommandsView, token: Seq<u8>, lines: Seq<Seq<u8>>)
    requires
        v.stop_token is None,
        forall|i: int|
            0 <= i < lines.len() ==> #[trigger] lines[i] != bytes_of("::"@) + token + bytes_of(
                "::"@,
            ),
    ensures
        ({
            let stopped = after_line(v, bytes_of("::stop-commands::"@) + token);
            &&& stopped == CommandsView { stop_token: Some(token), ..v }
            &&& after_lines(stopped, lines) == stopped
            &&& after_line(stopped, bytes_of("::"@) + token + bytes_of("::"@)) == v
        }),
    decreases lines.len(),
{
    let stop = bytes_of("::stop-commands::"@);
    let line = stop + token;
    assert(line.take(stop.len() as int) =~= stop);
    assert(line.skip(stop.len() as int) =~= token);
    let stopped = after_line(v, line);
    if lines.len() > 0 {
        let front = lines.drop_last();
        assert forall|i: int| 0 <= i < front.len() implies #[trigger] front[i] != bytes_of("::"@)
            + token + bytes_of("::"@) by {
            assert(front[i] == lines[i]);
        }
        law_stop_commands(v, token, front);
        assert(lines[lines.len() - 1] == lines.last());
    }
}

/// Lines that were written one behind the other are read as these lines, and what
/// follows the last line feed is not finished yet.
pub proof fn law_lines_are_read_back(lines: Seq<Seq<u8>>, tail: Seq<u8>)
    requires
        forall|k: int, i: int|
            0 <= k < lines.len() && 0 <= i < lines[k].len() ==> #[trigger] lines[k][i] != 10,
        forall|i: int| 0 <= i < tail.len() ==> #[trigger] tail[i] != 10,
    ensures
        complete_lines(rejoined(lines) + tail) == lines,
        unfinished(rejoined(lines) + tail) == tail,
    decreases lines.len(),
{
    let data = rejoined(lines) + tail;
    if lines.len() == 0 {
        assert(data =~= tail);
        lemma_line_len_is(data, data.len() as int);
        assert(complete_lines(data) =~= lines);
    } else {
        let rest = lines.skip(1);
        let n = lines[0].len() as int;
        assert forall|k: int, i: int|
            0 <= k < rest.len() && 0 <= i < rest[k].len() implies #[trigger] rest[k][i] != 10 by {
            assert(rest[k] == lines[k + 1]);
            assert(lines[k + 1][i] != 10);
        }
        law_lines_are_read_back(rest, tail);
        assert forall|i: int| 0 <= i < n implies #[trigger] data[i] != 10 by {
            assert(data[i] == lines[0][i]);
        }
        assert(data[n] == 10);
        lemma_line_len_is(data, n);
        assert(data.take(n) =~= lines[0]);
        assert(data.skip(n + 1) =~= rejoined(rest) + tail);
        assert(complete_lines(data) =~= lines);
    }
}

/// What a step prints is read line by line, one line after the other; a line that
/// is not finished waits for its end.
pub proof fn law_output_is_read_line_by_line(
    v: FilterView,
    lines: Seq<Seq<u8>>,
    line: Seq<u8>,
    tail: Seq<u8>,
)
    requires
        v.pending.len() == 0,
        forall|k: int, i: int|
            0 <= k < lines.len() && 0 <= i < lines[k].len() ==> #[trigger] lines[k][i] != 10,
        forall|i: int| 0 <= i < tail.len() ==> #[trigger] tail[i] != 10,
    ensures
        after_data(v, rejoined(lines) + tail) == (FilterView {
            pending: tail,
            commands: after_lines(v.commands, lines),
        }),
        after_lines(v.commands, Seq::empty()) == v.commands,
        after_lines(v.commands, lines.push(line)) == after_line(
            after_lines(v.commands, lines),
            line,
        ),
{
    law_lines_are_read_back(lines, tail);
    assert(v.pending + (rejoined(lines) + tail) =~= rejoined(lines) + tail);
    assert(lines.push(line).drop_last() =~= lines);
}

/// Of all lines only those that start with `::stop-commands::` or with
/// `::set-output name=` bring anything about, and of the latter only those that are
/// text and have a value behind two colons.
pub proof fn law_only_two_commands_are_known(v: CommandsView, line: Seq<u8>)
    requires
        v.stop_token is None,
        stripped(line, bytes_of("::stop-commands::"@)) is None,
    ensures
        stripped(line, bytes_of("::set-output name="@)) is None ==> after_line(v, line) == v,
        stripped(line, bytes_of("::set-output name="@)) matches Some(rest) ==> (
        !vstd::utf8::valid_utf8(rest) || forall|i: int|
            !text::stands_at(vstd::utf8::decode_utf8(rest), "::"@, i)) ==> after_line(v, line) == v,
{
    if let Some(rest) = stripped(line, bytes_of("::set-output name="@)) {
        text::law_find_is_complete(vstd::utf8::decode_utf8(rest), "::"@);
    }
}

/// A line starts with a prefix exactly when it is the prefix with something behind
/// it, which is what is left of it.
pub proof fn law_stripped(line: Seq<u8>, prefix: Seq<u8>, rest: Seq<u8>)
    ensures
        stripped(prefix + rest, prefix) == Some(rest),
        stripped(line, prefix) matches Some(left) ==> line == prefix + left,
{
    assert((prefix + rest).take(prefix.len() as int) =~= prefix);
    assert((prefix + rest).skip(prefix.len() as int) =~= rest);
    if let Some(left) = stripped(line, prefix) {
        assert(line =~= line.take(prefix.len() as int) + line.skip(prefix.len() as int));
    }
}

/// Before anything is printed there are no outputs, and commands are read.
pub proof fn law_nothing_printed()
    ensures
        nothing_printed().pending.len() == 0,
        nothing_printed().commands.stop_token is None,
        nothing_printed().commands.outputs.len() == 0,
{
}

} // verus!
