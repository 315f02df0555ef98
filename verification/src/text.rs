//! Reading and building text: searching, trimming, comparing and printing
//! numbers, each with its meaning on the sequence of characters it works on.

use vstd::prelude::*;

verus! {

/// `String::push` of the standard library puts one character at the end.
pub assume_specification[ String::push ](s: &mut String, ch: char)
    ensures
        final(s)@ == old(s)@.push(ch),
;

/// `String::push_str` of the standard library puts a text at the end.
pub assume_specification[ String::push_str ](s: &mut String, string: &str)
    ensures
        final(s)@ == old(s)@ + string@,
;

/// `std::str::from_utf8` of the standard library: the text that the bytes
/// encode, and nothing when they are not UTF-8.
#[verifier::external_body]
pub(crate) fn utf8_text(bytes: &[u8]) -> (r: Option<&str>)
    ensures
        r is Some <==> vstd::utf8::valid_utf8(bytes@),
        r matches Some(s) ==> s@ == vstd::utf8::decode_utf8(bytes@),
{
    std::str::from_utf8(bytes).ok()
}

/// What the standard library makes of bytes that need not be UTF-8.
pub uninterp spec fn lossy(bytes: Seq<u8>) -> Seq<char>;

/// `String::from_utf8_lossy` of the standard library: the text that the bytes
/// encode. Where they are not UTF-8, replacement characters stand in it, and
/// nothing more is said of which text it is than that the bytes decide it.
#[verifier::external_body]
pub(crate) fn lossy_text(bytes: &[u8]) -> (r: String)
    ensures
        r@ == lossy(bytes@),
        vstd::utf8::valid_utf8(bytes@) ==> r@ == vstd::utf8::decode_utf8(bytes@),
{
    String::from_utf8_lossy(bytes).into_owned()
}

// ---------------------------------------------------------------------------
// Searching
// ---------------------------------------------------------------------------

/// `pat` stands in `s` at position `i`.
pub open spec fn stands_at<A>(s: Seq<A>, pat: Seq<A>, i: int) -> bool {
    &&& 0 <= i
    &&& i + pat.len() <= s.len()
    &&& s.subrange(i, i + pat.len()) == pat
}

/// `pat` stands in `s` at position `i` and nowhere before it.
pub open spec fn stands_first_at<A>(s: Seq<A>, pat: Seq<A>, i: int) -> bool {
    &&& stands_at(s, pat, i)
    &&& forall|j: int| 0 <= j < i ==> !stands_at(s, pat, j)
}

/// Where `pat` stands first in `s`, if it stands there at all.
pub open spec fn find<A>(s: Seq<A>, pat: Seq<A>) -> Option<int> {
    if exists|i: int| stands_first_at(s, pat, i) {
        Some(choose|i: int| stands_first_at(s, pat, i))
    } else {
        None
    }
}

/// The first position is the only one.
pub proof fn lemma_find_is<A>(s: Seq<A>, pat: Seq<A>, i: int)
    requires
        stands_first_at(s, pat, i),
    ensures
        find(s, pat) == Some(i),
{
    let k = choose|k: int| stands_first_at(s, pat, k);
    assert(stands_first_at(s, pat, k));
}

/// `find` tells whether the pattern occurs: a position comes back exactly when
/// there is one, and then it is the least.
pub proof fn law_find_is_complete<A>(s: Seq<A>, pat: Seq<A>)
    ensures
        find(s, pat) is Some <==> exists|i: int| stands_at(s, pat, i),
        find(s, pat) matches Some(i) ==> stands_first_at(s, pat, i),
{
    if exists|i: int| stands_at(s, pat, i) {
        let i = choose|i: int| stands_at(s, pat, i);
        lemma_least(s, pat, i);
    }
}

proof fn lemma_least<A>(s: Seq<A>, pat: Seq<A>, i: int)
    requires
        stands_at(s, pat, i),
    ensures
        exists|k: int| stands_first_at(s, pat, k),
    decreases i,
{
    if exists|j: int| 0 <= j < i && stands_at(s, pat, j) {
        let j = choose|j: int| 0 <= j < i && stands_at(s, pat, j);
        lemma_least(s, pat, j);
    } else {
        assert(stands_first_at(s, pat, i));
    }
}

/// `pat` stands in `s` at `i`, by comparing element after element.
fn char_match(s: &Vec<char>, pat: &Vec<char>, i: usize) -> (r: bool)
    requires
        i + pat@.len() <= s@.len(),
    ensures
        r == stands_at(s@, pat@, i as int),
{
    let len: usize = s.len();
    for k in 0..pat.len()
        invariant
            i + pat@.len() <= s@.len(),
            len == s@.len(),
            forall|j: int| 0 <= j < k ==> s@[i + j] == pat@[j],
    {
        if s[i + k] != pat[k] {
            assert(s@.subrange(i as int, i + pat@.len())[k as int] != pat@[k as int]);
            return false;
        }
    }
    assert(s@.subrange(i as int, i + pat@.len()) =~= pat@);
    true
}

/// Where `pat` stands first in `s` at or after `from`, as a position in `s`.
pub fn find_chars(s: &Vec<char>, from: usize, pat: &str) -> (r: Option<usize>)
    requires
        from <= s@.len(),
    ensures
        match r {
            Some(i) => from <= i && i + pat@.len() <= s@.len() && find(s@.skip(from as int), pat@) == Some(
                i - from,
            ),
            None => find(s@.skip(from as int), pat@) is None,
        },
{
    let needle = chars_of(pat);
    let ghost rest = s@.skip(from as int);
    if needle.len() > s.len() - from {
        assert(forall|j: int| !stands_at(rest, needle@, j));
        return None;
    }
    let last: usize = s.len() - needle.len();
    let mut i: usize = from;
    while i <= last
        invariant
            from <= i <= last + 1,
            last == s@.len() - needle@.len(),
            rest == s@.skip(from as int),
            from <= s@.len(),
            needle@ == pat@,
            forall|j: int| 0 <= j < i - from ==> !stands_at(rest, needle@, j),
        decreases last + 1 - i,
    {
        assert(rest.subrange(i - from, i - from + needle@.len()) =~= s@.subrange(
            i as int,
            i + needle@.len(),
        ));
        if char_match(s, &needle, i) {
            proof {
                assert(stands_first_at(rest, needle@, i - from));
                lemma_find_is(rest, needle@, i - from);
            }
            return Some(i);
        }
        if i == last {
            assert forall|j: int| !stands_at(rest, needle@, j) by {
                if 0 <= j && j + needle@.len() <= rest.len() {
                    assert(j <= i - from);
                }
            }
            return None;
        }
        i = i + 1;
    }
    None
}

// ---------------------------------------------------------------------------
// Runs of characters of one kind
// ---------------------------------------------------------------------------

/// A set of characters that a parser skips over or collects.
#[derive(Clone, Copy, PartialEq, Eq, Structural)]
pub enum CharClass {
    /// The Unicode `White_Space` property.
    WhiteSpace,
    /// What the name of a context object is made of.
    Identifier,
    /// What the name of a field of a context object is made of.
    Field,
    /// What separates the words of a command line.
    AsciiSpace,
    /// What the words of a command line are made of.
    Word,
}

/// The Unicode `White_Space` property.
pub open spec fn is_white_space(c: char) -> bool {
    let n = c as u32;
    ||| 0x9 <= n <= 0xD
    ||| n == 0x20
    ||| n == 0x85
    ||| n == 0xA0
    ||| n == 0x1680
    ||| 0x2000 <= n <= 0x200A
    ||| n == 0x2028
    ||| n == 0x2029
    ||| n == 0x202F
    ||| n == 0x205F
    ||| n == 0x3000
}

/// Space, tab, line feed, form feed or carriage return.
pub open spec fn is_ascii_space(c: char) -> bool {
    let n = c as u32;
    n == 0x20 || n == 0x9 || n == 0xA || n == 0xC || n == 0xD
}

/// A lower-case ASCII letter.
pub open spec fn is_identifier_char(c: char) -> bool {
    'a' <= c <= 'z'
}

/// An ASCII letter, an ASCII digit or an underscore.
pub open spec fn is_field_char(c: char) -> bool {
    'a' <= c <= 'z' || 'A' <= c <= 'Z' || '0' <= c <= '9' || c == '_'
}

impl CharClass {
    /// The character belongs to the class.
    pub open spec fn has(self, c: char) -> bool {
        match self {
            CharClass::WhiteSpace => is_white_space(c),
            CharClass::Identifier => is_identifier_char(c),
            CharClass::Field => is_field_char(c),
            CharClass::AsciiSpace => is_ascii_space(c),
            CharClass::Word => !is_ascii_space(c),
        }
    }

    /// Whether the character belongs to the class.
    pub fn contains(self, c: char) -> (r: bool)
        ensures
            r == self.has(c),
    {
        let n: u32 = c as u32;
        match self {
            CharClass::WhiteSpace => {
                (0x9 <= n && n <= 0xD) || n == 0x20 || n == 0x85 || n == 0xA0 || n == 0x1680 || (0x2000
                    <= n && n <= 0x200A) || n == 0x2028 || n == 0x2029 || n == 0x202F || n == 0x205F || n
                    == 0x3000
            },
            CharClass::Identifier => 'a' <= c && c <= 'z',
            CharClass::Field => ('a' <= c && c <= 'z') || ('A' <= c && c <= 'Z') || ('0' <= c && c
                <= '9') || c == '_',
            CharClass::AsciiSpace => n == 0x20 || n == 0x9 || n == 0xA || n == 0xC || n == 0xD,
            CharClass::Word => !(n == 0x20 || n == 0x9 || n == 0xA || n == 0xC || n == 0xD),
        }
    }
}

/// How many characters at the start of `s` belong to `class`.
pub open spec fn run_len(s: Seq<char>, class: CharClass) -> nat
    decreases s.len(),
{
    if s.len() > 0 && class.has(s[0]) {
        1 + run_len(s.skip(1), class)
    } else {
        0
    }
}

/// A run is the longest start of the text that stays within the class.
pub proof fn lemma_run_len(s: Seq<char>, class: CharClass)
    ensures
        run_len(s, class) <= s.len(),
        forall|i: int| 0 <= i < run_len(s, class) ==> class.has(#[trigger] s[i]),
        run_len(s, class) < s.len() ==> !class.has(s[run_len(s, class) as int]),
    decreases s.len(),
{
    if s.len() > 0 && class.has(s[0]) {
        lemma_run_len(s.skip(1), class);
        assert forall|i: int| 0 <= i < run_len(s, class) implies class.has(#[trigger] s[i]) by {
            if i > 0 {
                assert(s[i] == s.skip(1)[i - 1]);
            }
        }
    }
}

/// The longest start within the class is the only one that ends where the
/// class ends.
pub proof fn lemma_run_is(s: Seq<char>, class: CharClass, n: int)
    requires
        0 <= n <= s.len(),
        forall|i: int| 0 <= i < n ==> class.has(#[trigger] s[i]),
        n < s.len() ==> !class.has(s[n]),
    ensures
        run_len(s, class) == n,
{
    lemma_run_len(s, class);
    let m = run_len(s, class) as int;
    if m < n {
        assert(class.has(s[m]));
    } else if n < m {
        assert(class.has(s[n]));
    }
}

/// The text behind the white space at its start.
pub open spec fn trim_start(s: Seq<char>) -> Seq<char> {
    s.skip(run_len(s, CharClass::WhiteSpace) as int)
}

/// The text before the white space at its end.
pub open spec fn trim_end(s: Seq<char>) -> Seq<char> {
    s.reverse().skip(run_len(s.reverse(), CharClass::WhiteSpace) as int).reverse()
}

/// The first position at or after `from` that does not belong to `class`.
pub fn run_end(s: &Vec<char>, from: usize, class: CharClass) -> (r: usize)
    requires
        from <= s@.len(),
    ensures
        from <= r <= s@.len(),
        r - from == run_len(s@.skip(from as int), class),
{
    let mut i: usize = from;
    let ghost rest = s@.skip(from as int);
    while i < s.len() && class.contains(s[i])
        invariant
            from <= i <= s@.len(),
            rest == s@.skip(from as int),
            forall|j: int| 0 <= j < i - from ==> class.has(#[trigger] rest[j]),
        decreases s@.len() - i,
    {
        assert(rest[i - from] == s@[i as int]);
        i = i + 1;
    }
    proof {
        if i < s@.len() {
            assert(rest[i - from] == s@[i as int]);
        }
        lemma_run_is(rest, class, i - from);
    }
    i
}

/// The first position at or after `from` that is not white space.
pub fn skip_white_space(s: &Vec<char>, from: usize) -> (r: usize)
    requires
        from <= s@.len(),
    ensures
        from <= r <= s@.len(),
        s@.skip(r as int) == trim_start(s@.skip(from as int)),
{
    let r: usize = run_end(s, from, CharClass::WhiteSpace);
    assert(s@.skip(r as int) =~= s@.skip(from as int).skip(r - from));
    r
}

/// The first position behind the last character that is not white space.
fn white_space_start(s: &Vec<char>, from: usize) -> (r: usize)
    requires
        from <= s@.len(),
    ensures
        from <= r <= s@.len(),
        s@.subrange(from as int, r as int) == trim_end(s@.skip(from as int)),
{
    let ghost rest = s@.skip(from as int);
    let ghost back = rest.reverse();
    let len: usize = s.len();
    let mut end: usize = len;
    while end > from && CharClass::WhiteSpace.contains(s[end - 1])
        invariant
            from <= end <= len,
            len == s@.len(),
            rest == s@.skip(from as int),
            back == rest.reverse(),
            forall|j: int| 0 <= j < len - end ==> CharClass::WhiteSpace.has(#[trigger] back[j]),
        decreases end,
    {
        assert(back[len - end] == s@[end - 1]);
        end = end - 1;
    }
    proof {
        let n = len - end;
        if n < back.len() {
            assert(back[n] == s@[end - 1]);
        }
        lemma_run_is(back, CharClass::WhiteSpace, n);
        assert(s@.subrange(from as int, end as int) =~= trim_end(rest));
    }
    end
}

/// The text without the white space at both ends.
pub fn trimmed(s: &str) -> (r: String)
    ensures
        r@ == trim_end(trim_start(s@)),
{
    let chars = chars_of(s);
    assert(s@.skip(0) =~= s@);
    let start: usize = skip_white_space(&chars, 0);
    let end: usize = white_space_start(&chars, start);
    text_of(&chars, start, end)
}

/// Trimming leaves no white space at the start, and trimming again changes
/// nothing.
pub proof fn law_trim_start_is_final(s: Seq<char>)
    ensures
        trim_start(s).len() > 0 ==> !is_white_space(trim_start(s)[0]),
        trim_start(trim_start(s)) == trim_start(s),
{
    lemma_run_len(s, CharClass::WhiteSpace);
    let t = trim_start(s);
    assert(t.skip(0) =~= t);
    assert(run_len(t, CharClass::WhiteSpace) == 0);
}

// ---------------------------------------------------------------------------
// Copying and comparing
// ---------------------------------------------------------------------------

/// The characters of a text.
pub fn chars_of(s: &str) -> (r: Vec<char>)
    ensures
        r@ == s@,
{
    let mut out: Vec<char> = Vec::new();
    for c in it: s.chars()
        invariant
            out@ == it.seq().take(it.index() as int),
            it.seq() == s@,
    {
        out.push(c);
    }
    out
}

/// The text that the characters from `from` up to `to` make.
pub fn text_of(s: &Vec<char>, from: usize, to: usize) -> (r: String)
    requires
        from <= to <= s@.len(),
    ensures
        r@ == s@.subrange(from as int, to as int),
{
    let mut out: String = String::new();
    for i in from..to
        invariant
            from <= i <= to <= s@.len(),
            out@ == s@.subrange(from as int, i as int),
    {
        out.push(s[i]);
        assert(s@.subrange(from as int, i + 1) =~= s@.subrange(from as int, i as int).push(s@[i as int]));
    }
    out
}

/// Whether two texts are the same.
pub fn same(a: &str, b: &str) -> (r: bool)
    ensures
        r == (a@ == b@),
{
    let x: &[u8] = a.as_bytes();
    let y: &[u8] = b.as_bytes();
    proof {
        vstd::utf8::encode_utf8_decode_utf8(a@);
        vstd::utf8::encode_utf8_decode_utf8(b@);
    }
    same_bytes(x, y)
}

/// Whether two byte strings are the same.
pub fn same_bytes(x: &[u8], y: &[u8]) -> (r: bool)
    ensures
        r == (x@ == y@),
{
    if x.len() != y.len() {
        return false;
    }
    for i in 0..x.len()
        invariant
            x@.len() == y@.len(),
            forall|j: int| 0 <= j < i ==> x@[j] == y@[j],
    {
        if x[i] != y[i] {
            return false;
        }
    }
    assert(x@ =~= y@);
    true
}

/// A copy of a byte string.
pub fn bytes_from(x: &[u8], from: usize, to: usize) -> (r: Vec<u8>)
    requires
        from <= to <= x@.len(),
    ensures
        r@ == x@.subrange(from as int, to as int),
{
    let mut out: Vec<u8> = Vec::new();
    for i in from..to
        invariant
            from <= i <= to <= x@.len(),
            out@ == x@.subrange(from as int, i as int),
    {
        out.push(x[i]);
        assert(x@.subrange(from as int, i + 1) =~= x@.subrange(from as int, i as int).push(x@[i as int]));
    }
    out
}

/// A copy of a list of texts.
pub fn copy_texts(v: &Vec<String>) -> (r: Vec<String>)
    ensures
        r@ == v@,
{
    let mut out: Vec<String> = Vec::new();
    for i in 0..v.len()
        invariant
            out@ == v@.take(i as int),
    {
        out.push(v[i].clone());
        assert(v@.take(i + 1) =~= v@.take(i as int).push(v@[i as int]));
    }
    assert(v@.take(v@.len() as int) =~= v@);
    out
}

/// A copy of a text.
pub fn copy(s: &str) -> (r: String)
    ensures
        r@ == s@,
{
    let mut out: String = String::new();
    out.push_str(s);
    assert(out@ =~= s@);
    out
}

/// Two texts, one behind the other.
pub fn joined(a: &str, b: &str) -> (r: String)
    ensures
        r@ == a@ + b@,
{
    let mut out: String = String::new();
    out.push_str(a);
    out.push_str(b);
    assert(out@ =~= a@ + b@);
    out
}

/// Three texts, one behind the other.
pub fn joined3(a: &str, b: &str, c: &str) -> (r: String)
    ensures
        r@ == a@ + b@ + c@,
{
    let mut out: String = joined(a, b);
    out.push_str(c);
    out
}

/// Texts one behind the other, with a separator between each two.
pub open spec fn join(parts: Seq<Seq<char>>, separator: Seq<char>) -> Seq<char>
    decreases parts.len(),
{
    if parts.len() == 0 {
        seq![]
    } else if parts.len() == 1 {
        parts[0]
    } else {
        join(parts.drop_last(), separator) + separator + parts.last()
    }
}

// ---------------------------------------------------------------------------
// Numbers in print
// ---------------------------------------------------------------------------

/// The decimal digits of a natural number, without leading zeros.
pub open spec fn digits(n: nat) -> Seq<char>
    decreases n,
{
    if n < 10 {
        seq![(48 + n) as char]
    } else {
        digits(n / 10).push((48 + n % 10) as char)
    }
}

/// A whole number in decimal, with a minus sign in front if it is negative.
pub open spec fn decimal(n: int) -> Seq<char> {
    if n < 0 {
        seq!['-'] + digits((-n) as nat)
    } else {
        digits(n as nat)
    }
}

fn push_digits(out: &mut String, n: u64)
    ensures
        final(out)@ == old(out)@ + digits(n as nat),
    decreases n,
{
    let ghost before = out@;
    if n >= 10 {
        push_digits(out, n / 10);
    }
    let d: u8 = (n % 10) as u8;
    out.push((48 + d) as char);
    assert(out@ =~= before + digits(n as nat));
}

/// An unsigned number in decimal.
pub fn decimal_u64(n: u64) -> (r: String)
    ensures
        r@ == decimal(n as int),
{
    let mut out: String = String::new();
    push_digits(&mut out, n);
    assert(out@ =~= digits(n as nat));
    out
}

/// A signed number in decimal.
pub fn decimal_i64(n: i64) -> (r: String)
    ensures
        r@ == decimal(n as int),
{
    let mut out: String = String::new();
    if n < 0 {
        out.push('-');
        let m: u64 = (-(n as i128)) as u64;
        push_digits(&mut out, m);
        assert(out@ =~= seq!['-'] + digits(m as nat));
    } else {
        push_digits(&mut out, n as u64);
        assert(out@ =~= digits(n as nat));
    }
    out
}

// ---------------------------------------------------------------------------
// Laws
// ---------------------------------------------------------------------------

/// The number that a row of digits stands for.
pub open spec fn value_of_digits(s: Seq<char>) -> int
    decreases s.len(),
{
    if s.len() == 0 {
        0
    } else {
        10 * value_of_digits(s.drop_last()) + (s.last() as int - '0' as int)
    }
}

/// A number in print is the row of its digits, without zeros in front, and
/// behind a minus sign where it is negative.
pub proof fn law_decimal(n: int)
    ensures
        n >= 0 ==> {
            &&& decimal(n).len() > 0
            &&& forall|i: int| 0 <= i < decimal(n).len() ==> '0' <= #[trigger] decimal(n)[i] <= '9'
            &&& value_of_digits(decimal(n)) == n
            &&& decimal(n).len() > 1 ==> decimal(n)[0] != '0'
        },
        n < 0 ==> decimal(n) == seq!['-'] + decimal(-n),
{
    if n >= 0 {
        lemma_digits(n as nat);
    }
}

proof fn lemma_digits(n: nat)
    ensures
        digits(n).len() > 0,
        forall|i: int| 0 <= i < digits(n).len() ==> '0' <= #[trigger] digits(n)[i] <= '9',
        value_of_digits(digits(n)) == n,
        n > 0 ==> digits(n)[0] != '0',
        digits(n).len() > 1 ==> n > 0,
    decreases n,
{
    reveal_with_fuel(value_of_digits, 2);
    if n >= 10 {
        lemma_digits(n / 10);
        let front = digits(n / 10);
        assert(digits(n).drop_last() =~= front);
        assert forall|i: int| 0 <= i < digits(n).len() implies '0' <= #[trigger] digits(n)[i]
            <= '9' by {
            if i < front.len() {
                assert(digits(n)[i] == front[i]);
            }
        }
        assert(digits(n)[0] == front[0]);
    } else {
        let c = (48 + n) as char;
        assert(digits(n) =~= seq![c]);
        assert(digits(n).drop_last() =~= seq![]);
    }
}

/// Different numbers are printed differently.
pub proof fn law_numbers_in_print_differ(a: nat, b: nat)
    requires
        decimal(a as int) == decimal(b as int),
    ensures
        a == b,
{
    law_decimal(a as int);
    law_decimal(b as int);
}

/// Texts that are joined stand one behind the other, with the separator between
/// each two of them and nowhere else.
pub proof fn law_join(parts: Seq<Seq<char>>, part: Seq<char>, separator: Seq<char>)
    ensures
        join(Seq::empty(), separator) == Seq::<char>::empty(),
        join(parts.push(part), separator) == (if parts.len() == 0 {
            part
        } else {
            join(parts, separator) + separator + part
        }),
{
    assert(parts.push(part).drop_last() =~= parts);
}

/// Trimming takes white space away from the ends and nothing else: what is left
/// is a stretch of the text that neither starts nor ends with white space, and
/// all before and behind it is white space.
pub proof fn law_trimmed(s: Seq<char>)
    ensures
        ({
            let t = trim_end(trim_start(s));
            &&& exists|a: int, b: int|
                #![trigger s.subrange(a, b)]
                {
                    &&& 0 <= a <= b <= s.len()
                    &&& t == s.subrange(a, b)
                    &&& forall|i: int| 0 <= i < a || b <= i < s.len() ==> is_white_space(#[trigger] s[i])
                }
            &&& t.len() > 0 ==> !is_white_space(t[0]) && !is_white_space(t.last())
        }),
{
    let a = run_len(s, CharClass::WhiteSpace) as int;
    lemma_run_len(s, CharClass::WhiteSpace);
    let rest = trim_start(s);
    let back = rest.reverse();
    let n = run_len(back, CharClass::WhiteSpace) as int;
    lemma_run_len(back, CharClass::WhiteSpace);
    let b = s.len() - n;
    let t = trim_end(rest);
    assert(t =~= s.subrange(a, b));
    assert forall|i: int| 0 <= i < a || b <= i < s.len() implies is_white_space(
        #[trigger] s[i],
    ) by {
        if i >= a {
            assert(s[i] == back[s.len() - 1 - i]);
        } else {
            assert(CharClass::WhiteSpace.has(s[i]));
        }
    }
    if t.len() > 0 {
        assert(t[0] == s[a]);
        assert(t.last() == back[n]);
    }
}

/// A context object is named by small letters, its fields by letters, digits and
/// underscores, and neither is white space.
pub proof fn law_characters_of_names(c: char)
    ensures
        CharClass::Identifier.has(c) <==> "abcdefghijklmnopqrstuvwxyz"@.contains(c),
        CharClass::Field.has(c)
            <==> "abcdefghijklmnopqrstuvwxyzABCDEFGHIJKLMNOPQRSTUVWXYZ0123456789_"@.contains(c),
        CharClass::Field.has(c) ==> !is_white_space(c) && !is_ascii_space(c),
        CharClass::AsciiSpace.has(c) <==> !CharClass::Word.has(c),
        CharClass::AsciiSpace.has(c) ==> CharClass::WhiteSpace.has(c),
        CharClass::AsciiSpace.has(c) <==> c == ' ' || c == '\t' || c == '\n' || c == '\r' || c
            == '\u{c}',
{
    let small = "abcdefghijklmnopqrstuvwxyz"@;
    let all = "abcdefghijklmnopqrstuvwxyzABCDEFGHIJKLMNOPQRSTUVWXYZ0123456789_"@;
    reveal_strlit("abcdefghijklmnopqrstuvwxyz");
    reveal_strlit("abcdefghijklmnopqrstuvwxyzABCDEFGHIJKLMNOPQRSTUVWXYZ0123456789_");
    if 'a' <= c <= 'z' {
        assert(small[c as int - 'a' as int] == c);
        assert(all[c as int - 'a' as int] == c);
    }
    if 'A' <= c <= 'Z' {
        assert(all[26 + c as int - 'A' as int] == c);
    }
    if '0' <= c <= '9' {
        assert(all[52 + c as int - '0' as int] == c);
    }
    assert(all[62] == '_');
    assert(forall|i: int| 0 <= i < small.len() ==> 'a' <= #[trigger] small[i] <= 'z');
    assert(forall|i: int| 0 <= i < all.len() ==> is_field_char(#[trigger] all[i]));
}

} // verus!
