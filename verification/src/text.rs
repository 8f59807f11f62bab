//! Text as sequences of characters: the slicing that the parsers are made of.
//!
//! Every function here works on characters, never on bytes, and is proved against a
//! short description of its result as a sequence.

use vstd::prelude::*;

verus! {

/// Trusted: `String::push` appends one character to the end of the string.
pub assume_specification[ String::push ](s: &mut String, ch: char)
    ensures
        final(s)@ == old(s)@.push(ch),
;

/// The texts that a vector of character vectors holds.
pub open spec fn pieces(v: Seq<Vec<char>>) -> Seq<Seq<char>> {
    v.map_values(|x: Vec<char>| x@)
}

/// The texts that a vector of strings holds.
pub open spec fn texts(v: Seq<String>) -> Seq<Seq<char>> {
    v.map_values(|x: String| x@)
}

/// The texts that a slice of string slices holds.
pub open spec fn slices(v: Seq<&str>) -> Seq<Seq<char>> {
    v.map_values(|x: &str| x@)
}

/// Unicode's `White_Space` property.
pub open spec fn is_space(c: char) -> bool {
    ||| '\u{9}' <= c <= '\u{D}'
    ||| c == ' '
    ||| c == '\u{85}'
    ||| c == '\u{A0}'
    ||| c == '\u{1680}'
    ||| '\u{2000}' <= c <= '\u{200A}'
    ||| c == '\u{2028}'
    ||| c == '\u{2029}'
    ||| c == '\u{202F}'
    ||| c == '\u{205F}'
    ||| c == '\u{3000}'
}

/// `s` without the white space it starts with.
pub open spec fn trimmed_start(s: Seq<char>) -> Seq<char>
    decreases s.len(),
{
    if s.len() > 0 && is_space(s[0]) {
        trimmed_start(s.drop_first())
    } else {
        s
    }
}

/// `s` without the white space it ends with.
pub open spec fn trimmed_end(s: Seq<char>) -> Seq<char>
    decreases s.len(),
{
    if s.len() > 0 && is_space(s.last()) {
        trimmed_end(s.drop_last())
    } else {
        s
    }
}

/// `s` without the white space around it.
pub open spec fn trimmed(s: Seq<char>) -> Seq<char> {
    trimmed_end(trimmed_start(s))
}

/// The index of the first `c` in `s`, or the length of `s` where there is none.
pub open spec fn first(s: Seq<char>, c: char) -> int
    decreases s.len(),
{
    if s.len() == 0 || s[0] == c {
        0
    } else {
        1 + first(s.drop_first(), c)
    }
}

/// What stands before and after the first `c` in `s`.
pub open spec fn split_at_first(s: Seq<char>, c: char) -> Option<(Seq<char>, Seq<char>)> {
    if first(s, c) < s.len() {
        Some((s.take(first(s, c)), s.skip(first(s, c) + 1)))
    } else {
        None
    }
}

/// What follows the last `c` in `s`, or all of `s` where there is none.
pub open spec fn after_last(s: Seq<char>, c: char) -> Seq<char>
    decreases s.len(),
{
    if s.len() == 0 {
        s
    } else if s.last() == c {
        Seq::empty()
    } else {
        after_last(s.drop_last(), c).push(s.last())
    }
}

/// Whether `p` stands in `s` at index `i`.
pub open spec fn stands_at(s: Seq<char>, p: Seq<char>, i: int) -> bool {
    0 <= i && i + p.len() <= s.len() && s.subrange(i, i + p.len()) == p
}

/// Whether `p` stands anywhere in `s`.
pub open spec fn has_text(s: Seq<char>, p: Seq<char>) -> bool {
    exists|i: int| stands_at(s, p, i)
}

/// Whether `s` starts with `p`.
pub open spec fn has_prefix(s: Seq<char>, p: Seq<char>) -> bool {
    stands_at(s, p, 0)
}

/// `line` without one carriage return at its end.
pub open spec fn without_cr(line: Seq<char>) -> Seq<char> {
    if line.len() > 0 && line.last() == '\r' {
        line.drop_last()
    } else {
        line
    }
}

/// The lines of `s`: each ends at a line feed, which may have a carriage return before it;
/// the last one may end at the end of the text instead.
pub open spec fn lines_of(s: Seq<char>) -> Seq<Seq<char>>
    decreases s.len(),
    via lines_of_decreases
{
    if s.len() == 0 {
        Seq::empty()
    } else if first(s, '\n') >= s.len() {
        seq![s]
    } else {
        seq![without_cr(s.take(first(s, '\n')))] + lines_of(s.skip(first(s, '\n') + 1))
    }
}

#[via_fn]
proof fn lines_of_decreases(s: Seq<char>) {
    lemma_first(s, '\n');
}

/// The lines of `s` with all that stands before their line feeds, carriage returns among it; the
/// last one may end at the end of the text instead.
pub open spec fn raw_lines_of(s: Seq<char>) -> Seq<Seq<char>>
    decreases s.len(),
    via raw_lines_of_decreases
{
    if s.len() == 0 {
        Seq::empty()
    } else if first(s, '\n') >= s.len() {
        seq![s]
    } else {
        seq![s.take(first(s, '\n'))] + raw_lines_of(s.skip(first(s, '\n') + 1))
    }
}

#[via_fn]
proof fn raw_lines_of_decreases(s: Seq<char>) {
    lemma_first(s, '\n');
}

/// Whether the last line of `s` lacks its line feed.
pub open spec fn is_unended(s: Seq<char>) -> bool {
    s.len() > 0 && s.last() != '\n'
}

/// Whether no text holds the character.
pub open spec fn all_lack(v: Seq<Seq<char>>, c: char) -> bool {
    forall|i: int| 0 <= i < v.len() ==> !(#[trigger] v[i]).contains(c)
}

/// The length of the word that `s` starts with.
pub open spec fn word_len(s: Seq<char>) -> int
    decreases s.len(),
{
    if s.len() == 0 || is_space(s[0]) {
        0
    } else {
        1 + word_len(s.drop_first())
    }
}

/// The words of `s`: its longest runs without white space.
pub open spec fn words_of(s: Seq<char>) -> Seq<Seq<char>>
    decreases s.len(),
    via words_of_decreases
{
    let t = trimmed_start(s);
    if t.len() == 0 {
        Seq::empty()
    } else {
        seq![t.take(word_len(t))] + words_of(t.skip(word_len(t)))
    }
}

#[via_fn]
proof fn words_of_decreases(s: Seq<char>) {
    lemma_trimmed_start(s);
    lemma_word_len(trimmed_start(s));
}

/// The length in bytes of one character in UTF-8.
pub open spec fn utf8_width(c: char) -> nat {
    if (c as u32) < 0x80 {
        1
    } else if (c as u32) < 0x800 {
        2
    } else if (c as u32) < 0x10000 {
        3
    } else {
        4
    }
}

/// The length in bytes of `s` in UTF-8.
pub open spec fn utf8_len(s: Seq<char>) -> nat
    decreases s.len(),
{
    if s.len() == 0 {
        0
    } else {
        utf8_len(s.drop_last()) + utf8_width(s.last())
    }
}

/// `n` spaces.
pub open spec fn spaces(n: nat) -> Seq<char> {
    Seq::new(n, |i: int| ' ')
}

/// `s` with spaces in front, so that it has at least `n` characters.
pub open spec fn right_aligned(s: Seq<char>, n: nat) -> Seq<char> {
    if s.len() >= n {
        s
    } else {
        spaces((n - s.len()) as nat) + s
    }
}

/// `s` with spaces behind, so that it has at least `n` characters.
pub open spec fn left_aligned(s: Seq<char>, n: nat) -> Seq<char> {
    if s.len() >= n {
        s
    } else {
        s + spaces((n - s.len()) as nat)
    }
}

/// The texts of `v` one after the other, with `sep` between them.
pub open spec fn joined(v: Seq<Seq<char>>, sep: Seq<char>) -> Seq<char>
    decreases v.len(),
{
    if v.len() == 0 {
        Seq::empty()
    } else if v.len() == 1 {
        v[0]
    } else {
        joined(v.drop_last(), sep) + sep + v.last()
    }
}

/// Trimming the start takes away white space only, and all of it.
pub proof fn lemma_trimmed_start(s: Seq<char>)
    ensures
        trimmed_start(s).len() <= s.len(),
        trimmed_start(s) == s.skip(s.len() - trimmed_start(s).len()),
        forall|i: int| 0 <= i < s.len() - trimmed_start(s).len() ==> is_space(#[trigger] s[i]),
        trimmed_start(s).len() > 0 ==> !is_space(trimmed_start(s)[0]),
    decreases s.len(),
{
    if s.len() > 0 && is_space(s[0]) {
        let t = s.drop_first();
        lemma_trimmed_start(t);
        assert(t.skip(t.len() - trimmed_start(t).len()) == s.skip(
            s.len() - trimmed_start(t).len(),
        ));
        assert forall|i: int| 0 <= i < s.len() - trimmed_start(s).len() implies is_space(
            #[trigger] s[i],
        ) by {
            if i > 0 {
                assert(s[i] == t[i - 1]);
            }
        }
    } else {
        assert(s.skip(0) == s);
    }
}

/// Nothing before the first `c` is one.
pub proof fn lemma_first(s: Seq<char>, c: char)
    ensures
        0 <= first(s, c) <= s.len(),
        first(s, c) < s.len() ==> s[first(s, c)] == c,
        forall|i: int| 0 <= i < first(s, c) ==> #[trigger] s[i] != c,
    decreases s.len(),
{
    if s.len() > 0 && s[0] != c {
        let t = s.drop_first();
        lemma_first(t, c);
        assert forall|i: int| 0 <= i < first(s, c) implies #[trigger] s[i] != c by {
            if i > 0 {
                assert(s[i] == t[i - 1]);
            }
        }
    }
}

/// What `first` is where an index is known to be the first.
pub proof fn lemma_first_is(s: Seq<char>, c: char, n: int)
    requires
        0 <= n <= s.len(),
        n < s.len() ==> s[n] == c,
        forall|i: int| 0 <= i < n ==> #[trigger] s[i] != c,
    ensures
        first(s, c) == n,
{
    lemma_first(s, c);
    if first(s, c) < n {
        assert(s[first(s, c)] != c);
    } else if n < first(s, c) {
        assert(s[n] != c);
    }
}

/// A word reaches up to the white space behind it.
pub proof fn lemma_word_len(s: Seq<char>)
    ensures
        0 <= word_len(s) <= s.len(),
        word_len(s) < s.len() ==> is_space(s[word_len(s)]),
        forall|i: int| 0 <= i < word_len(s) ==> !is_space(#[trigger] s[i]),
        s.len() > 0 && !is_space(s[0]) ==> word_len(s) > 0,
    decreases s.len(),
{
    if s.len() > 0 && !is_space(s[0]) {
        let t = s.drop_first();
        lemma_word_len(t);
        assert forall|i: int| 0 <= i < word_len(s) implies !is_space(#[trigger] s[i]) by {
            if i > 0 {
                assert(s[i] == t[i - 1]);
            }
        }
    }
}

/// Joined texts are the first one and the rest joined.
pub proof fn lemma_joined_front(v: Seq<Seq<char>>, sep: Seq<char>)
    requires
        v.len() >= 2,
    ensures
        joined(v, sep) == v[0] + sep + joined(v.drop_first(), sep),
    decreases v.len(),
{
    if v.len() == 2 {
        assert(v.drop_last() == seq![v[0]]);
        assert(v.drop_first() == seq![v[1]]);
        assert(joined(seq![v[0]], sep) == v[0]);
        assert(joined(seq![v[1]], sep) == v[1]);
    } else {
        lemma_joined_front(v.drop_last(), sep);
        assert(v.drop_last().drop_first() == v.drop_first().drop_last());
        assert(joined(v, sep) =~= v[0] + sep + joined(v.drop_first(), sep));
    }
}

/// Where the first separator is in joined texts that lack it.
proof fn lemma_first_of_joined(v: Seq<Seq<char>>, c: char)
    requires
        v.len() > 0,
        all_lack(v, c),
    ensures
        ({
            let s = joined(v, seq![c]);
            &&& first(s, c) == v[0].len()
            &&& s.take(v[0].len() as int) == v[0]
            &&& v[0].len() < s.len() <==> v.len() > 1
            &&& v.len() > 1 ==> s.skip(v[0].len() as int + 1) == joined(v.drop_first(), seq![c])
        }),
{
    let s = joined(v, seq![c]);
    let n = v[0].len() as int;
    if v.len() > 1 {
        lemma_joined_front(v, seq![c]);
        assert(s.skip(n + 1) =~= joined(v.drop_first(), seq![c]));
    }
    assert(s.take(n) =~= v[0]);
    assert forall|i: int| 0 <= i < n implies #[trigger] s[i] != c by {
        assert(s[i] == v[0][i]);
    }
    lemma_first_is(s, c, n);
}

/// Texts without a separator are the same if they are when they are joined with it.
pub proof fn lemma_joined_tells_apart(a: Seq<Seq<char>>, b: Seq<Seq<char>>, c: char)
    requires
        a.len() > 0,
        b.len() > 0,
        all_lack(a, c),
        all_lack(b, c),
        joined(a, seq![c]) == joined(b, seq![c]),
    ensures
        a == b,
    decreases a.len(),
{
    lemma_first_of_joined(a, c);
    lemma_first_of_joined(b, c);
    assert(a[0] =~= b[0]);
    if a.len() == 1 {
        assert(a =~= b);
    } else {
        let x = a.drop_first();
        let y = b.drop_first();
        assert forall|i: int| 0 <= i < x.len() implies !(#[trigger] x[i]).contains(c) by {
            assert(x[i] == a[i + 1]);
        }
        assert forall|i: int| 0 <= i < y.len() implies !(#[trigger] y[i]).contains(c) by {
            assert(y[i] == b[i + 1]);
        }
        lemma_joined_tells_apart(x, y, c);
        assert(a =~= seq![a[0]] + x);
        assert(b =~= seq![b[0]] + y);
    }
}

/// A text is its lines, joined by line feeds, with one more at the end if the last line has it.
pub proof fn law_raw_lines_join_back(s: Seq<char>)
    requires
        s.len() > 0,
    ensures
        raw_lines_of(s).len() > 0,
        all_lack(raw_lines_of(s), '\n'),
        is_unended(s) ==> raw_lines_of(s).last().len() > 0,
        s == joined(raw_lines_of(s), seq!['\n']) + if is_unended(s) {
            Seq::empty()
        } else {
            seq!['\n']
        },
    decreases s.len(),
{
    let n = first(s, '\n');
    let v = raw_lines_of(s);
    lemma_first(s, '\n');
    if n >= s.len() {
        assert(joined(v, seq!['\n']) == s);
        assert(s + Seq::<char>::empty() =~= s);
        assert(is_unended(s));
    } else {
        let rest = s.skip(n + 1);
        let line = s.take(n);
        assert(line.push('\n') + rest =~= s);
        if rest.len() == 0 {
            assert(raw_lines_of(rest) =~= Seq::<Seq<char>>::empty());
            assert(v =~= seq![line]);
            assert(s =~= line + seq!['\n']);
        } else {
            law_raw_lines_join_back(rest);
            assert(v.drop_first() =~= raw_lines_of(rest));
            lemma_joined_front(v, seq!['\n']);
            assert(rest.last() == s.last());
            assert(v.last() == raw_lines_of(rest).last());
            assert(s =~= joined(v, seq!['\n']) + if is_unended(s) {
                Seq::empty()
            } else {
                seq!['\n']
            });
        }
        assert forall|i: int| 0 <= i < v.len() implies !(#[trigger] v[i]).contains('\n') by {
            if i > 0 {
                assert(v[i] == raw_lines_of(rest)[i - 1]);
            }
        }
    }
}

/// Lines that are joined by line feeds are the lines of the text that they make.
pub proof fn law_raw_lines_of_joined(v: Seq<Seq<char>>)
    requires
        v.len() > 0,
        all_lack(v, '\n'),
    ensures
        raw_lines_of(joined(v, seq!['\n']) + seq!['\n']) == v,
        v.last().len() > 0 ==> raw_lines_of(joined(v, seq!['\n'])) == v,
    decreases v.len(),
{
    let s = joined(v, seq!['\n']);
    let e = s + seq!['\n'];
    let n = v[0].len() as int;
    lemma_first_of_joined(v, '\n');
    lemma_first(s, '\n');
    assert(e.take(n) =~= v[0]);
    assert forall|i: int| 0 <= i < n implies #[trigger] e[i] != '\n' by {
        assert(e[i] == s[i]);
    }
    if v.len() == 1 {
        lemma_first_is(e, '\n', n);
        assert(e.skip(n + 1) =~= Seq::<char>::empty());
        assert(raw_lines_of(Seq::<char>::empty()) =~= Seq::<Seq<char>>::empty());
        assert(raw_lines_of(e) =~= v);
        assert(seq![s] =~= v);
    } else {
        let x = v.drop_first();
        lemma_first_is(e, '\n', n);
        assert(e.skip(n + 1) =~= joined(x, seq!['\n']) + seq!['\n']);
        assert forall|i: int| 0 <= i < x.len() implies !(#[trigger] x[i]).contains('\n') by {
            assert(x[i] == v[i + 1]);
        }
        law_raw_lines_of_joined(x);
        assert(v =~= seq![v[0]] + x);
    }
}

/// A line is what stands before its line feed, without a carriage return at its end or with it.
pub proof fn lemma_lines_and_raw_lines(s: Seq<char>)
    ensures
        lines_of(s).len() == raw_lines_of(s).len(),
        forall|i: int|
            0 <= i < lines_of(s).len() ==> #[trigger] lines_of(s)[i] == raw_lines_of(s)[i]
                || lines_of(s)[i] == without_cr(raw_lines_of(s)[i]),
    decreases s.len(),
{
    lemma_first(s, '\n');
    let n = first(s, '\n');
    if n < s.len() {
        let rest = s.skip(n + 1);
        lemma_lines_and_raw_lines(rest);
        assert forall|i: int| 0 <= i < lines_of(s).len() implies #[trigger] lines_of(s)[i]
            == raw_lines_of(s)[i] || lines_of(s)[i] == without_cr(raw_lines_of(s)[i]) by {
            if i > 0 {
                assert(lines_of(s)[i] == lines_of(rest)[i - 1]);
                assert(raw_lines_of(s)[i] == raw_lines_of(rest)[i - 1]);
            }
        }
    }
}

/// There are no more lines than characters.
pub proof fn lemma_lines_len(s: Seq<char>)
    ensures
        lines_of(s).len() <= s.len(),
    decreases s.len(),
{
    lemma_first(s, '\n');
    if first(s, '\n') < s.len() {
        lemma_lines_len(s.skip(first(s, '\n') + 1));
    }
}

/// One more character takes its own bytes more.
pub proof fn lemma_utf8_len_push(s: Seq<char>, c: char)
    ensures
        utf8_len(s.push(c)) == utf8_len(s) + utf8_width(c),
{
    assert(s.push(c).drop_last() == s);
}

/// The characters of a string.
pub fn chars_of(s: &str) -> (out: Vec<char>)
    ensures
        out@ == s@,
{
    let mut out: Vec<char> = Vec::new();
    for c in it: s.chars()
        invariant
            it.seq() == s@,
            out@ == s@.take(it.index()),
    {
        out.push(c);
    }
    out
}

/// Appends characters to a string.
pub fn append_chars(out: &mut String, s: &[char])
    ensures
        final(out)@ == old(out)@ + s@,
{
    for i in 0..s.len()
        invariant
            out@ == old(out)@ + s@.take(i as int),
    {
        out.push(s[i]);
        assert(s@.take(i + 1) == s@.take(i as int).push(s@[i as int]));
    }
    assert(s@.take(s@.len() as int) == s@);
}

/// The string that consists of the given characters.
pub fn string_of(s: &[char]) -> (out: String)
    ensures
        out@ == s@,
{
    let mut out = String::new();
    append_chars(&mut out, s);
    assert(out@ == s@);
    out
}

/// A copy of the given characters.
pub fn copy_of(s: &[char]) -> (out: Vec<char>)
    ensures
        out@ == s@,
{
    let mut out: Vec<char> = Vec::new();
    for i in 0..s.len()
        invariant
            out@ == s@.take(i as int),
    {
        out.push(s[i]);
        assert(s@.take(i + 1) == s@.take(i as int).push(s@[i as int]));
    }
    assert(s@.take(s@.len() as int) == s@);
    out
}

/// Whether a character is white space.
pub fn is_whitespace(c: char) -> (r: bool)
    ensures
        r == is_space(c),
{
    ('\u{9}' <= c && c <= '\u{D}') || c == ' ' || c == '\u{85}' || c == '\u{A0}' || c == '\u{1680}'
        || ('\u{2000}' <= c && c <= '\u{200A}') || c == '\u{2028}' || c == '\u{2029}' || c
        == '\u{202F}' || c == '\u{205F}' || c == '\u{3000}'
}

/// Drops the white space at the start.
pub fn trim_start(s: &[char]) -> (r: &[char])
    ensures
        r@ == trimmed_start(s@),
{
    let mut i: usize = 0;
    assert(s@.skip(0) == s@);
    while i < s.len() && is_whitespace(s[i])
        invariant
            0 <= i <= s@.len(),
            trimmed_start(s@) == trimmed_start(s@.skip(i as int)),
        decreases s@.len() - i,
    {
        assert(s@.skip(i as int).drop_first() == s@.skip(i + 1));
        i += 1;
    }
    assert(s@.subrange(i as int, s@.len() as int) == s@.skip(i as int));
    &s[i..s.len()]
}

/// Drops the white space at the end.
pub fn trim_end(s: &[char]) -> (r: &[char])
    ensures
        r@ == trimmed_end(s@),
{
    let mut n: usize = s.len();
    assert(s@.take(n as int) == s@);
    while n > 0 && is_whitespace(s[n - 1])
        invariant
            0 <= n <= s@.len(),
            trimmed_end(s@) == trimmed_end(s@.take(n as int)),
        decreases n,
    {
        assert(s@.take(n as int).drop_last() == s@.take(n - 1));
        n -= 1;
    }
    assert(s@.subrange(0, n as int) == s@.take(n as int));
    &s[0..n]
}

/// Drops the white space at both ends.
pub fn trim(s: &[char]) -> (r: &[char])
    ensures
        r@ == trimmed(s@),
{
    trim_end(trim_start(s))
}

/// The index of the first `c`, or the length where there is none.
pub fn find(s: &[char], c: char) -> (r: usize)
    ensures
        r as int == first(s@, c),
        r <= s@.len(),
{
    let mut i: usize = 0;
    while i < s.len() && s[i] != c
        invariant
            0 <= i <= s@.len(),
            forall|j: int| 0 <= j < i ==> #[trigger] s@[j] != c,
        decreases s@.len() - i,
    {
        i += 1;
    }
    proof {
        lemma_first_is(s@, c, i as int);
    }
    i
}

/// Splits at the first `c`, which neither part holds.
pub fn split_once(s: &[char], c: char) -> (r: Option<(&[char], &[char])>)
    ensures
        r is Some <==> split_at_first(s@, c) is Some,
        r matches Some((a, b)) ==> split_at_first(s@, c) == Some((a@, b@)),
{
    let i: usize = find(s, c);
    if i < s.len() {
        assert(s@.subrange(0, i as int) == s@.take(i as int));
        assert(s@.subrange(i + 1, s@.len() as int) == s@.skip(i + 1));
        Some((&s[0..i], &s[i + 1..s.len()]))
    } else {
        None
    }
}

/// What follows the last `c`, or everything where there is none.
pub fn tail_after(s: &[char], c: char) -> (r: &[char])
    ensures
        r@ == after_last(s@, c),
{
    let mut n: usize = s.len();
    assert(s@.take(n as int) == s@);
    assert(s@.skip(n as int) == Seq::<char>::empty());
    while n > 0 && s[n - 1] != c
        invariant
            0 <= n <= s@.len(),
            after_last(s@, c) == after_last(s@.take(n as int), c) + s@.skip(n as int),
        decreases n,
    {
        assert(s@.take(n as int).drop_last() == s@.take(n - 1));
        assert(after_last(s@.take(n - 1), c).push(s@[n - 1]) + s@.skip(n as int) == after_last(
            s@.take(n - 1),
            c,
        ) + s@.skip(n - 1));
        n -= 1;
    }
    assert(after_last(s@.take(n as int), c) == Seq::<char>::empty());
    assert(s@.subrange(n as int, s@.len() as int) == s@.skip(n as int));
    &s[n..s.len()]
}

/// Whether two texts are the same.
pub fn same(a: &[char], b: &[char]) -> (r: bool)
    ensures
        r == (a@ == b@),
{
    if a.len() != b.len() {
        return false;
    }
    let mut i: usize = 0;
    while i < a.len()
        invariant
            0 <= i <= a@.len(),
            a@.len() == b@.len(),
            forall|j: int| 0 <= j < i ==> #[trigger] a@[j] == b@[j],
        decreases a@.len() - i,
    {
        if a[i] != b[i] {
            return false;
        }
        i += 1;
    }
    assert(a@ =~= b@);
    true
}

/// Whether two strings hold the same text.
pub fn same_text(a: &str, b: &str) -> (r: bool)
    ensures
        r == (a@ == b@),
{
    same(chars_of(a).as_slice(), chars_of(b).as_slice())
}

/// Whether `p` stands in `s` at index `i`.
fn is_at(s: &[char], p: &[char], i: usize) -> (r: bool)
    ensures
        r == stands_at(s@, p@, i as int),
{
    if i > s.len() || p.len() > s.len() - i {
        return false;
    }
    same(&s[i..i + p.len()], p)
}

/// Whether `s` starts with `p`.
pub fn starts_with(s: &[char], p: &[char]) -> (r: bool)
    ensures
        r == has_prefix(s@, p@),
{
    is_at(s, p, 0)
}

/// Whether `p` stands anywhere in `s`.
pub fn contains(s: &[char], p: &[char]) -> (r: bool)
    ensures
        r == has_text(s@, p@),
{
    let mut i: usize = 0;
    while i < s.len()
        invariant
            0 <= i <= s@.len(),
            forall|j: int| 0 <= j < i ==> !#[trigger] stands_at(s@, p@, j),
        decreases s@.len() - i,
    {
        if is_at(s, p, i) {
            return true;
        }
        i += 1;
    }
    is_at(s, p, i)
}

/// Whether a character stands anywhere in `s`.
pub fn contains_char(s: &[char], c: char) -> (r: bool)
    ensures
        r == s@.contains(c),
{
    let i: usize = find(s, c);
    proof {
        lemma_first(s@, c);
    }
    i < s.len()
}

/// The lines of a text.
pub fn lines(s: &[char]) -> (out: Vec<Vec<char>>)
    ensures
        pieces(out@) == lines_of(s@),
{
    let mut out: Vec<Vec<char>> = Vec::new();
    let mut i: usize = 0;
    assert(s@.skip(0) == s@);
    assert(pieces(out@) == Seq::<Seq<char>>::empty());
    while i < s.len()
        invariant
            0 <= i <= s@.len(),
            pieces(out@) + lines_of(s@.skip(i as int)) == lines_of(s@),
        decreases s@.len() - i,
    {
        let rest: &[char] = &s[i..s.len()];
        assert(rest@ == s@.skip(i as int));
        let n: usize = find(rest, '\n');
        let ghost before = pieces(out@);
        if n >= rest.len() {
            out.push(copy_of(rest));
            assert(pieces(out@) == before.push(rest@));
            assert(before.push(rest@) == before + seq![rest@]);
            return out;
        }
        let body: &[char] = &rest[0..n];
        assert(body@ == rest@.take(n as int));
        let line: &[char] = if n > 0 && body[n - 1] == '\r' {
            &body[0..n - 1]
        } else {
            body
        };
        assert(line@ == without_cr(body@));
        out.push(copy_of(line));
        assert(pieces(out@) == before.push(line@));
        assert(rest@.skip(n + 1) == s@.skip(i + n + 1));
        assert(before.push(line@) + lines_of(s@.skip(i + n + 1)) == before + (seq![line@]
            + lines_of(s@.skip(i + n + 1))));
        i = i + n + 1;
    }
    assert(lines_of(s@.skip(i as int)) == Seq::<Seq<char>>::empty());
    assert(pieces(out@) + Seq::<Seq<char>>::empty() == pieces(out@));
    out
}

/// The lines of a text with all that stands before their line feeds.
pub fn raw_lines(s: &[char]) -> (out: Vec<Vec<char>>)
    ensures
        pieces(out@) == raw_lines_of(s@),
{
    let mut out: Vec<Vec<char>> = Vec::new();
    let mut i: usize = 0;
    assert(s@.skip(0) == s@);
    assert(pieces(out@) == Seq::<Seq<char>>::empty());
    while i < s.len()
        invariant
            0 <= i <= s@.len(),
            pieces(out@) + raw_lines_of(s@.skip(i as int)) == raw_lines_of(s@),
        decreases s@.len() - i,
    {
        let rest: &[char] = &s[i..s.len()];
        assert(rest@ == s@.skip(i as int));
        let n: usize = find(rest, '\n');
        let ghost before = pieces(out@);
        if n >= rest.len() {
            out.push(copy_of(rest));
            assert(pieces(out@) == before.push(rest@));
            assert(before.push(rest@) == before + seq![rest@]);
            return out;
        }
        let line: &[char] = &rest[0..n];
        assert(line@ == rest@.take(n as int));
        out.push(copy_of(line));
        assert(pieces(out@) == before.push(line@));
        assert(rest@.skip(n + 1) == s@.skip(i + n + 1));
        assert(before.push(line@) + raw_lines_of(s@.skip(i + n + 1)) == before + (seq![line@]
            + raw_lines_of(s@.skip(i + n + 1))));
        i = i + n + 1;
    }
    assert(raw_lines_of(s@.skip(i as int)) == Seq::<Seq<char>>::empty());
    assert(pieces(out@) + Seq::<Seq<char>>::empty() == pieces(out@));
    out
}

/// The words of a text.
pub fn words(s: &[char]) -> (out: Vec<Vec<char>>)
    ensures
        pieces(out@) == words_of(s@),
{
    let mut out: Vec<Vec<char>> = Vec::new();
    let mut rest: &[char] = trim_start(s);
    proof {
        lemma_trimmed_start(s@);
        lemma_trimmed_start_twice(s@);
        lemma_words_of_trimmed(s@);
    }
    assert(pieces(out@) == Seq::<Seq<char>>::empty());
    assert(pieces(out@) + words_of(rest@) == words_of(s@));
    while rest.len() > 0
        invariant
            trimmed_start(rest@) == rest@,
            pieces(out@) + words_of(rest@) == words_of(s@),
        decreases rest@.len(),
    {
        let mut n: usize = 0;
        assert(rest@.skip(0) == rest@);
        while n < rest.len() && !is_whitespace(rest[n])
            invariant
                0 <= n <= rest@.len(),
                word_len(rest@) == n + word_len(rest@.skip(n as int)),
            decreases rest@.len() - n,
        {
            assert(rest@.skip(n as int).drop_first() == rest@.skip(n + 1));
            n += 1;
        }
        proof {
            lemma_trimmed_start(rest@);
            lemma_word_len(rest@);
        }
        let word: &[char] = &rest[0..n];
        let tail: &[char] = &rest[n..rest.len()];
        assert(word@ == rest@.take(n as int));
        assert(tail@ == rest@.skip(n as int));
        let ghost before = pieces(out@);
        out.push(copy_of(word));
        assert(pieces(out@) == before.push(word@));
        let next: &[char] = trim_start(tail);
        proof {
            lemma_trimmed_start(tail@);
            lemma_trimmed_start_twice(tail@);
            lemma_words_of_trimmed(tail@);
            assert(before.push(word@) + words_of(tail@) == before + (seq![word@] + words_of(
                tail@,
            )));
        }
        rest = next;
    }
    assert(words_of(rest@) == Seq::<Seq<char>>::empty());
    assert(pieces(out@) + Seq::<Seq<char>>::empty() == pieces(out@));
    out
}

/// What is trimmed stays as it is.
proof fn lemma_trimmed_start_twice(s: Seq<char>)
    ensures
        trimmed_start(trimmed_start(s)) == trimmed_start(s),
{
    lemma_trimmed_start(s);
}

/// White space at the start does not change the words.
proof fn lemma_words_of_trimmed(s: Seq<char>)
    ensures
        words_of(trimmed_start(s)) == words_of(s),
{
    lemma_trimmed_start_twice(s);
}

/// The length in bytes of one character in UTF-8.
pub fn char_bytes(c: char) -> (r: usize)
    ensures
        r == utf8_width(c),
{
    if (c as u32) < 0x80 {
        1
    } else if (c as u32) < 0x800 {
        2
    } else if (c as u32) < 0x10000 {
        3
    } else {
        4
    }
}

/// Appends `n` spaces.
pub fn append_spaces(out: &mut String, n: usize)
    ensures
        final(out)@ == old(out)@ + spaces(n as nat),
{
    for i in 0..n
        invariant
            out@ == old(out)@ + spaces(i as nat),
    {
        out.push(' ');
        assert(spaces(i as nat).push(' ') == spaces((i + 1) as nat));
    }
}

/// Puts spaces in front, so that the result has at least `n` characters.
pub fn align_right(s: &str, n: usize) -> (out: String)
    ensures
        out@ == right_aligned(s@, n as nat),
{
    let len: usize = s.unicode_len();
    let mut out = String::new();
    if len < n {
        append_spaces(&mut out, n - len);
    }
    out.append(s);
    assert(out@ == right_aligned(s@, n as nat));
    out
}

/// Puts spaces behind, so that the result has at least `n` characters.
pub fn align_left(s: &str, n: usize) -> (out: String)
    ensures
        out@ == left_aligned(s@, n as nat),
{
    let len: usize = s.unicode_len();
    let mut out = String::new();
    out.append(s);
    if len < n {
        append_spaces(&mut out, n - len);
    }
    assert(out@ == left_aligned(s@, n as nat));
    out
}

/// Joins strings with a separator between them.
pub fn join(v: &Vec<String>, sep: &str) -> (out: String)
    ensures
        out@ == joined(texts(v@), sep@),
{
    let mut out = String::new();
    assert(texts(v@).take(0) == Seq::<Seq<char>>::empty());
    for i in 0..v.len()
        invariant
            out@ == joined(texts(v@).take(i as int), sep@),
    {
        assert(texts(v@).take(i + 1).drop_last() == texts(v@).take(i as int));
        if i > 0 {
            out.append(sep);
        }
        out.append(v[i].as_str());
        assert(out@ == joined(texts(v@).take(i + 1), sep@));
    }
    assert(texts(v@).take(v@.len() as int) == texts(v@));
    out
}

} // verus!
