//! What holds of trimming, splitting, joining and aligning texts.

use vstd::prelude::*;

use crate::text;

verus! {

/// Whether a text is nothing but white space.
pub open spec fn is_blank(s: Seq<char>) -> bool {
    forall|i: int| 0 <= i < s.len() ==> text::is_space(#[trigger] s[i])
}

/// Whether a text has no white space in it.
pub open spec fn is_solid(s: Seq<char>) -> bool {
    forall|i: int| 0 <= i < s.len() ==> !text::is_space(#[trigger] s[i])
}

/// Texts in memory hold their characters, one by one and in order.
pub proof fn law_texts_in_memory(a: Seq<String>, b: Seq<Vec<char>>, c: Seq<&str>, i: int)
    ensures
        text::texts(a).len() == a.len(),
        text::pieces(b).len() == b.len(),
        text::slices(c).len() == c.len(),
        0 <= i < a.len() ==> text::texts(a)[i] == a[i]@,
        0 <= i < b.len() ==> text::pieces(b)[i] == b[i]@,
        0 <= i < c.len() ==> text::slices(c)[i] == c[i]@,
{
}

/// Of the characters of ASCII, the space and those from the tab to the carriage return are white
/// space; beyond ASCII, the next-line character and the spaces and separators that Unicode has.
pub proof fn law_white_space(c: char)
    ensures
        (c as u32) < 0x80 ==> (text::is_space(c) <==> c == ' ' || c == '\t' || c == '\n' || c
            == '\r' || c == '\u{B}' || c == '\u{C}'),
        (c as u32) >= 0x80 ==> (text::is_space(c) <==> c == '\u{85}' || c == '\u{A0}' || c
            == '\u{1680}' || 0x2000 <= (c as u32) <= 0x200A || c == '\u{2028}' || c == '\u{2029}'
            || c == '\u{202F}' || c == '\u{205F}' || c == '\u{3000}'),
{
}

/// Trimming takes the white space away from both ends and leaves what is between.
pub proof fn law_trimming(front: Seq<char>, core: Seq<char>, back: Seq<char>)
    requires
        is_blank(front),
        is_blank(back),
        core.len() > 0 ==> !text::is_space(core[0]) && !text::is_space(core.last()),
    ensures
        text::trimmed(front + core + back) == core,
{
    lemma_trim_front(front, core + back);
    assert(front + core + back =~= front + (core + back));
    if core.len() == 0 {
        assert(core + back =~= back);
        assert(back + Seq::<char>::empty() =~= back);
        lemma_trim_front(back, Seq::empty());
        assert(text::trimmed_end(Seq::<char>::empty()) =~= Seq::<char>::empty());
    } else {
        assert((core + back)[0] == core[0]);
        lemma_trim_back(core, back);
    }
}

/// White space in front is taken away.
proof fn lemma_trim_front(front: Seq<char>, rest: Seq<char>)
    requires
        is_blank(front),
    ensures
        text::trimmed_start(front + rest) == text::trimmed_start(rest),
    decreases front.len(),
{
    if front.len() > 0 {
        assert((front + rest)[0] == front[0]);
        assert((front + rest).drop_first() =~= front.drop_first() + rest);
        lemma_trim_front(front.drop_first(), rest);
    } else {
        assert(front + rest =~= rest);
    }
}

/// White space behind is taken away.
proof fn lemma_trim_back(core: Seq<char>, back: Seq<char>)
    requires
        is_blank(back),
        core.len() > 0,
        !text::is_space(core.last()),
    ensures
        text::trimmed_end(core + back) == core,
    decreases back.len(),
{
    if back.len() > 0 {
        assert((core + back).last() == back.last());
        assert((core + back).drop_last() =~= core + back.drop_last());
        lemma_trim_back(core, back.drop_last());
    } else {
        assert(core + back =~= core);
    }
}

/// The words of a text come one after the other: white space counts for nothing but to end a word.
pub proof fn law_word_by_word(word: Seq<char>, space: char, rest: Seq<char>)
    requires
        word.len() > 0,
        is_solid(word),
        text::is_space(space),
    ensures
        text::words_of(Seq::<char>::empty()) == Seq::<Seq<char>>::empty(),
        text::words_of(seq![space] + rest) == text::words_of(rest),
        text::words_of(word) == seq![word],
        text::words_of(word + seq![space] + rest) == seq![word] + text::words_of(rest),
{
    let one = seq![space];
    lemma_trim_front(one, rest);
    let none = Seq::<char>::empty();
    assert(text::trimmed_start(none) =~= none);
    assert(text::words_of(none) =~= Seq::<Seq<char>>::empty());
    lemma_word_in_front(word, none);
    assert(word + none =~= word);
    assert(text::words_of(word) =~= seq![word]);
    lemma_word_in_front(word, one + rest);
    assert(word + seq![space] + rest =~= word + (one + rest));
}

/// A word in front is the first one.
proof fn lemma_word_in_front(word: Seq<char>, rest: Seq<char>)
    requires
        word.len() > 0,
        is_solid(word),
        rest.len() > 0 ==> text::is_space(rest[0]),
    ensures
        text::words_of(word + rest) == seq![word] + text::words_of(rest),
{
    let s = word + rest;
    let n = word.len() as int;
    assert(s[0] == word[0]);
    assert(text::trimmed_start(s) == s);
    text::lemma_word_len(s);
    let k = text::word_len(s);
    if k < n {
        assert(s[k] == word[k]);
    } else if n < k {
        assert(s[n] == rest[0]);
    }
    assert(s.take(n) =~= word);
    assert(s.skip(n) =~= rest);
}

/// The lines of a text come one after the other: each ends at a line feed, and a carriage return
/// before that belongs to the end; the last one may end with the text.
pub proof fn law_line_by_line(line: Seq<char>, rest: Seq<char>)
    requires
        !line.contains('\n'),
    ensures
        text::lines_of(Seq::<char>::empty()) == Seq::<Seq<char>>::empty(),
        line.len() > 0 ==> text::lines_of(line) == seq![line],
        text::lines_of(line + seq!['\n'] + rest) == seq![
            if line.len() > 0 && line.last() == '\r' {
                line.drop_last()
            } else {
                line
            },
        ] + text::lines_of(rest),
{
    let s = line + seq!['\n'] + rest;
    let n = line.len() as int;
    assert forall|i: int| 0 <= i < n implies #[trigger] line[i] != '\n' by {
        assert(line.contains(line[i]));
    }
    text::lemma_first_is(line, '\n', n);
    assert forall|i: int| 0 <= i < n implies #[trigger] s[i] != '\n' by {
        assert(s[i] == line[i]);
    }
    assert(s[n] == '\n');
    text::lemma_first_is(s, '\n', n);
    assert(s.take(n) =~= line);
    assert(s.skip(n + 1) =~= rest);
}

/// Where a text ends in a line feed, more text adds its lines and changes none.
pub proof fn law_lines_add_up(a: Seq<char>, b: Seq<char>)
    requires
        a.len() > 0,
        a.last() == '\n',
    ensures
        text::lines_of(a + b) == text::lines_of(a) + text::lines_of(b),
    decreases a.len(),
{
    text::lemma_first(a, '\n');
    let n = text::first(a, '\n');
    if n >= a.len() {
        assert(a[a.len() - 1] != '\n');
    }
    let line = a.take(n);
    let rest = a.skip(n + 1);
    assert forall|i: int| 0 <= i < line.len() implies line[i] != '\n' by {
        assert(line[i] == a[i]);
    }
    assert(a =~= line + seq!['\n'] + rest);
    assert(a + b =~= line + seq!['\n'] + (rest + b));
    law_line_by_line(line, rest);
    law_line_by_line(line, rest + b);
    if rest.len() > 0 {
        assert(rest.last() == a.last());
        law_lines_add_up(rest, b);
    } else {
        assert(rest + b =~= b);
        assert(rest =~= Seq::<char>::empty());
    }
    assert(text::lines_of(a + b) =~= text::lines_of(a) + text::lines_of(b));
}

/// A text is split at the first of the characters, and nowhere if there is none; what follows the
/// last one is what is left behind all of them.
pub proof fn law_splitting(a: Seq<char>, c: char, b: Seq<char>)
    ensures
        !a.contains(c) ==> text::split_at_first(a + seq![c] + b, c) == Some((a, b)),
        !a.contains(c) ==> text::split_at_first(a, c) is None,
        !b.contains(c) ==> text::after_last(a + seq![c] + b, c) == b,
        !a.contains(c) ==> text::after_last(a, c) == a,
{
    let s = a + seq![c] + b;
    let n = a.len() as int;
    if !a.contains(c) {
        assert forall|i: int| 0 <= i < n implies #[trigger] s[i] != c by {
            assert(s[i] == a[i]);
            assert(a.contains(a[i]));
        }
        assert(s[n] == c);
        text::lemma_first_is(s, c, n);
        assert(s.take(n) =~= a);
        assert(s.skip(n + 1) =~= b);
        assert forall|i: int| 0 <= i < n implies #[trigger] a[i] != c by {
            assert(a.contains(a[i]));
        }
        text::lemma_first_is(a, c, n);
        lemma_after_last_none(a, c);
    }
    if !b.contains(c) {
        lemma_after_last(a, c, b);
    }
}

/// Without the character all of a text is behind it.
proof fn lemma_after_last_none(s: Seq<char>, c: char)
    requires
        !s.contains(c),
    ensures
        text::after_last(s, c) == s,
    decreases s.len(),
{
    if s.len() > 0 {
        assert(s.contains(s.last()));
        assert forall|i: int| 0 <= i < s.len() - 1 implies s.drop_last()[i] != c by {
            assert(s.contains(s[i]));
        }
        lemma_after_last_none(s.drop_last(), c);
        assert(s.drop_last().push(s.last()) =~= s);
    }
}

/// What stands behind the last of the characters.
proof fn lemma_after_last(a: Seq<char>, c: char, b: Seq<char>)
    requires
        !b.contains(c),
    ensures
        text::after_last(a + seq![c] + b, c) == b,
    decreases b.len(),
{
    let s = a + seq![c] + b;
    if b.len() > 0 {
        assert(s.last() == b.last());
        assert(b.contains(b.last()));
        assert(s.drop_last() =~= a + seq![c] + b.drop_last());
        assert forall|i: int| 0 <= i < b.len() - 1 implies b.drop_last()[i] != c by {
            assert(b.contains(b[i]));
        }
        lemma_after_last(a, c, b.drop_last());
        assert(b.drop_last().push(b.last()) =~= b);
    } else {
        assert(s.last() == c);
        assert(text::after_last(s, c) =~= b);
    }
}

/// A text holds another, or starts with it, just where it is made of it and what stands around it.
pub proof fn law_holding(s: Seq<char>, p: Seq<char>)
    ensures
        text::has_text(s, p) <==> exists|a: Seq<char>, b: Seq<char>| s == #[trigger] (a + p + b),
        text::has_prefix(s, p) <==> exists|b: Seq<char>| s == #[trigger] (p + b),
{
    if text::has_text(s, p) {
        let i = choose|i: int| text::stands_at(s, p, i);
        let a = s.take(i);
        let b = s.skip(i + p.len());
        assert(s =~= a + s.subrange(i, i + p.len()) + b);
        assert(s == a + p + b);
    }
    if exists|a: Seq<char>, b: Seq<char>| s == #[trigger] (a + p + b) {
        let (a, b) = choose|a: Seq<char>, b: Seq<char>| s == #[trigger] (a + p + b);
        let i = a.len() as int;
        assert(s.subrange(i, i + p.len()) =~= p);
        assert(text::stands_at(s, p, i));
    }
    if text::has_prefix(s, p) {
        let b = s.skip(p.len() as int);
        assert(s =~= s.subrange(0, p.len() as int) + b);
        assert(s == p + b);
    }
    if exists|b: Seq<char>| s == #[trigger] (p + b) {
        let b = choose|b: Seq<char>| s == #[trigger] (p + b);
        assert(s.subrange(0, p.len() as int) =~= p);
    }
}

/// Joined texts grow by the separator and the next text.
pub proof fn law_joining(v: Seq<Seq<char>>, sep: Seq<char>, next: Seq<char>)
    ensures
        text::joined(Seq::<Seq<char>>::empty(), sep) == Seq::<char>::empty(),
        v.len() == 0 ==> text::joined(v.push(next), sep) == next,
        v.len() > 0 ==> text::joined(v.push(next), sep) == text::joined(v, sep) + sep + next,
{
    assert(v.push(next).drop_last() =~= v);
}

/// An aligned text has the length that is asked at the least, with the text at its end or at its
/// start and spaces before or behind it.
pub proof fn law_aligning(s: Seq<char>, n: nat)
    ensures
        ({
            let r = text::right_aligned(s, n);
            let l = text::left_aligned(s, n);
            &&& r.len() == l.len() && r.len() == if s.len() < n {
                n
            } else {
                s.len()
            }
            &&& r.skip(r.len() - s.len()) == s
            &&& forall|i: int| 0 <= i < r.len() - s.len() ==> #[trigger] r[i] == ' '
            &&& l.take(s.len() as int) == s
            &&& forall|i: int| s.len() <= i < l.len() ==> #[trigger] l[i] == ' '
        }),
{
    let r = text::right_aligned(s, n);
    let l = text::left_aligned(s, n);
    assert(r.skip(r.len() - s.len()) =~= s);
    assert(l.take(s.len() as int) =~= s);
}

/// A character takes one to four bytes in UTF-8, by its number, and a text the bytes of its
/// characters.
pub proof fn law_bytes_of_text(s: Seq<char>, c: char)
    ensures
        text::utf8_len(Seq::<char>::empty()) == 0,
        text::utf8_len(s.push(c)) == text::utf8_len(s) + if (c as u32) <= 0x7F {
            1nat
        } else if (c as u32) <= 0x7FF {
            2nat
        } else if (c as u32) <= 0xFFFF {
            3nat
        } else {
            4nat
        },
{
    assert(s.push(c).drop_last() =~= s);
}

} // verus!
