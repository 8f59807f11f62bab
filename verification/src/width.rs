//! The width of text in terminal cells, where a full-width character takes two.

use vstd::prelude::*;

use crate::text;

verus! {

/// The number of cells that a text takes, as `unicode_width` counts them.
pub uninterp spec fn display_width(s: Seq<char>) -> usize;

/// The number of cells that a character takes, as `unicode_width` counts them; none for a control
/// character.
pub uninterp spec fn cell_width(c: char) -> Option<usize>;

/// `unicode_width::UnicodeWidthStr::width`: the cells that the text takes, by the tables of that
/// crate and the characters alone. The empty text takes none, and an ellipsis takes one. Nothing is
/// claimed of how the width of a text goes with the widths of its characters: in some sequences it
/// is not their sum.
#[verifier::external_body]
pub(crate) fn width_of(s: &str) -> (w: usize)
    ensures
        w == display_width(s@),
        s@.len() == 0 ==> w == 0,
        s@ == "…"@ ==> w == 1,
{
    unicode_width::UnicodeWidthStr::width(s)
}

/// `unicode_width::UnicodeWidthChar::width`: the cells that the character takes, by the tables of
/// that crate; a visible ASCII character or a space takes one.
#[verifier::external_body]
pub(crate) fn char_width(c: char) -> (w: Option<usize>)
    ensures
        w == cell_width(c),
        ' ' <= c <= '~' ==> w == Some(1usize),
{
    unicode_width::UnicodeWidthChar::width(c)
}

/// The cells of a character, where a control character takes none.
pub open spec fn cells_of(c: char) -> usize {
    match cell_width(c) {
        Some(w) => w,
        None => 0,
    }
}

/// The cells of each character.
pub open spec fn widths_of(s: Seq<char>) -> Seq<usize> {
    s.map_values(|c: char| cells_of(c))
}

/// The sum of widths.
pub open spec fn total(widths: Seq<usize>) -> nat
    decreases widths.len(),
{
    if widths.len() == 0 {
        0
    } else {
        total(widths.drop_last()) + widths.last() as nat
    }
}

/// How many of the widths, from the front, fit into the room together.
pub open spec fn fitting_len(widths: Seq<usize>, room: nat) -> nat
    decreases widths.len(),
{
    if widths.len() == 0 || widths[0] > room {
        0
    } else {
        1 + fitting_len(widths.drop_first(), (room - widths[0]) as nat)
    }
}

/// The front part of a text whose characters fit into the room.
pub open spec fn cut(s: Seq<char>, room: nat) -> Seq<char> {
    s.take(fitting_len(widths_of(s), room) as int)
}

/// `s` with spaces behind, so that what takes `width` cells takes at least `target`.
pub open spec fn filled(s: Seq<char>, width: nat, target: nat) -> Seq<char> {
    if width >= target {
        s
    } else {
        s + text::spaces((target - width) as nat)
    }
}

/// The greatest of widths; 0 if there are none.
pub open spec fn widest_of(widths: Seq<usize>) -> nat
    decreases widths.len(),
{
    if widths.len() == 0 {
        0
    } else if widths.last() > widest_of(widths.drop_last()) {
        widths.last() as nat
    } else {
        widest_of(widths.drop_last())
    }
}

/// The last of widths that is within the room.
pub open spec fn last_within(widths: Seq<usize>, room: nat) -> Option<int>
    decreases widths.len(),
{
    if widths.len() == 0 {
        None
    } else if widths.last() <= room {
        Some(widths.len() - 1)
    } else {
        last_within(widths.drop_last(), room)
    }
}

/// Whether a text is made of visible ASCII characters and spaces.
pub open spec fn is_visible_ascii(s: Seq<char>) -> bool {
    forall|i: int| 0 <= i < s.len() ==> ' ' <= #[trigger] s[i] <= '~'
}

/// What is kept of a text is the longest front part whose characters take no more than the room.
pub proof fn law_cut_is_longest(s: Seq<char>, room: nat)
    ensures
        cut(s, room).len() <= s.len(),
        cut(s, room) == s.take(cut(s, room).len() as int),
        total(widths_of(cut(s, room))) <= room,
        cut(s, room).len() < s.len() ==> total(
            widths_of(s.take(cut(s, room).len() + 1int)),
        ) > room,
{
    let w = widths_of(s);
    let n = fitting_len(w, room);
    lemma_fitting(w, room);
    assert(widths_of(cut(s, room)) =~= w.take(n as int));
    if n < s.len() {
        assert(widths_of(s.take(n + 1int)) =~= w.take(n + 1int));
    }
}

/// As many widths fit as their sum stays within the room.
proof fn lemma_fitting(widths: Seq<usize>, room: nat)
    ensures
        fitting_len(widths, room) <= widths.len(),
        total(widths.take(fitting_len(widths, room) as int)) <= room,
        fitting_len(widths, room) < widths.len() ==> total(
            widths.take(fitting_len(widths, room) + 1int),
        ) > room,
    decreases widths.len(),
{
    let n = fitting_len(widths, room);
    if n == 0 {
        assert(total(widths.take(0)) == 0);
        if widths.len() > 0 {
            lemma_total_front(widths.take(1));
            assert(widths.take(1).drop_first() =~= Seq::<usize>::empty());
        }
    } else {
        let rest = widths.drop_first();
        let left = (room - widths[0]) as nat;
        lemma_fitting(rest, left);
        lemma_total_front(widths.take(n as int));
        assert(widths.take(n as int).drop_first() =~= rest.take(n - 1));
        if n < widths.len() {
            lemma_total_front(widths.take(n + 1int));
            assert(widths.take(n + 1int).drop_first() =~= rest.take(n as int));
        }
    }
}

/// Of widths of one cell each, as many fit as there is room for.
proof fn lemma_fitting_ones(widths: Seq<usize>, room: nat)
    requires
        forall|i: int| 0 <= i < widths.len() ==> #[trigger] widths[i] == 1,
    ensures
        fitting_len(widths, room) == if widths.len() <= room {
            widths.len()
        } else {
            room
        },
    decreases widths.len(),
{
    if widths.len() > 0 && room > 0 {
        lemma_fitting_ones(widths.drop_first(), (room - widths[0]) as nat);
    }
}

/// A sum is the first width and the sum of the rest.
proof fn lemma_total_front(widths: Seq<usize>)
    requires
        widths.len() > 0,
    ensures
        total(widths) == widths[0] + total(widths.drop_first()),
    decreases widths.len(),
{
    if widths.len() > 1 {
        lemma_total_front(widths.drop_last());
        assert(widths.drop_first().drop_last() =~= widths.drop_last().drop_first());
    } else {
        assert(widths.drop_first() =~= Seq::<usize>::empty());
        assert(widths.drop_last() =~= Seq::<usize>::empty());
    }
}

/// Counts the widths that fit into the room, from the front.
pub fn fitting(widths: &Vec<usize>, room: usize) -> (n: usize)
    ensures
        n == fitting_len(widths@, room as nat),
        n <= widths@.len(),
{
    let mut left: usize = room;
    let mut i: usize = 0;
    assert(widths@.skip(0) == widths@);
    while i < widths.len() && widths[i] <= left
        invariant
            0 <= i <= widths@.len(),
            left <= room,
            fitting_len(widths@, room as nat) == i + fitting_len(
                widths@.skip(i as int),
                left as nat,
            ),
        decreases widths@.len() - i,
    {
        assert(widths@.skip(i as int).drop_first() == widths@.skip(i + 1));
        left -= widths[i];
        i += 1;
    }
    i
}

/// Counts how many characters of a text, from the front, fit into the room.
pub(crate) fn count_fitting(chars: &Vec<char>, room: usize) -> (n: usize)
    ensures
        n == fitting_len(widths_of(chars@), room as nat),
        n <= chars@.len(),
        is_visible_ascii(chars@) ==> n == if chars@.len() <= room {
            chars@.len()
        } else {
            room as nat
        },
{
    let mut widths: Vec<usize> = Vec::new();
    for i in 0..chars.len()
        invariant
            widths@ == widths_of(chars@).take(i as int),
            is_visible_ascii(chars@) ==> forall|j: int| 0 <= j < i ==> #[trigger] widths@[j] == 1,
    {
        widths.push(
            match char_width(chars[i]) {
                Some(w) => w,
                None => 0,
            },
        );
        assert(widths_of(chars@).take(i + 1) == widths_of(chars@).take(i as int).push(
            cells_of(chars@[i as int]),
        ));
    }
    assert(widths@ == widths_of(chars@));
    proof {
        if is_visible_ascii(chars@) {
            lemma_fitting_ones(widths@, room as nat);
        }
    }
    fitting(&widths, room)
}

/// Cuts a text so that its characters take at most `max_width` cells.
pub fn truncate_to_width(s: &str, max_width: usize) -> (out: String)
    ensures
        out@ == cut(s@, max_width as nat),
        is_visible_ascii(s@) ==> out@ == if s@.len() <= max_width {
            s@
        } else {
            s@.take(max_width as int)
        },
{
    let chars: Vec<char> = text::chars_of(s);
    let n: usize = count_fitting(&chars, max_width);
    text::string_of(&chars.as_slice()[0..n])
}

/// The last width that is within the room is, and those behind it are not.
pub proof fn law_last_within(widths: Seq<usize>, room: nat)
    ensures
        match last_within(widths, room) {
            Some(k) => {
                &&& 0 <= k < widths.len()
                &&& widths[k] <= room
                &&& forall|i: int| k < i < widths.len() ==> #[trigger] widths[i] > room
            },
            None => forall|i: int| 0 <= i < widths.len() ==> #[trigger] widths[i] > room,
        },
    decreases widths.len(),
{
    if widths.len() > 0 && widths.last() > room {
        law_last_within(widths.drop_last(), room);
        let k = match last_within(widths, room) {
            Some(k) => k,
            None => -1,
        };
        assert forall|i: int| k < i < widths.len() implies #[trigger] widths[i] > room by {
            if i < widths.len() - 1 {
                assert(widths.drop_last()[i] == widths[i]);
            }
        }
    }
}

/// The greatest of widths is one of them, and none is greater; without widths it is nothing.
pub proof fn law_widest(widths: Seq<usize>)
    ensures
        widths.len() == 0 ==> widest_of(widths) == 0,
        widths.len() > 0 ==> exists|k: int|
            0 <= k < widths.len() && #[trigger] widths[k] == widest_of(widths),
        forall|k: int| 0 <= k < widths.len() ==> #[trigger] widths[k] <= widest_of(widths),
    decreases widths.len(),
{
    if widths.len() > 0 {
        let before = widths.drop_last();
        law_widest(before);
        let last = widths.len() - 1;
        assert forall|k: int| 0 <= k < widths.len() implies #[trigger] widths[k] <= widest_of(
            widths,
        ) by {
            if k < last {
                assert(before[k] == widths[k]);
            }
        }
        if widths[last] > widest_of(before) || before.len() == 0 {
            assert(widths[last] == widest_of(widths));
        } else {
            let k = choose|k: int|
                0 <= k < before.len() && #[trigger] before[k] == widest_of(before);
            assert(widths[k] == widest_of(widths));
        }
    }
}

/// A text that is filled up starts with itself; behind it are spaces, as many as it lacks.
pub proof fn law_filling(s: Seq<char>, width: nat, target: nat)
    ensures
        filled(s, width, target).len() == s.len() + if width < target {
            (target - width) as nat
        } else {
            0
        },
        filled(s, width, target).take(s.len() as int) == s,
        forall|i: int|
            s.len() <= i < filled(s, width, target).len() ==> #[trigger] filled(s, width, target)[i]
                == ' ',
{
    assert(filled(s, width, target).take(s.len() as int) =~= s);
}

/// The cells of the characters of a text are counted one by one; a control character takes none.
pub proof fn law_cells_of_a_text(s: Seq<char>, c: char)
    ensures
        widths_of(Seq::<char>::empty()).len() == 0,
        total(Seq::<usize>::empty()) == 0,
        total(widths_of(s.push(c))) == total(widths_of(s)) + match cell_width(c) {
            Some(w) => w as nat,
            None => 0,
        },
        widths_of(s.push(c)) == widths_of(s).push(
            match cell_width(c) {
                Some(w) => w,
                None => 0,
            },
        ),
{
    assert(widths_of(s.push(c)) =~= widths_of(s).push(
        match cell_width(c) {
            Some(w) => w,
            None => 0,
        },
    ));
    assert(widths_of(s.push(c)).drop_last() =~= widths_of(s));
}

/// What is kept of a text is the front part of which the cells are within the room, and of which they
/// are not with one character more.
pub proof fn law_cut_is_where_the_room_ends(s: Seq<char>, room: nat, n: int)
    requires
        0 <= n <= s.len(),
        total(widths_of(s.take(n))) <= room,
        n < s.len() ==> total(widths_of(s.take(n + 1))) > room,
    ensures
        cut(s, room) == s.take(n),
{
    law_cut_is_longest(s, room);
    let m = cut(s, room).len() as int;
    if m < n {
        lemma_total_grows(s, m + 1, n);
    } else if n < m {
        lemma_total_grows(s, n + 1, m);
    }
}

/// A longer front part takes no fewer cells.
proof fn lemma_total_grows(s: Seq<char>, a: int, b: int)
    requires
        0 <= a <= b <= s.len(),
    ensures
        total(widths_of(s.take(a))) <= total(widths_of(s.take(b))),
    decreases b - a,
{
    if a < b {
        lemma_total_grows(s, a, b - 1);
        law_cells_of_a_text(s.take(b - 1), s[b - 1]);
        assert(s.take(b - 1).push(s[b - 1]) =~= s.take(b));
    }
}

/// Finds the last of widths that is within the room.
pub fn find_within(widths: &Vec<usize>, room: usize) -> (r: Option<usize>)
    ensures
        r is Some <==> last_within(widths@, room as nat) is Some,
        r matches Some(k) ==> last_within(widths@, room as nat) == Some(k as int),
{
    let mut n: usize = widths.len();
    assert(widths@.take(n as int) == widths@);
    while n > 0
        invariant
            n <= widths@.len(),
            last_within(widths@, room as nat) == last_within(widths@.take(n as int), room as nat),
        decreases n,
    {
        if widths[n - 1] <= room {
            return Some(n - 1);
        }
        assert(widths@.take(n as int).drop_last() == widths@.take(n - 1));
        n -= 1;
    }
    None
}

/// Finds the greatest of widths.
pub fn widest(widths: &Vec<usize>) -> (w: usize)
    ensures
        w == widest_of(widths@),
{
    let mut widest: usize = 0;
    for i in 0..widths.len()
        invariant
            widest == widest_of(widths@.take(i as int)),
    {
        assert(widths@.take(i + 1).drop_last() == widths@.take(i as int));
        if widths[i] > widest {
            widest = widths[i];
        }
    }
    assert(widths@.take(widths@.len() as int) == widths@);
    widest
}

/// Puts spaces behind a text that takes `width` cells, so that it takes at least `target`.
pub fn fill_to(s: &str, width: usize, target: usize) -> (out: String)
    ensures
        out@ == filled(s@, width as nat, target as nat),
{
    let mut out = s.to_string();
    if width < target {
        text::append_spaces(&mut out, target - width);
    }
    out
}

/// Puts spaces behind a text, so that it takes at least `target` cells.
pub fn pad_right(s: &str, target: usize) -> (out: String)
    ensures
        out@ == filled(s@, display_width(s@) as nat, target as nat),
{
    fill_to(s, width_of(s), target)
}

} // verus!
