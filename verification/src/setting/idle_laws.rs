//! What holds of reading and writing the idle daemon's configuration together.

use vstd::prelude::*;

use crate::number;
use crate::setting::idle;
use crate::setting::idle::Block;
use crate::text;

verus! {

/// Whether two sequences of lines agree in all that makes up their blocks.
pub open spec fn same_shape(a: Seq<Seq<char>>, b: Seq<Seq<char>>) -> bool {
    &&& a.len() == b.len()
    &&& forall|i: int|
        #![trigger a[i]]
        #![trigger b[i]]
        0 <= i < a.len() ==> {
            &&& idle::opens(a[i]) == idle::opens(b[i])
            &&& idle::closes(a[i]) == idle::closes(b[i])
            &&& idle::sets_timeout(a[i]) == idle::sets_timeout(b[i])
            &&& idle::command(a[i]) == idle::command(b[i])
        }
}

/// What a block says: its command, and the line that sets its timeout.
pub open spec fn cell(lines: Seq<Seq<char>>, b: Block) -> (Seq<char>, Option<Seq<char>>) {
    (
        b.on_timeout,
        match b.timeout_line {
            Some(k) => Some(lines[k]),
            None => None,
        },
    )
}

/// What the blocks from line `i` on say.
pub open spec fn cells(lines: Seq<Seq<char>>, i: int) -> Seq<(Seq<char>, Option<Seq<char>>)> {
    idle::blocks(lines, i).map_values(|b: Block| cell(lines, b))
}

/// Whether the last block from line `i` on lacks its closing line.
pub open spec fn open_ended(lines: Seq<Seq<char>>, i: int) -> bool
    decreases lines.len() - i,
    via open_ended_decreases
{
    if i >= lines.len() {
        false
    } else if idle::opens(lines[i]) {
        let e = idle::close_from(lines, i + 1);
        e == i || !idle::closes(lines[e]) || open_ended(lines, e + 1)
    } else {
        open_ended(lines, i + 1)
    }
}

#[via_fn]
proof fn open_ended_decreases(lines: Seq<Seq<char>>, i: int) {
    idle::lemma_close_from(lines, i + 1);
}

/// Whether one listener is the first for both the screen-off and the sleep command.
pub open spec fn one_for_both(config: Seq<char>) -> bool {
    let bs = idle::blocks(text::raw_lines_of(config), 0);
    let n = idle::pick(bs, idle::screen_off_mark());
    n < bs.len() && n == idle::pick(bs, idle::sleep_mark())
}

/// Whether a listener for the sleep command is there and stays one: where a screen-off listener
/// has to be added, it must not fall into a last block that was never closed.
pub open spec fn keeps_sleep(config: Seq<char>) -> bool {
    let lines = text::raw_lines_of(config);
    let bs = idle::blocks(lines, 0);
    let n = idle::pick(bs, idle::sleep_mark());
    &&& n < bs.len()
    &&& idle::pick(bs, idle::screen_off_mark()) == bs.len() && open_ended(lines, 0) ==> n
        < bs.len() - 1
}

/// The lines that set no timeout.
pub open spec fn other_lines(lines: Seq<Seq<char>>) -> Seq<Seq<char>> {
    lines.filter(|l: Seq<char>| !idle::sets_timeout(l))
}

// ---------------------------------------------------------------------------
// White space and literals
// ---------------------------------------------------------------------------

/// Trimming takes the indentation away.
proof fn lemma_trim_indented(n: nat, r: Seq<char>)
    requires
        r.len() > 0,
        !text::is_space(r[0]),
        !text::is_space(r.last()),
    ensures
        text::trimmed_start(text::spaces(n) + r) == r,
        text::trimmed(text::spaces(n) + r) == r,
    decreases n,
{
    let s = text::spaces(n) + r;
    if n > 0 {
        assert(s.drop_first() == text::spaces((n - 1) as nat) + r);
        lemma_trim_indented((n - 1) as nat, r);
    } else {
        assert(s == r);
    }
}

/// Spaces take one byte each.
proof fn lemma_utf8_len_spaces(n: nat)
    ensures
        text::utf8_len(text::spaces(n)) == n,
    decreases n,
{
    if n > 0 {
        assert(text::spaces(n).drop_last() == text::spaces((n - 1) as nat));
        lemma_utf8_len_spaces((n - 1) as nat);
    }
}

/// A digit is no white space.
proof fn lemma_digit_not_space(c: char)
    requires
        number::digit_value(c) < 10,
    ensures
        !text::is_space(c),
        c != '=',
        c != '\n',
        c != '\r',
{
}

/// What a written timeout line is.
proof fn lemma_timeout_text(n: nat, secs: nat)
    requires
        secs <= u32::MAX,
    ensures
        idle::sets_timeout(idle::timeout_text(n, secs)),
        idle::secs_on(idle::timeout_text(n, secs)) == Some(secs),
        idle::indent_of(idle::timeout_text(n, secs)) == n,
        !idle::timeout_text(n, secs).contains('\n'),
        text::without_cr(idle::timeout_text(n, secs)) == idle::timeout_text(n, secs),
{
    let d = number::decimal(secs);
    let line = idle::timeout_text(n, secs);
    number::law_number_round_trip(secs, 10, u32::MAX as nat);
    reveal_strlit("timeout = ");
    reveal_strlit("timeout");
    let key = "timeout = "@;
    let r = key + d;
    assert(line == text::spaces(n) + r);
    assert(r.last() == d.last());
    assert(number::digit_value(d[d.len() - 1]) < 10);
    lemma_digit_not_space(d.last());
    lemma_trim_indented(n, r);
    assert(r.subrange(0, 7) == "timeout"@);
    assert(line.take(line.len() - r.len()) == text::spaces(n));
    lemma_utf8_len_spaces(n);
    assert forall|i: int| 0 <= i < 8 implies #[trigger] r[i] != '=' by {
        assert(r[i] == key[i]);
    }
    text::lemma_first_is(r, '=', 8);
    let v = r.skip(9);
    assert(v == text::spaces(1) + d);
    assert(number::digit_value(d[0]) < 10);
    lemma_digit_not_space(d[0]);
    lemma_trim_indented(1, d);
    assert forall|i: int| 0 <= i < line.len() implies #[trigger] line[i] != '\n' by {
        if i >= n + 10 {
            assert(line[i] == d[i - n - 10]);
            lemma_digit_not_space(line[i]);
        } else if i >= n {
            assert(line[i] == key[i - n]);
        }
    }
}

/// What a written timeout line is, with a carriage return at its end or without.
proof fn lemma_time_text(n: nat, cr: bool, secs: nat)
    requires
        secs <= u32::MAX,
    ensures
        ({
            let line = idle::time_text(n, cr, secs);
            &&& idle::sets_timeout(line)
            &&& idle::secs_on(line) == Some(secs)
            &&& idle::indent_of(line) == n
            &&& idle::has_cr(line) == cr
            &&& !line.contains('\n')
        }),
{
    let bare = idle::timeout_text(n, secs);
    let line = idle::time_text(n, cr, secs);
    lemma_timeout_text(n, secs);
    if bare.len() > 0 && bare.last() == '\r' {
        assert(bare.drop_last().len() != bare.len());
    }
    if cr {
        assert(text::without_cr(line) =~= bare);
        lemma_cr_means_nothing(line);
        lemma_trim_start_push(bare, '\r');
        text::lemma_trimmed_start(bare);
        assert(text::trimmed_start(bare).len() > 0) by {
            if text::trimmed_start(bare).len() == 0 {
                assert(text::trimmed(bare).len() == 0);
                reveal_strlit("timeout");
            }
        }
        let m = bare.len() - text::trimmed_start(bare).len();
        assert(line.take(m) =~= bare.take(m));
        assert forall|i: int| 0 <= i < line.len() implies #[trigger] line[i] != '\n' by {
            if i < bare.len() {
                assert(line[i] == bare[i]);
            }
        }
    }
}

/// The command that the added listener gives.
pub open spec fn screen_off_command() -> Seq<char> {
    "niri msg action power-off-monitors"@
}

/// The command that is added has the mark for the screen.
proof fn lemma_command_has_screen_off_mark()
    ensures
        text::has_text(screen_off_command(), idle::screen_off_mark()),
{
    reveal_strlit("niri msg action power-off-monitors");
    reveal_strlit("power-off-monitors");
    assert(screen_off_command().subrange(16, 34) == idle::screen_off_mark());
    assert(text::stands_at(screen_off_command(), idle::screen_off_mark(), 16));
}

/// The command that is added lacks the mark for sleep.
proof fn lemma_command_lacks_sleep_mark()
    ensures
        !text::has_text(screen_off_command(), idle::sleep_mark()),
{
    reveal_strlit("niri msg action power-off-monitors");
    reveal_strlit("systemctl suspend");
    let c = screen_off_command();
    let m = idle::sleep_mark();
    assert forall|i: int| !#[trigger] text::stands_at(c, m, i) by {
        if text::stands_at(c, m, i) {
            assert(c.subrange(i, i + 17)[1] == c[i + 1]);
            assert(c[i + 1] == 'y');
        }
    }
}

// ---------------------------------------------------------------------------
// Blocks
// ---------------------------------------------------------------------------

/// Where a block ends, and that none of its lines closes it before.
pub(crate) proof fn lemma_close_from_facts(lines: Seq<Seq<char>>, i: int)
    requires
        0 <= i <= lines.len(),
        lines.len() > 0,
    ensures
        ({
            let e = idle::close_from(lines, i);
            &&& i - 1 <= e < lines.len()
            &&& forall|j: int| i <= j < e ==> !idle::closes(#[trigger] lines[j])
            &&& (e >= i && idle::closes(lines[e])) || (e == lines.len() - 1 && (forall|j: int|
                i <= j < lines.len() ==> !idle::closes(#[trigger] lines[j])))
        }),
    decreases lines.len() - i,
{
    if i < lines.len() && !idle::closes(lines[i]) {
        lemma_close_from_facts(lines, i + 1);
    }
}

/// A block ends at the first line that closes it.
proof fn lemma_close_from_is(lines: Seq<Seq<char>>, i: int, e: int)
    requires
        0 <= i <= e < lines.len(),
        idle::closes(lines[e]),
        forall|j: int| i <= j < e ==> !idle::closes(#[trigger] lines[j]),
    ensures
        idle::close_from(lines, i) == e,
    decreases e - i,
{
    if i < e {
        lemma_close_from_is(lines, i + 1, e);
    }
}

/// A block that nothing closes ends with the last line.
proof fn lemma_close_from_none(lines: Seq<Seq<char>>, i: int)
    requires
        0 <= i,
        forall|j: int| i <= j < lines.len() ==> !idle::closes(#[trigger] lines[j]),
    ensures
        idle::close_from(lines, i) == lines.len() - 1,
    decreases lines.len() - i,
{
    if i < lines.len() {
        lemma_close_from_none(lines, i + 1);
    }
}

/// Lines that agree from `i` to `j`, the second ones `d` further down, hold the same timeouts
/// and commands there.
proof fn lemma_body_agrees(
    a: Seq<Seq<char>>,
    b: Seq<Seq<char>>,
    i: int,
    j: int,
    d: int,
)
    requires
        forall|k: int|
            #![trigger a[k]]
            i <= k < j ==> idle::sets_timeout(a[k]) == idle::sets_timeout(b[k + d])
                && idle::command(a[k]) == idle::command(b[k + d]),
    ensures
        idle::last_timeout(b, i + d, j + d) == match idle::last_timeout(a, i, j) {
            Some(k) => Some(k + d),
            None => None,
        },
        idle::last_command(b, i + d, j + d) == idle::last_command(a, i, j),
    decreases j - i,
{
    if i < j {
        assert(a[j - 1] == a[j - 1]);
        lemma_body_agrees(a, b, i, j - 1, d);
        assert(j - 1 + d == j + d - 1);
    }
}

/// Lines of the same shape have the same blocks.
proof fn lemma_same_shape(a: Seq<Seq<char>>, b: Seq<Seq<char>>, i: int)
    requires
        same_shape(a, b),
        0 <= i,
    ensures
        idle::blocks(a, i) == idle::blocks(b, i),
    decreases a.len() - i,
{
    if i < a.len() {
        assert(idle::opens(a[i]) == idle::opens(b[i]));
        if idle::opens(a[i]) {
            let e = idle::close_from(a, i + 1);
            lemma_close_from_facts(a, i + 1);
            if e >= i + 1 && idle::closes(a[e]) {
                assert(idle::closes(b[e]));
                assert forall|j: int| i + 1 <= j < e implies !idle::closes(#[trigger] b[j]) by {
                    assert(!idle::closes(a[j]));
                }
                lemma_close_from_is(b, i + 1, e);
            } else {
                assert forall|j: int| i + 1 <= j < b.len() implies !idle::closes(
                    #[trigger] b[j],
                ) by {
                    assert(!idle::closes(a[j]));
                }
                lemma_close_from_none(b, i + 1);
            }
            lemma_body_agrees(a, b, i + 1, e, 0);
            lemma_same_shape(a, b, e + 1);
            assert(idle::block_at(a, i) == idle::block_at(b, i));
        } else {
            lemma_same_shape(a, b, i + 1);
        }
    }
}

/// Blocks follow each other without overlap.
pub(crate) proof fn lemma_blocks_order(lines: Seq<Seq<char>>, i: int, m: int, n: int)
    requires
        0 <= i,
        0 <= m < n < idle::blocks(lines, i).len(),
    ensures
        idle::blocks(lines, i)[m].end < idle::blocks(lines, i)[n].start,
    decreases lines.len() - i,
{
    idle::lemma_close_from(lines, i + 1);
    if idle::opens(lines[i]) {
        let e = idle::close_from(lines, i + 1);
        let rest = idle::blocks(lines, e + 1);
        assert(idle::blocks(lines, i)[n] == rest[n - 1]);
        if m == 0 {
            idle::lemma_blocks_in_range(lines, e + 1, n - 1);
        } else {
            assert(idle::blocks(lines, i)[m] == rest[m - 1]);
            lemma_blocks_order(lines, e + 1, m - 1, n - 1);
        }
    } else {
        lemma_blocks_order(lines, i + 1, m, n);
    }
}

/// Replacing a timeout line changes what its own block says and nothing else.
proof fn lemma_retimed(lines: Seq<Seq<char>>, x: int, line: Seq<char>)
    requires
        0 <= x < idle::blocks(lines, 0).len(),
        idle::blocks(lines, 0)[x].timeout_line is Some,
        idle::sets_timeout(line),
    ensures
        ({
            let b = idle::blocks(lines, 0)[x];
            let after = lines.update(b.timeout_line->0, line);
            &&& same_shape(lines, after)
            &&& idle::blocks(after, 0) == idle::blocks(lines, 0)
            &&& cells(after, 0) == cells(lines, 0).update(x, (b.on_timeout, Some(line)))
        }),
{
    let bs = idle::blocks(lines, 0);
    let k = bs[x].timeout_line->0;
    let after = lines.update(k, line);
    idle::lemma_blocks_in_range(lines, 0, x);
    idle::lemma_kinds_exclude(lines[k]);
    idle::lemma_kinds_exclude(line);
    assert(same_shape(lines, after));
    lemma_same_shape(lines, after, 0);
    let want = cells(lines, 0).update(x, (bs[x].on_timeout, Some(line)));
    assert forall|n: int| 0 <= n < bs.len() implies #[trigger] cells(after, 0)[n] == want[n] by {
        idle::lemma_blocks_in_range(lines, 0, n);
        if n < x {
            lemma_blocks_order(lines, 0, n, x);
        } else if x < n {
            lemma_blocks_order(lines, 0, x, n);
        }
    }
    assert(cells(after, 0) =~= want);
}

/// Where a line is after another was put in at `q`.
pub open spec fn moved(line: Option<int>, q: int) -> Option<int> {
    match line {
        Some(k) => Some(
            if k >= q {
                k + 1
            } else {
                k
            },
        ),
        None => None,
    }
}

/// Below an inserted line everything moves down by one and says the same.
proof fn lemma_below_insertion(lines: Seq<Seq<char>>, q: int, line: Seq<char>, i: int)
    requires
        0 <= q <= i,
        q <= lines.len(),
        lines.len() > 0,
    ensures
        cells(lines.insert(q, line), i + 1) == cells(lines, i),
        idle::blocks(lines.insert(q, line), i + 1).len() == idle::blocks(lines, i).len(),
        forall|n: int|
            0 <= n < idle::blocks(lines, i).len() ==> #[trigger] idle::blocks(
                lines.insert(q, line),
                i + 1,
            )[n].timeout_line == moved(idle::blocks(lines, i)[n].timeout_line, q),
    decreases lines.len() - i,
{
    let after = lines.insert(q, line);
    if i < lines.len() {
        assert(after[i + 1] == lines[i]);
        if idle::opens(lines[i]) {
            let e = idle::close_from(lines, i + 1);
            lemma_close_shifted(lines, q, line, i + 1);
            lemma_close_from_facts(lines, i + 1);
            lemma_body_agrees(lines, after, i + 1, e, 1);
            idle::lemma_last_timeout(lines, i + 1, e);
            lemma_below_insertion(lines, q, line, e + 1);
            let c = cell(lines, idle::block_at(lines, i));
            assert(cell(after, idle::block_at(after, i + 1)) == c);
            assert(cells(lines, i) =~= seq![c] + cells(lines, e + 1));
            assert(cells(after, i + 1) =~= seq![c] + cells(after, e + 2));
            assert forall|n: int| 0 <= n < idle::blocks(lines, i).len() implies #[trigger] idle::blocks(
                after,
                i + 1,
            )[n].timeout_line == moved(idle::blocks(lines, i)[n].timeout_line, q) by {
                if n > 0 {
                    assert(idle::blocks(lines, i)[n] == idle::blocks(lines, e + 1)[n - 1]);
                    assert(idle::blocks(after, i + 1)[n] == idle::blocks(after, e + 2)[n - 1]);
                }
            }
        } else {
            lemma_below_insertion(lines, q, line, i + 1);
        }
    } else {
        assert(cells(lines, i) =~= cells(after, i + 1));
    }
}

/// A block below a line that is put in ends one line later.
proof fn lemma_close_shifted(lines: Seq<Seq<char>>, q: int, line: Seq<char>, i: int)
    requires
        0 <= q <= i <= lines.len(),
        lines.len() > 0,
    ensures
        idle::close_from(lines.insert(q, line), i + 1) == idle::close_from(lines, i) + 1,
    decreases lines.len() - i,
{
    let after = lines.insert(q, line);
    if i < lines.len() {
        assert(after[i + 1] == lines[i]);
        if !idle::closes(lines[i]) {
            lemma_close_shifted(lines, q, line, i + 1);
        }
    }
}

/// A timeout line that is added behind the opening line becomes the block's timeout line; nothing
/// else changes in what the blocks say.
proof fn lemma_inserted(lines: Seq<Seq<char>>, i: int, x: int, line: Seq<char>)
    requires
        0 <= i,
        0 <= x < idle::blocks(lines, i).len(),
        idle::blocks(lines, i)[x].timeout_line is None,
        idle::blocks(lines, i)[x].on_timeout.len() > 0,
        idle::sets_timeout(line),
    ensures
        ({
            let b = idle::blocks(lines, i)[x];
            let after = lines.insert(b.start + 1, line);
            &&& cells(after, i) == cells(lines, i).update(x, (b.on_timeout, Some(line)))
            &&& idle::blocks(after, i).len() == idle::blocks(lines, i).len()
            &&& idle::blocks(after, i)[x].timeout_line == Some(b.start + 1)
            &&& forall|n: int|
                0 <= n < idle::blocks(lines, i).len() && n != x ==> #[trigger] idle::blocks(
                    after,
                    i,
                )[n].timeout_line == moved(idle::blocks(lines, i)[n].timeout_line, b.start + 1)
        }),
    decreases lines.len() - i,
{
    let b = idle::blocks(lines, i)[x];
    let p = b.start;
    let after = lines.insert(p + 1, line);
    idle::lemma_blocks_in_range(lines, i, x);
    idle::lemma_kinds_exclude(line);
    assert(after[i] == lines[i]);
    let e = idle::close_from(lines, i + 1);
    lemma_close_from_facts(lines, i + 1);
    if !idle::opens(lines[i]) {
        assert(i < p);
        lemma_inserted(lines, i + 1, x, line);
    } else if x == 0 {
        assert(p == i);
        assert(after[p + 1] == line);
        assert(idle::close_from(after, p + 1) == idle::close_from(after, p + 2));
        lemma_close_shifted(lines, p + 1, line, p + 1);
        lemma_body_agrees(lines, after, p + 1, e, 1);
        lemma_front_line(after, p + 1, e + 1);
        let c = (b.on_timeout, Some(line));
        assert(cell(after, idle::block_at(after, p)) == c);
        lemma_below_insertion(lines, p + 1, line, e + 1);
        assert(cells(after, i) =~= seq![c] + cells(after, e + 2));
        assert(cells(lines, i) =~= seq![cell(lines, b)] + cells(lines, e + 1));
        assert(cells(lines, i).update(0, c) =~= seq![c] + cells(lines, e + 1));
        assert forall|n: int|
            0 <= n < idle::blocks(lines, i).len() && n != x implies #[trigger] idle::blocks(
            after,
            i,
        )[n].timeout_line == moved(idle::blocks(lines, i)[n].timeout_line, p + 1) by {
            assert(idle::blocks(lines, i)[n] == idle::blocks(lines, e + 1)[n - 1]);
            assert(idle::blocks(after, i)[n] == idle::blocks(after, e + 2)[n - 1]);
        }
    } else {
        assert(idle::blocks(lines, i)[x] == idle::blocks(lines, e + 1)[x - 1]);
        idle::lemma_blocks_in_range(lines, e + 1, x - 1);
        assert(e + 1 <= p);
        assert(idle::closes(lines[e])) by {
            if !(e >= i + 1 && idle::closes(lines[e])) {
                assert(e == lines.len() - 1);
            }
        }
        assert forall|j: int| 0 <= j <= p implies #[trigger] after[j] == lines[j] by {}
        assert forall|j: int| i + 1 <= j < e implies !idle::closes(#[trigger] after[j]) by {
            assert(after[j] == lines[j]);
        }
        if e < i + 1 {
            assert(e == i);
            assert(false);
        }
        lemma_close_from_is(after, i + 1, e);
        lemma_body_agrees(lines, after, i + 1, e, 0);
        idle::lemma_last_timeout(lines, i + 1, e);
        lemma_inserted(lines, e + 1, x - 1, line);
        let c = cell(lines, idle::block_at(lines, i));
        assert(cell(after, idle::block_at(after, i)) == c);
        assert(cells(lines, i) =~= seq![c] + cells(lines, e + 1));
        assert(cells(after, i) =~= seq![c] + cells(after, e + 1));
        assert(cells(lines, i).update(x, (b.on_timeout, Some(line))) =~= seq![c] + cells(
            lines,
            e + 1,
        ).update(x - 1, (b.on_timeout, Some(line))));
        assert(idle::blocks(after, i)[x] == idle::blocks(after, e + 1)[x - 1]);
        assert forall|n: int|
            0 <= n < idle::blocks(lines, i).len() && n != x implies #[trigger] idle::blocks(
            after,
            i,
        )[n].timeout_line == moved(idle::blocks(lines, i)[n].timeout_line, p + 1) by {
            if n > 0 {
                assert(idle::blocks(lines, i)[n] == idle::blocks(lines, e + 1)[n - 1]);
                assert(idle::blocks(after, i)[n] == idle::blocks(after, e + 1)[n - 1]);
            }
        }
    }
}

/// A timeout line in front counts only where no later one follows.
proof fn lemma_front_line(lines: Seq<Seq<char>>, i: int, j: int)
    requires
        i < j,
        idle::sets_timeout(lines[i]),
        idle::command(lines[i]) is None,
    ensures
        idle::last_timeout(lines, i, j) == match idle::last_timeout(lines, i + 1, j) {
            Some(k) => Some(k),
            None => Some(i),
        },
        idle::last_command(lines, i, j) == idle::last_command(lines, i + 1, j),
    decreases j - i,
{
    if i + 1 < j {
        lemma_front_line(lines, i, j - 1);
    } else {
        assert(idle::last_command(lines, i, i) == Seq::<char>::empty());
    }
}

/// Whether a block sets a time in the form in which it is written.
pub open spec fn has_time(lines: Seq<Seq<char>>, x: int, secs: nat) -> bool {
    exists|n: nat, cr: bool| cells(lines, 0)[x].1 == Some(#[trigger] idle::time_text(n, cr, secs))
}

/// The line on which the time of a block stands after it is written.
pub open spec fn written_at(b: Block) -> int {
    match b.timeout_line {
        Some(k) => k,
        None => b.start + 1,
    }
}

/// Whether the timeout line of one block is where the writing of another one's left it.
pub open spec fn follows(after: Block, before: Block, written: Block) -> bool {
    after.timeout_line == match written.timeout_line {
        Some(_) => before.timeout_line,
        None => moved(before.timeout_line, written.start + 1),
    }
}

/// The lines with the time of a block on one of them: in place of the one it has, or behind its
/// opening line.
pub open spec fn put(lines: Seq<Seq<char>>, b: Block, line: Seq<char>) -> Seq<Seq<char>> {
    match b.timeout_line {
        Some(k) => lines.update(k, line),
        None => lines.insert(b.start + 1, line),
    }
}

/// Setting the time of the first block for a mark changes what that block says and nothing else.
proof fn lemma_put(lines: Seq<Seq<char>>, mark: Seq<char>, line: Seq<char>)
    requires
        mark.len() > 0,
        idle::sets_timeout(line),
        idle::picked(lines, mark) is Some,
    ensures
        ({
            let bs = idle::blocks(lines, 0);
            let x = idle::pick(bs, mark);
            let after = put(lines, bs[x], line);
            let cs = idle::blocks(after, 0);
            &&& 0 <= x < bs.len()
            &&& cs.len() == bs.len()
            &&& forall|i: int|
                0 <= i < bs.len() ==> (#[trigger] cs[i]).on_timeout == bs[i].on_timeout
            &&& idle::pick(cs, mark) == x
            &&& cs[x].timeout_line == Some(written_at(bs[x]))
            &&& 0 <= written_at(bs[x]) < after.len() - 1
            &&& cells(after, 0)[x].1 == Some(line)
            &&& after[written_at(bs[x])] == line
            &&& after.last() == lines.last()
            &&& forall|i: int|
                0 <= i < bs.len() && i != x ==> #[trigger] cells(after, 0)[i] == cells(lines, 0)[i]
            &&& forall|i: int|
                0 <= i < bs.len() && i != x ==> follows(#[trigger] cs[i], bs[i], bs[x])
        }),
{
    let bs = idle::blocks(lines, 0);
    let x = idle::pick(bs, mark);
    idle::lemma_pick(bs, mark);
    let b = bs[x];
    let after = put(lines, b, line);
    let cs = idle::blocks(after, 0);
    idle::lemma_blocks_in_range(lines, 0, x);
    assert(b.on_timeout.len() > 0) by {
        let i = choose|i: int| text::stands_at(b.on_timeout, mark, i);
        assert(text::stands_at(b.on_timeout, mark, i));
    }
    assert(b.start + 1 < b.end);
    match b.timeout_line {
        Some(k) => lemma_retimed(lines, x, line),
        None => lemma_inserted(lines, 0, x, line),
    }
    assert(cells(after, 0) == cells(lines, 0).update(x, (b.on_timeout, Some(line))));
    assert(cells(after, 0).len() == cs.len());
    assert forall|i: int| 0 <= i < bs.len() implies (#[trigger] cs[i]).on_timeout
        == bs[i].on_timeout by {
        assert(cells(after, 0)[i].0 == cs[i].on_timeout);
        assert(cells(lines, 0)[i].0 == bs[i].on_timeout);
    }
    assert forall|i: int| 0 <= i < bs.len() && i != x implies follows(
        #[trigger] cs[i],
        bs[i],
        bs[x],
    ) by {}
    lemma_pick_by_cells(cs, bs, mark);
}

/// Writing a timeout changes one cell: the first for the mark.
proof fn lemma_write(lines: Seq<Seq<char>>, mark: Seq<char>, secs: nat)
    requires
        mark.len() > 0,
        secs <= u32::MAX,
    ensures
        ({
            let bs = idle::blocks(lines, 0);
            let x = idle::pick(bs, mark);
            match idle::retimed(lines, mark, secs) {
                Some(after) => {
                    let cs = idle::blocks(after, 0);
                    &&& 0 <= x < bs.len()
                    &&& cs.len() == bs.len()
                    &&& forall|i: int|
                        0 <= i < bs.len() ==> (#[trigger] cs[i]).on_timeout == bs[i].on_timeout
                    &&& has_time(after, x, secs)
                    &&& cs[x].timeout_line == Some(written_at(bs[x]))
                    &&& 0 <= written_at(bs[x]) < after.len() - 1
                    &&& forall|i: int|
                        0 <= i < bs.len() && i != x ==> #[trigger] cells(after, 0)[i] == cells(
                            lines,
                            0,
                        )[i]
                    &&& forall|i: int|
                        0 <= i < bs.len() && i != x ==> follows(#[trigger] cs[i], bs[i], bs[x])
                },
                None => x == bs.len(),
            }
        }),
{
    let bs = idle::blocks(lines, 0);
    let x = idle::pick(bs, mark);
    idle::lemma_pick(bs, mark);
    if x < bs.len() {
        let (n, cr) = match bs[x].timeout_line {
            Some(k) => (idle::indent_of(lines[k]), idle::has_cr(lines[k])),
            None => (4, false),
        };
        let line = idle::time_text(n, cr, secs);
        lemma_time_text(n, cr, secs);
        lemma_put(lines, mark, line);
        let after = idle::retimed(lines, mark, secs)->0;
        assert(after == put(lines, bs[x], line));
        assert(cells(after, 0)[x].1 == Some(idle::time_text(n, cr, secs)));
    }
}

/// Equal commands are picked alike.
proof fn lemma_pick_by_cells(a: Seq<Block>, b: Seq<Block>, mark: Seq<char>)
    requires
        a.len() == b.len(),
        forall|i: int| 0 <= i < a.len() ==> (#[trigger] a[i]).on_timeout == b[i].on_timeout,
    ensures
        idle::pick(a, mark) == idle::pick(b, mark),
{
    idle::lemma_pick(a, mark);
    let n = idle::pick(a, mark);
    assert forall|i: int| 0 <= i < n implies !text::has_text(
        #[trigger] b[i].on_timeout,
        mark,
    ) by {
        assert(a[i].on_timeout == b[i].on_timeout);
    }
    if n < a.len() {
        assert(a[n].on_timeout == b[n].on_timeout);
    }
    idle::lemma_pick_is(b, mark, n);
}

// ---------------------------------------------------------------------------
// The added listener
// ---------------------------------------------------------------------------

/// The kinds of line that a first character rules out.
proof fn lemma_kind_by_first(line: Seq<char>)
    ensures
        ({
            let t = text::trimmed(line);
            &&& t.len() == 0 || t[0] != 'l' ==> !idle::opens(line)
            &&& t.len() == 0 || t[0] != '}' ==> !idle::closes(line)
            &&& t.len() == 0 || t[0] != 't' ==> !idle::sets_timeout(line)
            &&& t.len() == 0 || t[0] != 'o' ==> idle::command(line) is None
        }),
{
    let t = text::trimmed(line);
    reveal_strlit("timeout");
    reveal_strlit("listener");
    reveal_strlit("}");
    reveal_strlit("on-timeout");
    if text::has_prefix(t, "listener"@) {
        assert(t.subrange(0, 8)[0] == t[0]);
        assert("listener"@[0] == 'l');
    }
    if text::has_prefix(t, "timeout"@) {
        assert(t.subrange(0, 7)[0] == t[0]);
        assert("timeout"@[0] == 't');
    }
    if text::has_prefix(t, "on-timeout"@) {
        assert(t.subrange(0, 10)[0] == t[0]);
        assert("on-timeout"@[0] == 'o');
    }
}

/// There is nothing to trim where neither end is white space.
proof fn lemma_trim_bare(r: Seq<char>)
    requires
        r.len() > 0,
        !text::is_space(r[0]),
        !text::is_space(r.last()),
    ensures
        text::trimmed(r) == r,
{
    lemma_trim_indented(0, r);
    assert(text::spaces(0) + r == r);
}

/// What the comment that is added means: nothing.
proof fn lemma_comment_line()
    ensures
        ({
            let line = "# 熄屏（由 info-setting 管理）"@;
            &&& !idle::opens(line) && !idle::closes(line) && !idle::sets_timeout(line)
            &&& idle::command(line) is None
            &&& !line.contains('\n') && text::without_cr(line) == line
        }),
{
    reveal_strlit("# 熄屏（由 info-setting 管理）");
    let line = "# 熄屏（由 info-setting 管理）"@;
    lemma_trim_bare(line);
    lemma_kind_by_first(line);
}

/// The first line of the block that is added opens it.
proof fn lemma_opening_line()
    ensures
        ({
            let line = "listener {"@;
            &&& idle::opens(line) && !idle::closes(line) && !idle::sets_timeout(line)
            &&& idle::command(line) is None
            &&& !line.contains('\n') && text::without_cr(line) == line
        }),
{
    reveal_strlit("listener {");
    reveal_strlit("listener");
    let line = "listener {"@;
    lemma_trim_bare(line);
    lemma_kind_by_first(line);
    assert(line.subrange(0, 8) == "listener"@);
    assert(line[9] == '{');
}

/// What the command line that is added means.
proof fn lemma_command_line()
    ensures
        ({
            let line = "    on-timeout = niri msg action power-off-monitors"@;
            &&& !idle::opens(line) && !idle::closes(line) && !idle::sets_timeout(line)
            &&& idle::command(line) == Some(screen_off_command())
            &&& !line.contains('\n') && text::without_cr(line) == line
        }),
{
    reveal_strlit("    on-timeout = niri msg action power-off-monitors");
    reveal_strlit("on-timeout = niri msg action power-off-monitors");
    reveal_strlit("niri msg action power-off-monitors");
    reveal_strlit("on-timeout");
    let line = "    on-timeout = niri msg action power-off-monitors"@;
    let r = "on-timeout = niri msg action power-off-monitors"@;
    assert(line == text::spaces(4) + r);
    lemma_trim_indented(4, r);
    lemma_kind_by_first(line);
    assert(r.subrange(0, 10) == "on-timeout"@);
    let rest = r.skip(10);
    text::lemma_first_is(rest, '=', 1);
    assert(rest.skip(2) == text::spaces(1) + screen_off_command());
    lemma_trim_indented(1, screen_off_command());
}

/// What the line for waking up means: nothing.
proof fn lemma_resume_line()
    ensures
        ({
            let line = "    on-resume = niri msg action power-on-monitors"@;
            &&& !idle::opens(line) && !idle::closes(line) && !idle::sets_timeout(line)
            &&& idle::command(line) is None
            &&& !line.contains('\n') && text::without_cr(line) == line
        }),
{
    reveal_strlit("    on-resume = niri msg action power-on-monitors");
    reveal_strlit("on-resume = niri msg action power-on-monitors");
    reveal_strlit("on-timeout");
    let line = "    on-resume = niri msg action power-on-monitors"@;
    let r = "on-resume = niri msg action power-on-monitors"@;
    assert(line == text::spaces(4) + r);
    lemma_trim_indented(4, r);
    lemma_kind_by_first(line);
    assert(r.subrange(0, 10)[3] == 'r');
    assert("on-timeout"@[3] == 't');
}

/// The last line of the block that is added closes it.
proof fn lemma_closing_line()
    ensures
        ({
            let line = "}"@;
            &&& !idle::opens(line) && idle::closes(line) && !idle::sets_timeout(line)
            &&& idle::command(line) is None
            &&& !line.contains('\n') && text::without_cr(line) == line
        }),
{
    reveal_strlit("}");
    let line = "}"@;
    lemma_trim_bare(line);
    lemma_kind_by_first(line);
}

/// An empty line means nothing.
proof fn lemma_empty_line()
    ensures
        ({
            let line = Seq::<char>::empty();
            &&& !idle::opens(line) && !idle::closes(line) && !idle::sets_timeout(line)
            &&& idle::command(line) is None
            &&& !line.contains('\n') && text::without_cr(line) == line
        }),
{
    lemma_kind_by_first(Seq::<char>::empty());
}

/// What the lines below those that were there are once a listener has been added; `h` is the first
/// of its lines.
proof fn lemma_added_lines(lines: Seq<Seq<char>>, secs: nat) -> (h: int)
    requires
        secs <= u32::MAX,
    ensures
        ({
            let after = idle::with_screen_off(lines, secs);
            &&& lines.len() <= h <= lines.len() + 1
            &&& after.len() == h + 6
            &&& forall|j: int| 0 <= j < lines.len() ==> #[trigger] after[j] == lines[j]
            &&& forall|j: int|
                lines.len() <= j < h + 6 && j != h + 1 ==> !idle::opens(#[trigger] after[j])
            &&& forall|j: int| lines.len() <= j < h + 5 ==> !idle::closes(#[trigger] after[j])
            &&& idle::opens(after[h + 1])
            &&& idle::closes(after[h + 5])
            &&& after[h + 2] == idle::timeout_text(4, secs)
            &&& idle::sets_timeout(after[h + 2])
            &&& !idle::sets_timeout(after[h + 3]) && !idle::sets_timeout(after[h + 4])
            &&& idle::command(after[h + 3]) == Some(screen_off_command())
            &&& idle::command(after[h + 4]) is None
        }),
{
    let after = idle::with_screen_off(lines, secs);
    let h = after.len() - 6;
    let block = idle::screen_off_block(secs);
    lemma_comment_line();
    lemma_opening_line();
    lemma_timeout_text(4, secs);
    idle::lemma_kinds_exclude(idle::timeout_text(4, secs));
    lemma_command_line();
    lemma_resume_line();
    lemma_closing_line();
    lemma_empty_line();
    assert(forall|j: int| 0 <= j < 6 ==> after[h + j] == #[trigger] block[j]);
    assert(after[h] == block[0]);
    assert(after[h + 1] == block[1]);
    assert(after[h + 2] == block[2]);
    assert(after[h + 3] == block[3]);
    assert(after[h + 4] == block[4]);
    assert(after[h + 5] == block[5]);
    h
}

/// What the blocks say once a screen-off listener has been added: the added one comes last, and
/// takes the place of a last block that was never closed.
proof fn lemma_screen_off_added(lines: Seq<Seq<char>>, secs: nat, i: int)
    requires
        secs <= u32::MAX,
        0 <= i <= lines.len(),
    ensures
        cells(idle::with_screen_off(lines, secs), i) == (if open_ended(lines, i) {
            cells(lines, i).drop_last()
        } else {
            cells(lines, i)
        }).push((screen_off_command(), Some(idle::timeout_text(4, secs)))),
        open_ended(lines, i) ==> cells(lines, i).len() > 0,
        idle::blocks(idle::with_screen_off(lines, secs), i).last().timeout_line == Some(
            idle::with_screen_off(lines, secs).len() - 4,
        ),
    decreases lines.len() - i,
{
    let after = idle::with_screen_off(lines, secs);
    let h = lemma_added_lines(lines, secs);
    let c = (screen_off_command(), Some(idle::timeout_text(4, secs)));
    if i == lines.len() {
        if h > lines.len() {
            assert(!idle::opens(after[i]));
        }
        assert(!idle::opens(after[h]));
        assert(idle::blocks(after, i) == idle::blocks(after, h));
        assert(idle::blocks(after, h) == idle::blocks(after, h + 1));
        lemma_close_from_is(after, h + 2, h + 5);
        lemma_tail_of_added(after, h, h + 1);
        assert(idle::blocks(after, h + 6) == Seq::<Block>::empty());
        assert(idle::blocks(after, i) == seq![idle::block_at(after, h + 1)]);
        assert(cells(after, i) =~= cells(lines, i).push(c));
    } else if !idle::opens(lines[i]) {
        assert(after[i] == lines[i]);
        lemma_screen_off_added(lines, secs, i + 1);
    } else {
        assert(after[i] == lines[i]);
        let e = idle::close_from(lines, i + 1);
        lemma_close_from_facts(lines, i + 1);
        let b = idle::block_at(lines, i);
        assert(cells(lines, i) =~= seq![cell(lines, b)] + cells(lines, e + 1));
        if e >= i + 1 && idle::closes(lines[e]) {
            assert forall|j: int| i + 1 <= j < e implies !idle::closes(#[trigger] after[j]) by {
                assert(after[j] == lines[j]);
            }
            assert(after[e] == lines[e]);
            lemma_close_from_is(after, i + 1, e);
            lemma_body_agrees(lines, after, i + 1, e, 0);
            idle::lemma_last_timeout(lines, i + 1, e);
            lemma_screen_off_added(lines, secs, e + 1);
            assert(cell(after, idle::block_at(after, i)) == cell(lines, b));
            assert(cells(after, i) =~= seq![cell(lines, b)] + cells(after, e + 1));
            let rest = cells(lines, e + 1);
            if open_ended(lines, e + 1) {
                assert(cells(lines, i).drop_last() =~= seq![cell(lines, b)] + rest.drop_last());
            }
            assert(cells(after, i) =~= (if open_ended(lines, i) {
                cells(lines, i).drop_last()
            } else {
                cells(lines, i)
            }).push(c));
            assert(cells(after, e + 1).len() == idle::blocks(after, e + 1).len());
            assert(idle::blocks(after, i).last() == idle::blocks(after, e + 1).last());
        } else {
            assert(e == lines.len() - 1);
            assert(open_ended(lines, i));
            assert forall|j: int| i + 1 <= j < h + 5 implies !idle::closes(
                #[trigger] after[j],
            ) by {
                if j < lines.len() {
                    assert(after[j] == lines[j]);
                }
            }
            lemma_close_from_is(after, i + 1, h + 5);
            lemma_tail_of_added(after, h, i);
            assert(idle::blocks(after, h + 6) == Seq::<Block>::empty());
            assert(idle::blocks(after, i) == seq![idle::block_at(after, i)]);
            assert(idle::blocks(lines, e + 1) == Seq::<Block>::empty());
            assert(cells(lines, i).drop_last() =~= Seq::empty());
            assert(cells(after, i) =~= cells(lines, i).drop_last().push(c));
        }
    }
}

/// The last timeout and the last command before the end of the added listener are its own.
proof fn lemma_tail_of_added(after: Seq<Seq<char>>, h: int, i: int)
    requires
        i <= h + 1,
        idle::sets_timeout(after[h + 2]),
        !idle::sets_timeout(after[h + 3]),
        !idle::sets_timeout(after[h + 4]),
        idle::command(after[h + 3]) == Some(screen_off_command()),
        idle::command(after[h + 4]) is None,
    ensures
        idle::last_timeout(after, i + 1, h + 5) == Some(h + 2),
        idle::last_command(after, i + 1, h + 5) == screen_off_command(),
{
    assert(idle::last_timeout(after, i + 1, h + 3) == Some(h + 2));
    assert(idle::last_timeout(after, i + 1, h + 4) == Some(h + 2));
    assert(idle::last_command(after, i + 1, h + 4) == screen_off_command());
}

// ---------------------------------------------------------------------------
// Lines and text
// ---------------------------------------------------------------------------

/// Trimming the start and one more character at the end.
proof fn lemma_trim_start_push(s: Seq<char>, c: char)
    requires
        text::is_space(c),
    ensures
        text::trimmed_start(s.push(c)) == (if text::trimmed_start(s).len() > 0 {
            text::trimmed_start(s).push(c)
        } else {
            Seq::empty()
        }),
    decreases s.len(),
{
    if s.len() > 0 && text::is_space(s[0]) {
        assert(s.push(c).drop_first() == s.drop_first().push(c));
        lemma_trim_start_push(s.drop_first(), c);
    } else if s.len() == 0 {
        assert(s.push(c).drop_first() == Seq::<char>::empty());
        assert(text::trimmed_start(Seq::<char>::empty()) == Seq::<char>::empty());
    }
}

/// A carriage return at the end of a line changes nothing in what the line means.
proof fn lemma_cr_means_nothing(line: Seq<char>)
    ensures
        text::trimmed(text::without_cr(line)) == text::trimmed(line),
        text::without_cr(line).contains('{') == line.contains('{'),
{
    let l = text::without_cr(line);
    if line.len() > 0 && line.last() == '\r' {
        assert(line == l.push('\r'));
        lemma_trim_start_push(l, '\r');
        let t = text::trimmed_start(l);
        if t.len() > 0 {
            assert(t.push('\r').drop_last() == t);
        }
        if line.contains('{') {
            let i = choose|i: int| 0 <= i < line.len() && line[i] == '{';
            assert(l[i] == '{');
        }
        if l.contains('{') {
            let i = choose|i: int| 0 <= i < l.len() && l[i] == '{';
            assert(line[i] == '{');
        }
    }
}

/// The lines of a text, and what stands before its line feeds, have the same blocks with the same
/// times.
proof fn lemma_lines_agree(config: Seq<char>)
    ensures
        idle::blocks(text::lines_of(config), 0) == idle::blocks(text::raw_lines_of(config), 0),
        forall|k: int|
            0 <= k < text::lines_of(config).len() ==> idle::secs_on(
                #[trigger] text::lines_of(config)[k],
            ) == idle::secs_on(text::raw_lines_of(config)[k]),
{
    let a = text::lines_of(config);
    let b = text::raw_lines_of(config);
    text::lemma_lines_and_raw_lines(config);
    assert forall|i: int| 0 <= i < a.len() implies {
        &&& idle::opens(#[trigger] a[i]) == idle::opens(b[i])
        &&& idle::closes(a[i]) == idle::closes(b[i])
        &&& idle::sets_timeout(a[i]) == idle::sets_timeout(b[i])
        &&& idle::command(a[i]) == idle::command(b[i])
        &&& idle::secs_on(a[i]) == idle::secs_on(b[i])
    } by {
        lemma_cr_means_nothing(b[i]);
    }
    assert forall|i: int|
        #![trigger b[i]]
        0 <= i < a.len() implies {
        &&& idle::opens(a[i]) == idle::opens(b[i])
        &&& idle::closes(a[i]) == idle::closes(b[i])
        &&& idle::sets_timeout(a[i]) == idle::sets_timeout(b[i])
        &&& idle::command(a[i]) == idle::command(b[i])
    } by {
        assert(a[i] == a[i]);
    }
    lemma_same_shape(a, b, 0);
}

/// Putting in a line without a line feed brings none.
proof fn lemma_put_is_clean(lines: Seq<Seq<char>>, b: Block, line: Seq<char>)
    requires
        text::all_lack(lines, '\n'),
        !line.contains('\n'),
        b.timeout_line is Some ==> 0 <= b.timeout_line->0 < lines.len(),
        0 <= b.start < lines.len(),
    ensures
        text::all_lack(put(lines, b, line), '\n'),
{
    let after = put(lines, b, line);
    assert forall|i: int| 0 <= i < after.len() implies !(#[trigger] after[i]).contains('\n') by {
        if b.timeout_line is None {
            let q = b.start + 1;
            if i < q {
                assert(after[i] == lines[i]);
            } else if i > q {
                assert(after[i] == lines[i - 1]);
            }
        }
    }
}

/// Writing a time brings no line feed, and leaves the last line.
proof fn lemma_write_is_clean(lines: Seq<Seq<char>>, mark: Seq<char>, secs: nat)
    requires
        text::all_lack(lines, '\n'),
        mark.len() > 0,
        secs <= u32::MAX,
    ensures
        idle::retimed(lines, mark, secs) matches Some(after) ==> {
            &&& text::all_lack(after, '\n')
            &&& lines.len() > 0
            &&& after.len() > 0
            &&& after.last() == lines.last()
        },
{
    if let Some(after) = idle::retimed(lines, mark, secs) {
        let bs = idle::blocks(lines, 0);
        idle::lemma_pick(bs, mark);
        let b = bs[idle::pick(bs, mark)];
        idle::lemma_blocks_in_range(lines, 0, idle::pick(bs, mark));
        let (n, cr) = match b.timeout_line {
            Some(k) => (idle::indent_of(lines[k]), idle::has_cr(lines[k])),
            None => (4, false),
        };
        lemma_time_text(n, cr, secs);
        lemma_put(lines, mark, idle::time_text(n, cr, secs));
        lemma_put_is_clean(lines, b, idle::time_text(n, cr, secs));
    }
}

/// What is written is lines again; the last line stays, unless lines are added behind it.
proof fn lemma_both_written_clean(lines: Seq<Seq<char>>, screen_off_secs: nat, sleep_secs: nat)
    requires
        text::all_lack(lines, '\n'),
        screen_off_secs <= u32::MAX,
        sleep_secs <= u32::MAX,
    ensures
        ({
            let after = idle::both_written(lines, screen_off_secs, sleep_secs);
            &&& text::all_lack(after, '\n')
            &&& after.len() > 0
            &&& idle::picked(lines, idle::screen_off_mark()) is Some ==> lines.len() > 0
                && after.last() == lines.last()
        }),
{
    reveal_strlit("power-off-monitors");
    reveal_strlit("systemctl suspend");
    lemma_write_is_clean(lines, idle::screen_off_mark(), screen_off_secs);
    let mid = idle::screen_off_written(lines, screen_off_secs);
    if idle::retimed(lines, idle::screen_off_mark(), screen_off_secs) is None {
        lemma_comment_line();
        lemma_opening_line();
        lemma_timeout_text(4, screen_off_secs);
        lemma_command_line();
        lemma_resume_line();
        lemma_closing_line();
        lemma_empty_line();
        let block = idle::screen_off_block(screen_off_secs);
        let h = mid.len() - 6;
        assert forall|i: int| 0 <= i < mid.len() implies !(#[trigger] mid[i]).contains('\n') by {
            if i >= h {
                assert(mid[i] == block[i - h]);
            } else if i < lines.len() {
                assert(mid[i] == lines[i]);
            }
        }
    }
    lemma_write_is_clean(mid, idle::sleep_mark(), sleep_secs);
}

// ---------------------------------------------------------------------------
// The laws
// ---------------------------------------------------------------------------

/// The blocks and cells after the screen-off time is written, seen from those before.
proof fn lemma_screen_off_step(lines: Seq<Seq<char>>, secs: nat) -> (x: int)
    requires
        secs <= u32::MAX,
    ensures
        ({
            let before = idle::blocks(lines, 0);
            let mid = idle::screen_off_written(lines, secs);
            let bs = idle::blocks(mid, 0);
            &&& 0 <= x < bs.len()
            &&& x == idle::pick(bs, idle::screen_off_mark())
            &&& has_time(mid, x, secs)
            &&& bs[x].timeout_line is Some
            &&& if idle::pick(before, idle::screen_off_mark()) < before.len() {
                &&& x == idle::pick(before, idle::screen_off_mark())
                &&& bs.len() == before.len()
                &&& idle::pick(bs, idle::sleep_mark()) == idle::pick(before, idle::sleep_mark())
            } else {
                let kept = if open_ended(lines, 0) {
                    before.len() - 1
                } else {
                    before.len() as int
                };
                &&& bs.len() == kept + 1
                &&& x == kept
                &&& idle::pick(bs, idle::sleep_mark()) == if idle::pick(before, idle::sleep_mark())
                    < kept {
                    idle::pick(before, idle::sleep_mark())
                } else {
                    kept + 1
                }
            }
        }),
{
    let before = idle::blocks(lines, 0);
    let mid = idle::screen_off_written(lines, secs);
    let bs = idle::blocks(mid, 0);
    let off = idle::screen_off_mark();
    let sleep = idle::sleep_mark();
    reveal_strlit("power-off-monitors");
    idle::lemma_pick(before, off);
    idle::lemma_pick(before, sleep);
    let x0 = idle::pick(before, off);
    if x0 < before.len() {
        lemma_write(lines, off, secs);
        lemma_pick_by_cells(bs, before, off);
        lemma_pick_by_cells(bs, before, sleep);
        x0
    } else {
        lemma_screen_off_added(lines, secs, 0);
        lemma_command_has_screen_off_mark();
        lemma_command_lacks_sleep_mark();
        let kept = if open_ended(lines, 0) {
            before.len() - 1
        } else {
            before.len() as int
        };
        assert(cells(mid, 0).len() == bs.len());
        assert(cells(lines, 0).len() == before.len());
        assert forall|i: int| 0 <= i < kept implies (#[trigger] bs[i]).on_timeout
            == before[i].on_timeout by {
            assert(cells(mid, 0)[i].0 == bs[i].on_timeout);
            assert(cells(lines, 0)[i].0 == before[i].on_timeout);
        }
        assert(cells(mid, 0)[kept].0 == bs[kept].on_timeout);
        assert forall|i: int| 0 <= i < kept implies !text::has_text(
            #[trigger] bs[i].on_timeout,
            off,
        ) by {
            assert(bs[i].on_timeout == before[i].on_timeout);
        }
        idle::lemma_pick_is(bs, off, kept);
        let y = idle::pick(before, sleep);
        if y < kept {
            assert forall|i: int| 0 <= i < y implies !text::has_text(
                #[trigger] bs[i].on_timeout,
                sleep,
            ) by {
                assert(bs[i].on_timeout == before[i].on_timeout);
            }
            assert(bs[y].on_timeout == before[y].on_timeout);
            idle::lemma_pick_is(bs, sleep, y);
        } else {
            assert forall|i: int| 0 <= i < kept + 1 implies !text::has_text(
                #[trigger] bs[i].on_timeout,
                sleep,
            ) by {
                if i < kept {
                    assert(bs[i].on_timeout == before[i].on_timeout);
                }
            }
            idle::lemma_pick_is(bs, sleep, kept + 1);
        }
        assert(cells(mid, 0)[kept].1 == Some(idle::time_text(4, false, secs)));
        kept
    }
}

/// The blocks and cells after the sleep time is written, seen from those before.
proof fn lemma_sleep_step(lines: Seq<Seq<char>>, secs: nat)
    requires
        secs <= u32::MAX,
    ensures
        ({
            let before = idle::blocks(lines, 0);
            let after = idle::sleep_written(lines, secs);
            let bs = idle::blocks(after, 0);
            let y = idle::pick(before, idle::sleep_mark());
            &&& bs.len() == before.len()
            &&& idle::pick(bs, idle::sleep_mark()) == y
            &&& idle::pick(bs, idle::screen_off_mark()) == idle::pick(
                before,
                idle::screen_off_mark(),
            )
            &&& forall|i: int|
                0 <= i < bs.len() && i != y ==> #[trigger] cells(after, 0)[i] == cells(lines, 0)[i]
            &&& y < bs.len() ==> has_time(after, y, secs)
        }),
{
    let before = idle::blocks(lines, 0);
    let bs = idle::blocks(idle::sleep_written(lines, secs), 0);
    reveal_strlit("systemctl suspend");
    idle::lemma_pick(before, idle::sleep_mark());
    lemma_write(lines, idle::sleep_mark(), secs);
    if idle::pick(before, idle::sleep_mark()) < before.len() {
        lemma_pick_by_cells(bs, before, idle::sleep_mark());
        lemma_pick_by_cells(bs, before, idle::screen_off_mark());
    }
}

/// What the first listener for a mark says is what is read.
proof fn lemma_reading(lines: Seq<Seq<char>>, config: Seq<char>, mark: Seq<char>)
    requires
        text::raw_lines_of(config) == lines,
    ensures
        ({
            let bs = idle::blocks(lines, 0);
            let x = idle::pick(bs, mark);
            idle::secs_in(config, mark) == if x < bs.len() {
                match cells(lines, 0)[x].1 {
                    Some(line) => idle::secs_on(line),
                    None => None,
                }
            } else {
                None
            }
        }),
{
    let bs = idle::blocks(lines, 0);
    let x = idle::pick(bs, mark);
    idle::lemma_pick(bs, mark);
    lemma_lines_agree(config);
    text::lemma_lines_and_raw_lines(config);
    if x < bs.len() {
        idle::lemma_blocks_in_range(lines, 0, x);
        assert(cells(lines, 0)[x] == cell(lines, bs[x]));
        if let Some(k) = bs[x].timeout_line {
            assert(idle::secs_on(text::lines_of(config)[k]) == idle::secs_on(lines[k]));
        }
    }
}

/// A rewritten configuration has the lines that were written. Each line that was there keeps what
/// stands before its line feed, so also a carriage return; and the last line lacks its line feed if
/// it did before and nothing was added behind it.
pub proof fn law_rewritten_lines(config: Seq<char>, screen_off_secs: nat, sleep_secs: nat)
    requires
        screen_off_secs <= u32::MAX,
        sleep_secs <= u32::MAX,
    ensures
        ({
            let lines = text::raw_lines_of(config);
            let once = idle::rewritten(config, screen_off_secs, sleep_secs);
            &&& text::raw_lines_of(once) == idle::both_written(lines, screen_off_secs, sleep_secs)
            &&& text::is_unended(once) <==> text::is_unended(config) && idle::picked(
                lines,
                idle::screen_off_mark(),
            ) is Some
        }),
{
    let lines = text::raw_lines_of(config);
    let written = idle::both_written(lines, screen_off_secs, sleep_secs);
    let s = text::joined(written, seq!['\n']);
    if config.len() > 0 {
        text::law_raw_lines_join_back(config);
    }
    lemma_both_written_clean(lines, screen_off_secs, sleep_secs);
    text::law_raw_lines_of_joined(written);
    if text::is_unended(config) && idle::picked(lines, idle::screen_off_mark()) is Some {
        assert(s + Seq::<char>::empty() =~= s);
        lemma_end_of_joined(written);
    }
}

/// Joined lines end as the last one does.
proof fn lemma_end_of_joined(v: Seq<Seq<char>>)
    requires
        v.len() > 0,
        v.last().len() > 0,
        text::all_lack(v, '\n'),
    ensures
        text::is_unended(text::joined(v, seq!['\n'])),
{
    let s = text::joined(v, seq!['\n']);
    let last = v.last();
    assert(!last.contains('\n'));
    assert(last[last.len() - 1] != '\n');
    assert(s.last() == last.last());
}

/// The screen-off time that was written is the one that is read. Where the first listener for it
/// is also the first one for the sleep time, both times are one, and the sleep time wins.
pub proof fn law_screen_off_reads_back(
    config: Seq<char>,
    screen_off_secs: nat,
    sleep_secs: nat,
)
    requires
        screen_off_secs <= u32::MAX,
        sleep_secs <= u32::MAX,
    ensures
        idle::secs_in(
            idle::rewritten(config, screen_off_secs, sleep_secs),
            idle::screen_off_mark(),
        ) == Some(
            if one_for_both(config) {
                sleep_secs
            } else {
                screen_off_secs
            },
        ),
{
    let lines = text::raw_lines_of(config);
    let before = idle::blocks(lines, 0);
    let mid = idle::screen_off_written(lines, screen_off_secs);
    let after = idle::sleep_written(mid, sleep_secs);
    let x = lemma_screen_off_step(lines, screen_off_secs);
    lemma_sleep_step(mid, sleep_secs);
    idle::lemma_pick(before, idle::screen_off_mark());
    idle::lemma_pick(before, idle::sleep_mark());
    law_rewritten_lines(config, screen_off_secs, sleep_secs);
    lemma_reading(
        after,
        idle::rewritten(config, screen_off_secs, sleep_secs),
        idle::screen_off_mark(),
    );
    let y = idle::pick(idle::blocks(mid, 0), idle::sleep_mark());
    assert((x == y) == one_for_both(config));
    if x == y {
        let (n, cr) = choose|n: nat, cr: bool|
            cells(after, 0)[y].1 == Some(#[trigger] idle::time_text(n, cr, sleep_secs));
        lemma_time_text(n, cr, sleep_secs);
    } else {
        assert(cells(after, 0)[x] == cells(mid, 0)[x]);
        let (n, cr) = choose|n: nat, cr: bool|
            cells(mid, 0)[x].1 == Some(#[trigger] idle::time_text(n, cr, screen_off_secs));
        lemma_time_text(n, cr, screen_off_secs);
    }
}

/// The sleep time that was written is the one that is read, wherever a listener for it is there
/// and stays one; elsewhere none is read.
pub proof fn law_sleep_reads_back(config: Seq<char>, screen_off_secs: nat, sleep_secs: nat)
    requires
        screen_off_secs <= u32::MAX,
        sleep_secs <= u32::MAX,
    ensures
        idle::secs_in(idle::rewritten(config, screen_off_secs, sleep_secs), idle::sleep_mark())
            == if keeps_sleep(config) {
            Some(sleep_secs)
        } else {
            None
        },
{
    let lines = text::raw_lines_of(config);
    let before = idle::blocks(lines, 0);
    let mid = idle::screen_off_written(lines, screen_off_secs);
    let after = idle::sleep_written(mid, sleep_secs);
    let x = lemma_screen_off_step(lines, screen_off_secs);
    lemma_sleep_step(mid, sleep_secs);
    idle::lemma_pick(before, idle::screen_off_mark());
    idle::lemma_pick(before, idle::sleep_mark());
    law_rewritten_lines(config, screen_off_secs, sleep_secs);
    lemma_reading(
        after,
        idle::rewritten(config, screen_off_secs, sleep_secs),
        idle::sleep_mark(),
    );
    let y = idle::pick(idle::blocks(mid, 0), idle::sleep_mark());
    assert((y < idle::blocks(mid, 0).len()) == keeps_sleep(config));
    if y < idle::blocks(mid, 0).len() {
        let (n, cr) = choose|n: nat, cr: bool|
            cells(after, 0)[y].1 == Some(#[trigger] idle::time_text(n, cr, sleep_secs));
        lemma_time_text(n, cr, sleep_secs);
    }
}

/// Writing a time that a timeout line already gives, in the form in which it is written, changes
/// nothing.
proof fn lemma_same_time(lines: Seq<Seq<char>>, mark: Seq<char>, secs: nat)
    requires
        secs <= u32::MAX,
        idle::pick(idle::blocks(lines, 0), mark) < idle::blocks(lines, 0).len(),
        has_time(lines, idle::pick(idle::blocks(lines, 0), mark), secs),
    ensures
        idle::retimed(lines, mark, secs) == Some(lines),
{
    let bs = idle::blocks(lines, 0);
    let x = idle::pick(bs, mark);
    idle::lemma_pick(bs, mark);
    idle::lemma_blocks_in_range(lines, 0, x);
    assert(cells(lines, 0)[x] == cell(lines, bs[x]));
    let k = bs[x].timeout_line->0;
    let (n, cr) = choose|n: nat, cr: bool|
        cells(lines, 0)[x].1 == Some(#[trigger] idle::time_text(n, cr, secs));
    lemma_time_text(n, cr, secs);
    assert(lines.update(k, lines[k]) =~= lines);
}

/// Writing a time over one that was written gives what writing it alone gives.
proof fn lemma_write_over(lines: Seq<Seq<char>>, mark: Seq<char>, first: nat, secs: nat)
    requires
        mark.len() > 0,
        first <= u32::MAX,
        secs <= u32::MAX,
    ensures
        idle::retimed(lines, mark, first) matches Some(after) ==> idle::retimed(after, mark, secs)
            == idle::retimed(lines, mark, secs),
{
    if let Some(after) = idle::retimed(lines, mark, first) {
        let bs = idle::blocks(lines, 0);
        let cs = idle::blocks(after, 0);
        let x = idle::pick(bs, mark);
        idle::lemma_pick(bs, mark);
        idle::lemma_blocks_in_range(lines, 0, x);
        lemma_write(lines, mark, first);
        lemma_pick_by_cells(cs, bs, mark);
        let w = written_at(bs[x]);
        match bs[x].timeout_line {
            Some(k) => {
                lemma_time_text(idle::indent_of(lines[k]), idle::has_cr(lines[k]), first);
                let line = idle::time_text(
                    idle::indent_of(lines[k]),
                    idle::has_cr(lines[k]),
                    secs,
                );
                assert(after.update(w, line) =~= lines.update(w, line));
            },
            None => {
                lemma_time_text(4, false, first);
                assert(after[w] == idle::time_text(4, false, first));
                assert(after.update(w, idle::timeout_text(4, secs)) =~= lines.insert(
                    w,
                    idle::timeout_text(4, secs),
                ));
            },
        }
    }
}

/// The times of two listeners can be written in any order, where the first one's has its line.
proof fn lemma_writes_commute(
    lines: Seq<Seq<char>>,
    one: Seq<char>,
    one_secs: nat,
    other: Seq<char>,
    other_secs: nat,
)
    requires
        one.len() > 0,
        other.len() > 0,
        one_secs <= u32::MAX,
        other_secs <= u32::MAX,
        ({
            let bs = idle::blocks(lines, 0);
            let x = idle::pick(bs, one);
            let y = idle::pick(bs, other);
            &&& x < bs.len()
            &&& y < bs.len()
            &&& x != y
            &&& bs[x].timeout_line is Some
        }),
    ensures
        idle::retimed(lines, one, one_secs) is Some,
        idle::retimed(lines, other, other_secs) is Some,
        idle::retimed(idle::retimed(lines, one, one_secs)->0, other, other_secs) == idle::retimed(
            idle::retimed(lines, other, other_secs)->0,
            one,
            one_secs,
        ),
{
    let bs = idle::blocks(lines, 0);
    let x = idle::pick(bs, one);
    let y = idle::pick(bs, other);
    idle::lemma_pick(bs, one);
    idle::lemma_pick(bs, other);
    idle::lemma_blocks_in_range(lines, 0, x);
    idle::lemma_blocks_in_range(lines, 0, y);
    if x < y {
        lemma_blocks_order(lines, 0, x, y);
    } else {
        lemma_blocks_order(lines, 0, y, x);
    }
    let k = bs[x].timeout_line->0;
    let line = idle::time_text(idle::indent_of(lines[k]), idle::has_cr(lines[k]), one_secs);
    let a = idle::retimed(lines, one, one_secs)->0;
    let b = idle::retimed(lines, other, other_secs)->0;
    lemma_time_text(idle::indent_of(lines[k]), idle::has_cr(lines[k]), one_secs);
    lemma_retimed(lines, x, line);
    assert(a == lines.update(k, line));
    lemma_write(lines, other, other_secs);
    let cs = idle::blocks(b, 0);
    lemma_pick_by_cells(cs, bs, one);
    assert(follows(cs[x], bs[x], bs[y]));
    match bs[y].timeout_line {
        Some(j) => {
            let there = idle::time_text(
                idle::indent_of(lines[j]),
                idle::has_cr(lines[j]),
                other_secs,
            );
            assert(j != k);
            assert(a.update(j, there) =~= b.update(k, line));
        },
        None => {
            let q = bs[y].start + 1;
            let m = moved(Some(k), q)->0;
            assert(b[m] == lines[k]);
            assert(a.insert(q, idle::timeout_text(4, other_secs)) =~= b.update(m, line));
        },
    }
}

/// Writing the screen-off time over one that was written gives what writing it alone gives.
proof fn lemma_screen_off_over(lines: Seq<Seq<char>>, first: nat, secs: nat)
    requires
        first <= u32::MAX,
        secs <= u32::MAX,
    ensures
        idle::screen_off_written(idle::screen_off_written(lines, first), secs)
            == idle::screen_off_written(lines, secs),
{
    let off = idle::screen_off_mark();
    reveal_strlit("power-off-monitors");
    let after = idle::screen_off_written(lines, first);
    let bs = idle::blocks(after, 0);
    let x = lemma_screen_off_step(lines, first);
    lemma_write_over(lines, off, first, secs);
    if idle::retimed(lines, off, first) is None {
        lemma_write(lines, off, first);
        lemma_screen_off_added(lines, first, 0);
        assert(x == bs.len() - 1);
        let w = after.len() - 4;
        assert(bs[x].timeout_line == Some(w));
        assert(after[w] == idle::screen_off_block(first)[2]);
        lemma_time_text(4, false, first);
        let line = idle::timeout_text(4, secs);
        assert(idle::retimed(after, off, secs) == Some(after.update(w, line)));
        assert(idle::screen_off_block(first).update(2, line) =~= idle::screen_off_block(secs));
        assert(after.update(w, line) =~= idle::with_screen_off(lines, secs));
    }
}

/// Writing times over ones that were written gives what writing them alone gives.
proof fn lemma_both_over(
    lines: Seq<Seq<char>>,
    first_screen_off: nat,
    first_sleep: nat,
    screen_off_secs: nat,
    sleep_secs: nat,
)
    requires
        first_screen_off <= u32::MAX,
        first_sleep <= u32::MAX,
        screen_off_secs <= u32::MAX,
        sleep_secs <= u32::MAX,
    ensures
        idle::both_written(
            idle::both_written(lines, first_screen_off, first_sleep),
            screen_off_secs,
            sleep_secs,
        ) == idle::both_written(lines, screen_off_secs, sleep_secs),
{
    let off = idle::screen_off_mark();
    let sleep = idle::sleep_mark();
    reveal_strlit("power-off-monitors");
    reveal_strlit("systemctl suspend");
    let mid = idle::screen_off_written(lines, first_screen_off);
    let bs = idle::blocks(mid, 0);
    let x = lemma_screen_off_step(lines, first_screen_off);
    let y = idle::pick(bs, sleep);
    idle::lemma_pick(bs, sleep);
    lemma_screen_off_over(lines, first_screen_off, screen_off_secs);
    let next = idle::retimed(mid, off, screen_off_secs)->0;
    assert(idle::screen_off_written(lines, screen_off_secs) == next);
    lemma_write(mid, off, screen_off_secs);
    lemma_pick_by_cells(idle::blocks(next, 0), bs, sleep);
    lemma_pick_by_cells(idle::blocks(next, 0), bs, off);
    if y < bs.len() {
        let done = idle::retimed(mid, sleep, first_sleep)->0;
        lemma_write(mid, sleep, first_sleep);
        lemma_pick_by_cells(idle::blocks(done, 0), bs, sleep);
        lemma_pick_by_cells(idle::blocks(done, 0), bs, off);
        if x != y {
            lemma_writes_commute(mid, off, screen_off_secs, sleep, first_sleep);
            lemma_write_over(next, sleep, first_sleep, sleep_secs);
        } else {
            assert(idle::retimed(done, off, screen_off_secs) == idle::retimed(
                done,
                sleep,
                screen_off_secs,
            ));
            assert(idle::retimed(mid, off, screen_off_secs) == idle::retimed(
                mid,
                sleep,
                screen_off_secs,
            ));
            lemma_write_over(done, sleep, screen_off_secs, sleep_secs);
            lemma_write_over(mid, sleep, first_sleep, sleep_secs);
            lemma_write_over(mid, sleep, screen_off_secs, sleep_secs);
        }
    }
}

/// Rewriting a configuration with some times and then with others gives what rewriting it once with
/// the last times gives. So the screen-off listener is added once at most, and rewriting with the
/// same times once more changes nothing.
pub proof fn law_last_times_win(
    config: Seq<char>,
    first_screen_off: nat,
    first_sleep: nat,
    screen_off_secs: nat,
    sleep_secs: nat,
)
    requires
        first_screen_off <= u32::MAX,
        first_sleep <= u32::MAX,
        screen_off_secs <= u32::MAX,
        sleep_secs <= u32::MAX,
    ensures
        idle::rewritten(
            idle::rewritten(config, first_screen_off, first_sleep),
            screen_off_secs,
            sleep_secs,
        ) == idle::rewritten(config, screen_off_secs, sleep_secs),
{
    let lines = text::raw_lines_of(config);
    let written = idle::both_written(lines, first_screen_off, first_sleep);
    law_rewritten_lines(config, first_screen_off, first_sleep);
    lemma_both_over(lines, first_screen_off, first_sleep, screen_off_secs, sleep_secs);
    let mid = idle::screen_off_written(lines, first_screen_off);
    let x = lemma_screen_off_step(lines, first_screen_off);
    lemma_sleep_step(mid, first_sleep);
    assert(idle::picked(written, idle::screen_off_mark()) is Some);
}

/// Rewriting a configuration with the same times once more leaves it as it is.
pub proof fn law_rewrite_is_idempotent(
    config: Seq<char>,
    screen_off_secs: nat,
    sleep_secs: nat,
)
    requires
        screen_off_secs <= u32::MAX,
        sleep_secs <= u32::MAX,
    ensures
        ({
            let once = idle::rewritten(config, screen_off_secs, sleep_secs);
            idle::rewritten(once, screen_off_secs, sleep_secs) == once
        }),
{
    law_last_times_win(config, screen_off_secs, sleep_secs, screen_off_secs, sleep_secs);
}

/// Whether lines already say what is to be written: the first listener for the screen sets its time,
/// and so does the first one for sleep, if there is one, which counts where both are one.
pub open spec fn is_settled(
    lines: Seq<Seq<char>>,
    screen_off_secs: nat,
    sleep_secs: nat,
) -> bool {
    let bs = idle::blocks(lines, 0);
    let x = idle::pick(bs, idle::screen_off_mark());
    let y = idle::pick(bs, idle::sleep_mark());
    &&& x < bs.len()
    &&& x != y ==> has_time(lines, x, screen_off_secs)
    &&& y < bs.len() ==> has_time(lines, y, sleep_secs)
}

/// The configuration stays as it is, to the last character, just where nothing has to be changed or
/// added.
pub proof fn law_settled_stays(config: Seq<char>, screen_off_secs: nat, sleep_secs: nat)
    requires
        screen_off_secs <= u32::MAX,
        sleep_secs <= u32::MAX,
    ensures
        idle::rewritten(config, screen_off_secs, sleep_secs) == config <==> is_settled(
            text::raw_lines_of(config),
            screen_off_secs,
            sleep_secs,
        ),
{
    let lines = text::raw_lines_of(config);
    if is_settled(lines, screen_off_secs, sleep_secs) {
        lemma_settled_stays(config, screen_off_secs, sleep_secs);
    }
    if idle::rewritten(config, screen_off_secs, sleep_secs) == config {
        law_rewritten_lines(config, screen_off_secs, sleep_secs);
        let mid = idle::screen_off_written(lines, screen_off_secs);
        let x = lemma_screen_off_step(lines, screen_off_secs);
        idle::lemma_pick(idle::blocks(mid, 0), idle::sleep_mark());
        lemma_sleep_step(mid, sleep_secs);
        assert(idle::both_written(lines, screen_off_secs, sleep_secs) == lines);
        let y = idle::pick(idle::blocks(lines, 0), idle::sleep_mark());
        assert(x != y ==> cells(lines, 0)[x] == cells(mid, 0)[x]);
    }
}

/// Where nothing has to be changed or added, the configuration stays as it is.
proof fn lemma_settled_stays(config: Seq<char>, screen_off_secs: nat, sleep_secs: nat)
    requires
        screen_off_secs <= u32::MAX,
        sleep_secs <= u32::MAX,
        is_settled(text::raw_lines_of(config), screen_off_secs, sleep_secs),
    ensures
        idle::rewritten(config, screen_off_secs, sleep_secs) == config,
{
    let lines = text::raw_lines_of(config);
    let off = idle::screen_off_mark();
    let sleep = idle::sleep_mark();
    let bs = idle::blocks(lines, 0);
    let x = idle::pick(bs, off);
    let y = idle::pick(bs, sleep);
    idle::lemma_pick(bs, sleep);
    idle::lemma_pick(bs, off);
    text::law_raw_lines_join_back(config);
    if x != y {
        lemma_same_time(lines, off, screen_off_secs);
        if y < bs.len() {
            lemma_same_time(lines, sleep, sleep_secs);
        }
    } else {
        reveal_strlit("systemctl suspend");
        lemma_same_time(lines, sleep, sleep_secs);
        lemma_write_over(lines, sleep, screen_off_secs, sleep_secs);
    }
    assert(idle::both_written(lines, screen_off_secs, sleep_secs) == lines);
}

/// The lines with the timeout of a listener set, as the line that was put there tells.
proof fn lemma_with_timeout(lines: Seq<Seq<char>>, mark: Seq<char>, secs: nat) -> (n: nat)
    requires
        secs <= u32::MAX,
        idle::picked(lines, mark) is Some,
    ensures
        idle::with_timeout(lines, mark, secs) == Some(
            put(lines, idle::picked(lines, mark)->0, idle::timeout_text(n, secs)),
        ),
        n == match idle::picked(lines, mark)->0.timeout_line {
            Some(k) => idle::indent_of(lines[k]),
            None => 4,
        },
        idle::sets_timeout(idle::timeout_text(n, secs)),
        idle::indent_of(idle::timeout_text(n, secs)) == n,
{
    let n = match idle::picked(lines, mark)->0.timeout_line {
        Some(k) => idle::indent_of(lines[k]),
        None => 4,
    };
    lemma_timeout_text(n, secs);
    n
}

/// Setting the timeout of a listener twice gives what setting it once to the last value gives; and
/// where there is no such listener for the first value, there is none for the last.
pub proof fn law_last_timeout_wins(
    lines: Seq<Seq<char>>,
    needle: Seq<char>,
    first: nat,
    secs: nat,
)
    requires
        needle.len() > 0,
        first <= u32::MAX,
        secs <= u32::MAX,
    ensures
        match idle::with_timeout(lines, needle, first) {
            Some(x) => idle::with_timeout(x, needle, secs) == idle::with_timeout(
                lines,
                needle,
                secs,
            ),
            None => idle::with_timeout(lines, needle, secs) is None,
        },
{
    if idle::picked(lines, needle) is Some {
        let b = idle::picked(lines, needle)->0;
        let w = written_at(b);
        let n = lemma_with_timeout(lines, needle, first);
        let _ = lemma_with_timeout(lines, needle, secs);
        let line = idle::timeout_text(n, first);
        let last = idle::timeout_text(n, secs);
        let x = put(lines, b, line);
        idle::lemma_pick(idle::blocks(lines, 0), needle);
        idle::lemma_blocks_in_range(lines, 0, idle::pick(idle::blocks(lines, 0), needle));
        lemma_put(lines, needle, line);
        assert(idle::picked(x, needle)->0.timeout_line == Some(w));
        assert(x.update(w, last) =~= put(lines, b, last));
    }
}

/// The timeout that was set for a listener is the one that is read, whatever its command is looked
/// for by.
pub proof fn law_timeout_reads_back(lines: Seq<Seq<char>>, needle: Seq<char>, secs: nat)
    requires
        needle.len() > 0,
        secs <= u32::MAX,
        text::all_lack(lines, '\n'),
    ensures
        idle::with_timeout(lines, needle, secs) matches Some(x) ==> idle::secs_in(
            text::joined(x, seq!['\n']) + seq!['\n'],
            needle,
        ) == Some(secs),
{
    if idle::picked(lines, needle) is Some {
        let b = idle::picked(lines, needle)->0;
        let n = lemma_with_timeout(lines, needle, secs);
        let line = idle::timeout_text(n, secs);
        let x = put(lines, b, line);
        lemma_timeout_text(n, secs);
        lemma_put(lines, needle, line);
        idle::lemma_pick(idle::blocks(lines, 0), needle);
        idle::lemma_blocks_in_range(lines, 0, idle::pick(idle::blocks(lines, 0), needle));
        lemma_put_is_clean(lines, b, line);
        text::law_raw_lines_of_joined(x);
        lemma_reading(x, text::joined(x, seq!['\n']) + seq!['\n'], needle);
    }
}

/// Whether every block from line `i` on has its closing line.
pub open spec fn all_closed(lines: Seq<Seq<char>>, i: int) -> bool {
    forall|n: int|
        0 <= n < idle::blocks(lines, i).len() ==> idle::closes(
            lines[(#[trigger] idle::blocks(lines, i)[n]).end],
        )
}

/// The last block lacks its closing line just where some block does.
pub proof fn law_only_the_last_block_is_open(lines: Seq<Seq<char>>, i: int)
    requires
        0 <= i,
    ensures
        open_ended(lines, i) <==> !all_closed(lines, i),
    decreases lines.len() - i,
{
    if i < lines.len() {
        if idle::opens(lines[i]) {
            let e = idle::close_from(lines, i + 1);
            let bs = idle::blocks(lines, i);
            let rest = idle::blocks(lines, e + 1);
            lemma_close_from_facts(lines, i + 1);
            assert(!idle::closes(lines[i])) by {
                reveal_strlit("listener");
                reveal_strlit("}");
            }
            law_only_the_last_block_is_open(lines, e + 1);
            assert(bs[0] == idle::block_at(lines, i));
            assert forall|n: int| 0 <= n < rest.len() implies #[trigger] rest[n] == bs[n + 1] by {}
            if all_closed(lines, i) {
                assert forall|n: int| 0 <= n < rest.len() implies idle::closes(
                    lines[(#[trigger] rest[n]).end],
                ) by {
                    assert(rest[n] == bs[n + 1]);
                }
            } else if all_closed(lines, e + 1) && idle::closes(lines[e]) {
                assert forall|n: int| 0 <= n < bs.len() implies idle::closes(
                    lines[(#[trigger] bs[n]).end],
                ) by {
                    if n > 0 {
                        assert(rest[n - 1] == bs[n]);
                    }
                }
            }
        } else {
            law_only_the_last_block_is_open(lines, i + 1);
        }
    }
}

/// The listener that is added to turn the screen off, where there are `n` lines with it.
pub open spec fn added_block(n: int) -> Block {
    Block {
        start: n - 5,
        end: n - 1,
        timeout_line: Some(n - 4),
        on_timeout: screen_off_command(),
    }
}

/// Where every block has its closing line, adding the listener that turns the screen off adds its
/// block at the end and leaves the others as they are.
pub proof fn law_screen_off_adds_one_block(lines: Seq<Seq<char>>, secs: nat)
    requires
        secs <= u32::MAX,
        !open_ended(lines, 0),
    ensures
        ({
            let after = idle::with_screen_off(lines, secs);
            idle::blocks(after, 0) == idle::blocks(lines, 0).push(added_block(after.len() as int))
        }),
{
    lemma_screen_off_blocks(lines, secs, 0);
}

/// The blocks from line `i` on once the listener that turns the screen off has been added.
proof fn lemma_screen_off_blocks(lines: Seq<Seq<char>>, secs: nat, i: int)
    requires
        secs <= u32::MAX,
        0 <= i <= lines.len(),
        !open_ended(lines, i),
    ensures
        ({
            let after = idle::with_screen_off(lines, secs);
            idle::blocks(after, i) == idle::blocks(lines, i).push(added_block(after.len() as int))
        }),
    decreases lines.len() - i,
{
    let after = idle::with_screen_off(lines, secs);
    let h = lemma_added_lines(lines, secs);
    let added = added_block(after.len() as int);
    if i == lines.len() {
        if h > lines.len() {
            assert(!idle::opens(after[i]));
        }
        assert(!idle::opens(after[h]));
        assert(idle::blocks(after, i) == idle::blocks(after, h));
        assert(idle::blocks(after, h) == idle::blocks(after, h + 1));
        lemma_close_from_is(after, h + 2, h + 5);
        lemma_tail_of_added(after, h, h + 1);
        assert(idle::block_at(after, h + 1) == added);
        assert(idle::blocks(after, h + 6) == Seq::<Block>::empty());
        assert(idle::blocks(after, i) =~= idle::blocks(lines, i).push(added));
    } else if !idle::opens(lines[i]) {
        assert(after[i] == lines[i]);
        lemma_screen_off_blocks(lines, secs, i + 1);
    } else {
        assert(after[i] == lines[i]);
        let e = idle::close_from(lines, i + 1);
        lemma_close_from_facts(lines, i + 1);
        assert forall|j: int| i + 1 <= j < e implies !idle::closes(#[trigger] after[j]) by {
            assert(after[j] == lines[j]);
        }
        assert(after[e] == lines[e]);
        lemma_close_from_is(after, i + 1, e);
        lemma_body_agrees(lines, after, i + 1, e, 0);
        lemma_screen_off_blocks(lines, secs, e + 1);
        assert(idle::block_at(after, i) == idle::block_at(lines, i));
        assert(idle::blocks(after, i) =~= idle::blocks(lines, i).push(added));
    }
}

/// Replacing one timeout line by another keeps the other lines.
proof fn lemma_others_of_update(lines: Seq<Seq<char>>, k: int, line: Seq<char>)
    requires
        0 <= k < lines.len(),
        idle::sets_timeout(lines[k]),
        idle::sets_timeout(line),
    ensures
        other_lines(lines.update(k, line)) == other_lines(lines),
{
    let p = |l: Seq<char>| !idle::sets_timeout(l);
    let a = lines.take(k);
    let b = lines.skip(k + 1);
    assert(lines =~= a + seq![lines[k]] + b);
    assert(lines.update(k, line) =~= a + seq![line] + b);
    Seq::filter_distributes_over_add(a + seq![lines[k]], b, p);
    Seq::filter_distributes_over_add(a, seq![lines[k]], p);
    Seq::filter_distributes_over_add(a + seq![line], b, p);
    Seq::filter_distributes_over_add(a, seq![line], p);
    lemma_filter_one(lines[k]);
    lemma_filter_one(line);
}

/// Of one line, what sets no timeout.
proof fn lemma_filter_one(line: Seq<char>)
    ensures
        other_lines(seq![line]) == if idle::sets_timeout(line) {
            Seq::empty()
        } else {
            seq![line]
        },
{
    reveal(Seq::filter);
    let s = seq![line];
    assert(s.drop_last() =~= Seq::empty());
    assert(other_lines(Seq::empty()) =~= Seq::empty());
    assert(other_lines(s) =~= if idle::sets_timeout(line) {
        Seq::empty()
    } else {
        seq![line]
    });
}

/// Putting in a timeout line keeps the other lines.
proof fn lemma_others_of_insert(lines: Seq<Seq<char>>, q: int, line: Seq<char>)
    requires
        0 <= q <= lines.len(),
        idle::sets_timeout(line),
    ensures
        other_lines(lines.insert(q, line)) == other_lines(lines),
{
    let p = |l: Seq<char>| !idle::sets_timeout(l);
    let a = lines.take(q);
    let b = lines.skip(q);
    assert(lines =~= a + b);
    assert(lines.insert(q, line) =~= a + seq![line] + b);
    Seq::filter_distributes_over_add(a, b, p);
    Seq::filter_distributes_over_add(a + seq![line], b, p);
    Seq::filter_distributes_over_add(a, seq![line], p);
    lemma_filter_one(line);
}

/// Writing a time keeps the other lines.
proof fn lemma_others_of_write(lines: Seq<Seq<char>>, mark: Seq<char>, secs: nat)
    requires
        secs <= u32::MAX,
    ensures
        idle::retimed(lines, mark, secs) matches Some(after) ==> other_lines(after)
            == other_lines(lines),
{
    let bs = idle::blocks(lines, 0);
    let x = idle::pick(bs, mark);
    idle::lemma_pick(bs, mark);
    if x < bs.len() {
        idle::lemma_blocks_in_range(lines, 0, x);
        match bs[x].timeout_line {
            Some(k) => {
                let line = idle::time_text(
                    idle::indent_of(lines[k]),
                    idle::has_cr(lines[k]),
                    secs,
                );
                lemma_time_text(idle::indent_of(lines[k]), idle::has_cr(lines[k]), secs);
                lemma_others_of_update(lines, k, line);
            },
            None => {
                lemma_timeout_text(4, secs);
                lemma_others_of_insert(lines, bs[x].start + 1, idle::timeout_text(4, secs));
            },
        }
    }
}

/// The lines without a timeout that come with an added listener.
pub open spec fn added_lines(lines: Seq<Seq<char>>) -> Seq<Seq<char>> {
    (if lines.len() > 0 && text::trimmed(lines.last()).len() > 0 {
        seq![Seq::<char>::empty()]
    } else {
        Seq::empty()
    }) + seq![
        "# 熄屏（由 info-setting 管理）"@,
        "listener {"@,
        "    on-timeout = niri msg action power-off-monitors"@,
        "    on-resume = niri msg action power-on-monitors"@,
        "}"@,
    ]
}

/// Adding the block for the screen keeps the other lines, and adds its own.
proof fn lemma_others_of_added(lines: Seq<Seq<char>>, secs: nat)
    requires
        secs <= u32::MAX,
    ensures
        other_lines(idle::with_screen_off(lines, secs)) == other_lines(lines) + added_lines(lines),
{
    let p = |l: Seq<char>| !idle::sets_timeout(l);
    let after = idle::with_screen_off(lines, secs);
    let gap = if lines.len() > 0 && text::trimmed(lines.last()).len() > 0 {
        seq![Seq::<char>::empty()]
    } else {
        Seq::empty()
    };
    let l0 = "# 熄屏（由 info-setting 管理）"@;
    let l1 = "listener {"@;
    let l2 = idle::timeout_text(4, secs);
    let l3 = "    on-timeout = niri msg action power-off-monitors"@;
    let l4 = "    on-resume = niri msg action power-on-monitors"@;
    let l5 = "}"@;
    lemma_comment_line();
    lemma_opening_line();
    lemma_timeout_text(4, secs);
    lemma_command_line();
    lemma_resume_line();
    lemma_closing_line();
    lemma_empty_line();
    lemma_filter_one(l0);
    lemma_filter_one(l1);
    lemma_filter_one(l2);
    lemma_filter_one(l3);
    lemma_filter_one(l4);
    lemma_filter_one(l5);
    lemma_filter_one(Seq::<char>::empty());
    reveal(Seq::filter);
    assert(other_lines(gap) =~= gap);
    let s0 = lines + gap;
    let s1 = s0 + seq![l0];
    let s2 = s1 + seq![l1];
    let s3 = s2 + seq![l2];
    let s4 = s3 + seq![l3];
    let s5 = s4 + seq![l4];
    let s6 = s5 + seq![l5];
    assert(after =~= s6);
    Seq::filter_distributes_over_add(lines, gap, p);
    Seq::filter_distributes_over_add(s0, seq![l0], p);
    Seq::filter_distributes_over_add(s1, seq![l1], p);
    Seq::filter_distributes_over_add(s2, seq![l2], p);
    Seq::filter_distributes_over_add(s3, seq![l3], p);
    Seq::filter_distributes_over_add(s4, seq![l4], p);
    Seq::filter_distributes_over_add(s5, seq![l5], p);
    assert(other_lines(s6) =~= other_lines(lines) + added_lines(lines));
}

/// Rewriting keeps every line that sets no timeout, in its order; all that comes with it is the
/// screen-off listener, at the end, where there was none.
pub proof fn law_other_lines_are_kept(
    lines: Seq<Seq<char>>,
    screen_off_secs: nat,
    sleep_secs: nat,
)
    requires
        screen_off_secs <= u32::MAX,
        sleep_secs <= u32::MAX,
    ensures
        other_lines(idle::both_written(lines, screen_off_secs, sleep_secs)) == if idle::picked(
            lines,
            idle::screen_off_mark(),
        ) is Some {
            other_lines(lines)
        } else {
            other_lines(lines) + added_lines(lines)
        },
{
    let mid = idle::screen_off_written(lines, screen_off_secs);
    lemma_others_of_write(lines, idle::screen_off_mark(), screen_off_secs);
    lemma_others_of_added(lines, screen_off_secs);
    lemma_others_of_write(mid, idle::sleep_mark(), sleep_secs);
}

/// The timeout line of the first listener for a mark.
pub open spec fn time_line_of(lines: Seq<Seq<char>>, mark: Seq<char>) -> Option<int> {
    match idle::picked(lines, mark) {
        Some(b) => b.timeout_line,
        None => None,
    }
}

/// Where a line stands after the time for a mark was written: one further down if a timeout line was
/// added above it.
pub open spec fn place_after(lines: Seq<Seq<char>>, mark: Seq<char>, i: int) -> int {
    match idle::picked(lines, mark) {
        Some(b) => if b.timeout_line is None && i > b.start {
            i + 1
        } else {
            i
        },
        None => i,
    }
}

/// Every line stays as it is but for the timeout lines of the two listeners whose times are written,
/// those of other listeners among them, and the lines stay in their order.
pub proof fn law_only_the_two_times_change(
    lines: Seq<Seq<char>>,
    screen_off_secs: nat,
    sleep_secs: nat,
    i: int,
)
    requires
        0 <= i < lines.len(),
    ensures
        ({
            let mid = idle::screen_off_written(lines, screen_off_secs);
            let after = idle::both_written(lines, screen_off_secs, sleep_secs);
            let j = place_after(lines, idle::screen_off_mark(), i);
            let k = place_after(mid, idle::sleep_mark(), j);
            &&& i <= j <= k < after.len()
            &&& time_line_of(lines, idle::screen_off_mark()) != Some(i) && time_line_of(
                mid,
                idle::sleep_mark(),
            ) != Some(j) ==> after[k] == lines[i]
        }),
{
    let mid = idle::screen_off_written(lines, screen_off_secs);
    lemma_place_after(lines, idle::screen_off_mark(), screen_off_secs, i);
    lemma_place_after(
        mid,
        idle::sleep_mark(),
        sleep_secs,
        place_after(lines, idle::screen_off_mark(), i),
    );
}

/// Where a line stands after one time was written.
proof fn lemma_place_after(lines: Seq<Seq<char>>, mark: Seq<char>, secs: nat, i: int)
    requires
        0 <= i < lines.len(),
    ensures
        i <= place_after(lines, mark, i),
        idle::retimed(lines, mark, secs) matches Some(after) ==> place_after(lines, mark, i)
            < after.len() && (time_line_of(lines, mark) != Some(i) ==> after[place_after(
            lines,
            mark,
            i,
        )] == lines[i]),
        idle::retimed(lines, mark, secs) is None ==> place_after(lines, mark, i) == i,
{
    let bs = idle::blocks(lines, 0);
    idle::lemma_pick(bs, mark);
    if idle::pick(bs, mark) < bs.len() {
        idle::lemma_blocks_in_range(lines, 0, idle::pick(bs, mark));
    }
}

} // verus!
