//! What the lines of the idle daemon's configuration mean.

use vstd::prelude::*;

use super::idle;
use super::idle::Block;
use super::idle_laws;
use crate::number;
use crate::text;
use crate::text_laws;

verus! {

/// Whether a line, without white space around it, starts with a word.
pub open spec fn starts(line: Seq<char>, word: Seq<char>) -> bool {
    exists|rest: Seq<char>| text::trimmed(line) == #[trigger] (word + rest)
}

/// A line opens a block if it starts with the word and has a brace in it, closes one if it is nothing
/// but a brace, and sets the timeout if it starts with that word.
pub proof fn law_kinds_of_lines(line: Seq<char>)
    ensures
        idle::opens(line) <==> starts(line, "listener"@) && line.contains('{'),
        idle::closes(line) <==> text::trimmed(line) == "}"@,
        idle::sets_timeout(line) <==> starts(line, "timeout"@),
{
    text_laws::law_holding(text::trimmed(line), "listener"@);
    text_laws::law_holding(text::trimmed(line), "timeout"@);
}

/// The command of a line is what stands behind the first equals sign after the key, without white
/// space around it; a line without the key or the sign gives none.
pub proof fn law_commands(line: Seq<char>, a: Seq<char>, b: Seq<char>)
    ensures
        text::trimmed(line) == "on-timeout"@ + (a + seq!['='] + b) && !a.contains('=')
            ==> idle::command(line) == Some(text::trimmed(b)),
        text::trimmed(line) == "on-timeout"@ + a && !a.contains('=') ==> idle::command(line) is None,
        !starts(line, "on-timeout"@) ==> idle::command(line) is None,
{
    let t = text::trimmed(line);
    let key = "on-timeout"@;
    let n = key.len() as int;
    let assigned = a + seq!['='] + b;
    text_laws::law_holding(t, key);
    assert(starts(line, key) <==> text::has_prefix(t, key));
    text_laws::law_splitting(a, '=', b);
    if t == key + assigned {
        assert(text::has_prefix(t, key));
        assert(t.skip(n) =~= assigned);
    }
    if t == key + a {
        assert(text::has_prefix(t, key));
        assert(t.skip(n) =~= a);
    }
}

/// The seconds of a line are the number behind the first equals sign, without white space around it.
pub proof fn law_seconds(line: Seq<char>, a: Seq<char>, b: Seq<char>)
    ensures
        text::trimmed(line) == a + seq!['='] + b && !a.contains('=') ==> idle::secs_on(line)
            == number::number_in(text::trimmed(b), 10, 0xffff_ffff),
        !text::trimmed(line).contains('=') ==> idle::secs_on(line) is None,
{
    text_laws::law_splitting(a, '=', b);
    text_laws::law_splitting(text::trimmed(line), '=', b);
}

/// Where a block is and what it says: it starts with an opening line and ends with the first closing
/// line behind that, or with the last line where there is none. Of the lines in between, the last that
/// sets a timeout has its timeout, and the last that gives a command has its command.
pub proof fn law_what_a_block_says(lines: Seq<Seq<char>>, n: int)
    requires
        0 <= n < idle::blocks(lines, 0).len(),
    ensures
        ({
            let b = idle::blocks(lines, 0)[n];
            &&& 0 <= b.start <= b.end < lines.len()
            &&& idle::opens(lines[b.start])
            &&& forall|k: int| b.start < k < b.end ==> !idle::closes(#[trigger] lines[k])
            &&& b.end > b.start && idle::closes(lines[b.end]) || b.end == lines.len() - 1 && (b.end
                > b.start ==> !idle::closes(lines[b.end]))
            &&& match b.timeout_line {
                Some(k) => {
                    &&& b.start < k < b.end
                    &&& idle::sets_timeout(lines[k])
                    &&& forall|j: int| k < j < b.end ==> !idle::sets_timeout(#[trigger] lines[j])
                },
                None => forall|j: int|
                    b.start < j < b.end ==> !idle::sets_timeout(#[trigger] lines[j]),
            }
            &&& is_last_command(lines, b.start + 1, b.end, b.on_timeout)
        }),
{
    let b = idle::blocks(lines, 0)[n];
    idle::lemma_blocks_in_range(lines, 0, n);
    idle_laws::lemma_close_from_facts(lines, b.start + 1);
    lemma_last_timeout_is_last(lines, b.start + 1, b.end);
    lemma_last_command_is_last(lines, b.start + 1, b.end);
}

/// Whether a text is the command of the last of some lines that gives one, or empty where none does.
pub open spec fn is_last_command(lines: Seq<Seq<char>>, i: int, j: int, command: Seq<char>) -> bool {
    ||| command.len() == 0 && forall|k: int|
        i <= k < j ==> idle::command(#[trigger] lines[k]) is None
    ||| exists|k: int|
        i <= k < j && idle::command(#[trigger] lines[k]) == Some(command) && forall|m: int|
            k < m < j ==> idle::command(#[trigger] lines[m]) is None
}

/// The last of some lines that sets a timeout.
proof fn lemma_last_timeout_is_last(lines: Seq<Seq<char>>, i: int, j: int)
    ensures
        match idle::last_timeout(lines, i, j) {
            Some(k) => i <= k < j && idle::sets_timeout(lines[k]) && forall|m: int|
                k < m < j ==> !idle::sets_timeout(#[trigger] lines[m]),
            None => forall|m: int| i <= m < j ==> !idle::sets_timeout(#[trigger] lines[m]),
        },
    decreases j - i,
{
    if i < j && !idle::sets_timeout(lines[j - 1]) {
        lemma_last_timeout_is_last(lines, i, j - 1);
    }
}

/// The last of some lines that gives a command.
proof fn lemma_last_command_is_last(lines: Seq<Seq<char>>, i: int, j: int)
    ensures
        is_last_command(lines, i, j, idle::last_command(lines, i, j)),
    decreases j - i,
{
    if i < j {
        if idle::command(lines[j - 1]) is None {
            lemma_last_command_is_last(lines, i, j - 1);
            let c = idle::last_command(lines, i, j - 1);
            if exists|k: int|
                i <= k < j - 1 && idle::command(#[trigger] lines[k]) == Some(c) && forall|m: int|
                    k < m < j - 1 ==> idle::command(#[trigger] lines[m]) is None {
                let k = choose|k: int|
                    i <= k < j - 1 && idle::command(#[trigger] lines[k]) == Some(c) && forall|
                        m: int,
                    |
                        k < m < j - 1 ==> idle::command(#[trigger] lines[m]) is None;
                assert forall|m: int| k < m < j implies idle::command(
                    #[trigger] lines[m],
                ) is None by {}
                assert(idle::command(lines[k]) == Some(c));
            } else {
                assert forall|k: int| i <= k < j implies idle::command(
                    #[trigger] lines[k],
                ) is None by {}
            }
        } else {
            assert(idle::command(lines[j - 1]) == Some(idle::last_command(lines, i, j)));
        }
    }
}

/// Blocks come one after the other, and every opening line starts a block or stands in one.
pub proof fn law_no_block_is_missed(lines: Seq<Seq<char>>, i: int)
    requires
        0 <= i < lines.len(),
        idle::opens(lines[i]),
    ensures
        exists|n: int|
            0 <= n < idle::blocks(lines, 0).len() && (#[trigger] idle::blocks(lines, 0)[n]).start
                <= i <= idle::blocks(lines, 0)[n].end,
        forall|m: int, n: int|
            0 <= m < n < idle::blocks(lines, 0).len() ==> (#[trigger] idle::blocks(
                lines,
                0,
            )[m]).end < (#[trigger] idle::blocks(lines, 0)[n]).start,
{
    let n = lemma_covers(lines, 0, i);
    assert(idle::blocks(lines, 0)[n].start <= i);
    assert forall|m: int, n: int| 0 <= m < n < idle::blocks(lines, 0).len() implies (
    #[trigger] idle::blocks(lines, 0)[m]).end < (#[trigger] idle::blocks(lines, 0)[n]).start by {
        idle_laws::lemma_blocks_order(lines, 0, m, n);
    }
}

/// An opening line starts a block or stands in one.
proof fn lemma_covers(lines: Seq<Seq<char>>, from: int, i: int) -> (n: int)
    requires
        0 <= from <= i < lines.len(),
        idle::opens(lines[i]),
    ensures
        0 <= n < idle::blocks(lines, from).len(),
        idle::blocks(lines, from)[n].start <= i <= idle::blocks(lines, from)[n].end,
    decreases lines.len() - from,
{
    idle::lemma_close_from(lines, from + 1);
    if idle::opens(lines[from]) {
        let e = idle::close_from(lines, from + 1);
        if i <= e {
            0
        } else {
            let n = lemma_covers(lines, e + 1, i);
            assert(idle::blocks(lines, from)[n + 1] == idle::blocks(lines, e + 1)[n]);
            n + 1
        }
    } else {
        lemma_covers(lines, from + 1, i)
    }
}

/// Whether a block is the first of those whose command holds a text.
pub open spec fn is_first_for(bs: Seq<Block>, n: int, mark: Seq<char>) -> bool {
    &&& 0 <= n < bs.len()
    &&& exists|a: Seq<char>, b: Seq<char>| bs[n].on_timeout == #[trigger] (a + mark + b)
    &&& forall|m: int|
        0 <= m < n ==> forall|a: Seq<char>, b: Seq<char>|
            (#[trigger] bs[m]).on_timeout != #[trigger] (a + mark + b)
}

/// The listener for a text is the first whose command holds it.
proof fn lemma_first_is_picked(lines: Seq<Seq<char>>, mark: Seq<char>, n: int)
    requires
        is_first_for(idle::blocks(lines, 0), n, mark),
    ensures
        idle::picked(lines, mark) == Some(idle::blocks(lines, 0)[n]),
{
    let bs = idle::blocks(lines, 0);
    text_laws::law_holding(bs[n].on_timeout, mark);
    assert forall|m: int| 0 <= m < n implies !text::has_text(
        #[trigger] bs[m].on_timeout,
        mark,
    ) by {
        text_laws::law_holding(bs[m].on_timeout, mark);
    }
    idle::lemma_pick_is(bs, mark, n);
}

/// The seconds that are read for a text are those of the first listener whose command holds it.
pub proof fn law_first_listener_is_read(config: Seq<char>, mark: Seq<char>, n: int)
    requires
        is_first_for(idle::blocks(text::lines_of(config), 0), n, mark),
    ensures
        idle::secs_in(config, mark) == match idle::blocks(text::lines_of(config), 0)[n].timeout_line {
            Some(k) => idle::secs_on(text::lines_of(config)[k]),
            None => None,
        },
{
    lemma_first_is_picked(text::lines_of(config), mark, n);
}

/// Setting the timeout for a text sets that of the first listener whose command holds it. Its timeout
/// line is replaced, and indented by as many spaces as there were bytes of white space; without one,
/// a line is put in behind the opening line, indented by four spaces. No other line is touched.
pub proof fn law_first_listener_is_set(
    lines: Seq<Seq<char>>,
    mark: Seq<char>,
    secs: nat,
    n: int,
)
    requires
        is_first_for(idle::blocks(lines, 0), n, mark),
    ensures
        ({
            let b = idle::blocks(lines, 0)[n];
            match b.timeout_line {
                Some(k) => {
                    let front = lines[k].len() - text::trimmed_start(lines[k]).len();
                    idle::with_timeout(lines, mark, secs) == Some(
                        lines.update(
                            k,
                            text::spaces(text::utf8_len(lines[k].take(front))) + "timeout = "@
                                + number::decimal(secs),
                        ),
                    )
                },
                None => idle::with_timeout(lines, mark, secs) == Some(
                    lines.insert(
                        b.start + 1,
                        text::spaces(4) + "timeout = "@ + number::decimal(secs),
                    ),
                ),
            }
        }),
{
    lemma_first_is_picked(lines, mark, n);
}

/// Without a listener for a text nothing is read and nothing is set.
pub proof fn law_without_a_listener(config: Seq<char>, mark: Seq<char>, secs: nat)
    requires
        forall|n: int| !is_first_for(idle::blocks(text::lines_of(config), 0), n, mark),
    ensures
        idle::secs_in(config, mark) is None,
        idle::with_timeout(text::lines_of(config), mark, secs) is None,
{
    let bs = idle::blocks(text::lines_of(config), 0);
    let n = idle::pick(bs, mark);
    idle::lemma_pick(bs, mark);
    if n < bs.len() {
        text_laws::law_holding(bs[n].on_timeout, mark);
        assert forall|m: int| 0 <= m < n implies forall|a: Seq<char>, b: Seq<char>|
            (#[trigger] bs[m]).on_timeout != #[trigger] (a + mark + b) by {
            text_laws::law_holding(bs[m].on_timeout, mark);
            assert(!text::has_text(bs[m].on_timeout, mark));
        }
        assert(is_first_for(bs, n, mark));
    }
}

/// The listener that is added stands behind all lines, set off by an empty line unless the last line
/// is blank already: a comment, and a block that turns the screen off, and on again.
pub proof fn law_added_listener(lines: Seq<Seq<char>>, secs: nat)
    ensures
        ({
            let after = idle::with_screen_off(lines, secs);
            let n = after.len();
            let gap = lines.len() > 0 && text::trimmed(lines.last()).len() > 0;
            &&& n == lines.len() + 6 + if gap {
                1int
            } else {
                0int
            }
            &&& after.take(lines.len() as int) == lines
            &&& gap ==> after[lines.len() as int].len() == 0
            &&& after[n - 6] == "# 熄屏（由 info-setting 管理）"@
            &&& after[n - 5] == "listener {"@
            &&& after[n - 4] == text::spaces(4) + "timeout = "@ + number::decimal(secs)
            &&& after[n - 3] == "    on-timeout = niri msg action power-off-monitors"@
            &&& after[n - 2] == "    on-resume = niri msg action power-on-monitors"@
            &&& after[n - 1] == "}"@
        }),
{
    let after = idle::with_screen_off(lines, secs);
    assert(after.take(lines.len() as int) =~= lines);
}

/// Of a line that sets a time, the seconds are the ones that were written there.
pub proof fn law_written_times(n: nat, cr: bool, secs: nat)
    ensures
        idle::time_text(n, false, secs) == text::spaces(n) + "timeout = "@ + number::decimal(secs),
        idle::time_text(n, true, secs) == idle::time_text(n, false, secs) + seq!['\r'],
{
    assert(idle::timeout_text(n, secs).push('\r') =~= idle::timeout_text(n, secs) + seq!['\r']);
}

/// Both times are written, the screen-off time first: into the first listener for the screen, or into
/// one that is added; the sleep time into the first listener for sleep, if there is one.
pub proof fn law_which_listeners_are_written(
    lines: Seq<Seq<char>>,
    screen_off_secs: nat,
    sleep_secs: nat,
    n: int,
)
    ensures
        ({
            let off = "power-off-monitors"@;
            let sleep = "systemctl suspend"@;
            let mid = match idle::retimed(lines, off, screen_off_secs) {
                Some(x) => x,
                None => idle::with_screen_off(lines, screen_off_secs),
            };
            &&& idle::both_written(lines, screen_off_secs, sleep_secs) == match idle::retimed(
                mid,
                sleep,
                sleep_secs,
            ) {
                Some(x) => x,
                None => mid,
            }
            &&& is_first_for(idle::blocks(lines, 0), n, off) ==> idle::retimed(
                lines,
                off,
                screen_off_secs,
            ) is Some && same_but_time(
                lines,
                idle::retimed(lines, off, screen_off_secs)->0,
                idle::blocks(lines, 0)[n],
                screen_off_secs,
            )
            &&& is_first_for(idle::blocks(mid, 0), n, sleep) ==> idle::retimed(
                mid,
                sleep,
                sleep_secs,
            ) is Some && same_but_time(
                mid,
                idle::retimed(mid, sleep, sleep_secs)->0,
                idle::blocks(mid, 0)[n],
                sleep_secs,
            )
        }),
{
    let off = "power-off-monitors"@;
    let sleep = "systemctl suspend"@;
    let mid = idle::screen_off_written(lines, screen_off_secs);
    if is_first_for(idle::blocks(lines, 0), n, off) {
        lemma_first_is_picked(lines, off, n);
        lemma_same_but_time(lines, off, n, screen_off_secs);
    }
    if is_first_for(idle::blocks(mid, 0), n, sleep) {
        lemma_first_is_picked(mid, sleep, n);
        lemma_same_but_time(mid, sleep, n, sleep_secs);
    }
}

/// Whether lines differ only in the time of one block: its timeout line was replaced, with its
/// indentation and its end kept, or one was put in behind its opening line.
pub open spec fn same_but_time(
    lines: Seq<Seq<char>>,
    after: Seq<Seq<char>>,
    b: Block,
    secs: nat,
) -> bool {
    match b.timeout_line {
        Some(k) => {
            let old = lines[k];
            let front = old.len() - text::trimmed_start(old).len();
            let line = text::spaces(text::utf8_len(old.take(front))) + "timeout = "@
                + number::decimal(secs);
            after == lines.update(
                k,
                if old.len() > 0 && old.last() == '\r' {
                    line + seq!['\r']
                } else {
                    line
                },
            )
        },
        None => after == lines.insert(
            b.start + 1,
            text::spaces(4) + "timeout = "@ + number::decimal(secs),
        ),
    }
}

/// Writing a time changes nothing else.
proof fn lemma_same_but_time(lines: Seq<Seq<char>>, mark: Seq<char>, n: int, secs: nat)
    requires
        idle::picked(lines, mark) == Some(idle::blocks(lines, 0)[n]),
    ensures
        idle::retimed(lines, mark, secs) is Some,
        same_but_time(
            lines,
            idle::retimed(lines, mark, secs)->0,
            idle::blocks(lines, 0)[n],
            secs,
        ),
{
    if let Some(k) = idle::blocks(lines, 0)[n].timeout_line {
        law_written_times(idle::indent_of(lines[k]), true, secs);
    }
}

/// A listener is what its fields hold.
pub proof fn law_listener_holds_its_fields(l: idle::Listener)
    ensures
        l@.start == l.start && l@.end == l.end && l@.on_timeout == l.on_timeout@,
        l.timeout_line is None <==> l@.timeout_line is None,
        l.timeout_line matches Some(k) ==> l@.timeout_line == Some(k as int),
{
}

} // verus!
