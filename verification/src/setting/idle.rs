//! The configuration file of the idle daemon: its `listener` blocks, and the two timeouts in it
//! that the settings screen reads and writes.

use vstd::prelude::*;

use crate::number;
use crate::text;

verus! {

/// A `listener` block of the configuration.
#[derive(Debug, PartialEq)]
pub struct Listener {
    /// The line of `listener {`.
    pub start: usize,
    /// The line of the matching `}`.
    pub end: usize,
    /// The line of `timeout = ...` inside the block.
    pub timeout_line: Option<usize>,
    /// The command of `on-timeout`.
    pub on_timeout: String,
}

/// What a listener says, with its lines as mathematical indices.
pub struct Block {
    pub start: int,
    pub end: int,
    pub timeout_line: Option<int>,
    pub on_timeout: Seq<char>,
}

impl View for Listener {
    type V = Block;

    open spec fn view(&self) -> Block {
        Block {
            start: self.start as int,
            end: self.end as int,
            timeout_line: match self.timeout_line {
                Some(k) => Some(k as int),
                None => None,
            },
            on_timeout: self.on_timeout@,
        }
    }
}

/// The blocks that a vector of listeners describes.
pub open spec fn views(v: Seq<Listener>) -> Seq<Block> {
    v.map_values(|l: Listener| l@)
}

/// The text that marks the command which turns the screen off.
pub open spec fn screen_off_mark() -> Seq<char> {
    "power-off-monitors"@
}

/// The text that marks the command which puts the machine to sleep.
pub open spec fn sleep_mark() -> Seq<char> {
    "systemctl suspend"@
}

/// Whether a line opens a listener block.
pub open spec fn opens(line: Seq<char>) -> bool {
    text::has_prefix(text::trimmed(line), "listener"@) && line.contains('{')
}

/// Whether a line closes a block.
pub open spec fn closes(line: Seq<char>) -> bool {
    text::trimmed(line) == "}"@
}

/// Whether a line sets a timeout.
pub open spec fn sets_timeout(line: Seq<char>) -> bool {
    text::has_prefix(text::trimmed(line), "timeout"@)
}

/// The command that a line gives for the timeout, if it gives one.
pub open spec fn command(line: Seq<char>) -> Option<Seq<char>> {
    if text::has_prefix(text::trimmed(line), "on-timeout"@) {
        match text::split_at_first(text::trimmed(line).skip("on-timeout"@.len() as int), '=') {
            Some((_, v)) => Some(text::trimmed(v)),
            None => None,
        }
    } else {
        None
    }
}

/// The first line from `i` on that closes a block, or the last line where none does.
pub open spec fn close_from(lines: Seq<Seq<char>>, i: int) -> int
    decreases lines.len() - i,
{
    if i >= lines.len() {
        lines.len() - 1
    } else if closes(lines[i]) {
        i
    } else {
        close_from(lines, i + 1)
    }
}

/// The last line among `i..j` that sets a timeout.
pub open spec fn last_timeout(lines: Seq<Seq<char>>, i: int, j: int) -> Option<int>
    decreases j - i,
{
    if j <= i {
        None
    } else if sets_timeout(lines[j - 1]) {
        Some(j - 1)
    } else {
        last_timeout(lines, i, j - 1)
    }
}

/// The last command that the lines `i..j` give; empty where they give none.
pub open spec fn last_command(lines: Seq<Seq<char>>, i: int, j: int) -> Seq<char>
    decreases j - i,
{
    if j <= i {
        Seq::empty()
    } else {
        match command(lines[j - 1]) {
            Some(v) => v,
            None => last_command(lines, i, j - 1),
        }
    }
}

/// The block that opens on line `i`.
pub open spec fn block_at(lines: Seq<Seq<char>>, i: int) -> Block {
    let end = close_from(lines, i + 1);
    Block {
        start: i,
        end,
        timeout_line: last_timeout(lines, i + 1, end),
        on_timeout: last_command(lines, i + 1, end),
    }
}

/// The listener blocks of the lines from `i` on.
pub open spec fn blocks(lines: Seq<Seq<char>>, i: int) -> Seq<Block>
    decreases lines.len() - i,
    via blocks_decreases
{
    if i >= lines.len() {
        Seq::empty()
    } else if opens(lines[i]) {
        seq![block_at(lines, i)] + blocks(lines, close_from(lines, i + 1) + 1)
    } else {
        blocks(lines, i + 1)
    }
}

#[via_fn]
proof fn blocks_decreases(lines: Seq<Seq<char>>, i: int) {
    lemma_close_from(lines, i + 1);
}

/// Where a block ends.
pub proof fn lemma_close_from(lines: Seq<Seq<char>>, i: int)
    ensures
        i - 1 < lines.len() ==> i - 1 <= close_from(lines, i) < lines.len(),
    decreases lines.len() - i,
{
    if i < lines.len() && !closes(lines[i]) {
        lemma_close_from(lines, i + 1);
    }
}

/// The index of the first block whose command holds `mark`; their number where none does.
pub open spec fn pick(bs: Seq<Block>, mark: Seq<char>) -> int
    decreases bs.len(),
{
    if bs.len() == 0 || text::has_text(bs[0].on_timeout, mark) {
        0
    } else {
        1 + pick(bs.drop_first(), mark)
    }
}

/// The first block whose command holds `mark`.
pub open spec fn picked(lines: Seq<Seq<char>>, mark: Seq<char>) -> Option<Block> {
    let bs = blocks(lines, 0);
    if pick(bs, mark) < bs.len() {
        Some(bs[pick(bs, mark)])
    } else {
        None
    }
}

/// The bytes of white space that a line starts with.
pub open spec fn indent_of(line: Seq<char>) -> nat {
    text::utf8_len(line.take(line.len() - text::trimmed_start(line).len()))
}

/// A line that sets the timeout to `secs`, indented by `n` spaces.
pub open spec fn timeout_text(n: nat, secs: nat) -> Seq<char> {
    text::spaces(n) + "timeout = "@ + number::decimal(secs)
}

/// The lines with the timeout of the first listener for `mark` set to `secs`; `None` where there
/// is no such listener. An existing timeout line keeps its indentation; a missing one is added
/// behind the opening line.
pub open spec fn with_timeout(lines: Seq<Seq<char>>, mark: Seq<char>, secs: nat) -> Option<
    Seq<Seq<char>>,
> {
    match picked(lines, mark) {
        Some(b) => match b.timeout_line {
            Some(k) => Some(lines.update(k, timeout_text(indent_of(lines[k]), secs))),
            None => Some(lines.insert(b.start + 1, timeout_text(4, secs))),
        },
        None => None,
    }
}

/// Whether a line has a carriage return at its end.
pub open spec fn has_cr(line: Seq<char>) -> bool {
    line.len() > 0 && line.last() == '\r'
}

/// A line that sets the timeout to `secs`, indented by `n` spaces, with a carriage return at its end
/// or without.
pub open spec fn time_text(n: nat, cr: bool, secs: nat) -> Seq<char> {
    if cr {
        timeout_text(n, secs).push('\r')
    } else {
        timeout_text(n, secs)
    }
}

/// The lines of a text with the timeout of the first listener for `mark` set to `secs`; `None` where
/// there is no such listener. An existing timeout line keeps its indentation and its end; a missing
/// one is added behind the opening line.
pub open spec fn retimed(lines: Seq<Seq<char>>, mark: Seq<char>, secs: nat) -> Option<
    Seq<Seq<char>>,
> {
    match picked(lines, mark) {
        Some(b) => match b.timeout_line {
            Some(k) => Some(
                lines.update(k, time_text(indent_of(lines[k]), has_cr(lines[k]), secs)),
            ),
            None => Some(lines.insert(b.start + 1, timeout_text(4, secs))),
        },
        None => None,
    }
}

/// The listener that turns the screen off after `secs`.
pub open spec fn screen_off_block(secs: nat) -> Seq<Seq<char>> {
    seq![
        "# 熄屏（由 info-setting 管理）"@,
        "listener {"@,
        timeout_text(4, secs),
        "    on-timeout = niri msg action power-off-monitors"@,
        "    on-resume = niri msg action power-on-monitors"@,
        "}"@,
    ]
}

/// The lines with that listener at their end, set off by an empty line.
pub open spec fn with_screen_off(lines: Seq<Seq<char>>, secs: nat) -> Seq<Seq<char>> {
    let head = if lines.len() > 0 && text::trimmed(lines.last()).len() > 0 {
        lines.push(Seq::empty())
    } else {
        lines
    };
    head + screen_off_block(secs)
}

/// The lines after the screen-off time is written.
pub open spec fn screen_off_written(lines: Seq<Seq<char>>, secs: nat) -> Seq<Seq<char>> {
    match retimed(lines, screen_off_mark(), secs) {
        Some(x) => x,
        None => with_screen_off(lines, secs),
    }
}

/// The lines after the sleep time is written.
pub open spec fn sleep_written(lines: Seq<Seq<char>>, secs: nat) -> Seq<Seq<char>> {
    match retimed(lines, sleep_mark(), secs) {
        Some(x) => x,
        None => lines,
    }
}

/// The lines after both times are written.
pub open spec fn both_written(
    lines: Seq<Seq<char>>,
    screen_off_secs: nat,
    sleep_secs: nat,
) -> Seq<Seq<char>> {
    sleep_written(screen_off_written(lines, screen_off_secs), sleep_secs)
}

/// The configuration after both times are written. Every line keeps what stands before its line
/// feed, and a last line without a line feed stays without, unless lines are added behind it.
pub open spec fn rewritten(
    config: Seq<char>,
    screen_off_secs: nat,
    sleep_secs: nat,
) -> Seq<char> {
    let lines = text::raw_lines_of(config);
    text::joined(both_written(lines, screen_off_secs, sleep_secs), seq!['\n'])
        + if text::is_unended(config) && picked(lines, screen_off_mark()) is Some {
        Seq::empty()
    } else {
        seq!['\n']
    }
}

/// The number behind the equals sign of a timeout line.
pub open spec fn secs_on(line: Seq<char>) -> Option<nat> {
    match text::split_at_first(text::trimmed(line), '=') {
        Some((_, v)) => number::number_in(text::trimmed(v), 10, u32::MAX as nat),
        None => None,
    }
}

/// The timeout of the first listener for `mark`, in seconds.
pub open spec fn secs_in(config: Seq<char>, mark: Seq<char>) -> Option<nat> {
    let lines = text::lines_of(config);
    match picked(lines, mark) {
        Some(b) => match b.timeout_line {
            Some(k) => secs_on(lines[k]),
            None => None,
        },
        None => None,
    }
}

/// The last timeout line of a stretch lies in it.
pub proof fn lemma_last_timeout(lines: Seq<Seq<char>>, i: int, j: int)
    ensures
        last_timeout(lines, i, j) matches Some(k) ==> i <= k < j && sets_timeout(lines[k]),
    decreases j - i,
{
    if i < j && !sets_timeout(lines[j - 1]) {
        lemma_last_timeout(lines, i, j - 1);
    }
}

/// Where the parts of a block lie.
pub proof fn lemma_blocks_in_range(lines: Seq<Seq<char>>, i: int, n: int)
    requires
        0 <= i,
        0 <= n < blocks(lines, i).len(),
    ensures
        i <= blocks(lines, i)[n].start <= blocks(lines, i)[n].end < lines.len(),
        blocks(lines, i)[n] == block_at(lines, blocks(lines, i)[n].start),
        opens(lines[blocks(lines, i)[n].start]),
        blocks(lines, i)[n].timeout_line matches Some(k) ==> blocks(lines, i)[n].start < k
            < blocks(lines, i)[n].end && sets_timeout(lines[k]),
    decreases lines.len() - i,
{
    lemma_close_from(lines, i + 1);
    if opens(lines[i]) {
        let e = close_from(lines, i + 1);
        if n == 0 {
            lemma_last_timeout(lines, i + 1, e);
        } else {
            assert(blocks(lines, i)[n] == blocks(lines, e + 1)[n - 1]);
            lemma_blocks_in_range(lines, e + 1, n - 1);
        }
    } else {
        lemma_blocks_in_range(lines, i + 1, n);
    }
}

/// The block that is picked is the first with the mark.
pub proof fn lemma_pick(bs: Seq<Block>, mark: Seq<char>)
    ensures
        0 <= pick(bs, mark) <= bs.len(),
        pick(bs, mark) < bs.len() ==> text::has_text(bs[pick(bs, mark)].on_timeout, mark),
        forall|i: int|
            0 <= i < pick(bs, mark) ==> !text::has_text(#[trigger] bs[i].on_timeout, mark),
    decreases bs.len(),
{
    if bs.len() > 0 && !text::has_text(bs[0].on_timeout, mark) {
        lemma_pick(bs.drop_first(), mark);
        assert forall|i: int| 0 <= i < pick(bs, mark) implies !text::has_text(
            #[trigger] bs[i].on_timeout,
            mark,
        ) by {
            if i > 0 {
                assert(bs[i] == bs.drop_first()[i - 1]);
            }
        }
    }
}

/// What `pick` is where a block is known to be the first.
pub proof fn lemma_pick_is(bs: Seq<Block>, mark: Seq<char>, n: int)
    requires
        0 <= n <= bs.len(),
        n < bs.len() ==> text::has_text(bs[n].on_timeout, mark),
        forall|i: int| 0 <= i < n ==> !text::has_text(#[trigger] bs[i].on_timeout, mark),
    ensures
        pick(bs, mark) == n,
{
    lemma_pick(bs, mark);
    if pick(bs, mark) < n {
        assert(!text::has_text(bs[pick(bs, mark)].on_timeout, mark));
    } else if n < pick(bs, mark) {
        assert(!text::has_text(bs[n].on_timeout, mark));
    }
}

/// Finds the listener blocks among lines of characters.
fn scan(lines: &Vec<Vec<char>>) -> (out: Vec<Listener>)
    ensures
        views(out@) == blocks(text::pieces(lines@), 0),
{
    let ghost all = text::pieces(lines@);
    let listener: Vec<char> = text::chars_of("listener");
    let brace: Vec<char> = text::chars_of("}");
    let timeout: Vec<char> = text::chars_of("timeout");
    let on_timeout_key: Vec<char> = text::chars_of("on-timeout");
    let mut out: Vec<Listener> = Vec::new();
    let mut i: usize = 0;
    assert(views(out@) == Seq::<Block>::empty());
    while i < lines.len()
        invariant
            0 <= i <= lines@.len(),
            all == text::pieces(lines@),
            listener@ == "listener"@,
            brace@ == "}"@,
            timeout@ == "timeout"@,
            on_timeout_key@ == "on-timeout"@,
            views(out@) + blocks(all, i as int) == blocks(all, 0),
        decreases lines@.len() - i,
    {
        let line: &Vec<char> = &lines[i];
        assert(line@ == all[i as int]);
        if text::starts_with(text::trim(line.as_slice()), listener.as_slice())
            && text::contains_char(line.as_slice(), '{') {
            let start: usize = i;
            let mut j: usize = start + 1;
            while j < lines.len() && !text::same(text::trim(lines[j].as_slice()), brace.as_slice())
                invariant
                    start < j <= lines@.len(),
                    all == text::pieces(lines@),
                    brace@ == "}"@,
                    close_from(all, start + 1) == close_from(all, j as int),
                decreases lines@.len() - j,
            {
                assert(lines@[j as int]@ == all[j as int]);
                j += 1;
            }
            if j < lines.len() {
                assert(lines@[j as int]@ == all[j as int]);
            }
            let end: usize = if j < lines.len() {
                j
            } else {
                lines.len() - 1
            };
            assert(end == close_from(all, start + 1));
            let mut timeout_line: Option<usize> = None;
            let mut on_timeout: String = String::new();
            let mut k: usize = start + 1;
            while k < end
                invariant
                    start < k,
                    end < lines@.len(),
                    k <= end || k == start + 1,
                    all == text::pieces(lines@),
                    timeout@ == "timeout"@,
                    on_timeout_key@ == "on-timeout"@,
                    match timeout_line {
                        Some(t) => last_timeout(all, start + 1, k as int) == Some(t as int),
                        None => last_timeout(all, start + 1, k as int) is None,
                    },
                    on_timeout@ == last_command(all, start + 1, k as int),
                decreases end - k,
            {
                assert(lines@[k as int]@ == all[k as int]);
                let t: &[char] = text::trim(lines[k].as_slice());
                if text::starts_with(t, timeout.as_slice()) {
                    proof {
                        lemma_kinds_exclude(all[k as int]);
                    }
                    timeout_line = Some(k);
                } else if text::starts_with(t, on_timeout_key.as_slice()) {
                    let rest: &[char] = &t[on_timeout_key.len()..t.len()];
                    assert(rest@ == t@.skip("on-timeout"@.len() as int));
                    if let Some((_, v)) = text::split_once(rest, '=') {
                        on_timeout = text::string_of(text::trim(v));
                    }
                }
                k += 1;
            }
            assert(last_timeout(all, start + 1, end as int) == last_timeout(
                all,
                start + 1,
                k as int,
            ));
            let found = Listener { start, end, timeout_line, on_timeout };
            assert(found@ == block_at(all, start as int));
            let ghost before = views(out@);
            out.push(found);
            assert(views(out@) == before.push(found@));
            assert(before.push(found@) + blocks(all, end + 1) == before + (seq![found@] + blocks(
                all,
                end + 1,
            )));
            i = end + 1;
        } else {
            i += 1;
        }
    }
    assert(views(out@) + Seq::<Block>::empty() == views(out@));
    out
}

/// A line is of one kind at most.
pub proof fn lemma_kinds_exclude(line: Seq<char>)
    requires
        sets_timeout(line),
    ensures
        !opens(line),
        !closes(line),
        command(line) is None,
{
    let t = text::trimmed(line);
    reveal_strlit("timeout");
    reveal_strlit("listener");
    reveal_strlit("}");
    reveal_strlit("on-timeout");
    assert(t.subrange(0, 7)[0] == t[0]);
    assert("timeout"@[0] == 't');
    if text::has_prefix(t, "listener"@) {
        assert(t.subrange(0, 8)[0] == t[0]);
        assert("listener"@[0] == 'l');
    }
    if text::has_prefix(t, "on-timeout"@) {
        assert(t.subrange(0, 10)[0] == t[0]);
        assert("on-timeout"@[0] == 'o');
    }
}

/// Finds all listener blocks.
pub fn parse_listeners(lines: &[&str]) -> (out: Vec<Listener>)
    ensures
        views(out@) == blocks(text::slices(lines@), 0),
{
    let mut all: Vec<Vec<char>> = Vec::new();
    for i in 0..lines.len()
        invariant
            text::pieces(all@) == text::slices(lines@).take(i as int),
    {
        let ghost before = text::pieces(all@);
        all.push(text::chars_of(lines[i]));
        assert(text::pieces(all@) == before.push(lines@[i as int]@));
        assert(text::slices(lines@).take(i + 1) == before.push(lines@[i as int]@));
    }
    assert(text::slices(lines@).take(lines@.len() as int) == text::slices(lines@));
    scan(&all)
}

/// The lines of strings as characters.
fn line_chars(lines: &Vec<String>) -> (all: Vec<Vec<char>>)
    ensures
        text::pieces(all@) == text::texts(lines@),
{
    let mut all: Vec<Vec<char>> = Vec::new();
    for i in 0..lines.len()
        invariant
            text::pieces(all@) == text::texts(lines@).take(i as int),
    {
        let ghost before = text::pieces(all@);
        all.push(text::chars_of(lines[i].as_str()));
        assert(text::pieces(all@) == before.push(lines@[i as int]@));
        assert(text::texts(lines@).take(i + 1) == before.push(lines@[i as int]@));
    }
    assert(text::texts(lines@).take(lines@.len() as int) == text::texts(lines@));
    all
}

/// The index of the first listener whose command holds `needle`.
fn find_listener(listeners: &Vec<Listener>, needle: &[char]) -> (r: usize)
    ensures
        r == pick(views(listeners@), needle@),
        r <= listeners@.len(),
{
    let ghost bs = views(listeners@);
    let mut n: usize = 0;
    while n < listeners.len()
        invariant
            0 <= n <= listeners@.len(),
            bs == views(listeners@),
            forall|i: int| 0 <= i < n ==> !text::has_text(#[trigger] bs[i].on_timeout, needle@),
        decreases listeners@.len() - n,
    {
        let command: Vec<char> = text::chars_of(listeners[n].on_timeout.as_str());
        assert(bs[n as int].on_timeout == command@);
        if text::contains(command.as_slice(), needle) {
            proof {
                lemma_pick_is(bs, needle@, n as int);
            }
            return n;
        }
        n += 1;
    }
    proof {
        lemma_pick_is(bs, needle@, n as int);
    }
    n
}

/// Appends one space for each byte of white space that a line starts with.
fn append_indent(out: &mut String, line: &[char])
    ensures
        final(out)@ == old(out)@ + text::spaces(indent_of(line@)),
{
    let mut i: usize = 0;
    assert(line@.skip(0) == line@);
    while i < line.len() && text::is_whitespace(line[i])
        invariant
            0 <= i <= line@.len(),
            text::trimmed_start(line@) == text::trimmed_start(line@.skip(i as int)),
            out@ == old(out)@ + text::spaces(text::utf8_len(line@.take(i as int))),
        decreases line@.len() - i,
    {
        let w: usize = text::char_bytes(line[i]);
        let ghost n = text::utf8_len(line@.take(i as int));
        text::append_spaces(out, w);
        proof {
            text::lemma_utf8_len_push(line@.take(i as int), line@[i as int]);
            assert(line@.take(i as int).push(line@[i as int]) == line@.take(i + 1));
            assert(text::spaces(n) + text::spaces(w as nat) == text::spaces(n + w as nat));
            assert(out@ == old(out)@ + text::spaces(n + w as nat));
        }
        assert(line@.skip(i as int).drop_first() == line@.skip(i + 1));
        i += 1;
    }
    assert(text::trimmed_start(line@) == line@.skip(i as int));
}

/// Appends the assignment of a timeout.
fn append_assignment(out: &mut String, secs: u32)
    ensures
        final(out)@ == old(out)@ + "timeout = "@ + number::decimal(secs as nat),
{
    out.append("timeout = ");
    number::append_decimal(out, secs as u64);
}

/// A line that sets the timeout, indented by four spaces.
fn new_timeout(secs: u32) -> (line: String)
    ensures
        line@ == timeout_text(4, secs as nat),
{
    let mut line = String::new();
    text::append_spaces(&mut line, 4);
    append_assignment(&mut line, secs);
    assert(line@ == timeout_text(4, secs as nat));
    line
}

/// Sets the timeout of the first listener whose command holds `needle`; `false`, and no change,
/// where there is no such listener. A line that is replaced keeps a carriage return at its end if
/// that is asked.
fn write_timeout(lines: &mut Vec<String>, needle: &str, secs: u32, keep_cr: bool) -> (done: bool)
    ensures
        ({
            let before = text::texts(old(lines)@);
            let after = if keep_cr {
                retimed(before, needle@, secs as nat)
            } else {
                with_timeout(before, needle@, secs as nat)
            };
            &&& done == after is Some
            &&& done == picked(before, needle@) is Some
            &&& text::texts(final(lines)@) == match after {
                Some(x) => x,
                None => before,
            }
        }),
{
    let ghost all = text::texts(lines@);
    let listeners: Vec<Listener> = scan(&line_chars(lines));
    let needle_chars: Vec<char> = text::chars_of(needle);
    let n: usize = find_listener(&listeners, needle_chars.as_slice());
    if n >= listeners.len() {
        return false;
    }
    proof {
        lemma_blocks_in_range(all, 0, n as int);
    }
    let l: &Listener = &listeners[n];
    assert(l@ == blocks(all, 0)[n as int]);
    match l.timeout_line {
        Some(k) => {
            let old_line: Vec<char> = text::chars_of(lines[k].as_str());
            assert(old_line@ == all[k as int]);
            let mut line = String::new();
            append_indent(&mut line, old_line.as_slice());
            append_assignment(&mut line, secs);
            assert(line@ == timeout_text(indent_of(all[k as int]), secs as nat));
            if keep_cr && old_line.len() > 0 && old_line[old_line.len() - 1] == '\r' {
                line.push('\r');
            }
            lines.set(k, line);
            assert(text::texts(lines@) == all.update(k as int, line@));
        },
        None => {
            let line: String = new_timeout(secs);
            assert(l.start as int == l@.start && l@.start < all.len() && all.len() == lines.len());
            lines.insert(l.start + 1, line);
            assert(text::texts(lines@) == all.insert(l.start + 1, line@));
        },
    }
    true
}

/// Sets the timeout of the first listener whose command holds `needle`; `false`, and no change,
/// where there is no such listener.
pub fn set_listener_timeout(lines: &mut Vec<String>, needle: &str, secs: u32) -> (done: bool)
    ensures
        done == (with_timeout(text::texts(old(lines)@), needle@, secs as nat) is Some),
        text::texts(final(lines)@) == (match with_timeout(
            text::texts(old(lines)@),
            needle@,
            secs as nat,
        ) {
            Some(x) => x,
            None => text::texts(old(lines)@),
        }),
{
    write_timeout(lines, needle, secs, false)
}

/// Adds a listener that turns the screen off.
pub fn append_screen_off(lines: &mut Vec<String>, secs: u32)
    ensures
        text::texts(final(lines)@) == with_screen_off(text::texts(old(lines)@), secs as nat),
{
    let ghost all = text::texts(lines@);
    if lines.len() > 0 {
        let last: Vec<char> = text::chars_of(lines[lines.len() - 1].as_str());
        assert(last@ == all.last());
        if text::trim(last.as_slice()).len() > 0 {
            lines.push(String::new());
        }
    }
    let ghost head = text::texts(lines@);
    assert(head == if all.len() > 0 && text::trimmed(all.last()).len() > 0 {
        all.push(Seq::empty())
    } else {
        all
    });
    lines.push("# 熄屏（由 info-setting 管理）".to_string());
    lines.push("listener {".to_string());
    lines.push(new_timeout(secs));
    lines.push("    on-timeout = niri msg action power-off-monitors".to_string());
    lines.push("    on-resume = niri msg action power-on-monitors".to_string());
    lines.push("}".to_string());
    assert(text::texts(lines@) == head + screen_off_block(secs as nat));
}

/// Rewrites a configuration: sets the sleep time, sets or adds the screen-off time, and keeps
/// everything else, comments and line ends among it.
pub fn rewrite_idle_config(config: &str, screen_off_secs: u32, sleep_secs: u32) -> (out: String)
    ensures
        out@ == rewritten(config@, screen_off_secs as nat, sleep_secs as nat),
{
    let chars: Vec<char> = text::chars_of(config);
    let unended: bool = chars.len() > 0 && chars[chars.len() - 1] != '\n';
    let split: Vec<Vec<char>> = text::raw_lines(chars.as_slice());
    let mut lines: Vec<String> = Vec::new();
    for i in 0..split.len()
        invariant
            text::texts(lines@) == text::pieces(split@).take(i as int),
    {
        let ghost before = text::texts(lines@);
        lines.push(text::string_of(split[i].as_slice()));
        assert(text::texts(lines@) == before.push(split@[i as int]@));
        assert(text::pieces(split@).take(i + 1) == before.push(split@[i as int]@));
    }
    assert(text::pieces(split@).take(split@.len() as int) == text::pieces(split@));
    let found: bool = write_timeout(&mut lines, "power-off-monitors", screen_off_secs, true);
    if !found {
        append_screen_off(&mut lines, screen_off_secs);
    }
    write_timeout(&mut lines, "systemctl suspend", sleep_secs, true);
    let mut out: String = text::join(&lines, "\n");
    proof {
        reveal_strlit("\n");
        assert("\n"@ =~= seq!['\n']);
    }
    if !(unended && found) {
        out.push('\n');
    }
    assert(out@ =~= rewritten(config@, screen_off_secs as nat, sleep_secs as nat));
    out
}

/// Reads the timeout of the first listener whose command holds `needle`, in seconds.
pub fn read_listener_secs(config: &str, needle: &str) -> (r: Option<u32>)
    ensures
        r is Some <==> secs_in(config@, needle@) is Some,
        r matches Some(n) ==> secs_in(config@, needle@) == Some(n as nat),
{
    let lines: Vec<Vec<char>> = text::lines(text::chars_of(config).as_slice());
    let ghost all = text::lines_of(config@);
    let listeners: Vec<Listener> = scan(&lines);
    let needle_chars: Vec<char> = text::chars_of(needle);
    let n: usize = find_listener(&listeners, needle_chars.as_slice());
    if n >= listeners.len() {
        return None;
    }
    proof {
        lemma_blocks_in_range(all, 0, n as int);
    }
    let l: &Listener = &listeners[n];
    assert(l@ == blocks(all, 0)[n as int]);
    match l.timeout_line {
        Some(k) => {
            assert(lines@[k as int]@ == all[k as int]);
            match text::split_once(text::trim(lines[k].as_slice()), '=') {
                Some((_, v)) => number::parse_u32(text::trim(v)),
                None => None,
            }
        },
        None => None,
    }
}

} // verus!
