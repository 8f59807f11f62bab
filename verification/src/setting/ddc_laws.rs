//! What holds of the reports of `ddcutil`.

use vstd::prelude::*;

use super::ddc;
use crate::number;
use crate::text;
use crate::text_laws;

verus! {

/// Whether two characters are one, or a letter of ASCII and its capital.
pub open spec fn is_same_letter(a: char, b: char) -> bool {
    ||| a == b
    ||| 'a' <= a <= 'z' && b as u32 + 32 == a as u32
    ||| 'a' <= b <= 'z' && a as u32 + 32 == b as u32
}

/// Whether a line is the head of a display without DDC/CI, whatever the case of its letters.
pub open spec fn heads_invalid(line: Seq<char>) -> bool {
    let t = text::trimmed(line);
    let head = "Invalid display"@;
    t.len() == head.len() && forall|i: int|
        0 <= i < t.len() ==> is_same_letter(#[trigger] t[i], head[i])
}

/// Whether a line is the head of a display with DDC/CI.
pub open spec fn heads_valid(line: Seq<char>) -> bool {
    !heads_invalid(line) && text::has_prefix(text::trimmed(line), "Display "@)
}

/// Whether a line stands in the section of a display without DDC/CI: such a head comes before it,
/// and none of another display in between.
pub open spec fn in_invalid(lines: Seq<Seq<char>>, k: int) -> bool {
    exists|h: int|
        0 <= h < k && heads_invalid(#[trigger] lines[h]) && forall|m: int|
            h < m < k ==> !heads_valid(#[trigger] lines[m])
}

/// Whether a line gives the bus of a display that counts.
pub open spec fn counts(lines: Seq<Seq<char>>, k: int) -> bool {
    &&& !heads_invalid(lines[k])
    &&& !heads_valid(lines[k])
    &&& !in_invalid(lines, k)
    &&& ddc::bus_on(lines[k]) is Some
}

/// The bus that is found is that of the first line that gives one, outside the sections of displays
/// without DDC/CI; none is found where there is no such line.
pub proof fn law_first_display_decides(lines: Seq<Seq<char>>)
    ensures
        match ddc::first_bus(lines, false) {
            Some(n) => exists|k: int|
                0 <= k < lines.len() && #[trigger] counts(lines, k) && ddc::bus_on(lines[k]) == Some(
                    n,
                ) && forall|j: int| 0 <= j < k ==> !#[trigger] counts(lines, j),
            None => forall|k: int| 0 <= k < lines.len() ==> !#[trigger] counts(lines, k),
        },
{
    assert(lines.skip(0) =~= lines);
    lemma_first_bus(lines, 0, false);
}

/// What is found from a line on, where nothing was found before it.
proof fn lemma_first_bus(lines: Seq<Seq<char>>, i: int, invalid: bool)
    requires
        0 <= i <= lines.len(),
        invalid <==> in_invalid(lines, i),
    ensures
        match ddc::first_bus(lines.skip(i), invalid) {
            Some(n) => exists|k: int|
                i <= k < lines.len() && #[trigger] counts(lines, k) && ddc::bus_on(lines[k]) == Some(
                    n,
                ) && forall|j: int| i <= j < k ==> !#[trigger] counts(lines, j),
            None => forall|k: int| i <= k < lines.len() ==> !#[trigger] counts(lines, k),
        },
    decreases lines.len() - i,
{
    if i < lines.len() {
        let s = lines.skip(i);
        let line = lines[i];
        assert(s[0] == line);
        assert(s.drop_first() =~= lines.skip(i + 1));
        law_case_is_ignored(text::trimmed(line), "Invalid display"@);
        let next = if heads_invalid(line) {
            true
        } else if heads_valid(line) {
            false
        } else {
            invalid
        };
        lemma_invalid_step(lines, i);
        if !counts(lines, i) {
            lemma_first_bus(lines, i + 1, next);
            let found = ddc::first_bus(lines.skip(i + 1), next);
            assert(ddc::first_bus(s, invalid) == found);
            if let Some(n) = found {
                let k = choose|k: int|
                    i + 1 <= k < lines.len() && #[trigger] counts(lines, k) && ddc::bus_on(lines[k])
                        == Some(n) && forall|j: int|
                        i + 1 <= j < k ==> !#[trigger] counts(lines, j);
                assert forall|j: int| i <= j < k implies !#[trigger] counts(lines, j) by {}
                assert(counts(lines, k));
            } else {
                assert forall|k: int| i <= k < lines.len() implies !#[trigger] counts(
                    lines,
                    k,
                ) by {}
            }
        }
    }
}

/// Where the section of a display without DDC/CI starts and ends.
proof fn lemma_invalid_step(lines: Seq<Seq<char>>, i: int)
    requires
        0 <= i < lines.len(),
    ensures
        in_invalid(lines, i + 1) <==> heads_invalid(lines[i]) || !heads_valid(lines[i])
            && in_invalid(lines, i),
{
    if in_invalid(lines, i + 1) {
        let h = choose|h: int|
            0 <= h < i + 1 && heads_invalid(#[trigger] lines[h]) && forall|m: int|
                h < m < i + 1 ==> !heads_valid(#[trigger] lines[m]);
        if h < i {
            assert(!heads_valid(lines[i]));
        }
    }
    if heads_invalid(lines[i]) {
        assert(in_invalid(lines, i + 1));
    } else if !heads_valid(lines[i]) && in_invalid(lines, i) {
        let h = choose|h: int|
            0 <= h < i && heads_invalid(#[trigger] lines[h]) && forall|m: int|
                h < m < i ==> !heads_valid(#[trigger] lines[m]);
        assert forall|m: int| h < m < i + 1 implies !heads_valid(#[trigger] lines[m]) by {}
        assert(heads_invalid(lines[h]));
    }
}

/// Once a display is found, nothing that follows in the report changes which it is.
pub proof fn law_later_displays_change_nothing(a: Seq<char>, b: Seq<char>)
    requires
        a.len() > 0,
        a.last() == '\n',
    ensures
        ddc::first_bus(text::lines_of(a), false) matches Some(n) ==> ddc::first_bus(
            text::lines_of(a + b),
            false,
        ) == Some(n),
{
    text_laws::law_lines_add_up(a, b);
    lemma_more_lines(text::lines_of(a), text::lines_of(b), false);
}

/// More lines do not change what was found in those before.
proof fn lemma_more_lines(a: Seq<Seq<char>>, b: Seq<Seq<char>>, invalid: bool)
    ensures
        ddc::first_bus(a, invalid) matches Some(n) ==> ddc::first_bus(a + b, invalid) == Some(n),
    decreases a.len(),
{
    if a.len() > 0 {
        assert((a + b)[0] == a[0]);
        assert((a + b).drop_first() =~= a.drop_first() + b);
        lemma_more_lines(a.drop_first(), b, true);
        lemma_more_lines(a.drop_first(), b, false);
    }
}

/// A line that names the bus after its key gives the number behind the last hyphen.
pub proof fn law_bus_reads_back(line: Seq<char>, front: Seq<char>, bus: u32)
    requires
        text::trimmed(line) == "I2C bus:"@ + front + "-"@ + number::decimal(bus as nat),
    ensures
        ddc::bus_on(line) == Some(bus as nat),
{
    reveal_strlit("I2C bus:");
    reveal_strlit("-");
    let t = text::trimmed(line);
    let d = number::decimal(bus as nat);
    let rest = front + "-"@ + d;
    number::law_number_round_trip(bus as nat, 10, u32::MAX as nat);
    assert forall|i: int| 0 <= i < d.len() implies d[i] != '-' && !text::is_space(d[i]) by {
        assert(number::digit_value(d[i]) < 10);
    }
    assert(t.subrange(0, 8) =~= "I2C bus:"@);
    assert(t.skip(8) =~= rest);
    // what is trimmed is some white space of the front
    let core = text::trimmed_start(rest);
    text::lemma_trimmed_start(rest);
    let n = rest.len() - core.len();
    assert(n <= front.len()) by {
        if n > front.len() {
            assert(text::is_space(rest[front.len() as int]));
            assert(rest[front.len() as int] == '-');
        }
    }
    assert(core.last() == d.last());
    assert(text::trimmed_end(core) == core);
    assert(core =~= front.skip(n) + seq!['-'] + d);
    text_laws::law_splitting(front.skip(n), '-', d);
}

/// Only a line with the key of the bus gives one.
pub proof fn law_bus_needs_its_key(line: Seq<char>)
    ensures
        ddc::bus_on(line) is Some ==> exists|rest: Seq<char>|
            text::trimmed(line) == #[trigger] ("I2C bus:"@ + rest),
{
    text_laws::law_holding(text::trimmed(line), "I2C bus:"@);
}

/// The case of letters counts for nothing where heads are compared, and nothing else is passed over.
pub proof fn law_case_is_ignored(a: Seq<char>, b: Seq<char>)
    ensures
        ddc::same_but_case(a, b) <==> a.len() == b.len() && forall|i: int|
            0 <= i < a.len() ==> is_same_letter(#[trigger] a[i], b[i]),
{
    if ddc::same_but_case(a, b) {
        assert forall|i: int| 0 <= i < a.len() implies is_same_letter(#[trigger] a[i], b[i]) by {
            assert(ddc::ascii_lower(a[i]) == ddc::ascii_lower(b[i]));
        }
    }
    if a.len() == b.len() && forall|i: int| 0 <= i < a.len() ==> is_same_letter(
        #[trigger] a[i],
        b[i],
    ) {
        assert forall|i: int| 0 <= i < a.len() implies ddc::ascii_lower(#[trigger] a[i])
            == ddc::ascii_lower(b[i]) by {
            assert(is_same_letter(a[i], b[i]));
        }
    }
}

/// Whether a line reports the brightness: its first words say so, and there are five of them or more.
pub open spec fn reports(line: Seq<char>) -> bool {
    let f = text::words_of(line);
    f.len() >= 5 && f.take(3) == seq!["VCP"@, "10"@, "C"@]
}

/// The first line that reports the brightness decides: its fourth word is the current value and its
/// fifth the greatest, and nothing is read where one of them is no number.
pub proof fn law_first_report_decides(lines: Seq<Seq<char>>, k: int)
    requires
        0 <= k < lines.len(),
        reports(lines[k]),
        forall|j: int| 0 <= j < k ==> !reports(#[trigger] lines[j]),
    ensures
        ({
            let f = text::words_of(lines[k]);
            let cur = number::number_in(f[3], 10, 0xffff_ffff);
            let max = number::number_in(f[4], 10, 0xffff_ffff);
            ddc::brightness_in(lines) == if cur is Some && max is Some {
                Some((cur->0, max->0))
            } else {
                None
            }
        }),
    decreases k,
{
    lemma_reports(lines[0]);
    if k > 0 {
        let rest = lines.drop_first();
        assert forall|j: int| 0 <= j < k - 1 implies !reports(#[trigger] rest[j]) by {
            assert(rest[j] == lines[j + 1]);
        }
        assert(!reports(lines[0]));
        law_first_report_decides(rest, k - 1);
    }
}

/// Nothing is read where no line reports the brightness.
pub proof fn law_no_report_no_brightness(lines: Seq<Seq<char>>)
    requires
        forall|j: int| 0 <= j < lines.len() ==> !reports(#[trigger] lines[j]),
    ensures
        ddc::brightness_in(lines) is None,
    decreases lines.len(),
{
    if lines.len() > 0 {
        let rest = lines.drop_first();
        lemma_reports(lines[0]);
        assert(!reports(lines[0]));
        assert forall|j: int| 0 <= j < rest.len() implies !reports(#[trigger] rest[j]) by {
            assert(rest[j] == lines[j + 1]);
        }
        law_no_report_no_brightness(rest);
    }
}

/// The words of a report.
proof fn lemma_reports(line: Seq<char>)
    ensures
        reports(line) <==> ddc::reports_brightness(line),
{
    let f = text::words_of(line);
    let want = seq!["VCP"@, "10"@, "C"@];
    if ddc::reports_brightness(line) {
        assert(f.take(3) =~= want);
    }
    if reports(line) {
        assert(f.take(3)[0] == f[0]);
        assert(f.take(3)[1] == f[1]);
        assert(f.take(3)[2] == f[2]);
    }
}

/// The values that a display reports are read back.
pub proof fn law_brightness_reads_back(
    lines: Seq<Seq<char>>,
    k: int,
    cur: u32,
    max: u32,
    more: Seq<Seq<char>>,
)
    requires
        0 <= k < lines.len(),
        forall|j: int| 0 <= j < k ==> !reports(#[trigger] lines[j]),
        text::words_of(lines[k]) == seq![
            "VCP"@,
            "10"@,
            "C"@,
            number::decimal(cur as nat),
            number::decimal(max as nat),
        ] + more,
    ensures
        ddc::brightness_in(lines) == Some((cur as nat, max as nat)),
{
    let f = text::words_of(lines[k]);
    assert(f.take(3) =~= seq!["VCP"@, "10"@, "C"@]);
    number::law_number_round_trip(cur as nat, 10, u32::MAX as nat);
    number::law_number_round_trip(max as nat, 10, u32::MAX as nat);
    law_first_report_decides(lines, k);
}

} // verus!
