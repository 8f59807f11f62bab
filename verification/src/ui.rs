//! Sizes, and the table of the disks.

use vstd::prelude::*;

use crate::disk;
use crate::disk::DiskInfo;
use crate::number;
use crate::style;
use crate::style::{Color, Line, Span, Style};
use crate::text;

verus! {

/// The width of the rule under the head of the table.
pub const RULE_WIDTH: usize = 105;

/// The cells of a usage bar.
pub const BAR_LENGTH: usize = 30;

/// How full a disk is: the colours of the filled cells of its bar, and the share in percent.
#[derive(Debug)]
pub struct Usage {
    pub fill: Vec<Color>,
    pub percent: Span,
}

/// A number of bytes as `bytesize` writes it.
pub uninterp spec fn size_text(bytes: u64) -> Seq<char>;

/// `ToString` on `bytesize::ByteSize::b`: the number of bytes in binary units, with one decimal
/// from a kibibyte on; below that the bytes themselves, a space and `B`.
#[verifier::external_body]
fn byte_size(bytes: u64) -> (s: String)
    ensures
        s@ == size_text(bytes),
        bytes < 1024 ==> s@ == number::decimal(bytes as nat) + " B"@,
{
    bytesize::ByteSize::b(bytes).to_string()
}

/// A text without its spaces.
pub open spec fn without_spaces(s: Seq<char>) -> Seq<char> {
    s.filter(|c: char| c != ' ')
}

/// A number of bytes as it is shown.
pub open spec fn bytes_text(bytes: u64) -> Seq<char> {
    without_spaces(size_text(bytes))
}

/// A text with at most `max` characters: cut, and ended with an ellipsis, where it is longer.
pub open spec fn truncated(s: Seq<char>, max: nat) -> Seq<char> {
    if s.len() > max {
        s.take(
            if max > 0 {
                max - 1
            } else {
                0
            },
        ).push('…')
    } else {
        s
    }
}

/// A text that was cut is no longer than asked, but for the ellipsis that is always there, and it
/// is the text itself where that was short enough.
pub proof fn law_truncated_is_short(s: Seq<char>, max: nat)
    ensures
        max > 0 ==> truncated(s, max).len() <= max,
        s.len() <= max ==> truncated(s, max) == s,
        s.len() > max ==> truncated(s, max).last() == '…',
{
}

/// The columns of the table in front of the usage bar.
pub open spec fn columns(
    name: Seq<char>,
    mount: Seq<char>,
    fs: Seq<char>,
    total: Seq<char>,
    used: Seq<char>,
    free: Seq<char>,
) -> Seq<char> {
    text::left_aligned(name, 15) + " "@ + text::left_aligned(mount, 15) + " "@
        + text::left_aligned(fs, 10) + " "@ + text::left_aligned(total, 10) + " "@
        + text::left_aligned(used, 10) + " "@ + text::left_aligned(free, 10) + " "@
}

/// The columns of a disk.
pub open spec fn disk_columns(d: disk::Info) -> Seq<char> {
    columns(
        truncated(d.name, 14),
        truncated(d.mount_point, 14),
        truncated(d.fs, 9),
        bytes_text(d.total),
        bytes_text(d.used),
        bytes_text(d.available),
    )
}

/// A usage bar in its brackets: the filled cells in their colours, then the others up to the
/// length of a bar.
pub open spec fn bar_spans(fill: Seq<Color>) -> Seq<(Seq<char>, Style)> {
    seq![("["@, style::colored(Color::DarkGray))] + fill.map_values(
        |c: Color| ("━"@, style::colored(c)),
    ) + empty_cells(
        if fill.len() < BAR_LENGTH {
            (BAR_LENGTH - fill.len()) as nat
        } else {
            0
        },
    ) + seq![("]"@, style::colored(Color::DarkGray))]
}

/// Cells of a bar that are not filled.
pub open spec fn empty_cells(n: nat) -> Seq<(Seq<char>, Style)> {
    Seq::new(n, |i: int| ("─"@, style::colored(Color::Rgb(60, 60, 60))))
}

/// The line of a disk.
pub open spec fn disk_line(d: disk::Info, u: Usage) -> Seq<(Seq<char>, Style)> {
    seq![style::plain(disk_columns(d))] + bar_spans(u.fill@) + seq![
        style::plain(" "@),
        u.percent@,
    ]
}

/// The lines of the table.
pub open spec fn table(disks: Seq<disk::Info>, usages: Seq<Usage>) -> Seq<
    Seq<(Seq<char>, Style)>,
> {
    seq![
        seq![
            style::plain(
                columns("Name"@, "Mount"@, "FS"@, "Total"@, "Used"@, "Free"@) + "Usage Bar"@,
            ),
        ],
        seq![style::plain(Seq::new(RULE_WIDTH as nat, |i: int| '-'))],
    ] + Seq::new(disks.len(), |i: int| disk_line(disks[i], usages[i]))
}

/// Leaves the spaces out of a text.
pub fn strip_spaces(s: &str) -> (out: String)
    ensures
        out@ == without_spaces(s@),
{
    let chars: Vec<char> = text::chars_of(s);
    let mut out = String::new();
    let ghost keep = |c: char| c != ' ';
    proof {
        reveal(Seq::filter);
    }
    assert(s@.take(0).filter(keep) == Seq::<char>::empty());
    for i in 0..chars.len()
        invariant
            chars@ == s@,
            keep == (|c: char| c != ' '),
            out@ == s@.take(i as int).filter(keep),
    {
        proof {
            reveal(Seq::filter);
        }
        assert(s@.take(i + 1).drop_last() == s@.take(i as int));
        assert(s@.take(i + 1).last() == s@[i as int]);
        if chars[i] != ' ' {
            out.push(chars[i]);
        }
    }
    assert(s@.take(s@.len() as int) == s@);
    out
}

/// Writes a number of bytes in a unit that suits it, without spaces.
pub fn format_bytes(bytes: u64) -> (s: String)
    ensures
        s@ == bytes_text(bytes),
        bytes < 1024 ==> s@ == number::decimal(bytes as nat) + "B"@,
{
    let text: String = byte_size(bytes);
    let s: String = strip_spaces(text.as_str());
    proof {
        if bytes < 1024 {
            lemma_small_size(bytes as nat);
        }
    }
    s
}

/// Without its space, the text of a small size is the number and the unit.
proof fn lemma_small_size(n: nat)
    ensures
        without_spaces(number::decimal(n) + " B"@) == number::decimal(n) + "B"@,
{
    let keep = |c: char| c != ' ';
    reveal_strlit(" B");
    reveal_strlit("B");
    assert(" B"@ == seq![' ', 'B']);
    assert("B"@ == seq!['B']);
    lemma_no_spaces_in_number(n);
    Seq::filter_distributes_over_add(number::decimal(n), " B"@, keep);
    reveal(Seq::filter);
    assert(seq![' ', 'B'].drop_last() =~= seq![' ']);
    assert(seq![' '].drop_last() =~= Seq::<char>::empty());
    assert(Seq::<char>::empty().filter(keep) =~= Seq::<char>::empty());
    assert(seq![' '].filter(keep) =~= Seq::<char>::empty());
    assert(seq![' ', 'B'].filter(keep) =~= seq!['B']);
}

/// A number has no spaces.
proof fn lemma_no_spaces_in_number(n: nat)
    ensures
        without_spaces(number::decimal(n)) == number::decimal(n),
{
    let s = number::decimal(n);
    number::law_number_round_trip(n, 10, n);
    assert forall|i: int| 0 <= i < s.len() implies #[trigger] s[i] != ' ' by {
        assert(number::digit_value(s[i]) < 10);
    }
    lemma_nothing_left_out(s);
}

/// Where there are no spaces, none are left out.
proof fn lemma_nothing_left_out(s: Seq<char>)
    requires
        forall|i: int| 0 <= i < s.len() ==> #[trigger] s[i] != ' ',
    ensures
        without_spaces(s) == s,
    decreases s.len(),
{
    reveal(Seq::filter);
    if s.len() > 0 {
        lemma_nothing_left_out(s.drop_last());
        assert(s =~= s.drop_last().push(s.last()));
    }
}

/// Cuts a text to `max_width` characters, with an ellipsis at the end where something is left out.
pub fn truncate(s: &str, max_width: usize) -> (out: String)
    ensures
        out@ == truncated(s@, max_width as nat),
{
    let chars: Vec<char> = text::chars_of(s);
    if chars.len() > max_width {
        let keep: usize = if max_width > 0 {
            max_width - 1
        } else {
            0
        };
        let mut out: String = text::string_of(&chars.as_slice()[0..keep]);
        out.push('…');
        out
    } else {
        s.to_string()
    }
}

/// Writes the columns of the table in front of the usage bar.
fn append_columns(
    out: &mut String,
    name: &str,
    mount: &str,
    fs: &str,
    total: &str,
    used: &str,
    free: &str,
)
    ensures
        final(out)@ == old(out)@ + columns(name@, mount@, fs@, total@, used@, free@),
{
    out.append(text::align_left(name, 15).as_str());
    out.append(" ");
    out.append(text::align_left(mount, 15).as_str());
    out.append(" ");
    out.append(text::align_left(fs, 10).as_str());
    out.append(" ");
    out.append(text::align_left(total, 10).as_str());
    out.append(" ");
    out.append(text::align_left(used, 10).as_str());
    out.append(" ");
    out.append(text::align_left(free, 10).as_str());
    out.append(" ");
    assert(out@ =~= old(out)@ + columns(name@, mount@, fs@, total@, used@, free@));
}

/// Draws a usage bar.
fn append_bar(line: &mut Line, fill: &Vec<Color>)
    ensures
        final(line)@ == old(line)@ + bar_spans(fill@),
{
    let ghost full = fill@.map_values(|c: Color| ("━"@, style::colored(c)));
    line.push("[".to_string(), Style::fg(Color::DarkGray));
    let ghost start = line@;
    for i in 0..fill.len()
        invariant
            full == fill@.map_values(|c: Color| ("━"@, style::colored(c))),
            line@ == start + full.take(i as int),
    {
        line.push("━".to_string(), Style::fg(fill[i]));
        assert(full.take(i + 1) == full.take(i as int).push(full[i as int]));
        assert(line@ =~= start + full.take(i + 1));
    }
    assert(full.take(fill@.len() as int) == full);
    let ghost middle = line@;
    let rest: usize = if fill.len() < BAR_LENGTH {
        BAR_LENGTH - fill.len()
    } else {
        0
    };
    for i in 0..rest
        invariant
            line@ == middle + empty_cells(i as nat),
    {
        line.push("─".to_string(), Style::fg(Color::Rgb(60, 60, 60)));
        assert(line@ =~= middle + empty_cells((i + 1) as nat));
    }
    line.push("]".to_string(), Style::fg(Color::DarkGray));
    assert(line@ =~= old(line)@ + bar_spans(fill@));
}

/// Draws the line of a disk.
fn disk_row(d: &DiskInfo, u: &Usage) -> (line: Line)
    ensures
        line@ == disk_line(d@, *u),
{
    let mut columns = String::new();
    append_columns(
        &mut columns,
        truncate(d.name.as_str(), 14).as_str(),
        truncate(d.mount_point.as_str(), 14).as_str(),
        truncate(d.fs.as_str(), 9).as_str(),
        format_bytes(d.total).as_str(),
        format_bytes(d.used).as_str(),
        format_bytes(d.available).as_str(),
    );
    assert(columns@ =~= disk_columns(d@));
    let mut line = Line::new();
    line.push(columns, Style::none());
    append_bar(&mut line, &u.fill);
    line.push_plain(" ");
    line.push(u.percent.text.clone(), u.percent.style);
    assert(line@ =~= disk_line(d@, *u));
    line
}

/// Lays out the table of the disks; `usages` says of each how full it is.
pub fn print_disk_usage_table(disks: &Vec<DiskInfo>, usages: &Vec<Usage>) -> (lines: Vec<Line>)
    requires
        disks@.len() == usages@.len(),
    ensures
        style::shown(lines@) == table(disk::infos(disks@), usages@),
{
    let ghost full = table(disk::infos(disks@), usages@);
    let mut lines: Vec<Line> = Vec::new();
    let mut head = String::new();
    append_columns(&mut head, "Name", "Mount", "FS", "Total", "Used", "Free");
    head.append("Usage Bar");
    assert(head@ =~= columns("Name"@, "Mount"@, "FS"@, "Total"@, "Used"@, "Free"@) + "Usage Bar"@);
    let mut line = Line::new();
    line.push(head, Style::none());
    assert(line@ =~= full[0]);
    lines.push(line);
    let mut rule = String::new();
    for i in 0..RULE_WIDTH
        invariant
            rule@ == Seq::new(i as nat, |j: int| '-'),
    {
        rule.push('-');
        assert(rule@ =~= Seq::new((i + 1) as nat, |j: int| '-'));
    }
    let mut line = Line::new();
    line.push(rule, Style::none());
    assert(line@ =~= full[1]);
    lines.push(line);
    assert(style::shown(lines@) =~= full.take(2));
    for i in 0..disks.len()
        invariant
            disks@.len() == usages@.len(),
            full == table(disk::infos(disks@), usages@),
            style::shown(lines@) == full.take(i + 2),
    {
        let ghost before = style::shown(lines@);
        let line = disk_row(&disks[i], &usages[i]);
        assert(full[i + 2] == disk_line(disks@[i as int]@, usages@[i as int]));
        assert(line@ == full[i + 2]);
        lines.push(line);
        assert(style::shown(lines@) =~= before.push(line@));
        assert(full.take(i + 3) =~= before.push(full[i + 2]));
    }
    assert(full.take(disks@.len() + 2int) =~= full);
    lines
}

} // verus!
