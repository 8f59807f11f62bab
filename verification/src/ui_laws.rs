//! What holds of the table of the disks.

use vstd::prelude::*;

use crate::disk;
use crate::style;
use crate::style::{Color, Style};
use crate::text;
use crate::ui;
use crate::ui::Usage;

verus! {

/// Whether a text stands in another from a column on.
pub open spec fn stands(line: Seq<char>, column: int, s: Seq<char>) -> bool {
    0 <= column && column + s.len() <= line.len() && line.subrange(column, column + s.len()) == s
}

/// A size is shown as it is written, without the spaces.
pub proof fn law_sizes_lack_spaces(bytes: u64)
    ensures
        ui::bytes_text(bytes) == ui::size_text(bytes).filter(|c: char| c != ' '),
{
    assert(ui::bytes_text(bytes) =~= ui::size_text(bytes).filter(|c: char| c != ' '));
}

/// A text that is too long keeps its first characters, one less than asked, and gets an ellipsis.
pub proof fn law_truncated_keeps_the_front(s: Seq<char>, max: nat)
    ensures
        s.len() <= max ==> ui::truncated(s, max) == s,
        s.len() > max && max > 0 ==> ui::truncated(s, max) == s.take(max - 1) + seq!['…'],
        s.len() > max && max == 0 ==> ui::truncated(s, max) == seq!['…'],
{
    assert(s.take(max - 1).push('…') =~= s.take(max - 1) + seq!['…']);
    assert(s.take(0).push('…') =~= seq!['…']);
}

/// Where the columns start.
proof fn lemma_columns(
    name: Seq<char>,
    mount: Seq<char>,
    fs: Seq<char>,
    total: Seq<char>,
    used: Seq<char>,
    free: Seq<char>,
)
    requires
        name.len() <= 15,
        mount.len() <= 15,
        fs.len() <= 10,
        total.len() <= 10,
        used.len() <= 10,
    ensures
        ({
            let line = ui::columns(name, mount, fs, total, used, free);
            &&& stands(line, 0, name)
            &&& stands(line, 16, mount)
            &&& stands(line, 32, fs)
            &&& stands(line, 43, total)
            &&& stands(line, 54, used)
            &&& stands(line, 65, free)
            &&& free.len() <= 10 ==> line.len() == 76
        }),
{
    reveal_strlit(" ");
    let line = ui::columns(name, mount, fs, total, used, free);
    let a = text::left_aligned(name, 15);
    let b = text::left_aligned(mount, 15);
    let c = text::left_aligned(fs, 10);
    let d = text::left_aligned(total, 10);
    let e = text::left_aligned(used, 10);
    let f = text::left_aligned(free, 10);
    let ab = a + " "@ + b;
    let abc = ab + " "@ + c;
    let abcd = abc + " "@ + d;
    let abcde = abcd + " "@ + e;
    assert(ab.len() == 31);
    assert(abc.len() == 42);
    assert(abcd.len() == 53);
    assert(abcde.len() == 64);
    assert(line =~= abcde + " "@ + f + " "@);
    assert(line.subrange(65, 65int + free.len()) =~= free);
    assert forall|i: int| 0 <= i < 64 implies #[trigger] line[i] == abcde[i] by {}
    assert(line.subrange(54, 54int + used.len()) =~= used);
    assert forall|i: int| 0 <= i < 53 implies #[trigger] line[i] == abcd[i] by {
        assert(line[i] == abcde[i]);
    }
    assert(line.subrange(43, 43int + total.len()) =~= total);
    assert forall|i: int| 0 <= i < 42 implies #[trigger] line[i] == abc[i] by {
        assert(line[i] == abcd[i]);
    }
    assert(line.subrange(32, 32int + fs.len()) =~= fs);
    assert forall|i: int| 0 <= i < 31 implies #[trigger] line[i] == ab[i] by {
        assert(line[i] == abc[i]);
    }
    assert(line.subrange(16, 16int + mount.len()) =~= mount);
    assert(line.subrange(0, name.len() as int) =~= name);
}

/// The table has a head, a rule and a row for each disk, as they come. In every row the name, the
/// mount point, the file system, the whole, the used and the available space stand right below their
/// heads, where the sizes are no longer than their columns; names that are too long are cut.
pub proof fn law_columns_stand_below_their_heads(
    disks: Seq<disk::Info>,
    usages: Seq<Usage>,
    i: int,
)
    requires
        disks.len() == usages.len(),
        0 <= i < disks.len(),
        ui::bytes_text(disks[i].total).len() <= 10,
        ui::bytes_text(disks[i].used).len() <= 10,
    ensures
        ({
            let table = ui::table(disks, usages);
            let head = table[0][0].0;
            let row = table[i + 2][0].0;
            &&& table.len() == disks.len() + 2
            &&& stands(head, 0, "Name"@) && stands(row, 0, ui::truncated(disks[i].name, 14))
            &&& stands(head, 16, "Mount"@) && stands(
                row,
                16,
                ui::truncated(disks[i].mount_point, 14),
            )
            &&& stands(head, 32, "FS"@) && stands(row, 32, ui::truncated(disks[i].fs, 9))
            &&& stands(head, 43, "Total"@) && stands(row, 43, ui::bytes_text(disks[i].total))
            &&& stands(head, 54, "Used"@) && stands(row, 54, ui::bytes_text(disks[i].used))
            &&& stands(head, 65, "Free"@) && stands(row, 65, ui::bytes_text(disks[i].available))
            &&& stands(head, 76, "Usage Bar"@)
        }),
{
    reveal_strlit("Name");
    reveal_strlit("Mount");
    reveal_strlit("FS");
    reveal_strlit("Total");
    reveal_strlit("Used");
    reveal_strlit("Free");
    let table = ui::table(disks, usages);
    let d = disks[i];
    let front = ui::columns("Name"@, "Mount"@, "FS"@, "Total"@, "Used"@, "Free"@);
    let head = table[0][0].0;
    lemma_columns("Name"@, "Mount"@, "FS"@, "Total"@, "Used"@, "Free"@);
    assert(head == front + "Usage Bar"@);
    lemma_stands_in_front(front, "Usage Bar"@, 0, "Name"@);
    lemma_stands_in_front(front, "Usage Bar"@, 16, "Mount"@);
    lemma_stands_in_front(front, "Usage Bar"@, 32, "FS"@);
    lemma_stands_in_front(front, "Usage Bar"@, 43, "Total"@);
    lemma_stands_in_front(front, "Usage Bar"@, 54, "Used"@);
    lemma_stands_in_front(front, "Usage Bar"@, 65, "Free"@);
    assert(head.subrange(76, 76int + "Usage Bar"@.len()) =~= "Usage Bar"@);
    lemma_columns(
        ui::truncated(d.name, 14),
        ui::truncated(d.mount_point, 14),
        ui::truncated(d.fs, 9),
        ui::bytes_text(d.total),
        ui::bytes_text(d.used),
        ui::bytes_text(d.available),
    );
    assert(table[i + 2] == ui::disk_line(d, usages[i]));
    assert(table[i + 2][0] == style::plain(ui::disk_columns(d)));
}

/// What stands in a text stands in it with more behind.
proof fn lemma_stands_in_front(line: Seq<char>, more: Seq<char>, column: int, s: Seq<char>)
    requires
        stands(line, column, s),
    ensures
        stands(line + more, column, s),
{
    assert((line + more).subrange(column, column + s.len()) =~= line.subrange(
        column,
        column + s.len(),
    ));
}

/// Behind the columns of a disk comes its bar: a bracket, the filled cells in their colours from the
/// left, the cells that are left up to a length of thirty, and a bracket; then the share in percent.
pub proof fn law_bar_is_filled_from_the_left(disks: Seq<disk::Info>, usages: Seq<Usage>, i: int)
    requires
        disks.len() == usages.len(),
        0 <= i < disks.len(),
        usages[i].fill@.len() <= 30,
    ensures
        ({
            let row = ui::table(disks, usages)[i + 2];
            let fill = usages[i].fill@;
            let gray = Style { fg: Some(Color::DarkGray), bg: None, bold: false, dimmed: false };
            &&& row.len() == 35
            &&& row[1] == ("["@, gray)
            &&& row[32] == ("]"@, gray)
            &&& forall|k: int|
                0 <= k < fill.len() ==> #[trigger] row[k + 2] == (
                    "━"@,
                    Style { fg: Some(fill[k]), bg: None, bold: false, dimmed: false },
                )
            &&& forall|k: int|
                fill.len() <= k < 30 ==> #[trigger] row[k + 2] == (
                    "─"@,
                    Style {
                        fg: Some(Color::Rgb(60, 60, 60)),
                        bg: None,
                        bold: false,
                        dimmed: false,
                    },
                )
            &&& row[33].0 == " "@
            &&& row[34] == (usages[i].percent.text@, usages[i].percent.style)
        }),
{
    let row = ui::table(disks, usages)[i + 2];
    let u = usages[i];
    let bar = ui::bar_spans(u.fill@);
    assert(row == ui::disk_line(disks[i], u));
    assert(bar.len() == 32);
    assert forall|k: int| 0 <= k < 32 implies #[trigger] row[k + 1] == bar[k] by {}
    assert(row[0int + 1] == bar[0]);
    assert(row[31int + 1] == bar[31]);
    assert forall|k: int| 0 <= k < u.fill@.len() implies #[trigger] row[k + 2] == (
        "━"@,
        Style { fg: Some(u.fill@[k]), bg: None, bold: false, dimmed: false },
    ) by {
        assert(row[(k + 1) + 1] == bar[k + 1]);
    }
    assert forall|k: int| u.fill@.len() <= k < 30 implies #[trigger] row[k + 2] == (
        "─"@,
        Style { fg: Some(Color::Rgb(60, 60, 60)), bg: None, bold: false, dimmed: false },
    ) by {
        assert(row[(k + 1) + 1] == bar[k + 1]);
    }
}

/// Below the head is a rule of hyphens.
pub proof fn law_rule_below_the_head(disks: Seq<disk::Info>, usages: Seq<Usage>)
    ensures
        ({
            let rule = ui::table(disks, usages)[1][0].0;
            rule.len() == 105 && forall|k: int| 0 <= k < 105 ==> #[trigger] rule[k] == '-'
        }),
{
}

} // verus!
