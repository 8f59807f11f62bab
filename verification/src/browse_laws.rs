//! What holds of the browser's keys, and of what it shows.

use vstd::prelude::*;

use crate::browse;
use crate::browse::State;
use crate::input::Key;
use crate::number;
use crate::path;
use crate::scan;
use crate::scan::Entry;
use crate::text;
use crate::ui;
use crate::width;

verus! {

/// What the keys do: Esc, Backspace and Left go up, Enter and Right go into a directory, Down and j
/// move the cursor on, Up and k move it back, and q, or c with Ctrl, closes the browser. No other key
/// does any of that.
pub proof fn law_keys_of_the_browser(key: Key, ctrl: bool)
    ensures
        browse::goes_up(key) <==> key is Esc || key is Backspace || key is Left,
        browse::goes_in(key) <==> key is Enter || key is Right,
        browse::cursor_step(key) == Some(1int) <==> key is Down || key == Key::Char('j'),
        browse::cursor_step(key) == Some(-1int) <==> key is Up || key == Key::Char('k'),
        browse::cursor_step(key) is None || browse::cursor_step(key) == Some(1int)
            || browse::cursor_step(key) == Some(-1int),
        browse::quits(key, ctrl) <==> key == Key::Char('q') || ctrl && key == Key::Char('c'),
{
}

/// A directory that is selected is gone into: it is the one that is scanned next, from its first
/// entry on. A file is not, and nothing is while a scan is awaited.
pub proof fn law_going_in(s: State)
    ensures
        s.can_descend() <==> !s.loading && 0 <= s.selected < s.entries.len()
            && s.entries[s.selected].is_dir,
        !s.can_descend() ==> s.descended() == s,
        s.can_descend() ==> s.descended() == (State {
            target: s.entries[s.selected].path,
            root: s.root,
            entries: Seq::empty(),
            selected: 0,
            loading: true,
        }),
{
}

/// Going up leads to the parent of the directory that is shown, which is scanned next, from its first
/// entry on; but not from where the browser was started, however that path is written, nor from a
/// path without a parent.
pub proof fn law_going_up(s: State)
    ensures
        s.can_ascend() <==> path::components(s.target) != path::components(s.root)
            && path::components(s.target).len() > 0 && path::components(s.target).last()
            != path::Component::Root,
        !s.can_ascend() ==> s.ascended() == s,
        s.can_ascend() ==> {
            let up = s.ascended();
            &&& path::components(up.target) == path::components(s.target).drop_last()
            &&& up.target.is_prefix_of(s.target)
            &&& up == (State {
                target: up.target,
                root: s.root,
                entries: Seq::empty(),
                selected: 0,
                loading: true,
            })
        },
{
    path::law_parent_drops_last_component(s.target);
}

/// The cursor goes by one entry and changes nothing else; without entries it stays.
pub proof fn law_cursor_moves_alone(s: State, delta: int)
    ensures
        s.entries.len() == 0 ==> s.moved(delta) == s,
        s.moved(delta) == (State { selected: s.moved(delta).selected, ..s }),
{
}

/// The name of a directory is shown with a slash behind it, and that of a file as it is.
pub proof fn law_names_as_they_are_shown(e: Entry)
    ensures
        e.is_dir ==> browse::name_of(e) == e.name + seq!['/'],
        !e.is_dir ==> browse::name_of(e) == e.name,
{
    assert(e.name.push('/') =~= e.name + seq!['/']);
}

/// The column of the names is as wide as the widest of them, but no narrower than one cell and no
/// wider than forty.
pub proof fn law_column_of_names(entries: Seq<Entry>, i: int)
    requires
        0 <= i < entries.len(),
    ensures
        ({
            let w = browse::column_width(entries);
            &&& 1 <= w <= 40
            &&& w == 40 || width::display_width(browse::name_of(entries[i])) <= w
            &&& w == 1 || exists|k: int|
                0 <= k < entries.len() && width::display_width(
                    browse::name_of(#[trigger] entries[k]),
                ) >= w
        }),
{
    let widths = entries.map_values(|e: Entry| width::display_width(browse::name_of(e)));
    width::law_widest(widths);
    assert(widths[i] == width::display_width(browse::name_of(entries[i])));
    let k = choose|k: int|
        0 <= k < widths.len() && #[trigger] widths[k] == width::widest_of(widths);
    assert(widths[k] == width::display_width(browse::name_of(entries[k])));
}

/// Without entries the column of the names is one cell wide.
pub proof fn law_column_of_no_names()
    ensures
        browse::column_width(Seq::<Entry>::empty()) == 1,
{
    let widths = Seq::<Entry>::empty().map_values(
        |e: Entry| width::display_width(browse::name_of(e)),
    );
    width::law_widest(widths);
}

/// The line of an entry: two spaces, its name with spaces up to the width of the column, two spaces
/// more, and its size in the last ten places.
pub proof fn law_line_of_an_entry(e: Entry, column: nat)
    requires
        width::display_width(browse::cut_name(browse::name_of(e), column)) <= column,
        ui::bytes_text(e.size).len() <= 10,
    ensures
        ({
            let name = browse::cut_name(browse::name_of(e), column);
            let size = ui::bytes_text(e.size);
            let line = browse::entry_row(e, column);
            let gap = column - width::display_width(name);
            &&& line.len() == 2 + name.len() + gap + 2 + 10
            &&& line.subrange(2, 2int + name.len()) == name
            &&& line.skip(line.len() - size.len()) == size
            &&& forall|i: int| 0 <= i < 2 ==> #[trigger] line[i] == ' '
            &&& forall|i: int|
                2 + name.len() <= i < line.len() - size.len() ==> #[trigger] line[i] == ' '
        }),
{
    reveal_strlit("  ");
    let name = browse::cut_name(browse::name_of(e), column);
    let size = ui::bytes_text(e.size);
    let line = browse::entry_row(e, column);
    assert(line.subrange(2, 2int + name.len()) =~= name);
    assert(line.skip(line.len() - size.len()) =~= size);
}

/// The line at the bottom tells how many entries there are and how much space they take together.
pub proof fn law_line_at_the_bottom(count: nat, size: Seq<char>)
    ensures
        browse::footer_text(true, count, size) == "[Esc] 取消  [q] 退出"@,
        browse::footer_text(false, count, size) == number::decimal(count) + " 项 · 合计 "@
            + text::right_aligned(size, 8)
            + "     [↑↓/jk]移动  [Enter]进入  [Esc]返回  [q]退出"@,
{
}

/// The space that entries take together grows by that of each of them.
pub proof fn law_sizes_add_up(entries: Seq<Entry>, e: Entry)
    ensures
        browse::sum_of(Seq::<Entry>::empty()) == 0,
        browse::sum_of(entries.push(e)) == browse::sum_of(entries) + e.size,
{
    assert(entries.push(e).drop_last() =~= entries);
}

/// The state of the browser is what its fields hold.
pub proof fn law_state_of_the_browser(app: browse::App, i: int)
    requires
        0 <= i < app.entries@.len(),
    ensures
        app@.target == app.target@,
        app@.root == app.root@,
        app@.selected == app.selected,
        app@.loading == app.loading,
        app@.entries.len() == app.entries@.len(),
        app@.entries[i].name == app.entries@[i].name@,
        app@.entries[i].path == app.entries@[i].path@,
        app@.entries[i].is_dir == app.entries@[i].is_dir,
        app@.entries[i].size == app.entries@[i].size,
        app@.total_size() == browse::sum_of(scan::entries_of(app.entries@)),
{
}

/// A name that fits into the column is left as it is. Of another the first characters are left that
/// leave one cell for the ellipsis, or fewer, as long as the whole is too wide as a text; the ellipsis
/// comes behind them.
pub proof fn law_names_are_cut_to_their_column(name: Seq<char>, column: nat, most: int, k: int)
    requires
        column > 0,
        0 <= k <= most <= name.len(),
        width::total(width::widths_of(name.take(most))) <= column - 1,
        most < name.len() ==> width::total(width::widths_of(name.take(most + 1))) > column - 1,
        width::display_width(name.take(k) + "…"@) <= column,
        forall|m: int|
            k < m <= most ==> width::display_width(#[trigger] name.take(m) + "…"@) > column,
    ensures
        width::display_width(name) <= column ==> browse::cut_name(name, column) == name,
        width::display_width(name) > column ==> browse::cut_name(name, column) == name.take(k)
            + "…"@,
{
    let room = (column - 1) as nat;
    width::law_cut_is_where_the_room_ends(name, room, most);
    let all = browse::shortened_widths(name, most as nat);
    width::law_last_within(all, column);
    assert(all[k] == width::display_width(browse::shortened(name, k)));
    if let Some(n) = browse::kept(name, column) {
        if n < k {
            assert(all[k] > column);
        } else if k < n {
            assert(all[n] == width::display_width(browse::shortened(name, n)));
            assert(width::display_width(name.take(n) + "…"@) > column);
        }
    }
}

} // verus!
