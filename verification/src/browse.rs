//! The directory browser: where it is, what it shows, and what the keys do.

use vstd::prelude::*;

use crate::input::Key;
use crate::layout;
use crate::layout::{Constraint, Direction, Rect};
use crate::number;
use crate::path;
use crate::scan;
use crate::scan::FileEntry;
use crate::style;
use crate::style::{Color, Line, Style};
use crate::text;
use crate::ui;
use crate::width;

verus! {

/// The least width of the column of the names.
pub const NAME_WIDTH_MIN: usize = 1;

/// The greatest width of the column of the names.
pub const NAME_WIDTH_MAX: usize = 40;

/// The state of the browser.
#[derive(Debug)]
pub struct App {
    /// The directory that is shown, or about to be.
    pub target: Vec<u8>,
    /// The directory in which the browser was started; there is no way up from it.
    pub root: Vec<u8>,
    pub entries: Vec<FileEntry>,
    pub selected: usize,
    /// Whether the directory is still being scanned.
    pub loading: bool,
}

/// What became of a scan.
#[derive(Debug)]
pub enum Scan {
    /// It is not done yet.
    Pending,
    Done(Vec<FileEntry>),
    /// It ended without a result.
    Lost,
}

/// What is to be done after a key.
#[derive(Clone, Copy, Debug, PartialEq, Eq, Structural)]
pub enum Action {
    Stay,
    Quit,
    /// Scan the directory that is now the target.
    Scan,
}

/// What stands in the middle of the screen.
#[derive(Debug)]
pub enum Body {
    /// A note, centred.
    Note(String),
    /// The entries, one to a line.
    Rows(Vec<String>),
}

/// What the browser's state holds.
pub struct State {
    pub target: Seq<u8>,
    pub root: Seq<u8>,
    pub entries: Seq<scan::Entry>,
    pub selected: int,
    pub loading: bool,
}

impl View for App {
    type V = State;

    open spec fn view(&self) -> State {
        State {
            target: self.target@,
            root: self.root@,
            entries: scan::entries_of(self.entries@),
            selected: self.selected as int,
            loading: self.loading,
        }
    }
}

impl State {
    /// What holds of every state: the entry that is selected is there, and while a directory is
    /// scanned there are no entries.
    pub open spec fn wf(self) -> bool {
        &&& self.selected == 0 || 0 <= self.selected < self.entries.len()
        &&& self.loading ==> self.entries.len() == 0
    }

    /// The state in which the scan of a directory starts.
    pub open spec fn at(self, target: Seq<u8>) -> State {
        State { target, root: self.root, entries: Seq::empty(), selected: 0, loading: true }
    }

    /// The state after the cursor is moved, from one end over to the other.
    pub open spec fn moved(self, delta: int) -> State {
        if self.entries.len() == 0 {
            self
        } else {
            State { selected: (self.selected + delta) % (self.entries.len() as int), ..self }
        }
    }

    /// Whether there is a directory to go into.
    pub open spec fn can_descend(self) -> bool {
        &&& !self.loading
        &&& 0 <= self.selected < self.entries.len()
        &&& self.entries[self.selected].is_dir
    }

    /// The state after going into the directory that is selected.
    pub open spec fn descended(self) -> State {
        if self.can_descend() {
            self.at(self.entries[self.selected].path)
        } else {
            self
        }
    }

    /// Whether there is a way up: the browser is not where it was started.
    pub open spec fn can_ascend(self) -> bool {
        path::components(self.target) != path::components(self.root) && path::parent_of(
            self.target,
        ) is Some
    }

    /// The state after going up.
    pub open spec fn ascended(self) -> State {
        if self.can_ascend() {
            self.at(path::parent_of(self.target)->0)
        } else {
            self
        }
    }

    /// Whether the entries are those of the directory that is shown.
    pub open spec fn shows_children(self) -> bool {
        forall|i: int|
            0 <= i < self.entries.len() ==> is_child(self.target, #[trigger] self.entries[i])
    }

    /// The sizes of the entries together.
    pub open spec fn total_size(self) -> nat {
        sum_of(self.entries)
    }
}

/// Whether an entry is one of a directory.
pub open spec fn is_child(dir: Seq<u8>, e: scan::Entry) -> bool {
    exists|name: Seq<u8>| path::is_name(name) && e.path == #[trigger] path::joined(dir, name)
}

/// The sizes of entries together.
pub open spec fn sum_of(entries: Seq<scan::Entry>) -> nat
    decreases entries.len(),
{
    if entries.len() == 0 {
        0
    } else {
        sum_of(entries.drop_last()) + entries.last().size as nat
    }
}

/// Whether a key closes the browser.
pub open spec fn quits(key: Key, ctrl: bool) -> bool {
    key == Key::Char('q') || key == Key::Char('c') && ctrl
}

/// Whether a key goes up.
pub open spec fn goes_up(key: Key) -> bool {
    key == Key::Esc || key == Key::Backspace || key == Key::Left
}

/// Whether a key goes into a directory.
pub open spec fn goes_in(key: Key) -> bool {
    key == Key::Enter || key == Key::Right
}

/// By how much a key moves the cursor.
pub open spec fn cursor_step(key: Key) -> Option<int> {
    match key {
        Key::Down => Some(1),
        Key::Char('j') => Some(1),
        Key::Up => Some(-1),
        Key::Char('k') => Some(-1),
        _ => None,
    }
}

/// The name of an entry as it is shown: that of a directory ends in a slash.
pub open spec fn name_of(e: scan::Entry) -> Seq<char> {
    if e.is_dir {
        e.name.push('/')
    } else {
        e.name
    }
}

/// The width of the column of the names.
pub open spec fn column_width(entries: Seq<scan::Entry>) -> nat {
    let widest = width::widest_of(entries.map_values(|e: scan::Entry| width::display_width(name_of(e))));
    if widest < NAME_WIDTH_MIN {
        NAME_WIDTH_MIN as nat
    } else if widest > NAME_WIDTH_MAX {
        NAME_WIDTH_MAX as nat
    } else {
        widest
    }
}

/// The first characters of a name with an ellipsis behind them.
pub open spec fn shortened(name: Seq<char>, n: int) -> Seq<char> {
    name.take(n) + "…"@
}

/// How much room the first characters of a name, up to `n` of them, take with an ellipsis.
pub open spec fn shortened_widths(name: Seq<char>, n: nat) -> Seq<usize> {
    Seq::new(n + 1, |k: int| width::display_width(shortened(name, k)))
}

/// The room that an ellipsis leaves in the column.
pub open spec fn room_beside(column: nat) -> nat {
    if column > 0 {
        (column - 1) as nat
    } else {
        0
    }
}

/// How many characters of a name are left where it is wider than the column: those that leave room
/// for the ellipsis, or fewer where these take more room as a text. None where there is no room for
/// the ellipsis either.
pub open spec fn kept(name: Seq<char>, column: nat) -> Option<int> {
    let most = width::cut(name, room_beside(column)).len();
    width::last_within(shortened_widths(name, most), column)
}

/// A name cut to the width of the column, with an ellipsis where it is wider.
pub open spec fn cut_name(name: Seq<char>, column: nat) -> Seq<char> {
    if width::display_width(name) > column {
        abridged(name, column)
    } else {
        name
    }
}

/// A name that is wider than the column, cut to it.
pub open spec fn abridged(name: Seq<char>, column: nat) -> Seq<char> {
    match kept(name, column) {
        Some(n) => shortened(name, n),
        None => Seq::empty(),
    }
}

/// The line of an entry: the name in its column, then the size.
pub open spec fn row(name: Seq<char>, name_width: nat, column: nat, size: Seq<char>) -> Seq<char> {
    "  "@ + name + text::spaces((column - name_width) as nat) + "  "@ + text::right_aligned(size, 10)
}

/// The line of an entry.
pub open spec fn entry_row(e: scan::Entry, column: nat) -> Seq<char> {
    let name = cut_name(name_of(e), column);
    row(name, width::display_width(name) as nat, column, ui::bytes_text(e.size))
}

/// The line at the bottom.
pub open spec fn footer_text(loading: bool, count: nat, size: Seq<char>) -> Seq<char> {
    if loading {
        "[Esc] 取消  [q] 退出"@
    } else {
        number::decimal(count) + " 项 · 合计 "@ + text::right_aligned(size, 8)
            + "     [↑↓/jk]移动  [Enter]进入  [Esc]返回  [q]退出"@
    }
}

impl App {
    /// The browser as it starts: in the given directory, or in the one that holds the given file.
    pub fn new(start: Vec<u8>, is_dir: bool) -> (app: App)
        ensures
            app@.wf(),
            app@.target == if !is_dir && path::parent_of(start@) is Some {
                path::parent_of(start@)->0
            } else {
                start@
            },
            app@.root == app@.target,
            app@ == app@.at(app@.target),
    {
        let target: Vec<u8> = if is_dir {
            start
        } else {
            match path::parent(start.as_slice()) {
                Some(p) => path::copy_of(p),
                None => path::copy_of(start.as_slice()),
            }
        };
        let root: Vec<u8> = path::copy_of(target.as_slice());
        let app = App { target, root, entries: Vec::new(), selected: 0, loading: true };
        assert(scan::entries_of(app.entries@) =~= Seq::<scan::Entry>::empty());
        app
    }

    /// Starts anew with the target that is set.
    fn start_scan(&mut self)
        ensures
            final(self)@ == old(self)@.at(old(self)@.target),
    {
        self.loading = true;
        self.entries = Vec::new();
        self.selected = 0;
        assert(scan::entries_of(self.entries@) =~= Seq::<scan::Entry>::empty());
    }

    /// Takes the result of the scan, if one is awaited.
    pub fn poll_result(&mut self, scan: Scan)
        requires
            old(self)@.wf(),
        ensures
            final(self)@.wf(),
            match scan {
                Scan::Done(entries) if old(self)@.loading => final(self)@ == (State {
                    entries: scan::entries_of(entries@),
                    loading: false,
                    ..old(self)@
                }),
                Scan::Lost => final(self)@ == (State { loading: false, ..old(self)@ }),
                _ => final(self)@ == old(self)@,
            },
    {
        if !self.loading {
            return ;
        }
        match scan {
            Scan::Done(entries) => {
                self.entries = entries;
                self.loading = false;
            },
            Scan::Pending => {},
            Scan::Lost => {
                self.loading = false;
            },
        }
    }

    /// Moves the cursor, from one end over to the other.
    pub fn move_cursor(&mut self, delta: isize)
        requires
            old(self)@.wf(),
            old(self)@.entries.len() <= isize::MAX,
            isize::MIN <= old(self)@.selected + delta <= isize::MAX,
        ensures
            final(self)@.wf(),
            final(self)@ == old(self)@.moved(delta as int),
    {
        if self.entries.len() == 0 {
            return ;
        }
        let len: isize = self.entries.len() as isize;
        let moved: isize = self.selected as isize + delta;
        if let Some(at) = moved.checked_rem_euclid(len) {
            self.selected = at as usize;
        }
    }

    /// Goes into the directory that is selected; says whether it is to be scanned.
    pub fn descend(&mut self) -> (scans: bool)
        requires
            old(self)@.wf(),
        ensures
            final(self)@.wf(),
            scans == old(self)@.can_descend(),
            final(self)@ == old(self)@.descended(),
    {
        if self.loading || self.selected >= self.entries.len() {
            return false;
        }
        let entry: &FileEntry = &self.entries[self.selected];
        assert(self@.entries[self.selected as int] == entry@);
        if entry.is_dir {
            self.target = path::copy_of(entry.path.as_slice());
            self.start_scan();
            true
        } else {
            false
        }
    }

    /// Goes up, but not from where the browser was started; says whether there is something to scan.
    pub fn ascend(&mut self) -> (scans: bool)
        requires
            old(self)@.wf(),
        ensures
            final(self)@.wf(),
            scans == old(self)@.can_ascend(),
            final(self)@ == old(self)@.ascended(),
    {
        if path::same_path(self.target.as_slice(), self.root.as_slice()) {
            return false;
        }
        let parent: Option<Vec<u8>> = match path::parent(self.target.as_slice()) {
            Some(p) => Some(path::copy_of(p)),
            None => None,
        };
        match parent {
            Some(p) => {
                self.target = p;
                self.start_scan();
                true
            },
            None => false,
        }
    }

    /// Acts on a key.
    pub fn handle_key(&mut self, key: Key, ctrl: bool) -> (action: Action)
        requires
            old(self)@.wf(),
            old(self)@.entries.len() <= isize::MAX,
        ensures
            final(self)@.wf(),
            action == if quits(key, ctrl) {
                Action::Quit
            } else if goes_up(key) && old(self)@.can_ascend() || goes_in(key)
                && old(self)@.can_descend() {
                Action::Scan
            } else {
                Action::Stay
            },
            final(self)@ == if goes_up(key) {
                old(self)@.ascended()
            } else if goes_in(key) {
                old(self)@.descended()
            } else if cursor_step(key) is Some {
                old(self)@.moved(cursor_step(key)->0)
            } else {
                old(self)@
            },
    {
        let scans: bool = match key {
            Key::Char('q') => {
                return Action::Quit;
            },
            Key::Char('c') => {
                if ctrl {
                    return Action::Quit;
                }
                false
            },
            Key::Esc | Key::Backspace | Key::Left => self.ascend(),
            Key::Enter | Key::Right => self.descend(),
            Key::Down | Key::Char('j') => {
                self.move_cursor(1);
                false
            },
            Key::Up | Key::Char('k') => {
                self.move_cursor(-1);
                false
            },
            _ => false,
        };
        if scans {
            Action::Scan
        } else {
            Action::Stay
        }
    }

    /// What stands in the middle of the screen. Every name fits into the column, so that the sizes
    /// line up.
    pub fn body(&self) -> (r: Body)
        ensures
            match r {
                Body::Note(s) => self@.loading && s@ == "正在扫描占用，请稍候…"@ || !self@.loading
                    && self@.entries.len() == 0 && s@ == "(目录为空或无法读取)"@,
                Body::Rows(rows) => {
                    &&& !self@.loading && self@.entries.len() > 0
                    &&& text::texts(rows@) == self@.entries.map_values(
                        |e: scan::Entry| entry_row(e, column_width(self@.entries)),
                    )
                    &&& forall|i: int|
                        0 <= i < self@.entries.len() ==> width::display_width(
                            cut_name(
                                name_of(#[trigger] self@.entries[i]),
                                column_width(self@.entries),
                            ),
                        ) <= column_width(self@.entries)
                },
            },
    {
        if self.loading {
            return Body::Note("正在扫描占用，请稍候…".to_string());
        }
        if self.entries.len() == 0 {
            return Body::Note("(目录为空或无法读取)".to_string());
        }
        let column: usize = name_width(&self.entries);
        let ghost all = self@.entries;
        let ghost full = all.map_values(|e: scan::Entry| entry_row(e, column as nat));
        let mut rows: Vec<String> = Vec::new();
        for i in 0..self.entries.len()
            invariant
                all == scan::entries_of(self.entries@),
                full == all.map_values(|e: scan::Entry| entry_row(e, column as nat)),
                text::texts(rows@) == full.take(i as int),
                forall|j: int|
                    0 <= j < i ==> width::display_width(
                        cut_name(name_of(#[trigger] all[j]), column as nat),
                    ) <= column,
        {
            assert(all[i as int] == self.entries@[i as int]@);
            let s: String = render_entry(&self.entries[i], column);
            let ghost before = text::texts(rows@);
            rows.push(s);
            assert(text::texts(rows@) =~= before.push(s@));
            assert(full.take(i + 1) =~= before.push(full[i as int]));
        }
        assert(full.take(all.len() as int) =~= full);
        Body::Rows(rows)
    }

    /// The line at the bottom; none where the sizes do not add up to a number of 64 bits.
    pub fn footer(&self) -> (r: Option<String>)
        ensures
            r is None <==> !self@.loading && self@.total_size() > u64::MAX,
            r matches Some(s) ==> s@ == footer_text(
                self@.loading,
                self@.entries.len(),
                ui::bytes_text(self@.total_size() as u64),
            ),
    {
        if self.loading {
            return Some("[Esc] 取消  [q] 退出".to_string());
        }
        match add_sizes(&self.entries) {
            None => None,
            Some(total) => {
                let mut s = String::new();
                number::append_decimal(&mut s, self.entries.len() as u64);
                s.append(" 项 · 合计 ");
                s.append(text::align_right(ui::format_bytes(total).as_str(), 8).as_str());
                s.append("     [↑↓/jk]移动  [Enter]进入  [Esc]返回  [q]退出");
                assert(s@ =~= footer_text(
                    false,
                    self@.entries.len(),
                    ui::bytes_text(self@.total_size() as u64),
                ));
                Some(s)
            },
        }
    }
}

/// Adds up the sizes of entries; none where the sum does not fit.
pub fn add_sizes(entries: &Vec<FileEntry>) -> (r: Option<u64>)
    ensures
        r is Some <==> sum_of(scan::entries_of(entries@)) <= u64::MAX,
        r matches Some(n) ==> n == sum_of(scan::entries_of(entries@)),
{
    let ghost all = scan::entries_of(entries@);
    let mut sum: u64 = 0;
    for i in 0..entries.len()
        invariant
            all == scan::entries_of(entries@),
            sum == sum_of(all.take(i as int)),
    {
        assert(all.take(i + 1).drop_last() == all.take(i as int));
        assert(all.take(i + 1).last() == entries@[i as int]@);
        proof {
            lemma_sum_grows(all, i + 1);
        }
        if entries[i].size > u64::MAX - sum {
            return None;
        }
        sum += entries[i].size;
    }
    assert(all.take(all.len() as int) == all);
    Some(sum)
}

/// A part adds up to no more than the whole.
proof fn lemma_sum_grows(entries: Seq<scan::Entry>, n: int)
    requires
        0 <= n <= entries.len(),
    ensures
        sum_of(entries.take(n)) <= sum_of(entries),
    decreases entries.len(),
{
    if n == entries.len() {
        assert(entries.take(n) == entries);
    } else {
        lemma_sum_grows(entries.drop_last(), n);
        assert(entries.drop_last().take(n) == entries.take(n));
    }
}

/// The line at the top: the directory, as text.
pub fn header(target: &str) -> (line: Line)
    ensures
        line@ == seq![
            style::plain("当前目录: "@),
            (target@, style::bold(style::colored(Color::Rgb(255, 184, 0)))),
        ],
{
    let mut line = Line::new();
    line.push_plain("当前目录: ");
    line.push(target.to_string(), Style::fg(Color::Rgb(255, 184, 0)).in_bold());
    line
}

/// The style of the entry that is selected.
pub fn highlight() -> (s: Style)
    ensures
        s == (Style { bg: Some(Color::Rgb(45, 45, 45)), ..style::unstyled() }),
{
    Style { fg: None, bg: Some(Color::Rgb(45, 45, 45)), bold: false, dimmed: false }
}

/// The sizes that are asked of the line at the top, the middle and the line at the bottom.
pub open spec fn asked_rows() -> Seq<Constraint> {
    seq![Constraint::Length(1), Constraint::Min(0), Constraint::Length(1)]
}

/// Divides the screen into the line at the top, the middle and the line at the bottom.
pub fn areas(area: Rect) -> (rows: Vec<Rect>)
    requires
        area.wf(),
    ensures
        layout::divides(rows@, Direction::Vertical, asked_rows(), area),
        area.height >= 2 ==> rows@ == seq![
            Rect { height: 1, ..area },
            Rect { y: (area.y + 1) as u16, height: (area.height - 2) as u16, ..area },
            Rect { y: (area.y + area.height - 1) as u16, height: 1, ..area },
        ],
{
    let mut asked: Vec<Constraint> = Vec::new();
    asked.push(Constraint::Length(1));
    asked.push(Constraint::Min(0));
    asked.push(Constraint::Length(1));
    assert(asked@ =~= asked_rows());
    let rows: Vec<Rect> = layout::split(Direction::Vertical, &asked, area);
    proof {
        reveal_with_fuel(layout::asked_total, 4);
        assert(asked_rows().drop_last().drop_last().drop_last() =~= Seq::<Constraint>::empty());
        assert(layout::asked_total(asked_rows()) == 2);
        if area.height >= 2 {
            assert(asked_rows()[1] is Min);
            assert(rows@ =~= seq![
                Rect { height: 1, ..area },
                Rect { y: (area.y + 1) as u16, height: (area.height - 2) as u16, ..area },
                Rect { y: (area.y + area.height - 1) as u16, height: 1, ..area },
            ]);
        }
    }
    rows
}

/// The name of an entry as it is shown.
pub fn display_name(entry: &FileEntry) -> (s: String)
    ensures
        s@ == name_of(entry@),
{
    let mut s: String = entry.name.clone();
    if entry.is_dir {
        s.push('/');
    }
    s
}

/// The cells that the name of an entry takes.
pub fn display_name_width(entry: &FileEntry) -> (w: usize)
    ensures
        w == width::display_width(name_of(entry@)),
{
    width::width_of(display_name(entry).as_str())
}

/// The width of a column that holds texts of these widths, within its bounds.
pub fn clamp_column(widths: &Vec<usize>) -> (w: usize)
    ensures
        w == if width::widest_of(widths@) < NAME_WIDTH_MIN {
            NAME_WIDTH_MIN as nat
        } else if width::widest_of(widths@) > NAME_WIDTH_MAX {
            NAME_WIDTH_MAX as nat
        } else {
            width::widest_of(widths@)
        },
{
    let widest: usize = width::widest(widths);
    if widest < NAME_WIDTH_MIN {
        NAME_WIDTH_MIN
    } else if widest > NAME_WIDTH_MAX {
        NAME_WIDTH_MAX
    } else {
        widest
    }
}

/// The width of the column of the names.
pub fn name_width(entries: &Vec<FileEntry>) -> (w: usize)
    ensures
        w == column_width(scan::entries_of(entries@)),
{
    let ghost all = scan::entries_of(entries@).map_values(
        |e: scan::Entry| width::display_width(name_of(e)),
    );
    let mut widths: Vec<usize> = Vec::new();
    for i in 0..entries.len()
        invariant
            all == scan::entries_of(entries@).map_values(
                |e: scan::Entry| width::display_width(name_of(e)),
            ),
            widths@ == all.take(i as int),
    {
        widths.push(display_name_width(&entries[i]));
        assert(all.take(i + 1) =~= all.take(i as int).push(all[i as int]));
    }
    assert(all.take(entries@.len() as int) =~= all);
    clamp_column(&widths)
}

/// Cuts a name that takes `name_width` cells to the width of the column.
pub fn cut_to_column(name: String, name_width: usize, column: usize) -> (r: String)
    ensures
        r@ == if name_width > column {
            abridged(name@, column as nat)
        } else {
            name@
        },
        name_width > column && column > 0 ==> r@.len() > 0 && r@.last() == '…',
{
    if name_width <= column {
        return name;
    }
    proof {
        reveal_strlit("…");
    }
    let chars: Vec<char> = text::chars_of(name.as_str());
    let most: usize = width::count_fitting(
        &chars,
        if column > 0 {
            column - 1
        } else {
            0
        },
    );
    let ghost all = shortened_widths(name@, most as nat);
    let mut widths: Vec<usize> = Vec::new();
    for k in 0..most
        invariant
            chars@ == name@,
            most <= chars@.len(),
            all == shortened_widths(name@, most as nat),
            widths@ == all.take(k as int),
            k > 0 ==> all[0] == 1,
    {
        widths.push(shortened_width(chars.as_slice(), k));
        assert(all.take(k + 1) =~= all.take(k as int).push(all[k as int]));
    }
    widths.push(shortened_width(chars.as_slice(), most));
    assert(widths@ =~= all);
    proof {
        width::law_last_within(all, column as nat);
        if column > 0 {
            assert(all[0] == 1);
        }
    }
    match width::find_within(&widths, column) {
        Some(k) => shorten(chars.as_slice(), k),
        None => String::new(),
    }
}

/// Puts an ellipsis behind the first characters of a name.
fn shorten(name: &[char], n: usize) -> (s: String)
    requires
        n <= name@.len(),
    ensures
        s@ == shortened(name@, n as int),
{
    let mut s: String = text::string_of(&name[0..n]);
    s.append("…");
    assert(s@ =~= shortened(name@, n as int));
    s
}

/// The cells that the first characters of a name take with an ellipsis.
fn shortened_width(name: &[char], n: usize) -> (w: usize)
    requires
        n <= name@.len(),
    ensures
        w == width::display_width(shortened(name@, n as int)),
        n == 0 ==> w == 1,
{
    let s: String = shorten(name, n);
    assert(n == 0 ==> s@ =~= "…"@);
    width::width_of(s.as_str())
}

/// Lays out the line of a name that takes `name_width` cells, and a size.
pub fn lay_out_row(name: &str, name_width: usize, column: usize, size: &str) -> (s: String)
    requires
        name_width <= column,
    ensures
        s@ == row(name@, name_width as nat, column as nat, size@),
{
    let mut s = "  ".to_string();
    s.append(name);
    text::append_spaces(&mut s, column - name_width);
    s.append("  ");
    s.append(text::align_right(size, 10).as_str());
    assert(s@ =~= row(name@, name_width as nat, column as nat, size@));
    s
}

/// Lays out the line of an entry. The name, cut where it must be, fits into the column.
pub fn render_entry(entry: &FileEntry, name_width: usize) -> (s: String)
    ensures
        s@ == entry_row(entry@, name_width as nat),
        width::display_width(cut_name(name_of(entry@), name_width as nat)) <= name_width,
{
    let name: String = display_name(entry);
    let w: usize = width::width_of(name.as_str());
    let cut: String = cut_to_column(name, w, name_width);
    let cut_width: usize = width::width_of(cut.as_str());
    proof {
        if w > name_width {
            lemma_abridged_fits(name_of(entry@), name_width as nat);
        }
    }
    lay_out_row(cut.as_str(), cut_width, name_width, ui::format_bytes(entry.size).as_str())
}

/// What is left of a name with its ellipsis fits into the column.
proof fn lemma_abridged_fits(name: Seq<char>, column: nat)
    ensures
        kept(name, column) is Some ==> width::display_width(abridged(name, column)) <= column,
{
    let all = shortened_widths(name, width::cut(name, room_beside(column)).len());
    width::law_last_within(all, column);
    if let Some(k) = kept(name, column) {
        assert(all[k] == width::display_width(shortened(name, k)));
    }
}

/// A name that fits is left as it is. Of one that does not, as many characters are left as leave room
/// for the ellipsis, wherever they take no more room as a text; else fewer, but no fewer than must
/// be.
pub proof fn law_names_are_cut_no_further(name: Seq<char>, column: nat)
    ensures
        width::display_width(name) <= column ==> cut_name(name, column) == name,
        width::display_width(name) > column ==> {
            let most = width::cut(name, room_beside(column)).len() as int;
            &&& width::display_width(shortened(name, most)) <= column ==> cut_name(name, column)
                == width::cut(name, room_beside(column)) + "…"@
            &&& kept(name, column) matches Some(n) ==> 0 <= n <= most && forall|k: int|
                n < k <= most ==> width::display_width(#[trigger] shortened(name, k)) > column
        },
{
    let room = room_beside(column);
    let most = width::cut(name, room).len();
    let all = shortened_widths(name, most);
    width::law_cut_is_longest(name, room);
    width::law_last_within(all, column);
    assert(all[most as int] == width::display_width(shortened(name, most as int)));
    if let Some(n) = kept(name, column) {
        assert forall|k: int| n < k <= most implies width::display_width(
            #[trigger] shortened(name, k),
        ) > column by {
            assert(all[k] == width::display_width(shortened(name, k)));
        }
    }
}

/// The cursor stays on an entry, wherever it is moved.
pub proof fn law_cursor_stays_on_entries(s: State, delta: int)
    requires
        s.wf(),
    ensures
        s.moved(delta).wf(),
        s.entries.len() > 0 ==> 0 <= s.moved(delta).selected < s.entries.len(),
{
}

/// From the last entry the cursor goes on to the first, and from the first back to the last.
pub proof fn law_cursor_goes_round(s: State)
    requires
        s.wf(),
        s.entries.len() > 0,
    ensures
        s.selected == s.entries.len() - 1 ==> s.moved(1).selected == 0,
        s.selected < s.entries.len() - 1 ==> s.moved(1).selected == s.selected + 1,
        s.selected == 0 ==> s.moved(-1).selected == s.entries.len() - 1,
        s.selected > 0 ==> s.moved(-1).selected == s.selected - 1,
{
    let n = s.entries.len() as int;
    vstd::arithmetic::div_mod::lemma_mod_self_0(n);
    if s.selected < n - 1 {
        vstd::arithmetic::div_mod::lemma_small_mod((s.selected + 1) as nat, n as nat);
    }
    if s.selected > 0 {
        vstd::arithmetic::div_mod::lemma_small_mod((s.selected - 1) as nat, n as nat);
    } else {
        vstd::arithmetic::div_mod::lemma_mod_add_multiples_vanish(-1, n);
        vstd::arithmetic::div_mod::lemma_small_mod((n - 1) as nat, n as nat);
    }
}

/// Moving the cursor there and back leaves it where it was.
pub proof fn law_cursor_there_and_back(s: State, delta: int)
    requires
        s.wf(),
    ensures
        s.moved(delta).moved(-delta) == s,
{
    if s.entries.len() > 0 {
        let n = s.entries.len() as int;
        vstd::arithmetic::div_mod::lemma_add_mod_noop(s.selected + delta, -delta, n);
        vstd::arithmetic::div_mod::lemma_mod_twice(s.selected + delta, n);
        vstd::arithmetic::div_mod::lemma_add_mod_noop((s.selected + delta) % n, -delta, n);
        vstd::arithmetic::div_mod::lemma_small_mod(s.selected as nat, n as nat);
    }
}

/// Going up never leads above where the browser was started.
pub proof fn law_ascend_stays_below_root(s: State)
    requires
        path::leads_to(s.root, s.target),
    ensures
        s.ascended().root == s.root,
        path::leads_to(s.ascended().root, s.ascended().target),
{
    if s.can_ascend() {
        path::law_parent_stays_below(s.root, s.target);
    }
}

/// Going into a directory stays below where the browser was started.
pub proof fn law_descend_stays_below_root(s: State)
    requires
        path::leads_to(s.root, s.target),
        s.shows_children(),
    ensures
        s.descended().root == s.root,
        path::leads_to(s.descended().root, s.descended().target),
{
    if s.can_descend() {
        let e = s.entries[s.selected];
        let name = choose|name: Seq<u8>|
            path::is_name(name) && e.path == #[trigger] path::joined(s.target, name);
        path::law_child_stays_below(s.root, s.target, name);
    }
}

/// Going into a directory and up again leads back to the directory that was shown.
pub proof fn law_descend_then_ascend(s: State)
    requires
        path::leads_to(s.root, s.target),
        s.shows_children(),
        s.can_descend(),
    ensures
        path::components(s.descended().ascended().target) == path::components(s.target),
{
    let e = s.entries[s.selected];
    let name = choose|name: Seq<u8>|
        path::is_name(name) && e.path == #[trigger] path::joined(s.target, name);
    path::law_child_components(s.target, name);
    path::law_parent_of_child(s.target, name);
    assert(path::components(e.path).len() > path::components(s.root).len());
}

/// The listing of a directory shows its children, where the system gives its items proper names.
pub proof fn law_listing_shows_children(
    s: State,
    listing: Seq<scan::Entry>,
    items: Seq<scan::Item>,
)
    requires
        scan::is_listing(listing, scan::unsorted(s.target, items)),
        forall|i: int| 0 <= i < items.len() ==> path::is_name((#[trigger] items[i]).file_name@),
    ensures
        (State { entries: listing, loading: false, ..s }).shows_children(),
{
    let all = scan::unsorted(s.target, items);
    let after = State { entries: listing, loading: false, ..s };
    scan::law_listing_is_complete(listing, all);
    assert forall|i: int| 0 <= i < after.entries.len() implies is_child(
        after.target,
        #[trigger] after.entries[i],
    ) by {
        assert(listing.contains(listing[i]));
        let k = all.index_of(listing[i]);
        let m = scan::law_entries_are_children(s.target, items, k);
        assert(path::is_name(items[m].file_name@));
        assert(after.entries[i].path == path::joined(after.target, items[m].file_name@));
    }
}

} // verus!
