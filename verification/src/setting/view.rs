//! How the settings screen looks.

use vstd::prelude::*;

use crate::layout;
use crate::layout::{Constraint, Direction, Rect};
use crate::number;
use crate::setting;
use crate::setting::App;
use crate::style;
use crate::style::{Color, Line, Style};

verus! {

/// The areas of one slider.
#[derive(Clone, Copy, Debug, PartialEq, Eq, Structural)]
pub struct SliderAreas {
    pub label: Rect,
    pub bar: Rect,
    pub value: Rect,
}

/// The areas of the screen.
#[derive(Clone, Copy, Debug)]
pub struct Areas {
    pub title: Rect,
    pub sliders: [SliderAreas; 3],
    pub footer: Rect,
}

/// The text of one slider.
#[derive(Debug)]
pub struct SliderLines {
    pub label: Line,
    pub bar: Line,
    pub value: Line,
}

/// The colour of the slider in focus.
pub open spec fn accent() -> Color {
    Color::Rgb(255, 184, 0)
}

/// The colour of the part of a bar that is not filled.
pub open spec fn track() -> Color {
    Color::Rgb(60, 60, 60)
}

/// The label of a slider.
pub open spec fn label_of(slider: int) -> Seq<char> {
    if slider == 0 {
        "亮度"@
    } else if slider == 1 {
        "熄屏时间"@
    } else {
        "睡眠时间"@
    }
}

impl App {
    /// Whether a slider can be moved.
    pub open spec fn enabled(self, slider: int) -> bool {
        slider != 0 || self.brightness is Some
    }

    /// The style of a slider's label and value.
    pub open spec fn slider_style(self, slider: int) -> Style {
        if !self.enabled(slider) {
            style::colored(Color::DarkGray)
        } else if self.focus == slider {
            style::bold(style::colored(accent()))
        } else {
            style::colored(Color::Gray)
        }
    }

    /// The value of a slider as it is shown; the brightness is given in percent.
    pub open spec fn value_text(self, slider: int, percent: nat) -> Seq<char> {
        if slider == 0 {
            number::decimal(percent) + "%"@
        } else if slider == 1 {
            setting::minutes_text(self.screen_off_min as nat)
        } else {
            setting::minutes_text(self.sleep_min as nat)
        }
    }

    /// One cell of a slider's bar: a line in grey if the slider cannot be moved, else filled as far
    /// as there are colours.
    pub open spec fn bar_cell(self, slider: int, fill: Seq<Color>, i: int) -> (Seq<char>, Style) {
        if !self.enabled(slider) {
            ("─"@, style::colored(Color::DarkGray))
        } else if i < fill.len() {
            ("━"@, style::colored(fill[i]))
        } else {
            ("─"@, style::colored(track()))
        }
    }

    /// Divides the screen, and keeps in mind where the bars are.
    pub fn place(&mut self, area: Rect) -> (areas: Areas)
        requires
            old(self).wf(),
            area.wf(),
        ensures
            final(self).wf(),
            exists|rows: Seq<Rect>| #[trigger]
                layout::divides(rows, Direction::Vertical, asked_rows(), area) && areas.title
                    == rows[0] && areas.footer == rows[5] && (forall|i: int|
                    0 <= i < 3 ==> layout::divides(
                        #[trigger] columns(areas, i),
                        Direction::Horizontal,
                        asked_columns(),
                        rows[i + 1],
                    )),
            area.height >= 7 && area.width >= 36 ==> roomy(areas, area),
            *final(self) == (App { slider_rects: final(self).slider_rects, ..*old(self) }),
            forall|i: int|
                0 <= i < 3 ==> #[trigger] final(self).slider_rects@[i] == areas.sliders@[i].bar,
    {
        let mut asked: Vec<Constraint> = Vec::new();
        asked.push(Constraint::Length(2));
        asked.push(Constraint::Length(1));
        asked.push(Constraint::Length(1));
        asked.push(Constraint::Length(1));
        asked.push(Constraint::Min(0));
        asked.push(Constraint::Length(2));
        assert(asked@ =~= asked_rows());
        let rows: Vec<Rect> = layout::split(Direction::Vertical, &asked, area);
        assert(rows@[1].within(area) && rows@[2].within(area) && rows@[3].within(area));
        let areas = arrange(
            &rows,
            &slider_columns(rows[1]),
            &slider_columns(rows[2]),
            &slider_columns(rows[3]),
        );
        self.keep_bars(&areas);
        assert(layout::divides(rows@, Direction::Vertical, asked_rows(), area));
        assert forall|i: int| 0 <= i < 3 implies layout::divides(
            #[trigger] columns(areas, i),
            Direction::Horizontal,
            asked_columns(),
            rows@[i + 1],
        ) by {}
        assert forall|i: int| 0 <= i < 3 implies (#[trigger] self.slider_rects@[i]).wf() by {
            assert(columns(areas, i)[1] == areas.sliders@[i].bar);
            assert(areas.sliders@[i].bar.within(rows@[i + 1]));
            assert(rows@[i + 1].within(area));
        }
        proof {
            if area.height >= 7 && area.width >= 36 {
                lemma_roomy(areas, rows@, area);
            }
        }
        areas
    }

    /// Keeps in mind where the bars are.
    pub fn keep_bars(&mut self, areas: &Areas)
        ensures
            *final(self) == (App { slider_rects: final(self).slider_rects, ..*old(self) }),
            forall|i: int|
                0 <= i < 3 ==> #[trigger] final(self).slider_rects@[i] == areas.sliders@[i].bar,
    {
        self.slider_rects = [areas.sliders[0].bar, areas.sliders[1].bar, areas.sliders[2].bar];
    }

    /// The text of a slider whose bar is `width` cells wide and filled with the given colours from
    /// the left.
    pub fn slider(&self, slider: usize, width: usize, fill: &Vec<Color>, percent: u32) -> (lines:
        SliderLines)
        requires
            slider < 3,
        ensures
            lines.label@ == seq![
                (
                    if self.focus == slider {
                        "▸ "@
                    } else {
                        "  "@
                    },
                    self.slider_style(slider as int),
                ),
                (label_of(slider as int), self.slider_style(slider as int)),
            ],
            lines.bar@ == Seq::new(
                width as nat,
                |i: int| self.bar_cell(slider as int, fill@, i),
            ),
            lines.value@ == seq![
                (
                    "  "@ + self.value_text(slider as int, percent as nat),
                    self.slider_style(slider as int),
                ),
            ],
    {
        let enabled: bool = slider != 0 || self.brightness.is_some();
        let focused: bool = self.focus == slider;
        let style: Style = if !enabled {
            Style::fg(Color::DarkGray)
        } else if focused {
            Style::fg(Color::Rgb(255, 184, 0)).in_bold()
        } else {
            Style::fg(Color::Gray)
        };
        let mut label = Line::new();
        label.push(
            (if focused {
                "▸ "
            } else {
                "  "
            }).to_string(),
            style,
        );
        label.push(
            (if slider == 0 {
                "亮度"
            } else if slider == 1 {
                "熄屏时间"
            } else {
                "睡眠时间"
            }).to_string(),
            style,
        );
        let mut bar = Line::new();
        for i in 0..width
            invariant
                slider < 3,
                enabled == self.enabled(slider as int),
                bar@ == Seq::new(i as nat, |j: int| self.bar_cell(slider as int, fill@, j)),
        {
            if !enabled {
                bar.push("─".to_string(), Style::fg(Color::DarkGray));
            } else if i < fill.len() {
                bar.push("━".to_string(), Style::fg(fill[i]));
            } else {
                bar.push("─".to_string(), Style::fg(Color::Rgb(60, 60, 60)));
            }
        }
        let mut text = "  ".to_string();
        if slider == 0 {
            number::append_decimal(&mut text, percent as u64);
            text.append("%");
            assert(text@ =~= "  "@ + self.value_text(0, percent as nat));
        } else if slider == 1 {
            text.append(setting::fmt_minutes(self.screen_off_min).as_str());
        } else {
            text.append(setting::fmt_minutes(self.sleep_min).as_str());
        }
        let mut value = Line::new();
        value.push(text, style);
        SliderLines { label, bar, value }
    }

    /// The two lines at the bottom: the state of affairs, and the keys.
    pub fn footer(&self) -> (lines: Vec<Line>)
        ensures
            style::shown(lines@) == seq![
                seq![
                    style::plain("  "@),
                    (
                        self.status@,
                        style::colored(
                            if self.status_is_error {
                                Color::Red
                            } else {
                                Color::Green
                            },
                        ),
                    ),
                ],
                seq![
                    style::plain("  "@),
                    (
                        "[Tab/↑↓] 切换   [←→/hl] 调整   [PgUp/PgDn] ±10   [拖动] 鼠标   [q] 退出"@,
                        style::colored(Color::DarkGray),
                    ),
                ],
            ],
    {
        let mut status = Line::new();
        status.push_plain("  ");
        status.push(
            self.status.clone(),
            Style::fg(
                if self.status_is_error {
                    Color::Red
                } else {
                    Color::Green
                },
            ),
        );
        let mut hints = Line::new();
        hints.push_plain("  ");
        hints.push(
            "[Tab/↑↓] 切换   [←→/hl] 调整   [PgUp/PgDn] ±10   [拖动] 鼠标   [q] 退出".to_string(),
            Style::fg(Color::DarkGray),
        );
        assert(status@ =~= seq![
            style::plain("  "@),
            (
                self.status@,
                style::colored(
                    if self.status_is_error {
                        Color::Red
                    } else {
                        Color::Green
                    },
                ),
            ),
        ]);
        assert(hints@ =~= seq![
            style::plain("  "@),
            (
                "[Tab/↑↓] 切换   [←→/hl] 调整   [PgUp/PgDn] ±10   [拖动] 鼠标   [q] 退出"@,
                style::colored(Color::DarkGray),
            ),
        ]);
        let mut lines: Vec<Line> = Vec::new();
        lines.push(status);
        lines.push(hints);
        assert(style::shown(lines@) =~= seq![status@, hints@]);
        lines
    }
}

/// The sizes that are asked of the rows: the title, the sliders, what is left over, and the footer.
pub open spec fn asked_rows() -> Seq<Constraint> {
    seq![
        Constraint::Length(2),
        Constraint::Length(1),
        Constraint::Length(1),
        Constraint::Length(1),
        Constraint::Min(0),
        Constraint::Length(2),
    ]
}

/// The sizes that are asked of a slider: the label, the bar and the value.
pub open spec fn asked_columns() -> Seq<Constraint> {
    seq![Constraint::Length(14), Constraint::Min(10), Constraint::Length(12)]
}

/// Where everything is on a screen with room for it.
pub open spec fn roomy(areas: Areas, area: Rect) -> bool {
    &&& areas.title == (Rect { height: 2, ..area })
    &&& areas.footer == (Rect { y: (area.y + area.height - 2) as u16, height: 2, ..area })
    &&& forall|i: int|
        0 <= i < 3 ==> {
            let y = (area.y + 2 + i) as u16;
            #[trigger] areas.sliders@[i] == (SliderAreas {
                label: Rect { x: area.x, y, width: 14, height: 1 },
                bar: Rect {
                    x: (area.x + 14) as u16,
                    y,
                    width: (area.width - 26) as u16,
                    height: 1,
                },
                value: Rect {
                    x: (area.x + area.width - 12) as u16,
                    y,
                    width: 12,
                    height: 1,
                },
            })
        }
}

/// Where there is room, everything has its place.
proof fn lemma_roomy(areas: Areas, rows: Seq<Rect>, area: Rect)
    requires
        area.wf(),
        area.height >= 7,
        area.width >= 36,
        layout::divides(rows, Direction::Vertical, asked_rows(), area),
        areas.title == rows[0],
        areas.footer == rows[5],
        forall|i: int|
            0 <= i < 3 ==> layout::divides(
                #[trigger] columns(areas, i),
                Direction::Horizontal,
                asked_columns(),
                rows[i + 1],
            ),
    ensures
        roomy(areas, area),
{
    reveal_with_fuel(layout::asked_total, 7);
    let a = asked_rows();
    assert(a.drop_last().drop_last().drop_last().drop_last().drop_last().drop_last() =~= Seq::<
        Constraint,
    >::empty());
    assert(layout::asked_total(a) == 7);
    assert(a[4] is Min);
    assert(rows[1].y == area.y + 2);
    assert(rows[2].y == area.y + 3);
    assert(rows[3].y == area.y + 4);
    assert forall|i: int| 0 <= i < 3 implies {
        let y = (area.y + 2 + i) as u16;
        #[trigger] areas.sliders@[i] == (SliderAreas {
            label: Rect { x: area.x, y, width: 14, height: 1 },
            bar: Rect { x: (area.x + 14) as u16, y, width: (area.width - 26) as u16, height: 1 },
            value: Rect { x: (area.x + area.width - 12) as u16, y, width: 12, height: 1 },
        })
    } by {
        let b = asked_columns();
        let c = columns(areas, i);
        assert(b.drop_last().drop_last().drop_last() =~= Seq::<Constraint>::empty());
        assert(layout::asked_total(b) == 36);
        assert(b[1] is Min);
        assert(rows[i + 1].height == 1);
        assert(rows[i + 1].y == area.y + 2 + i);
        assert(layout::divides(c, Direction::Horizontal, b, rows[i + 1]));
        assert(c[0] == areas.sliders@[i].label);
        assert(c[1] == areas.sliders@[i].bar);
        assert(c[2] == areas.sliders@[i].value);
    }
}

/// The areas of a slider from left to right.
pub open spec fn columns(areas: Areas, slider: int) -> Seq<Rect> {
    let a = areas.sliders@[slider];
    seq![a.label, a.bar, a.value]
}

/// The line at the top.
pub fn title() -> (line: Line)
    ensures
        line@ == seq![style::plain("  "@), ("系统设置"@, style::bold(style::colored(Color::Cyan)))],
{
    let mut line = Line::new();
    line.push_plain("  ");
    line.push("系统设置".to_string(), Style::fg(Color::Cyan).in_bold());
    line
}

/// Divides the row of a slider.
fn slider_columns(row: Rect) -> (columns: Vec<Rect>)
    requires
        row.wf(),
    ensures
        layout::divides(columns@, Direction::Horizontal, asked_columns(), row),
{
    let mut asked: Vec<Constraint> = Vec::new();
    asked.push(Constraint::Length(14));
    asked.push(Constraint::Min(10));
    asked.push(Constraint::Length(12));
    assert(asked@ =~= asked_columns());
    layout::split(Direction::Horizontal, &asked, row)
}

/// Gives the parts of the divided screen their places: the rows, and the columns of the sliders.
pub fn arrange(rows: &Vec<Rect>, first: &Vec<Rect>, second: &Vec<Rect>, third: &Vec<Rect>) -> (areas:
    Areas)
    requires
        rows@.len() == 6,
        first@.len() == 3,
        second@.len() == 3,
        third@.len() == 3,
    ensures
        areas.title == rows@[0],
        areas.footer == rows@[5],
        columns(areas, 0) == first@,
        columns(areas, 1) == second@,
        columns(areas, 2) == third@,
{
    Areas {
        title: rows[0],
        sliders: [
            SliderAreas { label: first[0], bar: first[1], value: first[2] },
            SliderAreas { label: second[0], bar: second[1], value: second[2] },
            SliderAreas { label: third[0], bar: third[1], value: third[2] },
        ],
        footer: rows[5],
    }
}

} // verus!
