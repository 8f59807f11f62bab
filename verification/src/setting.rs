//! The settings screen: brightness of the display, and the times after which the screen goes dark
//! and the machine to sleep.

use vstd::prelude::*;

use crate::input::{Key, MouseKind};
use crate::layout::Rect;
use crate::number;
use crate::text;

pub mod ddc;
pub mod ddc_laws;
pub mod idle;
pub mod idle_laws;
pub mod idle_meaning;
pub mod laws;
pub mod restart;
pub mod view;
pub mod worker;

pub use ddc::{parse_ddc_bus, parse_vcp_terse, Brightness};
pub use idle::{
    append_screen_off, parse_listeners, read_listener_secs, rewrite_idle_config,
    set_listener_timeout, Listener,
};

verus! {

/// How long the brightness rests before it is sent to the display, in nanoseconds.
pub const BRIGHT_DEBOUNCE: u128 = 120_000_000;

/// How long the times rest before they are written, in nanoseconds.
pub const TIME_DEBOUNCE: u128 = 500_000_000;

/// The least screen-off time in minutes.
pub const SCREEN_OFF_MIN: u32 = 1;

/// The greatest screen-off time in minutes.
pub const SCREEN_OFF_MAX: u32 = 240;

/// The least sleep time in minutes.
pub const SLEEP_MIN: u32 = 1;

/// The greatest sleep time in minutes.
pub const SLEEP_MAX: u32 = 720;

/// What a worker has to say.
#[derive(Debug)]
pub enum Msg {
    Info(String),
    Error(String),
}

/// The state of the settings screen. Points in time are nanoseconds since some fixed moment.
#[derive(Debug)]
pub struct App {
    /// The display; none if no display with DDC/CI was found.
    pub brightness: Option<Brightness>,
    pub bright_cur: u32,
    pub bright_max: u32,
    pub screen_off_min: u32,
    pub sleep_min: u32,
    /// The slider in focus: 0 brightness, 1 screen-off time, 2 sleep time.
    pub focus: usize,
    /// The slider that is being dragged.
    pub dragging: Option<usize>,
    /// Where the bars of the three sliders were drawn.
    pub slider_rects: [Rect; 3],
    /// When the brightness was last changed and not yet sent.
    pub bright_dirty: Option<u128>,
    /// When one of the times was last changed and not yet written.
    pub idle_dirty: Option<u128>,
    pub status: String,
    pub status_is_error: bool,
}

/// What is due to be sent to the workers.
#[derive(Clone, Copy, Debug, PartialEq, Eq)]
pub struct Due {
    /// The brightness to set.
    pub brightness: Option<u32>,
    /// The screen-off and the sleep time to write, in minutes.
    pub idle: Option<(u32, u32)>,
}

/// Where on a slider the mouse is: `rel` cells from its left end, of the `span` cells between its
/// ends.
#[derive(Clone, Copy, Debug, PartialEq, Eq, Structural)]
pub struct Grip {
    pub slider: usize,
    pub rel: u16,
    pub span: u16,
}

/// A value moved by `delta` and held between two bounds.
pub open spec fn shifted(value: int, delta: int, min: int, max: int) -> int {
    if value + delta < min {
        min
    } else if value + delta > max {
        max
    } else {
        value + delta
    }
}

/// A number of minutes as it is shown.
pub open spec fn minutes_text(minutes: nat) -> Seq<char> {
    if minutes < 60 {
        number::decimal(minutes) + " 分钟"@
    } else if minutes % 60 == 0 {
        number::decimal(minutes / 60) + " 小时"@
    } else {
        number::decimal(minutes / 60) + "小时"@ + number::decimal(minutes % 60) + "分"@
    }
}

/// Moves a value by `delta` and holds it between two bounds.
pub fn shift(value: u32, delta: i64, min: u32, max: u32) -> (r: u32)
    requires
        min <= max,
        i64::MIN <= value + delta <= i64::MAX,
    ensures
        r == shifted(value as int, delta as int, min as int, max as int),
{
    let moved: i64 = value as i64 + delta;
    if moved < min as i64 {
        min
    } else if moved > max as i64 {
        max
    } else {
        moved as u32
    }
}

/// Writes a number of minutes: below an hour as minutes, else in hours and minutes.
pub fn fmt_minutes(minutes: u32) -> (s: String)
    ensures
        s@ == minutes_text(minutes as nat),
{
    let mut s = String::new();
    if minutes < 60 {
        number::append_decimal(&mut s, minutes as u64);
        s.append(" 分钟");
        assert(s@ =~= number::decimal(minutes as nat) + " 分钟"@);
    } else {
        let h: u32 = minutes / 60;
        let m: u32 = minutes % 60;
        number::append_decimal(&mut s, h as u64);
        if m == 0 {
            s.append(" 小时");
            assert(s@ =~= number::decimal(h as nat) + " 小时"@);
        } else {
            s.append("小时");
            number::append_decimal(&mut s, m as u64);
            s.append("分");
            assert(s@ =~= number::decimal(h as nat) + "小时"@ + number::decimal(m as nat) + "分"@);
        }
    }
    s
}

/// The minutes that a configuration gives for a command, or else a default.
pub open spec fn minutes_in(config: Option<Seq<char>>, mark: Seq<char>, default: nat) -> nat {
    match config {
        Some(c) => match idle::secs_in(c, mark) {
            Some(secs) => secs / 60,
            None => default,
        },
        None => default,
    }
}

/// The text of an optional string.
pub open spec fn text_of(s: Option<&str>) -> Option<Seq<char>> {
    match s {
        Some(x) => Some(x@),
        None => None,
    }
}

/// Whether enough time went by since a change.
pub open spec fn rested(dirty: Option<u128>, wait: u128, now: u128) -> bool {
    dirty matches Some(t) && now - t >= wait
}

/// Whether a key closes the screen.
pub open spec fn quits(key: Key, ctrl: bool) -> bool {
    key == Key::Char('q') || key == Key::Esc || key == Key::Char('c') && ctrl
}

/// Whether a key puts the next slider into focus.
pub open spec fn goes_on(key: Key) -> bool {
    key == Key::Tab || key == Key::Down || key == Key::Char('j')
}

/// Whether a key puts the slider before into focus.
pub open spec fn goes_back(key: Key) -> bool {
    key == Key::BackTab || key == Key::Up || key == Key::Char('k')
}

/// By how much a key moves the value in focus.
pub open spec fn step_of(key: Key) -> Option<int> {
    match key {
        Key::Left => Some(-1),
        Key::Char('h') => Some(-1),
        Key::Right => Some(1),
        Key::Char('l') => Some(1),
        Key::PageUp => Some(-10),
        Key::PageDown => Some(10),
        _ => None,
    }
}

impl App {
    /// What holds of every state of the screen. The times in seconds are numbers of 32 bits, so
    /// that they can be written.
    pub open spec fn wf(self) -> bool {
        &&& self.bright_max >= 1
        &&& self.screen_off_min * 60 <= u32::MAX
        &&& self.sleep_min * 60 <= u32::MAX
        &&& self.focus < 3
        &&& self.dragging matches Some(i) ==> i < 3
        &&& forall|i: int| 0 <= i < 3 ==> (#[trigger] self.slider_rects@[i]).wf()
    }

    /// The state after the brightness is set.
    pub open spec fn with_brightness(self, value: u32, now: u128) -> App {
        App { bright_cur: value, bright_dirty: Some(now), ..self }
    }

    /// The state after the screen-off time is set.
    pub open spec fn with_screen_off(self, minutes: u32, now: u128) -> App {
        App { screen_off_min: minutes, idle_dirty: Some(now), ..self }
    }

    /// The state after the sleep time is set.
    pub open spec fn with_sleep(self, minutes: u32, now: u128) -> App {
        App { sleep_min: minutes, idle_dirty: Some(now), ..self }
    }

    /// The state after one slider is set to a value; the brightness is set only if there is a
    /// display.
    pub open spec fn with_value(self, slider: int, value: u32, now: u128) -> App {
        if slider == 0 && self.brightness is Some {
            self.with_brightness(value, now)
        } else if slider == 1 {
            self.with_screen_off(value, now)
        } else if slider == 2 {
            self.with_sleep(value, now)
        } else {
            self
        }
    }

    /// The value of a slider.
    pub open spec fn value(self, slider: int) -> u32 {
        if slider == 0 {
            self.bright_cur
        } else if slider == 1 {
            self.screen_off_min
        } else {
            self.sleep_min
        }
    }

    /// The least value of a slider.
    pub open spec fn least(self, slider: int) -> u32 {
        if slider == 0 {
            0
        } else if slider == 1 {
            SCREEN_OFF_MIN
        } else {
            SLEEP_MIN
        }
    }

    /// The greatest value of a slider.
    pub open spec fn greatest(self, slider: int) -> u32 {
        if slider == 0 {
            self.bright_max
        } else if slider == 1 {
            SCREEN_OFF_MAX
        } else {
            SLEEP_MAX
        }
    }

    /// The state after the slider in focus is moved by `delta`.
    pub open spec fn adjusted(self, delta: int, now: u128) -> App {
        let i = self.focus as int;
        self.with_value(
            i,
            shifted(
                self.value(i) as int,
                delta,
                self.least(i) as int,
                self.greatest(i) as int,
            ) as u32,
            now,
        )
    }

    /// The state after the slider in focus is moved to one of its ends.
    pub open spec fn at_extreme(self, high: bool, now: u128) -> App {
        let i = self.focus as int;
        self.with_value(
            i,
            if high {
                self.greatest(i)
            } else {
                self.least(i)
            },
            now,
        )
    }

    /// The state after a key.
    pub open spec fn after_key(self, key: Key, ctrl: bool, now: u128) -> App {
        if quits(key, ctrl) {
            self
        } else if goes_on(key) {
            App { focus: ((self.focus + 1) % 3) as usize, ..self }
        } else if goes_back(key) {
            App { focus: ((self.focus + 2) % 3) as usize, ..self }
        } else if step_of(key) is Some {
            self.adjusted(step_of(key)->0, now)
        } else if key == Key::Home {
            self.at_extreme(false, now)
        } else if key == Key::End {
            self.at_extreme(true, now)
        } else {
            self
        }
    }

    /// The state after what is due was taken.
    pub open spec fn flushed(self, now: u128) -> App {
        App {
            bright_dirty: if rested(self.bright_dirty, BRIGHT_DEBOUNCE, now) {
                None
            } else {
                self.bright_dirty
            },
            idle_dirty: if rested(self.idle_dirty, TIME_DEBOUNCE, now) {
                None
            } else {
                self.idle_dirty
            },
            ..self
        }
    }

    /// The slider under the mouse: the first one whose bar covers the cell, or 3 if none does.
    pub open spec fn hit(self, x: u16, y: u16) -> int {
        if self.slider_rects@[0].covers(x, y) {
            0
        } else if self.slider_rects@[1].covers(x, y) {
            1
        } else if self.slider_rects@[2].covers(x, y) {
            2
        } else {
            3
        }
    }

    /// Where on a slider a column is; none if the slider has no bar.
    pub open spec fn grip_at(self, slider: int, x: u16) -> Option<Grip> {
        let r = self.slider_rects@[slider];
        if r.width == 0 {
            None
        } else {
            let last = r.width - 1;
            Some(
                Grip {
                    slider: slider as usize,
                    rel: (if x <= r.x {
                        0
                    } else if x - r.x <= last {
                        x - r.x
                    } else {
                        last
                    }) as u16,
                    span: (if last >= 1 {
                        last
                    } else {
                        1
                    }) as u16,
                },
            )
        }
    }

    /// The screen as it starts: with the display, if one was found, with the current and the
    /// greatest brightness it reported, and with the configuration of the idle daemon, if it could
    /// be read.
    pub fn new(
        brightness: Option<Brightness>,
        reading: Option<(u32, u32)>,
        idle_text: Option<&str>,
    ) -> (app: App)
        ensures
            app.wf(),
            app.brightness == brightness,
            match reading {
                Some((cur, max)) if brightness is Some => {
                    &&& app.bright_cur == cur
                    &&& app.bright_max == if max == 0 {
                        1
                    } else {
                        max
                    }
                },
                _ => app.bright_cur == 0 && app.bright_max == 100,
            },
            app.screen_off_min == minutes_in(text_of(idle_text), idle::screen_off_mark(), 10),
            app.sleep_min == minutes_in(text_of(idle_text), idle::sleep_mark(), 30),
            app.focus == 0,
            app.dragging is None,
            forall|i: int|
                0 <= i < 3 ==> #[trigger] app.slider_rects@[i] == (Rect {
                    x: 0,
                    y: 0,
                    width: 0,
                    height: 0,
                }),
            app.bright_dirty is None,
            app.idle_dirty is None,
            app.status@ == if brightness is None {
                "未找到支持 DDC/CI 的显示器，亮度不可调"@
            } else {
                ""@
            },
            !app.status_is_error,
    {
        let (cur, max): (u32, u32) = match brightness {
            Some(_) => match reading {
                Some((c, m)) => (c, m),
                None => (0, 100),
            },
            None => (0, 100),
        };
        let status: String = if brightness.is_none() {
            "未找到支持 DDC/CI 的显示器，亮度不可调".to_string()
        } else {
            "".to_string()
        };
        App {
            brightness,
            bright_cur: cur,
            bright_max: if max == 0 {
                1
            } else {
                max
            },
            screen_off_min: read_minutes(idle_text, "power-off-monitors", 10),
            sleep_min: read_minutes(idle_text, "systemctl suspend", 30),
            focus: 0,
            dragging: None,
            slider_rects: [Rect::empty(), Rect::empty(), Rect::empty()],
            bright_dirty: None,
            idle_dirty: None,
            status,
            status_is_error: false,
        }
    }

    /// Shows what the workers reported; the last message stays.
    pub fn poll_status(&mut self, messages: Vec<Msg>)
        ensures
            messages@.len() == 0 ==> *final(self) == *old(self),
            messages@.len() > 0 ==> match messages@.last() {
                Msg::Info(s) => *final(self) == (App {
                    status: s,
                    status_is_error: false,
                    ..*old(self)
                }),
                Msg::Error(s) => *final(self) == (App {
                    status: s,
                    status_is_error: true,
                    ..*old(self)
                }),
            },
    {
        let mut messages: Vec<Msg> = messages;
        if let Some(m) = messages.pop() {
            match m {
                Msg::Info(s) => {
                    self.status = s;
                    self.status_is_error = false;
                },
                Msg::Error(s) => {
                    self.status = s;
                    self.status_is_error = true;
                },
            }
        }
    }

    /// Takes the changes that have rested long enough and are due to be sent.
    pub fn flush_debounced(&mut self, now: u128) -> (due: Due)
        requires
            old(self).wf(),
        ensures
            final(self).wf(),
            due.brightness == if rested(old(self).bright_dirty, BRIGHT_DEBOUNCE, now) {
                Some(old(self).bright_cur)
            } else {
                None
            },
            due.idle == if rested(old(self).idle_dirty, TIME_DEBOUNCE, now) {
                Some((old(self).screen_off_min, old(self).sleep_min))
            } else {
                None
            },
            due.idle matches Some((off, sleep)) ==> off * 60 <= u32::MAX && sleep * 60 <= u32::MAX,
            *final(self) == old(self).flushed(now),
    {
        let mut due = Due { brightness: None, idle: None };
        if has_rested(self.bright_dirty, BRIGHT_DEBOUNCE, now) {
            self.bright_dirty = None;
            due.brightness = Some(self.bright_cur);
        }
        if has_rested(self.idle_dirty, TIME_DEBOUNCE, now) {
            self.idle_dirty = None;
            due.idle = Some((self.screen_off_min, self.sleep_min));
        }
        due
    }

    /// Moves the slider in focus by `delta`.
    pub fn adjust_focused(&mut self, delta: i64, now: u128)
        requires
            old(self).wf(),
            old(self).value(old(self).focus as int) + delta <= i64::MAX,
        ensures
            final(self).wf(),
            *final(self) == old(self).adjusted(delta as int, now),
    {
        if self.focus == 0 {
            self.adjust_brightness(delta, now);
        } else if self.focus == 1 {
            self.screen_off_min = shift(self.screen_off_min, delta, SCREEN_OFF_MIN, SCREEN_OFF_MAX);
            self.idle_dirty = Some(now);
        } else {
            self.sleep_min = shift(self.sleep_min, delta, SLEEP_MIN, SLEEP_MAX);
            self.idle_dirty = Some(now);
        }
    }

    /// Moves the brightness by `delta`, if there is a display.
    pub fn adjust_brightness(&mut self, delta: i64, now: u128)
        requires
            old(self).wf(),
            old(self).bright_cur + delta <= i64::MAX,
        ensures
            final(self).wf(),
            *final(self) == old(self).with_value(
                0,
                shifted(
                    old(self).bright_cur as int,
                    delta as int,
                    0,
                    old(self).bright_max as int,
                ) as u32,
                now,
            ),
    {
        if self.brightness.is_none() {
            return ;
        }
        self.bright_cur = shift(self.bright_cur, delta, 0, self.bright_max);
        self.bright_dirty = Some(now);
    }

    /// Moves the slider in focus to one of its ends.
    pub fn set_focused_extreme(&mut self, high: bool, now: u128)
        requires
            old(self).wf(),
        ensures
            final(self).wf(),
            *final(self) == old(self).at_extreme(high, now),
    {
        if self.focus == 0 {
            if self.brightness.is_some() {
                self.bright_cur = if high {
                    self.bright_max
                } else {
                    0
                };
                self.bright_dirty = Some(now);
            }
        } else if self.focus == 1 {
            self.screen_off_min = if high {
                SCREEN_OFF_MAX
            } else {
                SCREEN_OFF_MIN
            };
            self.idle_dirty = Some(now);
        } else {
            self.sleep_min = if high {
                SLEEP_MAX
            } else {
                SLEEP_MIN
            };
            self.idle_dirty = Some(now);
        }
    }

    /// Acts on a key; says whether the screen is to be closed.
    pub fn handle_key(&mut self, key: Key, ctrl: bool, now: u128) -> (quit: bool)
        requires
            old(self).wf(),
        ensures
            final(self).wf(),
            quit == quits(key, ctrl),
            *final(self) == old(self).after_key(key, ctrl, now),
    {
        match key {
            Key::Char('q') | Key::Esc => {
                return true;
            },
            Key::Char('c') => {
                return ctrl;
            },
            Key::Tab | Key::Down | Key::Char('j') => {
                self.focus = (self.focus + 1) % 3;
            },
            Key::BackTab | Key::Up | Key::Char('k') => {
                self.focus = (self.focus + 2) % 3;
            },
            Key::Left | Key::Char('h') => {
                self.adjust_focused(-1, now);
            },
            Key::Right | Key::Char('l') => {
                self.adjust_focused(1, now);
            },
            Key::PageUp => {
                self.adjust_focused(-10, now);
            },
            Key::PageDown => {
                self.adjust_focused(10, now);
            },
            Key::Home => {
                self.set_focused_extreme(false, now);
            },
            Key::End => {
                self.set_focused_extreme(true, now);
            },
            _ => {},
        }
        false
    }

    /// Acts on the mouse. The grip, if there is one, says where its slider is to be set.
    pub fn handle_mouse(&mut self, kind: MouseKind, column: u16, row: u16) -> (grip: Option<Grip>)
        requires
            old(self).wf(),
        ensures
            final(self).wf(),
            match kind {
                MouseKind::Down => {
                    let i = old(self).hit(column, row);
                    if i < 3 {
                        &&& *final(self) == (App {
                            focus: i as usize,
                            dragging: Some(i as usize),
                            ..*old(self)
                        })
                        &&& grip == old(self).grip_at(i, column)
                    } else {
                        *final(self) == *old(self) && grip is None
                    }
                },
                MouseKind::Drag => {
                    &&& *final(self) == *old(self)
                    &&& match old(self).dragging {
                        Some(i) => grip == old(self).grip_at(i as int, column),
                        None => grip is None,
                    }
                },
                MouseKind::Up => {
                    *final(self) == (App { dragging: None, ..*old(self) }) && grip is None
                },
                MouseKind::Other => *final(self) == *old(self) && grip is None,
            },
    {
        match kind {
            MouseKind::Down => {
                if let Some(i) = self.slider_at(column, row) {
                    self.focus = i;
                    self.dragging = Some(i);
                    return self.grip(i, column);
                }
                None
            },
            MouseKind::Drag => {
                if let Some(i) = self.dragging {
                    return self.grip(i, column);
                }
                None
            },
            MouseKind::Up => {
                self.dragging = None;
                None
            },
            MouseKind::Other => None,
        }
    }

    /// The slider whose bar covers a cell.
    pub fn slider_at(&self, x: u16, y: u16) -> (r: Option<usize>)
        requires
            self.wf(),
        ensures
            r == if self.hit(x, y) < 3 {
                Some(self.hit(x, y) as usize)
            } else {
                None
            },
    {
        if self.slider_rects[0].contains(x, y) {
            Some(0)
        } else if self.slider_rects[1].contains(x, y) {
            Some(1)
        } else if self.slider_rects[2].contains(x, y) {
            Some(2)
        } else {
            None
        }
    }

    /// Where on a slider a column is.
    pub fn grip(&self, slider: usize, x: u16) -> (g: Option<Grip>)
        requires
            slider < 3,
        ensures
            g == self.grip_at(slider as int, x),
    {
        let r: Rect = self.slider_rects[slider];
        if r.width == 0 {
            return None;
        }
        let last: u16 = r.width - 1;
        let rel: u16 = if x <= r.x {
            0
        } else if x - r.x <= last {
            x - r.x
        } else {
            last
        };
        Some(
            Grip {
                slider,
                rel,
                span: if last >= 1 {
                    last
                } else {
                    1
                },
            },
        )
    }

    /// Sets a slider to the value that a grip stands for; a time is held between its bounds.
    pub fn set_slider(&mut self, slider: usize, value: u32, now: u128)
        requires
            old(self).wf(),
        ensures
            final(self).wf(),
            *final(self) == old(self).with_value(
                slider as int,
                if slider == 0 {
                    value
                } else {
                    shifted(
                        value as int,
                        0,
                        old(self).least(slider as int) as int,
                        old(self).greatest(slider as int) as int,
                    ) as u32
                },
                now,
            ),
    {
        if slider == 0 {
            if self.brightness.is_some() {
                self.bright_cur = value;
                self.bright_dirty = Some(now);
            }
        } else if slider == 1 {
            self.screen_off_min = shift(value, 0, SCREEN_OFF_MIN, SCREEN_OFF_MAX);
            self.idle_dirty = Some(now);
        } else if slider == 2 {
            self.sleep_min = shift(value, 0, SLEEP_MIN, SLEEP_MAX);
            self.idle_dirty = Some(now);
        }
    }
}

/// Reads the minutes for a command out of a configuration.
fn read_minutes(config: Option<&str>, mark: &str, default: u32) -> (m: u32)
    requires
        default * 60 <= u32::MAX,
    ensures
        m == minutes_in(text_of(config), mark@, default as nat),
        m * 60 <= u32::MAX,
{
    match config {
        Some(c) => match read_listener_secs(c, mark) {
            Some(secs) => secs / 60,
            None => default,
        },
        None => default,
    }
}

/// Tells whether enough time went by since a change.
fn has_rested(dirty: Option<u128>, wait: u128, now: u128) -> (r: bool)
    ensures
        r == rested(dirty, wait, now),
{
    match dirty {
        Some(t) => now >= t && now - t >= wait,
        None => false,
    }
}

} // verus!
