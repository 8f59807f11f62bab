//! What holds of the settings screen as a whole.

use vstd::prelude::*;

use crate::input::Key;
use crate::layout::Rect;
use crate::number;
use crate::setting;
use crate::setting::view::Areas;
use crate::setting::{idle, idle_laws, view, App};
use crate::style::{Color, Style};

verus! {

/// A key that goes on and one that goes back undo each other.
pub proof fn law_focus_back_and_forth(
    app: App,
    on: Key,
    back: Key,
    ctrl: bool,
    now: u128,
    later: u128,
)
    requires
        app.wf(),
        setting::goes_on(on),
        setting::goes_back(back),
    ensures
        app.after_key(on, ctrl, now).after_key(back, ctrl, later) == app,
        app.after_key(back, ctrl, now).after_key(on, ctrl, later) == app,
{
}

/// Going on three times comes back to the same slider.
pub proof fn law_focus_goes_round(app: App, on: Key, ctrl: bool, now: u128)
    requires
        app.wf(),
        setting::goes_on(on),
    ensures
        app.after_key(on, ctrl, now).after_key(on, ctrl, now).after_key(on, ctrl, now) == app,
{
}

/// Every key keeps what holds of every state.
pub proof fn law_keys_keep_wf(app: App, key: Key, ctrl: bool, now: u128)
    requires
        app.wf(),
    ensures
        app.after_key(key, ctrl, now).wf(),
{
}

/// A key that moves a slider leaves its value between its bounds.
pub proof fn law_moved_stays_in_bounds(app: App, key: Key, ctrl: bool, now: u128)
    requires
        app.wf(),
        setting::step_of(key) is Some || key == Key::Home || key == Key::End,
        app.enabled(app.focus as int),
    ensures
        ({
            let i = app.focus as int;
            let after = app.after_key(key, ctrl, now);
            after.focus == app.focus && app.least(i) <= after.value(i) <= app.greatest(i)
        }),
{
}

/// A step to the right and one to the left undo each other where there is room for both.
pub proof fn law_step_there_and_back(app: App, ctrl: bool, now: u128, later: u128)
    requires
        app.wf(),
        app.least(app.focus as int) <= app.value(app.focus as int) < app.greatest(app.focus as int),
    ensures
        ({
            let i = app.focus as int;
            app.after_key(Key::Right, ctrl, now).after_key(Key::Left, ctrl, later).value(i)
                == app.value(i)
        }),
{
}

/// Without a display no key touches the brightness.
pub proof fn law_no_display_no_brightness(app: App, key: Key, ctrl: bool, now: u128)
    requires
        app.wf(),
        app.brightness is None,
    ensures
        app.after_key(key, ctrl, now).bright_cur == app.bright_cur,
        app.after_key(key, ctrl, now).bright_dirty == app.bright_dirty,
{
}

/// A change is not due before it has rested, and is due from then on.
pub proof fn law_change_rests(app: App, slider: int, value: u32, then: u128, now: u128)
    requires
        0 <= slider < 3,
        app.enabled(slider),
    ensures
        ({
            let after = app.with_value(slider, value, then);
            if slider == 0 {
                setting::rested(after.bright_dirty, setting::BRIGHT_DEBOUNCE, now) <==> now - then
                    >= setting::BRIGHT_DEBOUNCE
            } else {
                setting::rested(after.idle_dirty, setting::TIME_DEBOUNCE, now) <==> now - then
                    >= setting::TIME_DEBOUNCE
            }
        }),
{
}

/// What was taken once is not due again.
pub proof fn law_flushed_once(app: App, now: u128, later: u128)
    ensures
        setting::rested(app.bright_dirty, setting::BRIGHT_DEBOUNCE, now) ==> !setting::rested(
            app.flushed(now).bright_dirty,
            setting::BRIGHT_DEBOUNCE,
            later,
        ),
        setting::rested(app.idle_dirty, setting::TIME_DEBOUNCE, now) ==> !setting::rested(
            app.flushed(now).idle_dirty,
            setting::TIME_DEBOUNCE,
            later,
        ),
{
}

/// The mouse grips a slider between its ends, so that its place is a fraction from 0 to 1.
pub proof fn law_grip_is_a_fraction(app: App, slider: int, x: u16)
    requires
        0 <= slider < 3,
    ensures
        app.grip_at(slider, x) matches Some(g) ==> g.rel <= g.span && g.span >= 1,
{
}

/// The times that were written are the ones with which the screen starts the next time. Where one
/// listener is the first for both commands, both times are the sleep time; where no listener for
/// the sleep command stays, the sleep time is the default.
pub proof fn law_times_come_back(config: Seq<char>, screen_off_min: u32, sleep_min: u32)
    requires
        screen_off_min * 60 <= u32::MAX,
        sleep_min * 60 <= u32::MAX,
    ensures
        ({
            let written = idle::rewritten(
                config,
                screen_off_min as nat * 60,
                sleep_min as nat * 60,
            );
            &&& setting::minutes_in(Some(written), idle::screen_off_mark(), 10)
                == if idle_laws::one_for_both(config) {
                sleep_min as nat
            } else {
                screen_off_min as nat
            }
            &&& setting::minutes_in(Some(written), idle::sleep_mark(), 30)
                == if idle_laws::keeps_sleep(config) {
                sleep_min as nat
            } else {
                30
            }
        }),
{
    idle_laws::law_screen_off_reads_back(
        config,
        screen_off_min as nat * 60,
        sleep_min as nat * 60,
    );
    idle_laws::law_sleep_reads_back(config, screen_off_min as nat * 60, sleep_min as nat * 60);
}

/// The value of the slider in focus.
pub open spec fn focused(app: App) -> int {
    if app.focus == 0 {
        app.bright_cur as int
    } else if app.focus == 1 {
        app.screen_off_min as int
    } else {
        app.sleep_min as int
    }
}

/// The least value of the slider in focus: no brightness, or one minute.
pub open spec fn bottom(app: App) -> int {
    if app.focus == 0 {
        0
    } else {
        1
    }
}

/// The greatest value of the slider in focus: what the display takes, four hours until the screen
/// goes dark, or twelve hours until the machine goes to sleep.
pub open spec fn top(app: App) -> int {
    if app.focus == 0 {
        app.bright_max as int
    } else if app.focus == 1 {
        240
    } else {
        720
    }
}

/// Whether the slider in focus can be moved: that of the brightness needs a display.
pub open spec fn movable(app: App) -> bool {
    app.focus != 0 || app.brightness is Some
}

/// Whether nothing changed but the value of the slider in focus, and when it was changed.
pub open spec fn only_focused_changed(before: App, after: App, now: u128) -> bool {
    if before.focus == 0 {
        after == (App { bright_cur: after.bright_cur, bright_dirty: Some(now), ..before })
    } else if before.focus == 1 {
        after == (App { screen_off_min: after.screen_off_min, idle_dirty: Some(now), ..before })
    } else {
        after == (App { sleep_min: after.sleep_min, idle_dirty: Some(now), ..before })
    }
}

/// Whether a key moves the slider in focus by an amount: the arrows and two letters by one, the page
/// keys by ten.
pub open spec fn moves_by(key: Key, amount: int) -> bool {
    match key {
        Key::Left => amount == -1,
        Key::Char(c) => c == 'h' && amount == -1 || c == 'l' && amount == 1,
        Key::Right => amount == 1,
        Key::PageUp => amount == -10,
        Key::PageDown => amount == 10,
        _ => false,
    }
}

/// A key that moves the slider in focus moves it by its amount, but not beyond its ends; nothing else
/// changes, and nothing at all where the slider cannot be moved.
pub proof fn law_keys_move_the_slider(app: App, key: Key, amount: int, ctrl: bool, now: u128)
    requires
        app.wf(),
        moves_by(key, amount),
    ensures
        ({
            let after = app.after_key(key, ctrl, now);
            &&& !movable(app) ==> after == app
            &&& movable(app) ==> {
                &&& only_focused_changed(app, after, now)
                &&& focused(app) + amount < bottom(app) ==> focused(after) == bottom(app)
                &&& focused(app) + amount > top(app) ==> focused(after) == top(app)
                &&& bottom(app) <= focused(app) + amount <= top(app) ==> focused(after) == focused(
                    app,
                ) + amount
            }
            &&& !setting::quits(key, ctrl)
        }),
{
}

/// A page down and a page up undo each other where there is room, and a page is ten steps.
pub proof fn law_a_page_is_ten_steps(app: App, ctrl: bool, now: u128)
    requires
        app.wf(),
        movable(app),
        bottom(app) <= focused(app),
        focused(app) + 10 <= top(app),
    ensures
        ({
            let page = app.after_key(Key::PageDown, ctrl, now);
            &&& focused(page) == focused(app) + 10
            &&& focused(page.after_key(Key::PageUp, ctrl, now)) == focused(app)
            &&& steps(app, 10, ctrl, now) == page
        }),
{
    lemma_steps(app, 10, ctrl, now);
}

/// The state after so many steps to the right.
pub open spec fn steps(app: App, n: nat, ctrl: bool, now: u128) -> App
    decreases n,
{
    if n == 0 {
        app
    } else {
        steps(app, (n - 1) as nat, ctrl, now).after_key(Key::Right, ctrl, now)
    }
}

/// Each step adds one.
proof fn lemma_steps(app: App, n: nat, ctrl: bool, now: u128)
    requires
        app.wf(),
        movable(app),
        bottom(app) <= focused(app),
        focused(app) + n <= top(app),
    ensures
        steps(app, n, ctrl, now).wf(),
        focused(steps(app, n, ctrl, now)) == focused(app) + n,
        steps(app, n, ctrl, now).focus == app.focus,
        n > 0 ==> only_focused_changed(app, steps(app, n, ctrl, now), now),
    decreases n,
{
    if n > 0 {
        lemma_steps(app, (n - 1) as nat, ctrl, now);
    }
}

/// Home leads to the least value of the slider in focus and End to the greatest.
pub proof fn law_home_and_end(app: App, ctrl: bool, now: u128)
    requires
        app.wf(),
    ensures
        ({
            let home = app.after_key(Key::Home, ctrl, now);
            let end = app.after_key(Key::End, ctrl, now);
            &&& !movable(app) ==> home == app && end == app
            &&& movable(app) ==> only_focused_changed(app, home, now) && focused(home) == bottom(
                app,
            )
            &&& movable(app) ==> only_focused_changed(app, end, now) && focused(end) == top(app)
        }),
{
}

/// The keys that change the focus lead from the brightness to the screen-off time, from there to the
/// sleep time and from there to the brightness, or back; they change nothing else.
pub proof fn law_focus_keys(app: App, key: Key, ctrl: bool, now: u128)
    requires
        app.wf(),
    ensures
        key is Tab || key is Down || key == Key::Char('j') ==> app.after_key(key, ctrl, now) == (App {
            focus: if app.focus == 0 {
                1
            } else if app.focus == 1 {
                2
            } else {
                0
            },
            ..app
        }),
        key is BackTab || key is Up || key == Key::Char('k') ==> app.after_key(key, ctrl, now) == (
        App {
            focus: if app.focus == 0 {
                2
            } else if app.focus == 1 {
                0
            } else {
                1
            },
            ..app
        }),
{
}

/// The screen is closed by q, by Esc and by c with Ctrl, and by no other key; closing it changes
/// nothing. A key without a meaning changes nothing either.
pub proof fn law_other_keys(app: App, key: Key, ctrl: bool, now: u128)
    ensures
        setting::quits(key, ctrl) <==> key is Esc || key == Key::Char('q') || ctrl && key
            == Key::Char('c'),
        setting::quits(key, ctrl) ==> app.after_key(key, ctrl, now) == app,
        key is Enter || key is Backspace || key is Other ==> app.after_key(key, ctrl, now) == app,
        key matches Key::Char(c) ==> c != 'j' && c != 'k' && c != 'h' && c != 'l' ==> app.after_key(
            key,
            ctrl,
            now,
        ) == app,
{
}

/// Setting a slider sets its value and notes when; the times are held between one minute and four
/// or twelve hours, and the brightness is set only where there is a display.
pub proof fn law_setting_a_slider(app: App, slider: int, value: u32, now: u128)
    ensures
        app.brightness is None ==> app.with_value(0, value, now) == app,
        app.brightness is Some ==> app.with_value(0, value, now) == (App {
            bright_cur: value,
            bright_dirty: Some(now),
            ..app
        }),
        app.with_value(1, value, now) == (App {
            screen_off_min: value,
            idle_dirty: Some(now),
            ..app
        }),
        app.with_value(2, value, now) == (App { sleep_min: value, idle_dirty: Some(now), ..app }),
        app.least(0) == 0,
        app.least(1) == 1,
        app.least(2) == 1,
        app.greatest(0) == app.bright_max,
        app.greatest(1) == 240,
        app.greatest(2) == 720,
        app.value(0) == app.bright_cur,
        app.value(1) == app.screen_off_min,
        app.value(2) == app.sleep_min,
        slider < 0 || slider > 2 ==> app.with_value(slider, value, now) == app,
{
}

/// A value that is moved and held between two bounds is between them, and is the moved value where
/// that is.
pub proof fn law_held_between_bounds(value: int, delta: int, min: int, max: int)
    requires
        min <= max,
    ensures
        min <= setting::shifted(value, delta, min, max) <= max,
        min <= value + delta <= max ==> setting::shifted(value, delta, min, max) == value + delta,
        value + delta <= min ==> setting::shifted(value, delta, min, max) == min,
        value + delta >= max ==> setting::shifted(value, delta, min, max) == max,
{
}

/// A brightness is due when it was left alone for 120 milliseconds, and a time when it was for 500;
/// what was not changed is not due.
pub proof fn law_when_changes_are_due(app: App, t: u128, now: u128)
    ensures
        !setting::rested(None, setting::BRIGHT_DEBOUNCE, now),
        !setting::rested(None, setting::TIME_DEBOUNCE, now),
        setting::rested(Some(t), setting::BRIGHT_DEBOUNCE, now) <==> now >= t + 120 * 1_000_000,
        setting::rested(Some(t), setting::TIME_DEBOUNCE, now) <==> now >= t + 500 * 1_000_000,
{
}

/// Taking what is due leaves everything else as it is: only that it was changed is forgotten, and
/// only of what is due.
pub proof fn law_flushing_changes_nothing_else(app: App, now: u128)
    ensures
        ({
            let after = app.flushed(now);
            &&& after == (App {
                bright_dirty: after.bright_dirty,
                idle_dirty: after.idle_dirty,
                ..app
            })
            &&& app.bright_dirty is None ==> after.bright_dirty is None
            &&& app.bright_dirty matches Some(t) ==> after.bright_dirty == if now >= t + 120
                * 1_000_000 {
                None
            } else {
                Some(t)
            }
            &&& app.idle_dirty is None ==> after.idle_dirty is None
            &&& app.idle_dirty matches Some(t) ==> after.idle_dirty == if now >= t + 500
                * 1_000_000 {
                None
            } else {
                Some(t)
            }
        }),
{
}

/// The mouse hits the first slider whose bar covers the cell.
pub proof fn law_hit_is_under_the_mouse(app: App, x: u16, y: u16)
    ensures
        0 <= app.hit(x, y) <= 3,
        forall|i: int|
            0 <= i < 3 && i < app.hit(x, y) ==> !is_over(#[trigger] app.slider_rects@[i], x, y),
        app.hit(x, y) < 3 ==> is_over(app.slider_rects@[app.hit(x, y)], x, y),
{
}

/// Whether a cell lies in a rectangle.
pub open spec fn is_over(r: Rect, x: u16, y: u16) -> bool {
    &&& r.x <= x
    &&& x < r.x + r.width
    &&& r.y <= y
    &&& y < r.y + r.height
}

/// The grip of a slider is how far the mouse is from the left end of the bar, of how far the right end
/// is; beyond an end it is that end. A bar without width has no grip.
pub proof fn law_grip_is_where_the_mouse_is(app: App, slider: int, x: u16)
    requires
        0 <= slider < 3,
    ensures
        ({
            let r = app.slider_rects@[slider];
            &&& app.grip_at(slider, x) is None <==> r.width == 0
            &&& app.grip_at(slider, x) matches Some(g) ==> {
                &&& g.slider == slider
                &&& x <= r.x ==> g.rel == 0
                &&& r.x <= x < r.x + r.width ==> g.rel == x - r.x
                &&& x >= r.x + r.width ==> g.rel == r.width - 1
                &&& r.width >= 2 ==> g.span == r.width - 1
                &&& r.width == 1 ==> g.span == 1
            }
        }),
{
}

/// Minutes below an hour are shown as minutes; whole hours as hours, and others as hours and the
/// minutes that are left.
pub proof fn law_minutes_are_shown(hours: nat, minutes: nat)
    requires
        minutes < 60,
    ensures
        setting::minutes_text(minutes) == number::decimal(minutes) + " 分钟"@,
        hours > 0 ==> setting::minutes_text(hours * 60) == number::decimal(hours) + " 小时"@,
        hours > 0 && minutes > 0 ==> setting::minutes_text(hours * 60 + minutes)
            == number::decimal(hours) + "小时"@ + number::decimal(minutes) + "分"@,
{
    assert((hours * 60 + minutes) / 60 == hours && (hours * 60 + minutes) % 60 == minutes);
    assert((hours * 60) / 60 == hours && (hours * 60) % 60 == 0);
}

/// The time of a listener in seconds counts in whole minutes; without a listener, a time or a
/// configuration the default holds.
pub proof fn law_minutes_from_seconds(config: Seq<char>, mark: Seq<char>, default: nat)
    ensures
        setting::minutes_in(None, mark, default) == default,
        match idle::secs_in(config, mark) {
            None => setting::minutes_in(Some(config), mark, default) == default,
            Some(secs) => {
                let m = setting::minutes_in(Some(config), mark, default);
                m * 60 <= secs < m * 60 + 60
            },
        },
{
}

/// The listener that turns the screen off and the one that puts the machine to sleep are found by
/// their commands.
pub proof fn law_marks()
    ensures
        idle::screen_off_mark() == "power-off-monitors"@,
        idle::sleep_mark() == "systemctl suspend"@,
{
}

/// What is shown of a slider: its label, its value, and whether it is in focus or out of use.
pub proof fn law_sliders_are_told_apart(app: App, slider: int, percent: nat)
    requires
        0 <= slider < 3,
    ensures
        view::label_of(0) == "亮度"@,
        view::label_of(1) == "熄屏时间"@,
        view::label_of(2) == "睡眠时间"@,
        app.value_text(0, percent) == number::decimal(percent) + "%"@,
        app.value_text(1, percent) == setting::minutes_text(app.screen_off_min as nat),
        app.value_text(2, percent) == setting::minutes_text(app.sleep_min as nat),
        app.enabled(slider) <==> slider != 0 || app.brightness is Some,
        app.enabled(slider) && app.focus == slider ==> app.slider_style(slider) == (Style {
            fg: Some(Color::Rgb(255, 184, 0)),
            bg: None,
            bold: true,
            dimmed: false,
        }),
        app.enabled(slider) && app.focus != slider ==> app.slider_style(slider) == (Style {
            fg: Some(Color::Gray),
            bg: None,
            bold: false,
            dimmed: false,
        }),
        !app.enabled(slider) ==> app.slider_style(slider) == (Style {
            fg: Some(Color::DarkGray),
            bg: None,
            bold: false,
            dimmed: false,
        }),
{
}

/// The bar of a slider is filled from the left, one cell for each colour; that of a slider out of use
/// is not filled at all.
pub proof fn law_slider_bar(app: App, slider: int, fill: Seq<Color>, i: int)
    requires
        0 <= slider < 3,
        0 <= i,
    ensures
        slider == 0 && app.brightness is None ==> app.bar_cell(slider, fill, i) == (
            "─"@,
            Style { fg: Some(Color::DarkGray), bg: None, bold: false, dimmed: false },
        ),
        slider != 0 || app.brightness is Some ==> app.bar_cell(slider, fill, i) == if i
            < fill.len() {
            ("━"@, Style { fg: Some(fill[i]), bg: None, bold: false, dimmed: false })
        } else {
            (
                "─"@,
                Style { fg: Some(Color::Rgb(60, 60, 60)), bg: None, bold: false, dimmed: false },
            )
        },
{
}

/// On a screen with room, the title takes the first two rows, the sliders a row each below it in
/// their order, and the footer the last two rows. In each row the label comes first, then the bar, and
/// the value last, without gaps.
pub proof fn law_places_on_a_roomy_screen(areas: Areas, area: Rect, i: int)
    requires
        view::roomy(areas, area),
        area.wf(),
        area.width >= 36,
        area.height >= 7,
        0 <= i < 3,
    ensures
        areas.title.x == area.x && areas.title.width == area.width,
        areas.title.y == area.y && areas.title.height == 2,
        areas.footer.x == area.x && areas.footer.width == area.width,
        areas.footer.y + areas.footer.height == area.y + area.height && areas.footer.height == 2,
        ({
            let s = areas.sliders@[i];
            &&& s.label.y == area.y + 2 + i && s.bar.y == area.y + 2 + i && s.value.y == area.y + 2
                + i
            &&& s.label.height == 1 && s.bar.height == 1 && s.value.height == 1
            &&& s.label.x == area.x && s.label.width == 14
            &&& s.bar.x == s.label.x + s.label.width
            &&& s.value.x == s.bar.x + s.bar.width && s.value.width == 12
            &&& s.value.x + s.value.width == area.x + area.width
        }),
{
    assert(areas.sliders@[i] == areas.sliders@[i]);
}

/// A text that is there is what it holds.
pub proof fn law_optional_texts(s: &str)
    ensures
        setting::text_of(Some(s)) == Some(s@),
        setting::text_of(None) is None,
{
}

} // verus!
