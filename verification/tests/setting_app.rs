use info::input::{Key, MouseKind};
use info::layout::Rect;
use info::setting::restart::Step;
use info::setting::view::title;
use info::setting::worker::{
    brightness_job, brightness_message, exit_error, idle_job, idle_message, newest,
};
use info::setting::{App, Brightness, Due, Grip, Msg, BRIGHT_DEBOUNCE, TIME_DEBOUNCE};
use info::style::{Color, Line, Style};

const CONFIG: &str = "\
listener {
    timeout = 900
    on-timeout = niri msg action power-off-monitors
}
listener {
    timeout = 3659
    on-timeout = systemctl suspend
}
";

fn app() -> App {
    App::new(Some(Brightness { bus: 5 }), Some((40, 80)), Some(CONFIG))
}

fn spans(line: &Line) -> Vec<(&str, Style)> {
    line.spans.iter().map(|s| (s.text.as_str(), s.style)).collect()
}

fn screen() -> Rect {
    Rect { x: 0, y: 0, width: 80, height: 24 }
}

#[test]
fn starts_with_what_was_read() {
    let a = app();
    assert_eq!((a.bright_cur, a.bright_max), (40, 80));
    assert_eq!((a.screen_off_min, a.sleep_min), (15, 60));
    assert_eq!((a.focus, a.dragging), (0, None));
    assert_eq!(a.status, "");
    assert!(!a.status_is_error);
}

#[test]
fn starts_with_defaults() {
    let a = App::new(None, Some((3, 4)), None);
    assert_eq!((a.bright_cur, a.bright_max), (0, 100));
    assert_eq!((a.screen_off_min, a.sleep_min), (10, 30));
    assert_eq!(a.status, "未找到支持 DDC/CI 的显示器，亮度不可调");
    let b = App::new(Some(Brightness { bus: 1 }), Some((0, 0)), Some(""));
    assert_eq!((b.bright_cur, b.bright_max), (0, 1));
    assert_eq!((b.screen_off_min, b.sleep_min), (10, 30));
    let c = App::new(Some(Brightness { bus: 1 }), None, None);
    assert_eq!((c.bright_cur, c.bright_max), (0, 100));
}

#[test]
fn focus_goes_round_and_back() {
    let mut a = app();
    for key in [Key::Tab, Key::Down, Key::Char('j')] {
        assert!(!a.handle_key(key, false, 1));
    }
    assert_eq!(a.focus, 0);
    assert!(!a.handle_key(Key::Up, false, 1));
    assert_eq!(a.focus, 2);
    assert!(!a.handle_key(Key::BackTab, false, 1));
    assert!(!a.handle_key(Key::Char('k'), false, 1));
    assert_eq!(a.focus, 0);
    assert_eq!(a.bright_dirty, None);
    assert_eq!(a.idle_dirty, None);
}

#[test]
fn keys_close_the_screen() {
    let mut a = app();
    assert!(a.handle_key(Key::Char('q'), false, 0));
    assert!(a.handle_key(Key::Esc, false, 0));
    assert!(a.handle_key(Key::Char('c'), true, 0));
    assert!(!a.handle_key(Key::Char('c'), false, 0));
    assert!(!a.handle_key(Key::Other, true, 0));
}

#[test]
fn keys_move_the_slider_in_focus() {
    let mut a = app();
    a.handle_key(Key::Right, false, 7);
    assert_eq!((a.bright_cur, a.bright_dirty), (41, Some(7)));
    a.handle_key(Key::Char('h'), false, 8);
    assert_eq!((a.bright_cur, a.bright_dirty), (40, Some(8)));
    a.handle_key(Key::End, false, 9);
    assert_eq!(a.bright_cur, 80);
    a.handle_key(Key::PageDown, false, 9);
    assert_eq!(a.bright_cur, 80);
    a.handle_key(Key::Home, false, 9);
    assert_eq!(a.bright_cur, 0);
    a.handle_key(Key::Tab, false, 9);
    a.handle_key(Key::PageUp, false, 10);
    assert_eq!((a.screen_off_min, a.idle_dirty), (5, Some(10)));
    a.handle_key(Key::PageUp, false, 10);
    assert_eq!(a.screen_off_min, 1);
    a.handle_key(Key::End, false, 10);
    assert_eq!(a.screen_off_min, 240);
    a.handle_key(Key::Tab, false, 9);
    a.handle_key(Key::Char('l'), false, 11);
    assert_eq!((a.sleep_min, a.idle_dirty), (61, Some(11)));
    a.handle_key(Key::End, false, 10);
    assert_eq!(a.sleep_min, 720);
    a.handle_key(Key::Home, false, 10);
    assert_eq!(a.sleep_min, 1);
}

#[test]
fn without_a_display_the_brightness_stays() {
    let mut a = App::new(None, None, None);
    for key in [Key::Right, Key::PageDown, Key::End] {
        a.handle_key(key, false, 3);
    }
    a.set_slider(0, 50, 3);
    assert_eq!((a.bright_cur, a.bright_dirty), (0, None));
}

#[test]
fn changes_rest_before_they_are_due() {
    let mut a = app();
    a.handle_key(Key::Right, false, 1000);
    a.handle_key(Key::Tab, false, 1000);
    a.handle_key(Key::Right, false, 1000);
    assert_eq!(a.flush_debounced(999 + BRIGHT_DEBOUNCE), Due { brightness: None, idle: None });
    assert_eq!(a.flush_debounced(500), Due { brightness: None, idle: None });
    assert_eq!(
        a.flush_debounced(1000 + BRIGHT_DEBOUNCE),
        Due { brightness: Some(41), idle: None }
    );
    assert_eq!(
        a.flush_debounced(1000 + TIME_DEBOUNCE),
        Due { brightness: None, idle: Some((16, 60)) }
    );
    assert_eq!(
        a.flush_debounced(1001 + TIME_DEBOUNCE),
        Due { brightness: None, idle: None }
    );
}

#[test]
fn the_last_message_stays() {
    let mut a = app();
    a.poll_status(vec![Msg::Info("one".to_string()), Msg::Error("two".to_string())]);
    assert_eq!((a.status.as_str(), a.status_is_error), ("two", true));
    a.poll_status(vec![]);
    assert_eq!((a.status.as_str(), a.status_is_error), ("two", true));
    a.poll_status(vec![Msg::Info("three".to_string())]);
    assert_eq!((a.status.as_str(), a.status_is_error), ("three", false));
}

#[test]
fn the_screen_is_divided() {
    let mut a = app();
    let areas = a.place(screen());
    assert_eq!(areas.title, Rect { x: 0, y: 0, width: 80, height: 2 });
    assert_eq!(areas.footer, Rect { x: 0, y: 22, width: 80, height: 2 });
    for i in 0..3 {
        let y = 2 + i as u16;
        assert_eq!(areas.sliders[i].label, Rect { x: 0, y, width: 14, height: 1 });
        assert_eq!(areas.sliders[i].bar, Rect { x: 14, y, width: 54, height: 1 });
        assert_eq!(areas.sliders[i].value, Rect { x: 68, y, width: 12, height: 1 });
        assert_eq!(a.slider_rects[i], areas.sliders[i].bar);
    }
    let tiny = a.place(Rect { x: 3, y: 4, width: 0, height: 0 });
    assert_eq!(tiny.title.width, 0);
    assert_eq!(a.slider_at(3, 4), None);
}

#[test]
fn every_roomy_screen_is_divided_alike() {
    let mut a = app();
    for (x, y) in [(0u16, 0u16), (3, 5), (1000, 2000)] {
        for height in [7u16, 8, 9, 24, 25, 61, 200, 60000] {
            for width in [36u16, 37, 38, 79, 80, 81, 213, 500, 60000] {
                let areas = a.place(Rect { x, y, width, height });
                assert_eq!(areas.title, Rect { x, y, width, height: 2 });
                assert_eq!(areas.footer, Rect { x, y: y + height - 2, width, height: 2 });
                for i in 0..3 {
                    let row = y + 2 + i as u16;
                    let at = areas.sliders[i];
                    assert_eq!(at.label, Rect { x, y: row, width: 14, height: 1 });
                    assert_eq!(at.bar, Rect { x: x + 14, y: row, width: width - 26, height: 1 });
                    assert_eq!(at.value, Rect { x: x + width - 12, y: row, width: 12, height: 1 });
                }
            }
        }
    }
}

#[test]
fn on_a_small_screen_everything_stays_inside() {
    let mut a = app();
    for height in 0..8u16 {
        for width in 0..40u16 {
            let areas = a.place(Rect { x: 7, y: 9, width, height });
            let mut all = vec![areas.title, areas.footer];
            for s in areas.sliders {
                assert_eq!((s.label.y, s.label.height), (s.bar.y, s.bar.height));
                assert_eq!((s.bar.y, s.bar.height), (s.value.y, s.value.height));
                all.extend([s.label, s.bar, s.value]);
            }
            for r in all {
                assert!(r.x >= 7 && r.x + r.width <= 7 + width, "{r:?} in {width} x {height}");
                assert!(r.y >= 9 && r.y + r.height <= 9 + height, "{r:?} in {width} x {height}");
            }
        }
    }
}

#[test]
fn the_mouse_grips_a_slider() {
    let mut a = app();
    assert_eq!(a.handle_mouse(MouseKind::Down, 20, 3), None);
    a.place(screen());
    assert_eq!(a.slider_at(14, 2), Some(0));
    assert_eq!(a.slider_at(13, 2), None);
    assert_eq!(a.slider_at(67, 4), Some(2));
    assert_eq!(a.slider_at(68, 4), None);
    assert_eq!(
        a.handle_mouse(MouseKind::Down, 20, 3),
        Some(Grip { slider: 1, rel: 6, span: 53 })
    );
    assert_eq!((a.focus, a.dragging), (1, Some(1)));
    assert_eq!(
        a.handle_mouse(MouseKind::Drag, 500, 20),
        Some(Grip { slider: 1, rel: 53, span: 53 })
    );
    assert_eq!(
        a.handle_mouse(MouseKind::Drag, 0, 0),
        Some(Grip { slider: 1, rel: 0, span: 53 })
    );
    assert_eq!(a.handle_mouse(MouseKind::Other, 20, 2), None);
    assert_eq!(a.handle_mouse(MouseKind::Up, 20, 2), None);
    assert_eq!(a.handle_mouse(MouseKind::Drag, 20, 2), None);
    assert_eq!(a.focus, 1);
    a.slider_rects[1] = Rect { x: 9, y: 9, width: 1, height: 1 };
    assert_eq!(a.grip(1, 30), Some(Grip { slider: 1, rel: 0, span: 1 }));
    a.slider_rects[1] = Rect::empty();
    assert_eq!(a.grip(1, 30), None);
}

#[test]
fn a_slider_is_held_between_its_bounds() {
    let mut a = app();
    a.set_slider(1, 0, 5);
    assert_eq!((a.screen_off_min, a.idle_dirty), (1, Some(5)));
    a.set_slider(2, 100_000, 6);
    assert_eq!((a.sleep_min, a.idle_dirty), (720, Some(6)));
    a.set_slider(0, 33, 7);
    assert_eq!((a.bright_cur, a.bright_dirty), (33, Some(7)));
    a.set_slider(9, 33, 8);
    assert_eq!(a.idle_dirty, Some(6));
}

#[test]
fn sliders_show_label_bar_and_value() {
    let a = app();
    let accent = Style { fg: Some(Color::Rgb(255, 184, 0)), bg: None, bold: true, dimmed: false };
    let gray = Style::fg(Color::Gray);
    let track = Style::fg(Color::Rgb(60, 60, 60));
    let red = Style::fg(Color::Red);
    let first = a.slider(0, 3, &vec![Color::Red], 50);
    assert_eq!(spans(&first.label), vec![("▸ ", accent), ("亮度", accent)]);
    assert_eq!(spans(&first.bar), vec![("━", red), ("─", track), ("─", track)]);
    assert_eq!(spans(&first.value), vec![("  50%", accent)]);
    let second = a.slider(1, 0, &vec![], 0);
    assert_eq!(spans(&second.label), vec![("  ", gray), ("熄屏时间", gray)]);
    assert_eq!(spans(&second.bar), vec![]);
    assert_eq!(spans(&second.value), vec![("  15 分钟", gray)]);
    let third = a.slider(2, 1, &vec![Color::Red], 0);
    assert_eq!(spans(&third.label), vec![("  ", gray), ("睡眠时间", gray)]);
    assert_eq!(spans(&third.value), vec![("  1 小时", gray)]);
    let off = App::new(None, None, None).slider(0, 2, &vec![Color::Red], 0);
    let dark = Style::fg(Color::DarkGray);
    assert_eq!(spans(&off.label), vec![("▸ ", dark), ("亮度", dark)]);
    assert_eq!(spans(&off.bar), vec![("─", dark), ("─", dark)]);
}

#[test]
fn top_and_bottom_lines() {
    let mut a = app();
    assert_eq!(
        spans(&title()),
        vec![("  ", Style::none()), ("系统设置", Style::fg(Color::Cyan).in_bold())]
    );
    a.poll_status(vec![Msg::Error("bad".to_string())]);
    let lines = a.footer();
    assert_eq!(lines.len(), 2);
    assert_eq!(spans(&lines[0]), vec![("  ", Style::none()), ("bad", Style::fg(Color::Red))]);
    assert_eq!(
        spans(&lines[1])[1],
        (
            "[Tab/↑↓] 切换   [←→/hl] 调整   [PgUp/PgDn] ±10   [拖动] 鼠标   [q] 退出",
            Style::fg(Color::DarkGray)
        )
    );
    a.poll_status(vec![Msg::Info("good".to_string())]);
    assert_eq!(spans(&a.footer()[0])[1], ("good", Style::fg(Color::Green)));
}

fn said(m: Msg) -> (String, bool) {
    match m {
        Msg::Info(s) => (s, false),
        Msg::Error(s) => (s, true),
    }
}

#[test]
fn workers_report() {
    assert_eq!(said(brightness_message(42, None)), ("亮度已设为 42%".to_string(), false));
    assert_eq!(
        said(brightness_message(42, Some("no bus"))),
        ("亮度设置失败：no bus".to_string(), true)
    );
    assert_eq!(
        said(idle_message(5, 30, None)),
        ("已应用：熄屏 5 分钟 · 睡眠 30 分钟".to_string(), false)
    );
    assert_eq!(
        said(idle_message(5, 30, Some("denied"))),
        ("写入 hypridle 配置失败：denied".to_string(), true)
    );
    assert_eq!(exit_error("exit status: 1"), "ddcutil 退出码 exit status: 1");
    assert_eq!(brightness_job(None, 3), None);
    assert_eq!(
        brightness_job(Some(Brightness { bus: 2 }), 3).unwrap()[..5],
        ["--bus", "2", "setvcp", "10", "3"]
    );
    assert_eq!(newest(1, &vec![]), 1);
    assert_eq!(newest(1, &vec![2, 3]), 3);
}

#[test]
fn times_come_back_after_they_were_written() {
    let job = idle_job(CONFIG, 7, 90, false).unwrap();
    assert!(job.backup);
    assert!(!idle_job(CONFIG, 7, 90, true).unwrap().backup);
    let b = App::new(None, None, Some(&job.text));
    assert_eq!((b.screen_off_min, b.sleep_min), (7, 90));
    assert!(idle_job(&job.text, 7, 90, true).is_none());
    assert!(idle_job(&job.text, 7, 91, true).is_some());
}

#[test]
fn a_restart_ends_whatever_is_found() {
    let mut step = Step::Kill;
    let mut asked = 0;
    let mut steps = 0;
    while !matches!(step, Step::Running | Step::Failed) {
        let running = match step {
            Step::AskGone(_) => true,
            Step::AskUp(_) => {
                asked += 1;
                false
            }
            _ => false,
        };
        step = step.next(running);
        steps += 1;
    }
    assert_eq!(step, Step::Failed);
    assert_eq!(asked, 40);
    assert_eq!(steps, 162);
}

#[test]
fn a_restart_succeeds_once_the_daemon_runs() {
    assert_eq!(Step::Kill.next(false), Step::AskGone(40));
    assert_eq!(Step::AskGone(40).next(false), Step::Spawn);
    assert_eq!(Step::AskGone(40).next(true), Step::RestGone(40));
    assert_eq!(Step::RestGone(1).next(true), Step::Spawn);
    assert_eq!(Step::Spawn.next(false), Step::AskUp(40));
    assert_eq!(Step::AskUp(40).next(true), Step::Running);
    assert_eq!(Step::AskUp(40).next(false), Step::RestUp(40));
    assert_eq!(Step::RestUp(2).next(false), Step::AskUp(1));
    assert_eq!(Step::Kill.command(), vec!["pkill", "-x", "hypridle"]);
    assert_eq!(Step::AskUp(3).command(), vec!["pgrep", "-x", "hypridle"]);
    assert_eq!(Step::AskGone(3).command(), vec!["pgrep", "-x", "hypridle"]);
    assert_eq!(
        Step::Spawn.command(),
        vec!["niri", "msg", "action", "spawn", "--", "hypridle"]
    );
    assert!(Step::Running.command().is_empty());
}
