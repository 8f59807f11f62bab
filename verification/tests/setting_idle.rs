use info::setting::ddc::Brightness;
use info::setting::{
    append_screen_off, fmt_minutes, parse_ddc_bus, parse_listeners, parse_vcp_terse,
    read_listener_secs, rewrite_idle_config, set_listener_timeout, shift,
};

#[test]
fn ddc_bus_skips_invalid_display() {
    let text = "\
Invalid display
   I2C bus:          /dev/i2c-10
   DRM connector:    card1-eDP-1

Display 1
   I2C bus:          /dev/i2c-13
   DRM connector:    card2-DP-2
";
    assert_eq!(parse_ddc_bus(text), Some(13));
}

#[test]
fn ddc_bus_none_when_only_invalid() {
    let text = "Invalid display\n   I2C bus: /dev/i2c-10\n";
    assert_eq!(parse_ddc_bus(text), None);
}

#[test]
fn ddc_bus_ignores_case_of_invalid_and_bad_numbers() {
    assert_eq!(parse_ddc_bus("INVALID DISPLAY\nI2C bus: /dev/i2c-1\n"), None);
    assert_eq!(parse_ddc_bus("I2C bus: /dev/i2c-x\nI2C bus: 7\n"), Some(7));
    assert_eq!(parse_ddc_bus("I2C bus: /dev/i2c-4294967296\n"), None);
    assert_eq!(parse_ddc_bus(""), None);
}

#[test]
fn vcp_terse_parses_continuous_value() {
    assert_eq!(parse_vcp_terse("VCP 10 C 7 100\n"), Some((7, 100)));
    assert_eq!(parse_vcp_terse("noise\nVCP 10 C 42 100\n"), Some((42, 100)));
    assert_eq!(parse_vcp_terse("VCP 60 C 3\n"), None);
}

#[test]
fn vcp_terse_gives_up_at_first_bad_report() {
    assert_eq!(parse_vcp_terse("VCP 10 C x 100\nVCP 10 C 42 100\n"), None);
    assert_eq!(parse_vcp_terse("VCP 10 C 1 -1\n"), None);
    assert_eq!(parse_vcp_terse("VCP 10 C +1 2 more\n"), Some((1, 2)));
}

#[test]
fn ddcutil_is_called_with_the_bus() {
    assert_eq!(Brightness::detect_args(), vec!["detect", "--brief"]);
    let display = Brightness::detect(Some("Display 1\n I2C bus: /dev/i2c-5\n")).unwrap();
    assert_eq!(display.bus, 5);
    assert_eq!(
        display.read_args(),
        vec!["--bus", "5", "getvcp", "10", "--terse", "--sleep-multiplier", "0.1"]
    );
    assert_eq!(
        display.set_args(42),
        vec!["--bus", "5", "setvcp", "10", "42", "--sleep-multiplier", "0.1", "--noverify"]
    );
    assert_eq!(Brightness::read(Some("VCP 10 C 7 100")), Some((7, 100)));
    assert_eq!(Brightness::read(None), None);
    assert!(Brightness::detect(None).is_none());
    assert!(Brightness::detect(Some("no displays found")).is_none());
}

const SAMPLE: &str = "\
general {
    lock_cmd = pidof hyprlock || hyprlock
    before_sleep_cmd = loginctl lock-session
}

# 10 分钟无操作：触发锁屏
listener {
    timeout = 10000
    on-timeout = loginctl lock-session
}

# 30 分钟无操作：系统挂起休眠
listener {
    timeout = 20000
    on-timeout = systemctl suspend
}
";

#[test]
fn parse_listeners_classifies() {
    let lines: Vec<&str> = SAMPLE.lines().collect();
    let ls = parse_listeners(&lines);
    assert_eq!(ls.len(), 2);
    assert_eq!(ls[0].on_timeout, "loginctl lock-session");
    assert_eq!(ls[1].on_timeout, "systemctl suspend");
    assert_eq!(read_listener_secs(SAMPLE, "systemctl suspend"), Some(20000));
}

#[test]
fn listeners_have_their_places() {
    let lines: Vec<&str> = SAMPLE.lines().collect();
    let ls = parse_listeners(&lines);
    assert_eq!((ls[0].start, ls[0].end, ls[0].timeout_line), (6, 9, Some(7)));
    assert_eq!((ls[1].start, ls[1].end, ls[1].timeout_line), (12, 15, Some(13)));
    let open = ["listener {", "on-timeout = a = b", "timeout = 3", "timeout = 4", "x"];
    let ls = parse_listeners(&open);
    assert_eq!(ls.len(), 1);
    assert_eq!((ls[0].start, ls[0].end, ls[0].timeout_line), (0, 4, Some(3)));
    assert_eq!(ls[0].on_timeout, "a = b");
    assert_eq!(parse_listeners(&["listener {"])[0].end, 0);
    assert!(parse_listeners(&["listener", "# listener {"]).is_empty());
}

#[test]
fn rewrite_updates_sleep_and_appends_screen_off() {
    let out = rewrite_idle_config(SAMPLE, 600, 1800);
    // the sleep time is 1800 now, and the comment stays
    assert!(out.contains("# 30 分钟无操作：系统挂起休眠"));
    assert!(out.contains("timeout = 1800"));
    assert!(!out.contains("timeout = 20000"));
    // the listener that locks is as it was
    assert!(out.contains("timeout = 10000"));
    // there is a listener for the screen
    assert!(out.contains("power-off-monitors"));
    assert!(out.contains("power-on-monitors"));
    assert!(out.contains("timeout = 600"));
    assert_eq!(read_listener_secs(&out, "power-off-monitors"), Some(600));
    assert_eq!(read_listener_secs(&out, "systemctl suspend"), Some(1800));
}

#[test]
fn rewrite_is_idempotent_and_updates_existing_screen_off() {
    let once = rewrite_idle_config(SAMPLE, 600, 1800);
    let twice = rewrite_idle_config(&once, 900, 1800);
    // nothing is appended again
    assert_eq!(twice.matches("power-off-monitors").count(), 1);
    assert_eq!(read_listener_secs(&twice, "power-off-monitors"), Some(900));
}

#[test]
fn rewrite_of_the_same_times_changes_nothing() {
    let once = rewrite_idle_config(SAMPLE, 600, 1800);
    assert_eq!(rewrite_idle_config(&once, 600, 1800), once);
    let of_nothing = rewrite_idle_config("", 60, 120);
    assert_eq!(
        of_nothing,
        "# 熄屏（由 info-setting 管理）\nlistener {\n    timeout = 60\n    \
         on-timeout = niri msg action power-off-monitors\n    \
         on-resume = niri msg action power-on-monitors\n}\n"
    );
    assert_eq!(rewrite_idle_config(&of_nothing, 60, 120), of_nothing);
}

#[test]
fn lines_keep_their_own_ends() {
    let added = "\n# 熄屏（由 info-setting 管理）\nlistener {\n    timeout = 60\n    \
                 on-timeout = niri msg action power-off-monitors\n    \
                 on-resume = niri msg action power-on-monitors\n}\n";
    assert_eq!(rewrite_idle_config("# a\r\n", 60, 120), format!("# a\r\n{added}"));
    assert_eq!(rewrite_idle_config("a\r\r\nb\r\n", 60, 120), format!("a\r\r\nb\r\n{added}"));
    // a line without an end gets one only where lines follow it
    assert_eq!(rewrite_idle_config("# a", 60, 120), format!("# a\n{added}"));
    let timed = "listener {\r\n  timeout = 1\r\n  on-timeout = power-off-monitors\r\n}";
    let once = rewrite_idle_config(timed, 60, 120);
    assert_eq!(once, timed.replace("= 1\r", "= 60\r"));
    assert_eq!(rewrite_idle_config(&once, 60, 120), once);
    // a line that is put in ends in a line feed alone
    assert_eq!(
        rewrite_idle_config("listener {\r\non-timeout = power-off-monitors\r\n}", 60, 120),
        "listener {\r\n    timeout = 60\non-timeout = power-off-monitors\r\n}"
    );
}

#[test]
fn what_already_says_so_stays_as_it_is() {
    let config = "x\r\n\nlistener {\r\n\ttimeout = 5\n on-timeout = power-off-monitors\n}\r\n\
                  listener {\n timeout = 60\r\r\n on-timeout = systemctl suspend\n}\ny\r";
    let once = rewrite_idle_config(config, 5, 60);
    assert_eq!(
        once,
        config.replace("\ttimeout", " timeout").replace("60\r\r\n", "60\r\n")
    );
    assert_eq!(rewrite_idle_config(&once, 5, 60), once);
}

#[test]
fn the_last_times_win() {
    for config in [
        SAMPLE,
        "",
        "# a\r\n",
        "listener {\non-timeout = systemctl suspend\n}\nlistener {\non-timeout = power-off-monitors\n}",
        "listener {\r\n  timeout = 1\n  on-timeout = power-off-monitors; systemctl suspend\r\n}",
    ] {
        let once = rewrite_idle_config(config, 60, 120);
        assert_eq!(
            rewrite_idle_config(&once, 600, 1800),
            rewrite_idle_config(config, 600, 1800)
        );
    }
}

#[test]
fn rewrite_keeps_every_other_line() {
    let out = rewrite_idle_config(SAMPLE, 600, 1800);
    let expected = SAMPLE.replace("timeout = 20000", "timeout = 1800")
        + "\n# 熄屏（由 info-setting 管理）\nlistener {\n    timeout = 600\n    \
           on-timeout = niri msg action power-off-monitors\n    \
           on-resume = niri msg action power-on-monitors\n}\n";
    assert_eq!(out, expected);
}

#[test]
fn one_listener_for_both_commands_gets_the_sleep_time() {
    let config = "listener {\n  timeout = 1\n  on-timeout = power-off-monitors; systemctl suspend\n}\n";
    let out = rewrite_idle_config(config, 60, 120);
    assert_eq!(read_listener_secs(&out, "power-off-monitors"), Some(120));
    assert_eq!(read_listener_secs(&out, "systemctl suspend"), Some(120));
}

#[test]
fn a_listener_without_timeout_gets_one() {
    let mut lines = vec![
        "  listener {".to_string(),
        "on-timeout = systemctl suspend".to_string(),
        "}".to_string(),
    ];
    assert!(set_listener_timeout(&mut lines, "suspend", 9));
    assert_eq!(
        lines,
        vec!["  listener {", "    timeout = 9", "on-timeout = systemctl suspend", "}"]
    );
    lines[1] = "\ttimeout=3".to_string();
    assert!(set_listener_timeout(&mut lines, "suspend", 10));
    assert_eq!(lines[1], " timeout = 10");
    assert!(!set_listener_timeout(&mut lines, "hibernate", 10));
    assert_eq!(lines.len(), 4);
}

#[test]
fn screen_off_is_set_apart_from_what_stands_before() {
    let mut lines = vec!["x".to_string()];
    append_screen_off(&mut lines, 5);
    assert_eq!(lines[1], "");
    assert_eq!(lines[4], "    timeout = 5");
    assert_eq!(lines.len(), 8);
    let mut lines = vec![" ".to_string()];
    append_screen_off(&mut lines, 5);
    assert_eq!(lines.len(), 7);
}

#[test]
fn seconds_are_read_only_where_they_are_numbers() {
    assert_eq!(read_listener_secs(SAMPLE, "hibernate"), None);
    assert_eq!(read_listener_secs("listener {\ntimeout 5\non-timeout = a\n}\n", "a"), None);
    assert_eq!(read_listener_secs("listener {\ntimeout = 5s\non-timeout = a\n}\n", "a"), None);
    assert_eq!(read_listener_secs("listener {\non-timeout = a\n}\n", "a"), None);
    assert_eq!(read_listener_secs("listener {\r\ntimeout = 5\r\non-timeout = a\r\n}\r\n", "a"), Some(5));
    assert_eq!(read_listener_secs("listener {\ntimeout = 4294967296\non-timeout = a\n}", "a"), None);
}

#[test]
fn helpers_round_trip() {
    assert_eq!(shift(5, -10, 1, 240), 1);
    assert_eq!(shift(239, 10, 1, 240), 240);
    assert_eq!(fmt_minutes(45), "45 分钟");
    assert_eq!(fmt_minutes(120), "2 小时");
    assert_eq!(fmt_minutes(166), "2小时46分");
}

#[test]
fn minutes_turn_into_hours_at_sixty() {
    assert_eq!(fmt_minutes(0), "0 分钟");
    assert_eq!(fmt_minutes(59), "59 分钟");
    assert_eq!(fmt_minutes(60), "1 小时");
    assert_eq!(fmt_minutes(61), "1小时1分");
    assert_eq!(shift(5, 3, 1, 240), 8);
    assert_eq!(shift(u32::MAX, i64::MIN, 0, 7), 0);
}

#[test]
fn the_last_timeout_wins() {
    let start: Vec<String> = ["listener {", "on-timeout = a b", "}", "listener {", "\ttimeout=1", "on-timeout = c", "}"]
        .iter()
        .map(|s| s.to_string())
        .collect();
    for needle in ["a", "c", " ", "none"] {
        let mut twice = start.clone();
        let mut once = start.clone();
        let first = set_listener_timeout(&mut twice, needle, 7);
        assert_eq!(set_listener_timeout(&mut twice, needle, 90), first);
        assert_eq!(set_listener_timeout(&mut once, needle, 90), first);
        assert_eq!(twice, once);
        let read = read_listener_secs(&(once.join("\n") + "\n"), needle);
        assert_eq!(read, if first { Some(90) } else { None });
    }
}

#[test]
fn screen_off_adds_one_listener() {
    let mut lines: Vec<String> = SAMPLE.lines().map(String::from).collect();
    let before = parse_listeners(&SAMPLE.lines().collect::<Vec<&str>>());
    append_screen_off(&mut lines, 5);
    let n = lines.len();
    let after = parse_listeners(&lines.iter().map(String::as_str).collect::<Vec<&str>>());
    assert_eq!(after.len(), before.len() + 1);
    assert_eq!(after[..before.len()], before[..]);
    let added = &after[before.len()];
    assert_eq!((added.start, added.end, added.timeout_line), (n - 5, n - 1, Some(n - 4)));
    assert_eq!(added.on_timeout, "niri msg action power-off-monitors");
    // a block that was never closed swallows the one that is added
    let mut open: Vec<String> = vec!["listener {".to_string(), "on-timeout = a".to_string()];
    append_screen_off(&mut open, 5);
    let found = parse_listeners(&open.iter().map(String::as_str).collect::<Vec<&str>>());
    assert_eq!(found.len(), 1);
    assert_eq!((found[0].start, found[0].timeout_line), (0, Some(open.len() - 4)));
}
