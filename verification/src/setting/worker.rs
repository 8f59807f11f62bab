//! What the workers behind the settings screen do with a request, and what they report.

use vstd::prelude::*;

use crate::number;
use crate::setting::{idle, Brightness, Msg};
use crate::text;

verus! {

/// The text of a message, and whether it is about an error.
pub open spec fn said(m: Msg) -> (Seq<char>, bool) {
    match m {
        Msg::Info(s) => (s@, false),
        Msg::Error(s) => (s@, true),
    }
}

/// What a message says is its text, and only an error is told to be one.
pub proof fn law_messages(s: String)
    ensures
        said(Msg::Info(s)) == (s@, false),
        said(Msg::Error(s)) == (s@, true),
{
}

/// The arguments with which `ddcutil` is called for a brightness; none without a display.
pub fn brightness_job(backend: Option<Brightness>, value: u32) -> (args: Option<Vec<String>>)
    ensures
        args is Some <==> backend is Some,
        args matches Some(a) ==> text::texts(a@) == seq![
            "--bus"@,
            number::decimal(backend->0.bus as nat),
            "setvcp"@,
            "10"@,
            number::decimal(value as nat),
            "--sleep-multiplier"@,
            "0.1"@,
            "--noverify"@,
        ],
{
    match backend {
        Some(b) => Some(b.set_args(value)),
        None => None,
    }
}

/// What is wrong when `ddcutil` ended with a status other than success.
pub fn exit_error(status: &str) -> (s: String)
    ensures
        s@ == "ddcutil 退出码 "@ + status@,
{
    let mut s = "ddcutil 退出码 ".to_string();
    s.append(status);
    s
}

/// The report after the brightness was set, or after the error that kept it from being set.
pub fn brightness_message(value: u32, error: Option<&str>) -> (m: Msg)
    ensures
        said(m) == match error {
            None => ("亮度已设为 "@ + number::decimal(value as nat) + "%"@, false),
            Some(e) => ("亮度设置失败："@ + e@, true),
        },
{
    match error {
        None => {
            let mut s = "亮度已设为 ".to_string();
            number::append_decimal(&mut s, value as u64);
            s.append("%");
            Msg::Info(s)
        },
        Some(e) => {
            let mut s = "亮度设置失败：".to_string();
            s.append(e);
            Msg::Error(s)
        },
    }
}

/// The report after the times were written, or after the error that kept them from being written.
pub fn idle_message(screen_off_min: u32, sleep_min: u32, error: Option<&str>) -> (m: Msg)
    ensures
        said(m) == match error {
            None => (
                "已应用：熄屏 "@ + number::decimal(screen_off_min as nat) + " 分钟 · 睡眠 "@
                    + number::decimal(sleep_min as nat) + " 分钟"@,
                false,
            ),
            Some(e) => ("写入 hypridle 配置失败："@ + e@, true),
        },
{
    match error {
        None => {
            let mut s = "已应用：熄屏 ".to_string();
            number::append_decimal(&mut s, screen_off_min as u64);
            s.append(" 分钟 · 睡眠 ");
            number::append_decimal(&mut s, sleep_min as u64);
            s.append(" 分钟");
            Msg::Info(s)
        },
        Some(e) => {
            let mut s = "写入 hypridle 配置失败：".to_string();
            s.append(e);
            Msg::Error(s)
        },
    }
}

/// A configuration that is to be written.
#[derive(Debug)]
pub struct Rewrite {
    pub text: String,
    /// Whether the configuration as it is has to be saved first.
    pub backup: bool,
}

/// The configuration to write for the times in minutes; none where it says so already. What was
/// there at first is saved, and only that.
pub fn idle_job(config: &str, screen_off_min: u32, sleep_min: u32, backup_exists: bool) -> (r: Option<
    Rewrite,
>)
    requires
        screen_off_min * 60 <= u32::MAX,
        sleep_min * 60 <= u32::MAX,
    ensures
        r is None <==> idle::rewritten(
            config@,
            screen_off_min as nat * 60,
            sleep_min as nat * 60,
        ) == config@,
        r matches Some(w) ==> {
            &&& w.text@ == idle::rewritten(
                config@,
                screen_off_min as nat * 60,
                sleep_min as nat * 60,
            )
            &&& w.backup == !backup_exists
        },
{
    let new_text: String = idle::rewrite_idle_config(config, screen_off_min * 60, sleep_min * 60);
    if text::same_text(new_text.as_str(), config) {
        None
    } else {
        Some(Rewrite { text: new_text, backup: !backup_exists })
    }
}

/// Of requests that came one after the other, the last is the one to carry out.
pub fn newest<T: Copy>(first: T, later: &Vec<T>) -> (r: T)
    ensures
        r == if later@.len() == 0 {
            first
        } else {
            later@.last()
        },
{
    if later.len() == 0 {
        first
    } else {
        later[later.len() - 1]
    }
}

} // verus!
