//! Log entries: how an entry reads, whether its level is posted to the log
//! channel, and what goes to the log file.  Posting and writing are done by
//! the caller with what `Logger::plan` returns.
use vstd::prelude::*;
use crate::text::{chars_of, decimal, push_all, push_decimal, replace_all, replace_str, signed_decimal, string_of};

verus! {

/// How important a log entry is.
#[derive(PartialEq, Eq, Structural, Clone, Copy, Debug)]
pub enum LoggingLevels {
    Low,
    Medium,
    High,
    Debug,
    Error,
}

/// Whether entries of each level are posted to the log channel; a level
/// that is not set is posted.
#[derive(Clone, Copy, Debug)]
pub struct LoggingConfig {
    pub low: Option<bool>,
    pub medium: Option<bool>,
    pub high: Option<bool>,
    pub debug: Option<bool>,
    pub error: Option<bool>,
}

/// The setting of `level` in `cfg`.
pub open spec fn level_setting(cfg: LoggingConfig, level: LoggingLevels) -> Option<bool> {
    match level {
        LoggingLevels::Low => cfg.low,
        LoggingLevels::Medium => cfg.medium,
        LoggingLevels::High => cfg.high,
        LoggingLevels::Debug => cfg.debug,
        LoggingLevels::Error => cfg.error,
    }
}

/// Whether entries of `level` are posted: as set, or yes when unset.
pub open spec fn level_enabled(cfg: LoggingConfig, level: LoggingLevels) -> bool {
    match level_setting(cfg, level) {
        Some(b) => b,
        None => true,
    }
}

/// Whether an entry is posted depends on the setting of its own level
/// alone: it is posted unless that setting is explicitly off.
pub proof fn law_each_level_follows_its_own_setting(cfg: LoggingConfig)
    ensures
        level_enabled(cfg, LoggingLevels::Low) == (cfg.low != Some(false)),
        level_enabled(cfg, LoggingLevels::Medium) == (cfg.medium != Some(false)),
        level_enabled(cfg, LoggingLevels::High) == (cfg.high != Some(false)),
        level_enabled(cfg, LoggingLevels::Debug) == (cfg.debug != Some(false)),
        level_enabled(cfg, LoggingLevels::Error) == (cfg.error != Some(false)),
{
}

/// The prefix that names a level in an entry; the important ones in bold.
pub open spec fn level_prefix(level: LoggingLevels) -> Seq<char> {
    match level {
        LoggingLevels::Low => "Low"@,
        LoggingLevels::Medium => "**Medium**"@,
        LoggingLevels::High => "**High**"@,
        LoggingLevels::Debug => "Debug"@,
        LoggingLevels::Error => "**Error**"@,
    }
}

/// The template with `%prefix%`, `%time%`, `%author%` and `%content%`
/// replaced, in that order.
pub open spec fn render(
    template: Seq<char>,
    prefix: Seq<char>,
    time: Seq<char>,
    author: Seq<char>,
    content: Seq<char>,
) -> Seq<char> {
    replace_all(
        replace_all(
            replace_all(replace_all(template, "%prefix%"@, prefix), "%time%"@, time),
            "%author%"@,
            author,
        ),
        "%content%"@,
        content,
    )
}

/// A text without its bold markers (`**`), as written to the log file.
pub open spec fn unbolded(text: Seq<char>) -> Seq<char> {
    replace_all(text, "**"@, Seq::empty())
}

/// `year-month-day, hour:minute:second`, the numbers without padding.
pub open spec fn time_text(year: i64, month: u32, day: u32, hour: u32, minute: u32, second: u32) -> Seq<char> {
    signed_decimal(year as int) + "-"@ + decimal(month as nat) + "-"@ + decimal(day as nat) + ", "@
        + decimal(hour as nat) + ":"@ + decimal(minute as nat) + ":"@ + decimal(second as nat)
}

/// `logs/day-month-year.txt`, the file that the entries of a day go to.
pub open spec fn log_file_name(day: u32, month: u32, year: i64) -> Seq<char> {
    "logs/"@ + decimal(day as nat) + "-"@ + decimal(month as nat) + "-"@ + signed_decimal(year as int)
        + ".txt"@
}

/// `**[prefix]** (time) <author>: content`, a notification.
pub open spec fn notify_line(prefix: Seq<char>, time: Seq<char>, author: Seq<char>, content: Seq<char>) -> Seq<char> {
    "**["@ + prefix + "]** ("@ + time + ") <"@ + author + ">: "@ + content
}

/// What to do with one log entry.
pub struct LogPlan {
    /// The text to post to the log channel, when the level is posted.
    pub channel_text: Option<String>,
    /// The line for the log file.
    pub file_text: String,
    /// Whether the entry is an error, which stops a debug build.
    pub is_error: bool,
}

/// The log settings and the template of an entry.
pub struct Logger {
    pub settings: LoggingConfig,
    pub logging_template: String,
}

fn push_str(out: &mut Vec<char>, s: &str)
    ensures
        final(out)@ == old(out)@ + s@,
{
    let v = chars_of(s);
    push_all(out, &v);
}

fn push_signed(out: &mut Vec<char>, n: i64)
    ensures
        final(out)@ == old(out)@ + signed_decimal(n as int),
{
    if n < 0 {
        out.push('-');
        let m: u64 = if n == i64::MIN {
            9223372036854775808u64
        } else {
            (-n) as u64
        };
        let ghost mid = out@;
        push_decimal(out, m);
        assert(out@ =~= old(out)@ + signed_decimal(n as int));
    } else {
        push_decimal(out, n as u64);
    }
}

/// The prefix of `level` (see `level_prefix`).
pub fn prefix_of(level: LoggingLevels) -> (r: &'static str)
    ensures
        r@ == level_prefix(level),
{
    match level {
        LoggingLevels::Low => "Low",
        LoggingLevels::Medium => "**Medium**",
        LoggingLevels::High => "**High**",
        LoggingLevels::Debug => "Debug",
        LoggingLevels::Error => "**Error**",
    }
}

/// Fills a template (see `render`).
pub fn render_exec(template: &str, prefix: &str, time: &str, author: &str, content: &str) -> (r: String)
    ensures
        r@ == render(template@, prefix@, time@, author@, content@),
{
    proof {
        reveal_strlit("%prefix%");
        reveal_strlit("%time%");
        reveal_strlit("%author%");
        reveal_strlit("%content%");
    }
    let a = replace_str(template, "%prefix%", prefix);
    let b = replace_str(a.as_str(), "%time%", time);
    let c = replace_str(b.as_str(), "%author%", author);
    replace_str(c.as_str(), "%content%", content)
}

/// Drops the bold markers (see `unbolded`).
pub fn unbold(text: &str) -> (r: String)
    ensures
        r@ == unbolded(text@),
{
    proof {
        reveal_strlit("**");
        reveal_strlit("");
        assert(""@ =~= Seq::<char>::empty());
    }
    replace_str(text, "**", "")
}

/// The time of an entry (see `time_text`).
pub fn format_time(year: i64, month: u32, day: u32, hour: u32, minute: u32, second: u32) -> (r: String)
    ensures
        r@ == time_text(year, month, day, hour, minute, second),
{
    let mut out: Vec<char> = Vec::new();
    push_signed(&mut out, year);
    push_str(&mut out, "-");
    push_decimal(&mut out, month as u64);
    push_str(&mut out, "-");
    push_decimal(&mut out, day as u64);
    push_str(&mut out, ", ");
    push_decimal(&mut out, hour as u64);
    push_str(&mut out, ":");
    push_decimal(&mut out, minute as u64);
    push_str(&mut out, ":");
    push_decimal(&mut out, second as u64);
    assert(out@ =~= time_text(year, month, day, hour, minute, second));
    string_of(&out)
}

/// The log file of a day (see `log_file_name`).
pub fn file_name(day: u32, month: u32, year: i64) -> (r: String)
    ensures
        r@ == log_file_name(day, month, year),
{
    let mut out: Vec<char> = Vec::new();
    push_str(&mut out, "logs/");
    push_decimal(&mut out, day as u64);
    push_str(&mut out, "-");
    push_decimal(&mut out, month as u64);
    push_str(&mut out, "-");
    push_signed(&mut out, year);
    push_str(&mut out, ".txt");
    assert(out@ =~= log_file_name(day, month, year));
    string_of(&out)
}

/// A notification line (see `notify_line`); `prefix` is the localized
/// notification prefix.
pub fn notify_text(prefix: &str, time: &str, author: &str, content: &str) -> (r: String)
    ensures
        r@ == notify_line(prefix@, time@, author@, content@),
{
    let mut out: Vec<char> = Vec::new();
    push_str(&mut out, "**[");
    push_str(&mut out, prefix);
    push_str(&mut out, "]** (");
    push_str(&mut out, time);
    push_str(&mut out, ") <");
    push_str(&mut out, author);
    push_str(&mut out, ">: ");
    push_str(&mut out, content);
    assert(out@ =~= notify_line(prefix@, time@, author@, content@));
    string_of(&out)
}

impl Logger {
    /// A logger with the given level settings and file template.
    pub fn new(settings: LoggingConfig, logging_template: String) -> (l: Self)
        ensures
            l.settings == settings,
            l.logging_template == logging_template,
    {
        Logger { settings, logging_template }
    }

    /// Whether entries of `level` are posted (see `level_enabled`).
    pub fn enabled(&self, level: LoggingLevels) -> (r: bool)
        ensures
            r == level_enabled(self.settings, level),
    {
        let setting = match level {
            LoggingLevels::Low => self.settings.low,
            LoggingLevels::Medium => self.settings.medium,
            LoggingLevels::High => self.settings.high,
            LoggingLevels::Debug => self.settings.debug,
            LoggingLevels::Error => self.settings.error,
        };
        match setting {
            Some(b) => b,
            None => true,
        }
    }

    /// The text of an entry of `level` by `author`, written at `time`.
    pub fn entry_text(&self, level: LoggingLevels, time: &str, author: &str, content: &str) -> (r: String)
        ensures
            r@ == render(self.logging_template@, level_prefix(level), time@, author@, content@),
    {
        render_exec(self.logging_template.as_str(), prefix_of(level), time, author, content)
    }

    /// The file line written when posting an entry failed with `error`.
    pub fn delivery_failure_text(&self, time: &str, error: &str) -> (r: String)
        ensures
            r@ == unbolded(render(self.logging_template@, "Error"@, time@, "logger.log"@, error@)),
    {
        let t = render_exec(self.logging_template.as_str(), "Error", time, "logger.log", error);
        unbold(t.as_str())
    }

    /// What to do with an entry: post its text when its level is posted,
    /// write it without bold markers to the log file, and treat it as an
    /// error when its level is `Error`.
    pub fn plan(&self, level: LoggingLevels, time: &str, author: &str, content: &str) -> (p: LogPlan)
        ensures
            ({
                let text = render(self.logging_template@, level_prefix(level), time@, author@, content@);
                &&& level_enabled(self.settings, level) ==> p.channel_text is Some && p.channel_text->0@ == text
                &&& !level_enabled(self.settings, level) ==> p.channel_text is None
                &&& p.file_text@ == unbolded(text)
                &&& p.is_error == (level == LoggingLevels::Error)
            }),
    {
        let text = self.entry_text(level, time, author, content);
        let file_text = unbold(text.as_str());
        let channel_text = if self.enabled(level) {
            Some(text)
        } else {
            None
        };
        LogPlan { channel_text, file_text, is_error: level == LoggingLevels::Error }
    }
}

/// Where notifications go, as the configuration names it.
#[derive(PartialEq, Eq, Structural, Clone, Copy, Debug)]
pub enum NotifyPlace {
    Thread,
    Channel,
}

/// The place that the configuration's word `kind` names: `thread` or
/// `channel`; `None` for any other word.
pub fn notify_place(kind: &str) -> (r: Option<NotifyPlace>)
    ensures
        r == if kind@ == "thread"@ {
            Some(NotifyPlace::Thread)
        } else if kind@ == "channel"@ {
            Some(NotifyPlace::Channel)
        } else {
            None
        },
{
    let k = String::from_str(kind);
    if k == String::from_str("thread") {
        Some(NotifyPlace::Thread)
    } else if k == String::from_str("channel") {
        Some(NotifyPlace::Channel)
    } else {
        None
    }
}

} // verus!
