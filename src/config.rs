//! The retention policy and its parsing from `key=value` text.

use vstd::prelude::*;
use crate::text::{
    find_char, find_from, int_in_range, parse_i32, parse_u32,
    parse_u64, parse_usize, same_text,
};

verus! {

/// A value that can describe itself to an operator.
pub trait ErrorDisplay: Sized {
    fn display(self) -> String;
}

/// How long a dated entry is kept.
#[derive(Clone, Copy, Debug, PartialEq, Eq, Structural)]
pub enum Retention {
    Unknown,
    Days(i32),
}

#[derive(Clone, Copy, Debug, PartialEq, Eq, Structural)]
pub enum RetentionError {
    InvalidMeasurement,
    InvalidValue,
}

/// The time of day given to an entry whose name holds a date only.
#[derive(Clone, Copy, Debug, PartialEq, Eq, Structural)]
pub enum DateOnlyBehavior {
    Start,
    Noon,
    End,
    Hour(u32),
}

#[derive(Clone, Copy, Debug, PartialEq, Eq, Structural)]
pub enum DateOnlyBehaviorError {
    InvalidHour,
}

/// Verbosity, from most to least: `Debug`, `Info`, `Error`, `Silent`.
#[derive(Clone, Copy, Debug, PartialEq, Eq, Structural)]
pub enum LogLevel {
    Debug,
    Info,
    Error,
    Silent,
}

#[derive(Clone, Copy, Debug, PartialEq, Eq, Structural)]
pub enum ConfigError {
    CannotOpenFile,
    NoFormat,
    NoRetention,
    InvalidKey,
    InvalidRetention(RetentionError),
    InvalidRefresh,
    InvalidSpaceSplit,
    InvalidDateOnlyBehavior(DateOnlyBehaviorError),
}

/// `n` followed by the unit `d`; the prefix is a signed 32-bit integer.
pub open spec fn retention_spec(s: Seq<char>) -> Result<Retention, RetentionError> {
    if s.len() == 0 || s.last() != 'd' {
        Err(RetentionError::InvalidMeasurement)
    } else {
        match int_in_range(s.drop_last(), true, i32::MIN as int, i32::MAX as int) {
            Some(n) => Ok(Retention::Days(n as i32)),
            None => Err(RetentionError::InvalidValue),
        }
    }
}

/// `h<n>` is the hour `n`; `start`, `noon` and `end` name themselves; anything
/// else falls back to `Start`.
pub open spec fn date_only_behavior_spec(s: Seq<char>) -> Result<DateOnlyBehavior, DateOnlyBehaviorError> {
    if s.len() > 0 && s[0] == 'h' {
        match int_in_range(s.drop_first(), false, 0, u32::MAX as int) {
            Some(n) => Ok(DateOnlyBehavior::Hour(n as u32)),
            None => Err(DateOnlyBehaviorError::InvalidHour),
        }
    } else if s == "start"@ {
        Ok(DateOnlyBehavior::Start)
    } else if s == "noon"@ {
        Ok(DateOnlyBehavior::Noon)
    } else if s == "end"@ {
        Ok(DateOnlyBehavior::End)
    } else {
        Ok(DateOnlyBehavior::Start)
    }
}

/// The four level names; anything else is `Info`.
pub open spec fn log_level_spec(s: Seq<char>) -> LogLevel {
    if s == "debug"@ {
        LogLevel::Debug
    } else if s == "info"@ {
        LogLevel::Info
    } else if s == "error"@ {
        LogLevel::Error
    } else if s == "silent"@ {
        LogLevel::Silent
    } else {
        LogLevel::Info
    }
}

/// Position of a level in the verbosity order: higher shows more.
pub open spec fn verbosity(l: LogLevel) -> int {
    match l {
        LogLevel::Silent => 0,
        LogLevel::Error => 1,
        LogLevel::Info => 2,
        LogLevel::Debug => 3,
    }
}

impl Retention {
    pub fn from_string(data: &str) -> (r: Result<Retention, RetentionError>)
        ensures
            r == retention_spec(data@),
    {
        let n = data.unicode_len();
        if n == 0 || data.get_char(n - 1) != 'd' {
            return Err(RetentionError::InvalidMeasurement);
        }
        let prefix = data.substring_char(0, n - 1);
        assert(prefix@ =~= data@.drop_last());
        match parse_i32(prefix) {
            Some(v) => Ok(Retention::Days(v)),
            None => Err(RetentionError::InvalidValue),
        }
    }
}

impl DateOnlyBehavior {
    pub fn from_string(s: &str) -> (r: Result<DateOnlyBehavior, DateOnlyBehaviorError>)
        ensures
            r == date_only_behavior_spec(s@),
    {
        let n = s.unicode_len();
        if n > 0 && s.get_char(0) == 'h' {
            let rest = s.substring_char(1, n);
            assert(rest@ =~= s@.drop_first());
            return match parse_u32(rest) {
                Some(h) => Ok(DateOnlyBehavior::Hour(h)),
                None => Err(DateOnlyBehaviorError::InvalidHour),
            };
        }
        if same_text(s, "start") {
            Ok(DateOnlyBehavior::Start)
        } else if same_text(s, "noon") {
            Ok(DateOnlyBehavior::Noon)
        } else if same_text(s, "end") {
            Ok(DateOnlyBehavior::End)
        } else {
            Ok(DateOnlyBehavior::Start)
        }
    }

    /// A time of day exists for this behaviour (an hour below 24).
    pub open spec fn is_valid(&self) -> bool {
        match self {
            DateOnlyBehavior::Hour(h) => *h < 24,
            _ => true,
        }
    }

    /// Seconds after midnight of the time of day given to a date-only entry.
    pub open spec fn second_of_day(&self) -> int {
        match self {
            DateOnlyBehavior::Start => 0int,
            DateOnlyBehavior::Noon => 43200int,
            DateOnlyBehavior::End => 86399int,
            DateOnlyBehavior::Hour(h) => *h as int * 3600,
        }
    }
}

impl LogLevel {
    pub fn from_string(v: &str) -> (r: LogLevel)
        ensures
            r == log_level_spec(v@),
    {
        if same_text(v, "debug") {
            LogLevel::Debug
        } else if same_text(v, "info") {
            LogLevel::Info
        } else if same_text(v, "error") {
            LogLevel::Error
        } else if same_text(v, "silent") {
            LogLevel::Silent
        } else {
            LogLevel::Info
        }
    }

    pub fn show_info(&self) -> (r: bool)
        ensures
            r == (verbosity(*self) >= verbosity(LogLevel::Info)),
    {
        matches!(self, LogLevel::Info | LogLevel::Debug)
    }

    pub fn show_error(&self) -> (r: bool)
        ensures
            r == (verbosity(*self) >= verbosity(LogLevel::Error)),
    {
        matches!(self, LogLevel::Error | LogLevel::Info | LogLevel::Debug)
    }

    pub fn show_debug(&self) -> (r: bool)
        ensures
            r == (verbosity(*self) >= verbosity(LogLevel::Debug)),
    {
        matches!(self, LogLevel::Debug)
    }
}

/// The policy that one cycle works under.
pub struct Config {
    pub format: Vec<String>,
    pub retention: Retention,
    pub deep: bool,
    pub refresh: u64,
    pub remove: Vec<String>,
    pub log: LogLevel,
    pub split_string: Option<String>,
    pub split_join: String,
    pub split_indicies: Vec<usize>,
    pub date_only_behavior: DateOnlyBehavior,
}

/// A `Config` with its strings seen as character sequences.
pub struct ConfigView {
    pub format: Seq<Seq<char>>,
    pub retention: Retention,
    pub deep: bool,
    pub refresh: u64,
    pub remove: Seq<Seq<char>>,
    pub log: LogLevel,
    pub split_string: Option<Seq<char>>,
    pub split_join: Seq<char>,
    pub split_indicies: Seq<usize>,
    pub date_only_behavior: DateOnlyBehavior,
}

pub open spec fn strings_view(v: Seq<String>) -> Seq<Seq<char>> {
    v.map_values(|s: String| s@)
}

impl View for Config {
    type V = ConfigView;

    open spec fn view(&self) -> ConfigView {
        ConfigView {
            format: strings_view(self.format@),
            retention: self.retention,
            deep: self.deep,
            refresh: self.refresh,
            remove: strings_view(self.remove@),
            log: self.log,
            split_string: match self.split_string {
                Some(s) => Some(s@),
                None => None,
            },
            split_join: self.split_join@,
            split_indicies: self.split_indicies@,
            date_only_behavior: self.date_only_behavior,
        }
    }
}

/// The policy before any line is read.
pub open spec fn default_config() -> ConfigView {
    ConfigView {
        format: Seq::empty(),
        retention: Retention::Unknown,
        deep: true,
        refresh: 360,
        remove: Seq::empty(),
        log: LogLevel::Info,
        split_string: None,
        split_join: Seq::empty(),
        split_indicies: Seq::empty(),
        date_only_behavior: DateOnlyBehavior::Start,
    }
}

/// Key and value of a line: the text before the first `=`, and the text
/// between it and the next `=` (or the end). No pair without an `=`.
pub open spec fn line_pair(l: Seq<char>) -> Option<(Seq<char>, Seq<char>)> {
    let e1 = find_from(l, '=', 0);
    if e1 >= l.len() {
        None
    } else {
        let e2 = find_from(l, '=', e1 + 1);
        Some((l.subrange(0, e1), l.subrange(e1 + 1, e2)))
    }
}

/// One key/value pair applied to the policy, or the error that it raises.
pub open spec fn patch_spec(c: ConfigView, key: Seq<char>, value: Seq<char>) -> Result<ConfigView, ConfigError> {
    if key == "format"@ {
        Ok(ConfigView { format: c.format.push(value), ..c })
    } else if key == "retention"@ {
        match retention_spec(value) {
            Ok(r) => Ok(ConfigView { retention: r, ..c }),
            Err(e) => Err(ConfigError::InvalidRetention(e)),
        }
    } else if key == "deep"@ {
        Ok(ConfigView { deep: value == "true"@, ..c })
    } else if key == "refresh"@ {
        match int_in_range(value, false, 0, u64::MAX as int) {
            Some(n) => Ok(ConfigView { refresh: n as u64, ..c }),
            None => Err(ConfigError::InvalidRefresh),
        }
    } else if key == "remove"@ {
        Ok(ConfigView { remove: c.remove.push(value), ..c })
    } else if key == "log"@ {
        Ok(ConfigView { log: log_level_spec(value), ..c })
    } else if key == "split_string"@ {
        Ok(ConfigView { split_string: Some(value), ..c })
    } else if key == "split_join"@ {
        Ok(ConfigView { split_join: value, ..c })
    } else if key == "split_index"@ {
        match int_in_range(value, false, 0, usize::MAX as int) {
            Some(n) => Ok(ConfigView { split_indicies: c.split_indicies.push(n as usize), ..c }),
            None => Err(ConfigError::InvalidSpaceSplit),
        }
    } else if key == "date_only_behavior"@ {
        match date_only_behavior_spec(value) {
            Ok(b) => Ok(ConfigView { date_only_behavior: b, ..c }),
            Err(e) => Err(ConfigError::InvalidDateOnlyBehavior(e)),
        }
    } else {
        Err(ConfigError::InvalidKey)
    }
}

/// A line without its trailing carriage return.
pub open spec fn strip_cr(l: Seq<char>) -> Seq<char> {
    if l.len() > 0 && l.last() == '\r' {
        l.drop_last()
    } else {
        l
    }
}

/// The lines of `s` from index `start` on, as `str::lines` gives them: split
/// at `\n`, a `\r` before the `\n` dropped, no empty line after a final `\n`.
pub open spec fn lines_from(s: Seq<char>, start: int) -> Seq<Seq<char>>
    decreases s.len() - start,
{
    if start < 0 || start >= s.len() {
        Seq::empty()
    } else {
        let e = find_from(s, '\n', start);
        if e < start {
            Seq::empty()
        } else if e < s.len() {
            seq![strip_cr(s.subrange(start, e))] + lines_from(s, e + 1)
        } else {
            seq![s.subrange(start, e)]
        }
    }
}

pub open spec fn lines_of(s: Seq<char>) -> Seq<Seq<char>> {
    lines_from(s, 0)
}

/// The lines applied in order to `c`; a line without a pair is skipped, and the
/// first error ends the fold.
pub open spec fn apply_lines(c: ConfigView, lines: Seq<Seq<char>>) -> Result<ConfigView, ConfigError>
    decreases lines.len(),
{
    if lines.len() == 0 {
        Ok(c)
    } else {
        match line_pair(lines[0]) {
            None => apply_lines(c, lines.drop_first()),
            Some((k, v)) => match patch_spec(c, k, v) {
                Ok(c2) => apply_lines(c2, lines.drop_first()),
                Err(e) => Err(e),
            },
        }
    }
}

/// What loading a configuration text gives: the folded policy, refused when
/// it has no format or no retention.
pub open spec fn load_spec(text: Seq<char>) -> Result<ConfigView, ConfigError> {
    match apply_lines(default_config(), lines_of(text)) {
        Err(e) => Err(e),
        Ok(c) => if c.format.len() == 0 {
            Err(ConfigError::NoFormat)
        } else if c.retention is Unknown {
            Err(ConfigError::NoRetention)
        } else {
            Ok(c)
        },
    }
}

impl Config {
    pub fn new() -> (r: Config)
        ensures
            r@ == default_config(),
    {
        let r = Config {
            format: Vec::new(),
            retention: Retention::Unknown,
            deep: true,
            refresh: 360,
            remove: Vec::new(),
            log: LogLevel::Info,
            split_string: None,
            split_join: String::new(),
            split_indicies: Vec::new(),
            date_only_behavior: DateOnlyBehavior::Start,
        };
        assert(r@.format =~= Seq::<Seq<char>>::empty());
        assert(r@.remove =~= Seq::<Seq<char>>::empty());
        r
    }

    pub fn line_k_v(line: &str) -> (r: Option<(String, String)>)
        ensures
            match line_pair(line@) {
                Some((k, v)) => r matches Some((rk, rv)) && rk@ == k && rv@ == v,
                None => r is None,
            },
    {
        let n = line.unicode_len();
        let e1 = find_char(line, '=', 0);
        if e1 >= n {
            return None;
        }
        let e2 = find_char(line, '=', e1 + 1);
        let key = line.substring_char(0, e1).to_string();
        let value = line.substring_char(e1 + 1, e2).to_string();
        Some((key, value))
    }

    pub fn patch(&mut self, key: &str, value: String) -> (r: Result<(), ConfigError>)
        ensures
            match patch_spec(old(self)@, key@, value@) {
                Ok(c) => r is Ok && final(self)@ == c,
                Err(e) => r == Err::<(), ConfigError>(e) && final(self)@ == old(self)@,
            },
    {
        if same_text(key, "format") {
            let ghost before = self.format@;
            self.format.push(value);
            assert(strings_view(self.format@) =~= strings_view(before).push(value@));
        } else if same_text(key, "retention") {
            match Retention::from_string(value.as_str()) {
                Ok(r) => {
                    self.retention = r;
                },
                Err(e) => {
                    return Err(ConfigError::InvalidRetention(e));
                },
            }
        } else if same_text(key, "deep") {
            self.deep = same_text(value.as_str(), "true");
        } else if same_text(key, "refresh") {
            match parse_u64(value.as_str()) {
                Some(n) => {
                    self.refresh = n;
                },
                None => {
                    return Err(ConfigError::InvalidRefresh);
                },
            }
        } else if same_text(key, "remove") {
            let ghost before = self.remove@;
            self.remove.push(value);
            assert(strings_view(self.remove@) =~= strings_view(before).push(value@));
        } else if same_text(key, "log") {
            self.log = LogLevel::from_string(value.as_str());
        } else if same_text(key, "split_string") {
            self.split_string = Some(value);
        } else if same_text(key, "split_join") {
            self.split_join = value;
        } else if same_text(key, "split_index") {
            match parse_usize(value.as_str()) {
                Some(n) => {
                    self.split_indicies.push(n);
                },
                None => {
                    return Err(ConfigError::InvalidSpaceSplit);
                },
            }
        } else if same_text(key, "date_only_behavior") {
            match DateOnlyBehavior::from_string(value.as_str()) {
                Ok(b) => {
                    self.date_only_behavior = b;
                },
                Err(e) => {
                    return Err(ConfigError::InvalidDateOnlyBehavior(e));
                },
            }
        } else {
            return Err(ConfigError::InvalidKey);
        }
        Ok(())
    }

    /// Loads the policy from the text of a configuration file.
    pub fn from_text(contents: &str) -> (r: Result<Config, ConfigError>)
        ensures
            match load_spec(contents@) {
                Ok(c) => r matches Ok(cfg) && cfg@ == c,
                Err(e) => r matches Err(x) && x == e,
            },
    {
        let mut config = Config::new();
        let n = contents.unicode_len();
        let mut start: usize = 0;
        while start < n
            invariant
                n == contents@.len(),
                start <= n,
                apply_lines(default_config(), lines_of(contents@)) == apply_lines(
                    config@,
                    lines_from(contents@, start as int),
                ),
            decreases n - start,
        {
            let e = find_char(contents, '\n', start);
            let ghost rest = lines_from(contents@, e + 1);
            let mut end = e;
            if e < n && e > start && contents.get_char(e - 1) == '\r' {
                end = e - 1;
            }
            let line = contents.substring_char(start, end);
            let ghost ls = lines_from(contents@, start as int);
            assert(ls.len() > 0 && ls[0] == line@) by {
                if e < n {
                    assert(line@ =~= strip_cr(contents@.subrange(start as int, e as int)));
                }
            }
            assert(e < n ==> ls.drop_first() =~= rest);
            assert(e >= n ==> ls.drop_first() =~= Seq::<Seq<char>>::empty());
            match Config::line_k_v(line) {
                Some((key, value)) => {
                    match config.patch(key.as_str(), value) {
                        Ok(()) => {},
                        Err(err) => {
                            return Err(err);
                        },
                    }
                },
                None => {},
            }
            if e < n {
                start = e + 1;
            } else {
                start = n;
            }
        }
        if config.format.len() == 0 {
            return Err(ConfigError::NoFormat);
        }
        if config.retention == Retention::Unknown {
            return Err(ConfigError::NoRetention);
        }
        Ok(config)
    }
}

/// A missing format or a missing retention fails the load with its own
/// error, once every line has been applied without error.
pub proof fn lemma_missing_fields_rejected(text: Seq<char>)
    requires
        apply_lines(default_config(), lines_of(text)) is Ok,
    ensures
        ({
            let c = apply_lines(default_config(), lines_of(text))->Ok_0;
            &&& c.format.len() == 0 ==> load_spec(text) == Err::<ConfigView, ConfigError>(
                ConfigError::NoFormat,
            )
            &&& c.format.len() > 0 && c.retention is Unknown ==> load_spec(text) == Err::<
                ConfigView,
                ConfigError,
            >(ConfigError::NoRetention)
        }),
{
}

/// A `retention` line whose value is malformed fails the fold with that
/// value's own error, once the lines before it have been applied.
pub proof fn lemma_invalid_retention_rejected(
    c: ConfigView,
    lines: Seq<Seq<char>>,
    i: int,
    v: Seq<char>,
)
    requires
        0 <= i < lines.len(),
        apply_lines(c, lines.take(i)) is Ok,
        line_pair(lines[i]) == Some(("retention"@, v)),
        retention_spec(v) is Err,
    ensures
        apply_lines(c, lines) == Err::<ConfigView, ConfigError>(
            ConfigError::InvalidRetention(retention_spec(v)->Err_0),
        ),
    decreases i,
{
    if i == 0 {
        reveal_strlit("retention");
        reveal_strlit("format");
        assert("retention"@ != "format"@) by {
            assert("retention"@[0] != "format"@[0]);
        }
    } else {
        assert(lines.drop_first()[i - 1] == lines[i]);
        let t = lines.take(i);
        assert(t[0] == lines[0]);
        assert(t.drop_first() =~= lines.drop_first().take(i - 1));
        match line_pair(lines[0]) {
            None => {
                lemma_invalid_retention_rejected(c, lines.drop_first(), i - 1, v);
            },
            Some((k, w)) => {
                let c2 = patch_spec(c, k, w)->Ok_0;
                lemma_invalid_retention_rejected(c2, lines.drop_first(), i - 1, v);
            },
        }
    }
}

/// A whole configuration text whose `i`-th line sets a malformed retention
/// fails to load with that value's own error, once the lines before it have
/// been applied.
pub proof fn lemma_load_invalid_retention(text: Seq<char>, i: int, v: Seq<char>)
    requires
        0 <= i < lines_of(text).len(),
        apply_lines(default_config(), lines_of(text).take(i)) is Ok,
        line_pair(lines_of(text)[i]) == Some(("retention"@, v)),
        retention_spec(v) is Err,
    ensures
        load_spec(text) == Err::<ConfigView, ConfigError>(
            ConfigError::InvalidRetention(retention_spec(v)->Err_0),
        ),
{
    lemma_invalid_retention_rejected(default_config(), lines_of(text), i, v);
}

pub open spec fn retention_error_message(e: RetentionError) -> Seq<char> {
    match e {
        RetentionError::InvalidMeasurement => "Invalid measurement provided"@,
        RetentionError::InvalidValue => "Invalid number provided"@,
    }
}

pub open spec fn date_only_behavior_error_message(e: DateOnlyBehaviorError) -> Seq<char> {
    match e {
        DateOnlyBehaviorError::InvalidHour => "Invalid hour provided"@,
    }
}

pub open spec fn config_error_message(e: ConfigError) -> Seq<char> {
    match e {
        ConfigError::CannotOpenFile => "Cannot open file!"@,
        ConfigError::NoFormat => "No format value"@,
        ConfigError::NoRetention => "No retention value"@,
        ConfigError::InvalidKey => "Invalid key provided in config"@,
        ConfigError::InvalidRetention(r) => "Invalid retetion: "@ + retention_error_message(r),
        ConfigError::InvalidRefresh => "Invalid refresh value"@,
        ConfigError::InvalidSpaceSplit => "Invalid space split value"@,
        ConfigError::InvalidDateOnlyBehavior(b) => "Invalid date only behavior: "@
            + date_only_behavior_error_message(b),
    }
}

impl ErrorDisplay for RetentionError {
    fn display(self) -> (r: String)
        ensures
            r@ == retention_error_message(self),
    {
        match self {
            RetentionError::InvalidMeasurement => "Invalid measurement provided".to_string(),
            RetentionError::InvalidValue => "Invalid number provided".to_string(),
        }
    }
}

impl ErrorDisplay for DateOnlyBehaviorError {
    fn display(self) -> (r: String)
        ensures
            r@ == date_only_behavior_error_message(self),
    {
        match self {
            DateOnlyBehaviorError::InvalidHour => "Invalid hour provided".to_string(),
        }
    }
}

impl ErrorDisplay for ConfigError {
    fn display(self) -> (r: String)
        ensures
            r@ == config_error_message(self),
    {
        match self {
            ConfigError::CannotOpenFile => "Cannot open file!".to_string(),
            ConfigError::NoFormat => "No format value".to_string(),
            ConfigError::NoRetention => "No retention value".to_string(),
            ConfigError::InvalidKey => "Invalid key provided in config".to_string(),
            ConfigError::InvalidRetention(e) => {
                let mut m = "Invalid retetion: ".to_string();
                let d = e.display();
                m.append(d.as_str());
                m
            },
            ConfigError::InvalidRefresh => "Invalid refresh value".to_string(),
            ConfigError::InvalidSpaceSplit => "Invalid space split value".to_string(),
            ConfigError::InvalidDateOnlyBehavior(e) => {
                let mut m = "Invalid date only behavior: ".to_string();
                let d = e.display();
                m.append(d.as_str());
                m
            },
        }
    }
}

} // verus!
