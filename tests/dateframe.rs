use chrono::{Datelike, NaiveDate};
use dateframe::config::{
    Config, ConfigError, DateOnlyBehavior, DateOnlyBehaviorError, ErrorDisplay, LogLevel,
    Retention, RetentionError,
};
use dateframe::dates::{attempt_path_parse, Timestamp};
use dateframe::names::{join_parts, remove_substring, split_fields};
use dateframe::text::{parse_i32, parse_u64, trim_text};
use dateframe::walk::{
    after_cycle, decide_entry, decide_entry_at, sorted_names, CycleEnd, EntryAction, Pending,
};

fn day_of(y: i32, m: u32, d: u32) -> i32 {
    NaiveDate::from_ymd_opt(y, m, d).unwrap().num_days_from_ce()
}

fn base_config() -> Config {
    match Config::from_text("format=%Y-%m-%d\nretention=10d\n") {
        Ok(c) => c,
        Err(_) => panic!("base config must load"),
    }
}

fn load_err(text: &str) -> ConfigError {
    match Config::from_text(text) {
        Ok(_) => panic!("expected an error"),
        Err(e) => e,
    }
}

#[test]
fn loads_full_config() {
    let text = "format=%Y-%m-%dT%H-%M-%S\nformat=%Y-%m-%d\nretention=10d\nrefresh=20\nlog=debug\nremove=Test\nsplit_string= \nsplit_index=0\ndate_only_behavior=h11\ndeep=false\n";
    let c = match Config::from_text(text) {
        Ok(c) => c,
        Err(_) => panic!("config must load"),
    };
    assert_eq!(c.format, vec!["%Y-%m-%dT%H-%M-%S".to_string(), "%Y-%m-%d".to_string()]);
    assert_eq!(c.retention, Retention::Days(10));
    assert_eq!(c.refresh, 20);
    assert_eq!(c.log, LogLevel::Debug);
    assert_eq!(c.remove, vec!["Test".to_string()]);
    assert_eq!(c.split_string, Some(" ".to_string()));
    assert_eq!(c.split_indicies, vec![0]);
    assert_eq!(c.date_only_behavior, DateOnlyBehavior::Hour(11));
    assert!(!c.deep);
}

#[test]
fn defaults_apply_to_unset_keys() {
    let c = base_config();
    assert!(c.deep);
    assert_eq!(c.refresh, 360);
    assert_eq!(c.log, LogLevel::Info);
    assert_eq!(c.split_string, None);
    assert_eq!(c.split_join, "");
    assert_eq!(c.date_only_behavior, DateOnlyBehavior::Start);
}

#[test]
fn missing_format_is_no_format() {
    assert_eq!(load_err("retention=10d\n"), ConfigError::NoFormat);
    assert_eq!(load_err(""), ConfigError::NoFormat);
}

#[test]
fn missing_retention_is_no_retention() {
    assert_eq!(load_err("format=%Y\n"), ConfigError::NoRetention);
}

#[test]
fn invalid_retention_is_wrapped() {
    assert_eq!(
        load_err("format=%Y\nretention=10w\n"),
        ConfigError::InvalidRetention(RetentionError::InvalidMeasurement)
    );
    assert_eq!(
        load_err("format=%Y\nretention=xd\n"),
        ConfigError::InvalidRetention(RetentionError::InvalidValue)
    );
}

#[test]
fn other_load_errors() {
    assert_eq!(load_err("format=%Y\nretention=1d\ncolour=red\n"), ConfigError::InvalidKey);
    assert_eq!(load_err("refresh=soon\n"), ConfigError::InvalidRefresh);
    assert_eq!(load_err("split_index=-1\n"), ConfigError::InvalidSpaceSplit);
    assert_eq!(
        load_err("date_only_behavior=hx\n"),
        ConfigError::InvalidDateOnlyBehavior(DateOnlyBehaviorError::InvalidHour)
    );
}

#[test]
fn line_handling() {
    // lines without '=' are ignored, CRLF endings are stripped, and a value
    // ends at the next '='.
    let c = match Config::from_text("# comment\r\nformat=%Y=ignored\r\nretention=3d") {
        Ok(c) => c,
        Err(_) => panic!("config must load"),
    };
    assert_eq!(c.format, vec!["%Y".to_string()]);
    assert_eq!(c.retention, Retention::Days(3));
    assert_eq!(Config::line_k_v("a=b=c"), Some(("a".to_string(), "b".to_string())));
    assert_eq!(Config::line_k_v("k="), Some(("k".to_string(), "".to_string())));
    assert_eq!(Config::line_k_v("plain"), None);
}

#[test]
fn retention_from_string() {
    assert_eq!(Retention::from_string("10d"), Ok(Retention::Days(10)));
    assert_eq!(Retention::from_string("-3d"), Ok(Retention::Days(-3)));
    assert_eq!(Retention::from_string("10"), Err(RetentionError::InvalidMeasurement));
    assert_eq!(Retention::from_string(""), Err(RetentionError::InvalidMeasurement));
    assert_eq!(Retention::from_string("d"), Err(RetentionError::InvalidValue));
    assert_eq!(Retention::from_string("99999999999d"), Err(RetentionError::InvalidValue));
}

#[test]
fn date_only_behavior_from_string() {
    assert_eq!(DateOnlyBehavior::from_string("h11"), Ok(DateOnlyBehavior::Hour(11)));
    assert_eq!(DateOnlyBehavior::from_string("start"), Ok(DateOnlyBehavior::Start));
    assert_eq!(DateOnlyBehavior::from_string("noon"), Ok(DateOnlyBehavior::Noon));
    assert_eq!(DateOnlyBehavior::from_string("end"), Ok(DateOnlyBehavior::End));
    // an unknown word falls back to the start of the day
    assert_eq!(DateOnlyBehavior::from_string("dusk"), Ok(DateOnlyBehavior::Start));
    assert_eq!(DateOnlyBehavior::from_string("h"), Err(DateOnlyBehaviorError::InvalidHour));
}

#[test]
fn log_levels() {
    assert_eq!(LogLevel::from_string("debug"), LogLevel::Debug);
    assert_eq!(LogLevel::from_string("silent"), LogLevel::Silent);
    assert_eq!(LogLevel::from_string("error"), LogLevel::Error);
    assert_eq!(LogLevel::from_string("loud"), LogLevel::Info);
    assert!(LogLevel::Debug.show_debug() && LogLevel::Debug.show_info() && LogLevel::Debug.show_error());
    assert!(!LogLevel::Info.show_debug() && LogLevel::Info.show_info() && LogLevel::Info.show_error());
    assert!(!LogLevel::Error.show_info() && LogLevel::Error.show_error());
    assert!(!LogLevel::Silent.show_error() && !LogLevel::Silent.show_info());
}

#[test]
fn integer_literals() {
    assert_eq!(parse_u64("+42"), Some(42));
    assert_eq!(parse_u64("18446744073709551615"), Some(u64::MAX));
    assert_eq!(parse_u64("18446744073709551616"), None);
    assert_eq!(parse_u64("-1"), None);
    assert_eq!(parse_i32("-2147483648"), Some(i32::MIN));
    assert_eq!(parse_i32("2147483648"), None);
    assert_eq!(parse_i32("+"), None);
}

#[test]
fn remove_substring_transforms_name() {
    let mut c = base_config();
    c.remove = vec!["Test".to_string()];
    assert_eq!(c.format_name("Test2024-01-01"), "2024-01-01");
    assert!(attempt_path_parse(&c, "2024-01-01").is_some());
}

#[test]
fn last_removal_wins() {
    let mut c = base_config();
    c.remove = vec!["a".to_string(), "b".to_string()];
    assert_eq!(c.format_name("ab-ab"), "a-a");
    assert_eq!(remove_substring("aaa", "aa"), "a");
    assert_eq!(remove_substring("abc", ""), "abc");
}

#[test]
fn split_transforms_name() {
    let mut c = base_config();
    c.split_string = Some("_".to_string());
    c.split_indicies = vec![1];
    c.split_join = String::new();
    assert_eq!(c.format_name("a_2024-01-01_b"), "2024-01-01");
}

#[test]
fn split_fields_in_listed_order() {
    let mut c = base_config();
    c.split_string = Some("_".to_string());
    c.split_indicies = vec![2, 7, 0];
    c.split_join = "-".to_string();
    assert_eq!(c.format_name("x_y_z"), "z-x");
    c.split_indicies = vec![];
    assert_eq!(c.format_name("x_y_z"), "");
}

#[test]
fn split_and_join_helpers() {
    assert_eq!(split_fields("a__b", "_"), vec!["a", "", "b"]);
    assert_eq!(split_fields("ab", ""), vec!["", "a", "b", ""]);
    assert_eq!(split_fields("", ","), vec![""]);
    let parts = vec!["1".to_string(), "2".to_string(), "3".to_string()];
    assert_eq!(join_parts(&parts, ", "), "1, 2, 3");
    assert_eq!(trim_text("  x y \t"), "x y");
}

#[test]
fn date_only_hour_behaviour() {
    let mut c = base_config();
    c.date_only_behavior = DateOnlyBehavior::Hour(11);
    let t = attempt_path_parse(&c, "2024-01-01");
    assert_eq!(
        t,
        Some(Timestamp { day: day_of(2024, 1, 1), second: 11 * 3600, nano: 0 })
    );
}

#[test]
fn date_only_named_times() {
    assert_eq!(DateOnlyBehavior::End.add_to_date(5), Timestamp { day: 5, second: 86399, nano: 0 });
    assert_eq!(DateOnlyBehavior::Noon.add_to_date(5), Timestamp { day: 5, second: 43200, nano: 0 });
    assert_eq!(DateOnlyBehavior::Start.add_to_date(5), Timestamp { day: 5, second: 0, nano: 0 });
}

#[test]
fn first_matching_format_wins() {
    let mut c = base_config();
    c.format = vec!["%Y-%m-%dT%H-%M-%S".to_string(), "%Y-%m-%d".to_string()];
    let t = attempt_path_parse(&c, "2024-03-05T10-20-30");
    assert_eq!(
        t,
        Some(Timestamp { day: day_of(2024, 3, 5), second: 10 * 3600 + 20 * 60 + 30, nano: 0 })
    );
    assert_eq!(attempt_path_parse(&c, "logs"), None);
}

#[test]
fn retention_window_is_strict() {
    let t = Timestamp { day: 100, second: 0, nano: 0 };
    assert!(t.is_within_at(10, &Timestamp { day: 109, second: 86399, nano: 0 }));
    assert!(!t.is_within_at(10, &Timestamp { day: 110, second: 0, nano: 0 }));
    assert!(!t.is_within_at(10, &Timestamp { day: 110, second: 0, nano: 1 }));
    assert!(t.is_within_at(10, &Timestamp { day: 109, second: 0, nano: 0 }));
}

#[test]
fn entry_decisions() {
    let c = base_config();
    let now = Timestamp { day: day_of(2024, 1, 20), second: 3600, nano: 0 };
    assert_eq!(decide_entry_at(&c, "2024-01-01", false, &now), EntryAction::Delete);
    assert_eq!(decide_entry_at(&c, "2024-01-15", false, &now), EntryAction::Keep);
    assert_eq!(decide_entry_at(&c, "archive", false, &now), EntryAction::Descend);
    assert_eq!(decide_entry_at(&c, "notes.txt", true, &now), EntryAction::Skip);
    let mut shallow = base_config();
    shallow.deep = false;
    assert_eq!(decide_entry_at(&shallow, "archive", false, &now), EntryAction::Skip);
    assert_eq!(decide_entry_at(&shallow, "2024-01-01", false, &now), EntryAction::Delete);
}

#[test]
fn sixty_days_keep_ten() {
    let c = base_config();
    let today = NaiveDate::from_ymd_opt(2024, 6, 30).unwrap();
    let now = Timestamp { day: today.num_days_from_ce(), second: 43200, nano: 0 };
    let mut kept = 0;
    let mut deleted = 0;
    for n in 0..60 {
        let d = today - chrono::Days::new(n);
        let name = d.format("%Y-%m-%d").to_string();
        match decide_entry_at(&c, &name, false, &now) {
            EntryAction::Keep => {
                kept += 1;
                assert!(n < 10);
            }
            EntryAction::Delete => {
                deleted += 1;
                assert!(n >= 10);
            }
            _ => panic!("dated entry must be kept or deleted"),
        }
    }
    assert_eq!(kept, 10);
    assert_eq!(deleted, 50);
}

#[test]
fn decision_at_current_time() {
    let c = base_config();
    assert_eq!(decide_entry(&c, "1990-01-01", false), EntryAction::Delete);
    assert_eq!(decide_entry(&c, "9999-01-01", false), EntryAction::Keep);
    assert_eq!(decide_entry(&c, "misc", false), EntryAction::Descend);
}

#[test]
fn children_in_ascending_order() {
    let names = vec![
        "b".to_string(),
        "2024-01-02".to_string(),
        "a".to_string(),
        "2024-01-01".to_string(),
        "B".to_string(),
        "a".to_string(),
    ];
    assert_eq!(sorted_names(&names), vec!["2024-01-01", "2024-01-02", "B", "a", "a", "b"]);
    assert_eq!(sorted_names(&vec![]), Vec::<String>::new());
}

#[test]
fn error_messages() {
    assert_eq!(ConfigError::NoFormat.display(), "No format value");
    assert_eq!(
        ConfigError::InvalidRetention(RetentionError::InvalidValue).display(),
        "Invalid retetion: Invalid number provided"
    );
    assert_eq!(
        ConfigError::InvalidDateOnlyBehavior(DateOnlyBehaviorError::InvalidHour).display(),
        "Invalid date only behavior: Invalid hour provided"
    );
}

#[test]
fn scheduler_rule() {
    let loaded: Result<Config, ConfigError> = Ok(base_config());
    assert_eq!(after_cycle(&loaded, true), CycleEnd::SleepThenRepeat(360));
    assert_eq!(after_cycle(&loaded, false), CycleEnd::Stop);
    let failed: Result<Config, ConfigError> = Err(ConfigError::NoFormat);
    assert_eq!(after_cycle(&failed, true), CycleEnd::Stop);
}

#[test]
fn pending_directories_last_in_first_out() {
    let mut pending = Pending::new("root".to_string());
    assert_eq!(pending.next_dir(), Some("root".to_string()));
    pending.queue(vec!["a".to_string(), "b".to_string()]);
    assert_eq!(pending.next_dir(), Some("b".to_string()));
    pending.queue(vec!["b1".to_string()]);
    assert_eq!(pending.next_dir(), Some("b1".to_string()));
    assert_eq!(pending.next_dir(), Some("a".to_string()));
    assert_eq!(pending.next_dir(), None);
}
