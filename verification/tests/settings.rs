use deadline::config::{effective_names, parse_key, Config, ConfigError, ConfigKey};

#[test]
fn built_in_settings() {
    let c = Config::defaults();
    assert_eq!(c.overdue, "red");
    assert_eq!(c.warning, "yellow");
    assert_eq!(c.safe, "green");
    assert_eq!(c.completed, "blue");
    assert_eq!(c.hash, "cyan");
    assert_eq!(c.default_days, 14);
    assert_eq!(c.default_names, "");
}

#[test]
fn keys() {
    assert_eq!(parse_key("colors.overdue"), Some(ConfigKey::Overdue));
    assert_eq!(parse_key("calendar.default_days"), Some(ConfigKey::DefaultDays));
    assert_eq!(parse_key("calendar.default_names"), Some(ConfigKey::DefaultNames));
    assert_eq!(parse_key("colors"), None);
    assert_eq!(parse_key("Colors.overdue"), None);
}

#[test]
fn setting_colours() {
    let mut c = Config::defaults();
    assert_eq!(c.set("colors.overdue", "magenta"), Ok(()));
    assert_eq!(c.overdue, "magenta");
    assert_eq!(c.set("colors.hash", "Bright Blue"), Ok(()));
    assert_eq!(c.hash, "Bright Blue");
    assert_eq!(c.set("colors.safe", "#00ff00"), Ok(()));
    assert_eq!(c.safe, "#00ff00");
    assert_eq!(c.set("colors.warning", "not-a-colour"), Err(ConfigError::BadColor));
    assert_eq!(c.warning, "yellow");
    assert_eq!(c.overdue, "magenta");
}

#[test]
fn setting_calendar_defaults() {
    let mut c = Config::defaults();
    assert_eq!(c.set("calendar.default_days", "7"), Ok(()));
    assert_eq!(c.default_days, 7);
    assert_eq!(c.set("calendar.default_days", "a week"), Err(ConfigError::BadDays));
    assert_eq!(c.default_days, 7);
    assert_eq!(c.set("calendar.default_names", "Work,Personal"), Ok(()));
    assert_eq!(c.default_names, "Work,Personal");
    assert_eq!(c.set("calendar.nothing", "1"), Err(ConfigError::UnknownKey));
}

#[test]
fn hex_colours_and_unsafe_text() {
    let mut c = Config::defaults();
    assert_eq!(c.set("colors.safe", "#ABC"), Ok(()));
    assert_eq!(c.set("colors.safe", "#+1+2+3"), Ok(()));
    assert_eq!(c.set("colors.safe", "#ab"), Err(ConfigError::BadColor));
    assert_eq!(c.set("colors.safe", "#abcdeg"), Err(ConfigError::BadColor));
    // texts that colored would cut inside a character are refused, not a panic
    assert_eq!(c.set("colors.safe", "#a\u{e9}123"), Err(ConfigError::BadColor));
    assert_eq!(c.set("colors.safe", "#\u{e9}1"), Err(ConfigError::BadColor));
    assert_eq!(c.set("colors.safe", "RED"), Ok(()));
    assert_eq!(c.set("colors.safe", "bright cyan"), Ok(()));
    assert_eq!(c.safe, "bright cyan");
}

#[test]
fn calendar_filter_in_force() {
    let mut c = Config::defaults();
    assert_eq!(effective_names(None, &c), None);
    assert_eq!(effective_names(Some("Work"), &c), Some("Work".to_string()));
    c.default_names = "Home,Gym".to_string();
    assert_eq!(effective_names(None, &c), Some("Home,Gym".to_string()));
    assert_eq!(effective_names(Some("Work"), &c), Some("Work".to_string()));
}
