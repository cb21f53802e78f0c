//! Settings: the colours of the listing and the defaults of the calendar
//! commands, and the rules for changing them by key.

use vstd::prelude::*;
use colored::Color;
use crate::input::{int_literal, parse_int};
use crate::text::{chars_of, lowercase, same_text, to_lowercase};

verus! {

/// The settings.
pub struct Config {
    /// Colour of overdue items.
    pub overdue: String,
    /// Colour of items due within five days.
    pub warning: String,
    /// Colour of items due later.
    pub safe: String,
    /// Colour of struck-off items.
    pub completed: String,
    /// Colour of ids.
    pub hash: String,
    /// How many days the calendar commands look ahead by default.
    pub default_days: i64,
    /// Comma-separated calendar names that the calendar commands keep by
    /// default; empty for all calendars.
    pub default_names: String,
}

/// A setting, by its key.
#[derive(Clone, Copy, Debug, PartialEq, Eq, Structural)]
pub enum ConfigKey {
    Overdue,
    Warning,
    Safe,
    Completed,
    Hash,
    DefaultDays,
    DefaultNames,
}

/// Why a setting could not be changed.
#[derive(Clone, Copy, Debug, PartialEq, Eq, Structural)]
pub enum ConfigError {
    /// No setting has this key.
    UnknownKey,
    /// The value is not a colour name that `colored` knows.
    BadColor,
    /// The value is not a whole number of days.
    BadDays,
}

/// The setting a key names.
pub open spec fn key_named(key: Seq<char>) -> Option<ConfigKey> {
    if key == "colors.overdue"@ {
        Some(ConfigKey::Overdue)
    } else if key == "colors.warning"@ {
        Some(ConfigKey::Warning)
    } else if key == "colors.safe"@ {
        Some(ConfigKey::Safe)
    } else if key == "colors.completed"@ {
        Some(ConfigKey::Completed)
    } else if key == "colors.hash"@ {
        Some(ConfigKey::Hash)
    } else if key == "calendar.default_days"@ {
        Some(ConfigKey::DefaultDays)
    } else if key == "calendar.default_names"@ {
        Some(ConfigKey::DefaultNames)
    } else {
        None
    }
}

pub fn parse_key(key: &str) -> (r: Option<ConfigKey>)
    ensures
        r == key_named(key@),
{
    if same_text(key, "colors.overdue") {
        Some(ConfigKey::Overdue)
    } else if same_text(key, "colors.warning") {
        Some(ConfigKey::Warning)
    } else if same_text(key, "colors.safe") {
        Some(ConfigKey::Safe)
    } else if same_text(key, "colors.completed") {
        Some(ConfigKey::Completed)
    } else if same_text(key, "colors.hash") {
        Some(ConfigKey::Hash)
    } else if same_text(key, "calendar.default_days") {
        Some(ConfigKey::DefaultDays)
    } else if same_text(key, "calendar.default_names") {
        Some(ConfigKey::DefaultNames)
    } else {
        None
    }
}

pub open spec fn is_hex_digit(c: char) -> bool {
    ('0' <= c && c <= '9') || ('a' <= c && c <= 'f') || ('A' <= c && c <= 'F')
}

/// Two characters that `u8::from_str_radix(_, 16)` accepts: an optional `+`
/// sign, then hexadecimal digits.
pub open spec fn hex_byte(a: char, b: char) -> bool {
    (a == '+' || is_hex_digit(a)) && is_hex_digit(b)
}

/// The colour names of `colored`, in lowercase.
pub open spec fn color_name(l: Seq<char>) -> bool {
    ||| l == seq!['b', 'l', 'a', 'c', 'k']
    ||| l == seq!['r', 'e', 'd']
    ||| l == seq!['g', 'r', 'e', 'e', 'n']
    ||| l == seq!['y', 'e', 'l', 'l', 'o', 'w']
    ||| l == seq!['b', 'l', 'u', 'e']
    ||| l == seq!['m', 'a', 'g', 'e', 'n', 't', 'a']
    ||| l == seq!['p', 'u', 'r', 'p', 'l', 'e']
    ||| l == seq!['c', 'y', 'a', 'n']
    ||| l == seq!['w', 'h', 'i', 't', 'e']
    ||| l == seq!['b', 'r', 'i', 'g', 'h', 't', ' '] + seq!['b', 'l', 'a', 'c', 'k']
    ||| l == seq!['b', 'r', 'i', 'g', 'h', 't', ' '] + seq!['r', 'e', 'd']
    ||| l == seq!['b', 'r', 'i', 'g', 'h', 't', ' '] + seq!['g', 'r', 'e', 'e', 'n']
    ||| l == seq!['b', 'r', 'i', 'g', 'h', 't', ' '] + seq!['y', 'e', 'l', 'l', 'o', 'w']
    ||| l == seq!['b', 'r', 'i', 'g', 'h', 't', ' '] + seq!['b', 'l', 'u', 'e']
    ||| l == seq!['b', 'r', 'i', 'g', 'h', 't', ' '] + seq!['m', 'a', 'g', 'e', 'n', 't', 'a']
    ||| l == seq!['b', 'r', 'i', 'g', 'h', 't', ' '] + seq!['c', 'y', 'a', 'n']
    ||| l == seq!['b', 'r', 'i', 'g', 'h', 't', ' '] + seq!['w', 'h', 'i', 't', 'e']
}

/// What follows `#` in a hexadecimal colour: three digits, or three pairs
/// that `u8::from_str_radix(_, 16)` accepts.
pub open spec fn hex_color(h: Seq<char>) -> bool {
    ||| h.len() == 6 && hex_byte(h[0], h[1]) && hex_byte(h[2], h[3]) && hex_byte(h[4], h[5])
    ||| h.len() == 3 && is_hex_digit(h[0]) && is_hex_digit(h[1]) && is_hex_digit(h[2])
}

/// Whether `colored::Color`'s `FromStr` accepts a text: once lowercased
/// (`to_lowercase`), a colour name, or `#` and a hexadecimal colour.
pub open spec fn color_parses(name: Seq<char>) -> bool {
    let l = lowercase(name);
    color_name(l) || (l.len() > 0 && l[0] == '#' && hex_color(l.drop_first()))
}

/// Every character is ASCII (at most U+007F).
pub open spec fn below_0x80(s: Seq<char>) -> bool {
    forall|i: int| 0 <= i < s.len() ==> #[trigger] s[i] <= '\u{7f}'
}

/// A text whose lowercase form starts with `#` and is not all ASCII:
/// `colored` cuts such a text at byte offsets, which may fall inside a
/// character.
pub open spec fn cut_risk(name: Seq<char>) -> bool {
    let l = lowercase(name);
    l.len() > 0 && l[0] == '#' && !below_0x80(l)
}

/// Asks `colored`'s `FromStr` for `Color` (colored 3.1.1, `color.rs`)
/// whether it accepts `name`. By its source it lowercases the text, takes
/// the seventeen names, and for a text starting with `#` reads the rest as
/// three or six hexadecimal digits with `u8::from_str_radix` on byte slices;
/// those slices can panic on non-ASCII text, which `requires` leaves out.
#[verifier::external_body]
pub(crate) fn is_color(name: &str) -> (r: bool)
    requires
        !cut_risk(name@),
    ensures
        r == color_parses(name@),
{
    name.parse::<Color>().is_ok()
}

proof fn lemma_cut_risk_is_no_color(name: Seq<char>)
    requires
        cut_risk(name),
    ensures
        !color_parses(name),
{
    let l = lowercase(name);
    if l.len() > 0 && l[0] == '#' && hex_color(l.drop_first()) {
        assert forall|i: int| 0 <= i < l.len() implies #[trigger] l[i] <= '\u{7f}' by {
            if i > 0 {
                assert(l[i] == l.drop_first()[i - 1]);
            }
        }
    }
}

fn all_ascii(chars: &Vec<char>) -> (r: bool)
    ensures
        r == below_0x80(chars@),
{
    let mut i: usize = 0;
    while i < chars.len()
        invariant
            i <= chars.len(),
            forall|k: int| 0 <= k < i ==> #[trigger] chars@[k] <= '\u{7f}',
        decreases chars.len() - i,
    {
        let c = chars[i];
        if c > '\u{7f}' {
            return false;
        }
        i = i + 1;
    }
    true
}

/// Whether `colored` takes `value` as a colour; a text that it would cut
/// inside a character is not one.
fn color_accepted(value: &str) -> (r: bool)
    ensures
        r == color_parses(value@),
{
    let lowered = to_lowercase(value);
    let chars = chars_of(lowered.as_str());
    if chars.len() > 0 && chars[0] == '#' && !all_ascii(&chars) {
        proof {
            lemma_cut_risk_is_no_color(value@);
        }
        return false;
    }
    is_color(value)
}

pub open spec fn is_color_key(k: ConfigKey) -> bool {
    k != ConfigKey::DefaultDays && k != ConfigKey::DefaultNames
}

/// The text of a setting that holds text.
pub open spec fn text_of(c: Config, k: ConfigKey) -> Seq<char> {
    match k {
        ConfigKey::Overdue => c.overdue@,
        ConfigKey::Warning => c.warning@,
        ConfigKey::Safe => c.safe@,
        ConfigKey::Completed => c.completed@,
        ConfigKey::Hash => c.hash@,
        ConfigKey::DefaultNames => c.default_names@,
        ConfigKey::DefaultDays => Seq::empty(),
    }
}

pub open spec fn text_option(o: Option<String>) -> Option<Seq<char>> {
    match o {
        Some(s) => Some(s@),
        None => None,
    }
}

/// The calendar filter in force: the names given on the command line, else
/// the default names of the settings when there are any, else none.
pub fn effective_names(given: Option<&str>, c: &Config) -> (r: Option<String>)
    ensures
        text_option(r) == match given {
            Some(n) => Some(n@),
            None => if c.default_names@.len() > 0 { Some(c.default_names@) } else { None::<Seq<char>> },
        },
{
    match given {
        Some(n) => Some(n.to_owned()),
        None => {
            if c.default_names.as_str().is_empty() {
                None
            } else {
                Some(c.default_names.clone())
            }
        },
    }
}

/// The outcome of setting `key` to `value`: which error, if any.
pub open spec fn set_outcome(key: Seq<char>, value: Seq<char>) -> Result<ConfigKey, ConfigError> {
    match key_named(key) {
        None => Err(ConfigError::UnknownKey),
        Some(k) => if is_color_key(k) && !color_parses(value) {
            Err(ConfigError::BadColor)
        } else if k == ConfigKey::DefaultDays && int_literal(value) is None {
            Err(ConfigError::BadDays)
        } else {
            Ok(k)
        },
    }
}

/// Each documented key names its own setting.
pub proof fn law_documented_keys()
    ensures
        key_named("colors.overdue"@) == Some(ConfigKey::Overdue),
        key_named("colors.warning"@) == Some(ConfigKey::Warning),
        key_named("colors.safe"@) == Some(ConfigKey::Safe),
        key_named("colors.completed"@) == Some(ConfigKey::Completed),
        key_named("colors.hash"@) == Some(ConfigKey::Hash),
        key_named("calendar.default_days"@) == Some(ConfigKey::DefaultDays),
        key_named("calendar.default_names"@) == Some(ConfigKey::DefaultNames),
{
    reveal_strlit("colors.overdue");
    reveal_strlit("colors.warning");
    reveal_strlit("colors.safe");
    reveal_strlit("colors.completed");
    reveal_strlit("colors.hash");
    reveal_strlit("calendar.default_days");
    reveal_strlit("calendar.default_names");
    assert("colors.warning"@[7] != "colors.overdue"@[7]);
    assert("colors.safe"@[7] != "colors.hash"@[7]);
    let days = "calendar.default_days"@;
    let names = "calendar.default_names"@;
    assert(days != "colors.overdue"@ && days != "colors.warning"@ && days != "colors.safe"@
        && days != "colors.completed"@ && days != "colors.hash"@) by {
        assert(days[1] == 'a');
    }
    assert(names != "colors.overdue"@ && names != "colors.warning"@ && names != "colors.safe"@
        && names != "colors.completed"@ && names != "colors.hash"@ && names != days) by {
        assert(names[1] == 'a');
        assert(names.len() != days.len());
    }
}

/// `after` and `r` are what setting `key` to `value` makes of `before`:
/// a refused change leaves the settings as they were; an accepted one
/// writes the setting the key names and leaves every other as it was.
pub open spec fn set_effect(before: Config, after: Config, key: Seq<char>, value: Seq<char>, r: Result<(), ConfigError>) -> bool {
    match set_outcome(key, value) {
        Err(e) => r == Err::<(), ConfigError>(e) && after == before,
        Ok(k) => r is Ok && (forall|other: ConfigKey| other != k && other != ConfigKey::DefaultDays
            ==> text_of(after, other) == text_of(before, other))
            && (k != ConfigKey::DefaultDays ==> text_of(after, k) == value
                && after.default_days == before.default_days)
            && (k == ConfigKey::DefaultDays ==> Some(after.default_days as int) == int_literal(value)),
    }
}

/// Setting `colors.completed` to a colour that `colored` knows succeeds and
/// changes the colour of struck-off items alone: the other colours, the
/// default day count and the default calendar names stay as they were.
pub proof fn law_set_completed_colour(before: Config, after: Config, value: Seq<char>, r: Result<(), ConfigError>)
    requires
        set_effect(before, after, "colors.completed"@, value, r),
        color_parses(value),
    ensures
        r is Ok,
        after.completed@ == value,
        after.overdue@ == before.overdue@,
        after.warning@ == before.warning@,
        after.safe@ == before.safe@,
        after.hash@ == before.hash@,
        after.default_days == before.default_days,
        after.default_names@ == before.default_names@,
{
    law_documented_keys();
    assert(text_of(after, ConfigKey::Overdue) == text_of(before, ConfigKey::Overdue));
    assert(text_of(after, ConfigKey::Warning) == text_of(before, ConfigKey::Warning));
    assert(text_of(after, ConfigKey::Safe) == text_of(before, ConfigKey::Safe));
    assert(text_of(after, ConfigKey::Hash) == text_of(before, ConfigKey::Hash));
    assert(text_of(after, ConfigKey::DefaultNames) == text_of(before, ConfigKey::DefaultNames));
}

impl Config {
    /// The built-in settings: red, yellow, green, blue and cyan, fourteen
    /// days, every calendar.
    pub fn defaults() -> (c: Config)
        ensures
            c.overdue@ == "red"@,
            c.warning@ == "yellow"@,
            c.safe@ == "green"@,
            c.completed@ == "blue"@,
            c.hash@ == "cyan"@,
            c.default_days == 14,
            c.default_names@ == Seq::<char>::empty(),
    {
        Config {
            overdue: "red".to_owned(),
            warning: "yellow".to_owned(),
            safe: "green".to_owned(),
            completed: "blue".to_owned(),
            hash: "cyan".to_owned(),
            default_days: 14,
            default_names: String::new(),
        }
    }

    /// Changes one setting. A colour must be one `colored` knows, and the
    /// day count a whole number; an unknown key or a refused value leaves
    /// the settings as they were.
    pub fn set(&mut self, key: &str, value: &str) -> (r: Result<(), ConfigError>)
        ensures
            set_effect(*old(self), *final(self), key@, value@, r),
    {
        let k = match parse_key(key) {
            Some(k) => k,
            None => return Err(ConfigError::UnknownKey),
        };
        match k {
            ConfigKey::DefaultDays => {
                let chars = chars_of(value);
                match parse_int(&chars) {
                    Some(days) => {
                        self.default_days = days;
                        Ok(())
                    },
                    None => Err(ConfigError::BadDays),
                }
            },
            ConfigKey::DefaultNames => {
                self.default_names = value.to_owned();
                Ok(())
            },
            _ => {
                if !color_accepted(value) {
                    return Err(ConfigError::BadColor);
                }
                let v = value.to_owned();
                match k {
                    ConfigKey::Overdue => self.overdue = v,
                    ConfigKey::Warning => self.warning = v,
                    ConfigKey::Safe => self.safe = v,
                    ConfigKey::Completed => self.completed = v,
                    _ => self.hash = v,
                }
                Ok(())
            },
        }
    }
}

} // verus!
