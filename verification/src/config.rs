//! Configuration read from environment variables.

use vstd::prelude::*;
use crate::text::{chars_of, join};

verus! {

/// What reading an environment variable gave: its value, nothing, or an
/// error (the value is not valid Unicode), with the error's text.
#[derive(Debug, Clone)]
pub enum EnvValue {
    Present(String),
    NotPresent,
    Unreadable(String),
}

impl EnvValue {
    /// Could the variable be read (`env::var(..).is_ok()`)?
    pub fn is_present(&self) -> (r: bool)
        ensures
            r == (*self is Present),
    {
        match self {
            EnvValue::Present(_) => true,
            _ => false,
        }
    }
}

/// Why a required environment variable could not be had.
#[derive(Debug)]
pub enum EnvConfigError {
    MissingEnv { name: &'static str },
    ReadEnv { name: &'static str, source: String },
}

impl EnvConfigError {
    /// The error's text, as its `Display` shows it.
    pub fn message(&self) -> (r: String)
        ensures
            r@ == match self {
                EnvConfigError::MissingEnv { name } => "missing "@ + name@ + " environment variable"@,
                EnvConfigError::ReadEnv { name, source } => "failed to read "@ + name@
                    + " environment variable: "@ + source@,
            },
    {
        match self {
            EnvConfigError::MissingEnv { name } => {
                let mut r = "missing ".to_string();
                r.append(name);
                r.append(" environment variable");
                r
            },
            EnvConfigError::ReadEnv { name, source } => {
                let mut r = "failed to read ".to_string();
                r.append(name);
                r.append(" environment variable: ");
                r.append(source.as_str());
                r
            },
        }
    }
}

/// What `required_env` gives for a variable that must be set and not empty.
pub open spec fn required_env_spec(name: &'static str, value: EnvValue) -> Result<String, EnvConfigError> {
    match value {
        EnvValue::Present(v) => if v@.len() > 0 {
            Ok(v)
        } else {
            Err(EnvConfigError::MissingEnv { name })
        },
        EnvValue::NotPresent => Err(EnvConfigError::MissingEnv { name }),
        EnvValue::Unreadable(source) => Err(EnvConfigError::ReadEnv { name, source }),
    }
}

/// The value of a variable that must be set and not empty.
pub fn required_env(name: &'static str, value: EnvValue) -> (r: Result<String, EnvConfigError>)
    ensures
        r == required_env_spec(name, value),
{
    match value {
        EnvValue::Present(v) => if v.as_str().is_empty() {
            Err(EnvConfigError::MissingEnv { name })
        } else {
            Ok(v)
        },
        EnvValue::NotPresent => Err(EnvConfigError::MissingEnv { name }),
        EnvValue::Unreadable(source) => Err(EnvConfigError::ReadEnv { name, source }),
    }
}

/// The value of a variable where it could be read (an empty value too), or
/// `default` where it is unset or unreadable (`env::var(..).unwrap_or(..)`).
pub fn value_or(value: EnvValue, default: &str) -> (r: String)
    ensures
        r@ == match value {
            EnvValue::Present(v) => v@,
            _ => default@,
        },
{
    match value {
        EnvValue::Present(v) => v,
        _ => default.to_string(),
    }
}

/// The value of a variable that may be unset; an empty value counts as
/// unset.
pub fn optional_env(name: &'static str, value: EnvValue) -> (r: Result<Option<String>, EnvConfigError>)
    ensures
        r == match value {
            EnvValue::Present(v) => if v@.len() > 0 {
                Ok(Some(v))
            } else {
                Ok(None)
            },
            EnvValue::NotPresent => Ok(None),
            EnvValue::Unreadable(source) => Err(EnvConfigError::ReadEnv { name, source }),
        },
{
    match value {
        EnvValue::Present(v) => if v.as_str().is_empty() {
            Ok(None)
        } else {
            Ok(Some(v))
        },
        EnvValue::NotPresent => Ok(None),
        EnvValue::Unreadable(source) => Err(EnvConfigError::ReadEnv { name, source }),
    }
}

/// The value of a variable, or `default` when it is unset or empty.
pub fn env_or(name: &'static str, value: EnvValue, default: &str) -> (r: Result<String, EnvConfigError>)
    ensures
        match optional_env_spec(name, value) {
            Ok(Some(v)) => r == Ok::<String, EnvConfigError>(v),
            Ok(None) => r matches Ok(d) && d@ == default@,
            Err(e) => r == Err::<String, EnvConfigError>(e),
        },
{
    match optional_env(name, value) {
        Ok(Some(v)) => Ok(v),
        Ok(None) => Ok(default.to_string()),
        Err(e) => Err(e),
    }
}

/// What `optional_env` gives for a variable.
pub open spec fn optional_env_spec(name: &'static str, value: EnvValue) -> Result<Option<String>, EnvConfigError> {
    match value {
        EnvValue::Present(v) => if v@.len() > 0 {
            Ok(Some(v))
        } else {
            Ok(None)
        },
        EnvValue::NotPresent => Ok(None),
        EnvValue::Unreadable(source) => Err(EnvConfigError::ReadEnv { name, source }),
    }
}

/// Why a text is not a `u16` (the kinds of std's `ParseIntError`).
#[derive(Debug, Clone, Copy, PartialEq, Eq, Structural)]
pub enum PortError {
    Empty,
    InvalidDigit,
    PosOverflow,
}

impl PortError {
    /// The error's text, as std's `ParseIntError` shows it.
    pub fn message(&self) -> (r: String)
        ensures
            r@ == match self {
                PortError::Empty => "cannot parse integer from empty string"@,
                PortError::InvalidDigit => "invalid digit found in string"@,
                PortError::PosOverflow => "number too large to fit in target type"@,
            },
    {
        match self {
            PortError::Empty => "cannot parse integer from empty string".to_string(),
            PortError::InvalidDigit => "invalid digit found in string".to_string(),
            PortError::PosOverflow => "number too large to fit in target type".to_string(),
        }
    }
}

/// The value of a decimal digit character.
pub open spec fn digit_value(c: char) -> Option<int> {
    if c == '0' { Some(0) } else if c == '1' { Some(1) } else if c == '2' { Some(2) }
    else if c == '3' { Some(3) } else if c == '4' { Some(4) } else if c == '5' { Some(5) }
    else if c == '6' { Some(6) } else if c == '7' { Some(7) } else if c == '8' { Some(8) }
    else if c == '9' { Some(9) } else { None }
}

/// Reads decimal digits from the left onto `value`: the first non-digit
/// fails, and so does the first digit that takes the number past `u16::MAX`.
pub open spec fn read_digits(s: Seq<char>, value: int) -> Result<int, PortError>
    decreases s.len(),
{
    if s.len() == 0 {
        Ok(value)
    } else {
        match digit_value(s[0]) {
            None => Err(PortError::InvalidDigit),
            Some(d) => if value * 10 + d > 65535 {
                Err(PortError::PosOverflow)
            } else {
                read_digits(s.drop_first(), value * 10 + d)
            },
        }
    }
}

proof fn lemma_read_digits_bound(s: Seq<char>, value: int)
    requires
        0 <= value <= 65535,
    ensures
        read_digits(s, value) matches Ok(v) ==> 0 <= v <= 65535,
    decreases s.len(),
{
    if s.len() > 0 {
        if let Some(d) = digit_value(s[0]) {
            if value * 10 + d <= 65535 {
                lemma_read_digits_bound(s.drop_first(), value * 10 + d);
            }
        }
    }
}

/// What `u16`'s `FromStr` makes of a text: an optional `+` and decimal
/// digits, with no other sign.
pub open spec fn u16_from_text(s: Seq<char>) -> Result<int, PortError> {
    if s.len() == 0 {
        Err(PortError::Empty)
    } else if (s[0] == '+' || s[0] == '-') && s.len() == 1 {
        Err(PortError::InvalidDigit)
    } else if s[0] == '+' {
        read_digits(s.drop_first(), 0)
    } else {
        read_digits(s, 0)
    }
}

/// Every character `'0'` to `'9'` is a digit whose value is its distance
/// from `'0'`; no other character is a digit.
pub proof fn lemma_digit_values(c: char)
    ensures
        ('0' <= c && c <= '9') ==> digit_value(c) == Some(c as int - '0' as int),
        !('0' <= c && c <= '9') ==> digit_value(c) is None,
{
    if '0' <= c && c <= '9' {
        assert(c == '0' || c == '1' || c == '2' || c == '3' || c == '4' || c == '5' || c == '6'
            || c == '7' || c == '8' || c == '9');
    }
}

/// The number that decimal digits written after the number `value` make,
/// read from the left, each digit worth its distance from `'0'`.
pub open spec fn decimal_number(s: Seq<char>, value: int) -> int
    decreases s.len(),
{
    if s.len() == 0 {
        value
    } else {
        decimal_number(s.drop_first(), value * 10 + (s[0] as int - '0' as int))
    }
}

/// Is every character of `s` one of `'0'` to `'9'`?
pub open spec fn all_decimal(s: Seq<char>) -> bool {
    forall|i: int| 0 <= i < s.len() ==> '0' <= #[trigger] s[i] && s[i] <= '9'
}

proof fn lemma_decimal_number_grows(s: Seq<char>, value: int)
    requires
        all_decimal(s),
        value >= 0,
    ensures
        decimal_number(s, value) >= value,
    decreases s.len(),
{
    if s.len() > 0 {
        assert(all_decimal(s.drop_first())) by {
            assert forall|i: int| 0 <= i < s.drop_first().len() implies '0' <= #[trigger] s.drop_first()[i] && s.drop_first()[i] <= '9' by {
                assert(s.drop_first()[i] == s[i + 1]);
            }
        }
        assert('0' <= s[0] && s[0] <= '9');
        assert(value * 10 + (s[0] as int - '0' as int) >= value) by (nonlinear_arith)
            requires value >= 0, s[0] as int - '0' as int >= 0;
        lemma_decimal_number_grows(s.drop_first(), value * 10 + (s[0] as int - '0' as int));
    }
}

proof fn lemma_read_decimal(s: Seq<char>, value: int)
    requires
        all_decimal(s),
        0 <= value,
        decimal_number(s, value) <= 65535,
    ensures
        read_digits(s, value) == Ok::<int, PortError>(decimal_number(s, value)),
    decreases s.len(),
{
    if s.len() > 0 {
        let next = value * 10 + (s[0] as int - '0' as int);
        lemma_digit_values(s[0]);
        assert(all_decimal(s.drop_first())) by {
            assert forall|i: int| 0 <= i < s.drop_first().len() implies '0' <= #[trigger] s.drop_first()[i] && s.drop_first()[i] <= '9' by {
                assert(s.drop_first()[i] == s[i + 1]);
            }
        }
        assert('0' <= s[0] && s[0] <= '9');
        assert(next >= 0) by (nonlinear_arith)
            requires value >= 0, s[0] as int - '0' as int >= 0, next == value * 10 + (s[0] as int - '0' as int);
        lemma_decimal_number_grows(s.drop_first(), next);
        lemma_read_decimal(s.drop_first(), next);
    }
}

/// A port written in decimal digits reads as its number: any non-empty
/// text of the digits `'0'` to `'9'` whose number is at most 65535 parses
/// to that number.
pub proof fn lemma_decimal_port_parses(s: Seq<char>)
    requires
        s.len() > 0,
        all_decimal(s),
        decimal_number(s, 0) <= 65535,
    ensures
        u16_from_text(s) == Ok::<int, PortError>(decimal_number(s, 0)),
{
    assert('0' <= s[0] && s[0] <= '9');
    lemma_read_decimal(s, 0);
}

fn digit_of(c: char) -> (r: Option<u32>)
    ensures
        r matches Some(d) ==> digit_value(c) == Some(d as int),
        r is None ==> digit_value(c) is None,
{
    if c == '0' { Some(0) } else if c == '1' { Some(1) } else if c == '2' { Some(2) }
    else if c == '3' { Some(3) } else if c == '4' { Some(4) } else if c == '5' { Some(5) }
    else if c == '6' { Some(6) } else if c == '7' { Some(7) } else if c == '8' { Some(8) }
    else if c == '9' { Some(9) } else { None }
}

/// Reads a port number as `u16`'s `FromStr` does.
pub fn parse_port(text: &str) -> (r: Result<u16, PortError>)
    ensures
        match u16_from_text(text@) {
            Ok(v) => 0 <= v <= 65535 && r == Ok::<u16, PortError>(v as u16),
            Err(e) => r == Err::<u16, PortError>(e),
        },
{
    let s = chars_of(text);
    if s.len() == 0 {
        return Err(PortError::Empty);
    }
    if (s[0] == '+' || s[0] == '-') && s.len() == 1 {
        return Err(PortError::InvalidDigit);
    }
    let mut i: usize = if s[0] == '+' { 1 } else { 0 };
    let ghost digits = s@.skip(i as int);
    assert(s[0] == '+' ==> digits == s@.drop_first());
    assert(s[0] != '+' ==> digits == s@);
    let mut value: u32 = 0;
    assert(u16_from_text(text@) == read_digits(digits, 0));
    proof {
        lemma_read_digits_bound(digits, 0);
    }
    while i < s.len()
        invariant
            s@ == text@,
            u16_from_text(text@) == read_digits(digits, 0),
            i <= s@.len(),
            value <= 65535,
            read_digits(digits, 0) == read_digits(s@.skip(i as int), value as int),
        decreases s.len() - i,
    {
        assert(s@.skip(i as int).drop_first() == s@.skip(i + 1));
        assert(s@.skip(i as int)[0] == s@[i as int]);
        match digit_of(s[i]) {
            None => return Err(PortError::InvalidDigit),
            Some(d) => {
                if value * 10 + d > 65535 {
                    return Err(PortError::PosOverflow);
                }
                value = value * 10 + d;
            },
        }
        i += 1;
    }
    assert(s@.skip(i as int) == Seq::<char>::empty());
    Ok(value as u16)
}

/// The server's configuration.
#[derive(Clone, Debug)]
pub struct AppConfig {
    pub port: u16,
    pub content_dir: String,
    pub public_dir: String,
}

/// Why the configuration could not be read.
#[derive(Debug)]
pub enum ConfigError {
    InvalidPort { value: String, source: PortError },
    Env(EnvConfigError),
}

impl ConfigError {
    /// The error's text, as its `Display` shows it.
    pub fn message(&self) -> (r: String)
        ensures
            match self {
                ConfigError::InvalidPort { value, source } => r@ == "invalid PORT value '"@ + value@
                    + "': "@ + match source {
                    PortError::Empty => "cannot parse integer from empty string"@,
                    PortError::InvalidDigit => "invalid digit found in string"@,
                    PortError::PosOverflow => "number too large to fit in target type"@,
                },
                ConfigError::Env(e) => r@ == match e {
                    EnvConfigError::MissingEnv { name } => "missing "@ + name@ + " environment variable"@,
                    EnvConfigError::ReadEnv { name, source } => "failed to read "@ + name@
                        + " environment variable: "@ + source@,
                },
            },
    {
        match self {
            ConfigError::InvalidPort { value, source } => {
                let mut r = "invalid PORT value '".to_string();
                r.append(value.as_str());
                r.append("': ");
                let reason = source.message();
                r.append(reason.as_str());
                r
            },
            ConfigError::Env(e) => e.message(),
        }
    }
}

impl AppConfig {
    /// The configuration from the values of `PORT` (default 8000; an
    /// invalid port fails), `CONTENT_DIR` (default `content`) and
    /// `PUBLIC_DIR` (default `public`), read in that order.
    pub fn from_env(port: EnvValue, content_dir: EnvValue, public_dir: EnvValue) -> (r: Result<Self, ConfigError>)
        ensures
            match optional_env_spec("PORT", port) {
                Err(e) => r == Err::<Self, ConfigError>(ConfigError::Env(e)),
                Ok(Some(text)) if u16_from_text(text@) is Err => r == Err::<Self, ConfigError>(
                    ConfigError::InvalidPort { value: text, source: u16_from_text(text@)->Err_0 },
                ),
                Ok(port_text) => match optional_env_spec("CONTENT_DIR", content_dir) {
                    Err(e) => r == Err::<Self, ConfigError>(ConfigError::Env(e)),
                    Ok(content) => match optional_env_spec("PUBLIC_DIR", public_dir) {
                        Err(e) => r == Err::<Self, ConfigError>(ConfigError::Env(e)),
                        Ok(public) => r matches Ok(config) && {
                            &&& config.port == match port_text {
                                Some(text) => u16_from_text(text@)->Ok_0,
                                None => 8000,
                            }
                            &&& config.content_dir@ == match content {
                                Some(v) => v@,
                                None => "content"@,
                            }
                            &&& config.public_dir@ == match public {
                                Some(v) => v@,
                                None => "public"@,
                            }
                        },
                    },
                },
            },
    {
        let port = match optional_env("PORT", port) {
            Err(e) => return Err(ConfigError::Env(e)),
            Ok(Some(value)) => match parse_port(value.as_str()) {
                Ok(p) => p,
                Err(source) => return Err(ConfigError::InvalidPort { value, source }),
            },
            Ok(None) => 8000,
        };
        let content_dir = match env_or("CONTENT_DIR", content_dir, "content") {
            Ok(v) => v,
            Err(e) => return Err(ConfigError::Env(e)),
        };
        let public_dir = match env_or("PUBLIC_DIR", public_dir, "public") {
            Ok(v) => v,
            Err(e) => return Err(ConfigError::Env(e)),
        };
        Ok(AppConfig { port, content_dir, public_dir })
    }
}

} // verus!
