//! Server settings: their defaults, the lines that change them, and lookup by name.
use vstd::prelude::*;

use crate::text::{lower_of, lowercase, same_text, split_tokens, tokens, views};

verus! {

/// The address the server binds to when no setting says otherwise.
pub const DEFAULT_BIND_ADDRESS: &'static str = "127.0.0.1";

/// The port the server listens on when no setting says otherwise.
pub const DEFAULT_BIND_PORT: &'static str = "7878";

/// The write-through setting when no setting says otherwise.
pub const DEFAULT_CACHE_WRITE_THROUGH: u8 = 1;

/// The debug flag; no setting line changes it.
pub const DEFAULT_DEBUG: bool = true;

/// The server's settings.
pub struct Config {
    pub bind_address: String,
    pub port: String,
    pub cache_write_through: u8,
    pub debug: bool,
}

/// The settings as they are seen.
pub struct Settings {
    pub bind_address: Seq<char>,
    pub port: Seq<char>,
    pub cache_write_through: u8,
    pub debug: bool,
}

impl View for Config {
    type V = Settings;

    open spec fn view(&self) -> Settings {
        Settings {
            bind_address: self.bind_address@,
            port: self.port@,
            cache_write_through: self.cache_write_through,
            debug: self.debug,
        }
    }
}

/// The error that a malformed setting line gives.
pub struct ConfigError;

impl ConfigError {
    /// The message of the error.
    pub fn to_string(&self) -> (r: String)
        ensures
            r@ == "Invalid configuration"@,
    {
        "Invalid configuration".to_owned()
    }
}

/// The character of a decimal digit.
pub open spec fn digit_char(d: int) -> char {
    if d == 0 {
        '0'
    } else if d == 1 {
        '1'
    } else if d == 2 {
        '2'
    } else if d == 3 {
        '3'
    } else if d == 4 {
        '4'
    } else if d == 5 {
        '5'
    } else if d == 6 {
        '6'
    } else if d == 7 {
        '7'
    } else if d == 8 {
        '8'
    } else {
        '9'
    }
}

/// The decimal numeral of `n`, without leading zeros.
pub open spec fn decimal(n: nat) -> Seq<char>
    decreases n,
{
    if n < 10 {
        seq![digit_char(n as int)]
    } else {
        decimal(n / 10).push(digit_char((n % 10) as int))
    }
}

/// Whether `c` is a decimal digit.
pub open spec fn is_digit(c: char) -> bool {
    '0' <= c && c <= '9'
}

/// The value of a digit character.
pub open spec fn digit_value(c: char) -> int {
    (c as u32) - ('0' as u32)
}

/// The value of a string of decimal digits.
pub open spec fn digits_value(s: Seq<char>) -> int
    decreases s.len(),
{
    if s.len() == 0 {
        0
    } else {
        digits_value(s.drop_last()) * 10 + digit_value(s.last())
    }
}

/// The digits of a numeral, after an optional leading `+`.
pub open spec fn numeral_digits(s: Seq<char>) -> Seq<char> {
    if s.len() > 0 && s[0] == '+' {
        s.drop_first()
    } else {
        s
    }
}

/// A byte-sized number read from `s`: an optional `+`, then one or more decimal digits
/// whose value is at most 255.
pub open spec fn parse_u8(s: Seq<char>) -> Option<u8> {
    let d = numeral_digits(s);
    if d.len() > 0 && (forall|i: int| 0 <= i < d.len() ==> is_digit(#[trigger] d[i]))
        && digits_value(d) <= 255 {
        Some(digits_value(d) as u8)
    } else {
        None
    }
}

/// The text that the settings give for the setting named `name`, if it is one.
pub open spec fn setting_text(c: Settings, name: Seq<char>) -> Option<Seq<char>> {
    if name == "bind_address"@ {
        Some(c.bind_address)
    } else if name == "port"@ {
        Some(c.port)
    } else if name == "cache_write_through"@ {
        Some(decimal(c.cache_write_through as nat))
    } else if name == "debug"@ {
        Some(
            if c.debug {
                "true"@
            } else {
                "false"@
            },
        )
    } else {
        None
    }
}

/// The settings after one line of a settings file, or `None` where the line is malformed.
/// A line that starts with `#` is a comment. Otherwise the line is case-folded; its
/// first two words are a name and a value, and a line with fewer, or with a name that is
/// not a setting, changes nothing.
pub open spec fn settings_after_line(c: Settings, line: Seq<char>) -> Option<Settings> {
    let words = tokens(lower_of(line));
    if line.len() > 0 && line[0] == '#' {
        Some(c)
    } else if words.len() < 2 {
        Some(c)
    } else if words[0] == "bind_address"@ {
        Some(Settings { bind_address: words[1], ..c })
    } else if words[0] == "port"@ {
        Some(Settings { port: words[1], ..c })
    } else if words[0] == "cache_write_through"@ {
        match parse_u8(words[1]) {
            Some(n) => Some(Settings { cache_write_through: n, ..c }),
            None => None,
        }
    } else {
        Some(c)
    }
}

/// The settings after each of `lines` in turn, or `None` where one is malformed.
pub open spec fn settings_after_lines(c: Settings, lines: Seq<Seq<char>>) -> Option<Settings>
    decreases lines.len(),
{
    if lines.len() == 0 {
        Some(c)
    } else {
        match settings_after_lines(c, lines.drop_last()) {
            Some(d) => settings_after_line(d, lines.last()),
            None => None,
        }
    }
}

/// The default settings.
pub open spec fn default_settings() -> Settings {
    Settings {
        bind_address: DEFAULT_BIND_ADDRESS@,
        port: DEFAULT_BIND_PORT@,
        cache_write_through: DEFAULT_CACHE_WRITE_THROUGH,
        debug: DEFAULT_DEBUG,
    }
}

/// Relies on `String::push`: appends one character.
#[verifier::external_body]
fn push_char(s: &mut String, c: char)
    ensures
        final(s)@ == old(s)@.push(c),
{
    s.push(c)
}

fn digit_of(d: u8) -> (r: char)
    requires
        d < 10,
    ensures
        r == digit_char(d as int),
{
    if d == 0 {
        '0'
    } else if d == 1 {
        '1'
    } else if d == 2 {
        '2'
    } else if d == 3 {
        '3'
    } else if d == 4 {
        '4'
    } else if d == 5 {
        '5'
    } else if d == 6 {
        '6'
    } else if d == 7 {
        '7'
    } else if d == 8 {
        '8'
    } else {
        '9'
    }
}

/// The decimal numeral of `n`.
pub fn u8_text(n: u8) -> (r: String)
    ensures
        r@ == decimal(n as nat),
{
    let mut out = String::new();
    if n >= 100 {
        push_char(&mut out, digit_of(n / 100));
        assert(decimal((n / 100) as nat) == seq![digit_char((n / 100) as int)]);
    }
    if n >= 10 {
        push_char(&mut out, digit_of((n / 10) % 10));
        assert(decimal((n / 10) as nat) == out@);
    }
    push_char(&mut out, digit_of(n % 10));
    out
}

/// Reads a byte-sized number: an optional `+`, then decimal digits worth at most 255.
pub fn parse_u8_text(s: &str) -> (r: Option<u8>)
    ensures
        r == parse_u8(s@),
{
    let n = s.unicode_len();
    let mut i: usize = 0;
    if n > 0 && s.get_char(0) == '+' {
        i = 1;
    }
    let ghost d = numeral_digits(s@);
    assert(d =~= s@.subrange(i as int, n as int));
    let start = i;
    if start == n {
        return None;
    }
    let mut value: u32 = 0;
    while i < n
        invariant
            start <= i <= n,
            n == s@.len(),
            d == s@.subrange(start as int, n as int),
            d == numeral_digits(s@),
            forall|j: int| start <= j < i ==> is_digit(#[trigger] s@[j]),
            value == if digits_value(s@.subrange(start as int, i as int)) > 255 {
                256
            } else {
                digits_value(s@.subrange(start as int, i as int))
            },
            digits_value(s@.subrange(start as int, i as int)) >= 0,
        decreases n - i,
    {
        let c = s.get_char(i);
        let ghost prefix = s@.subrange(start as int, i as int);
        assert(s@.subrange(start as int, i + 1).drop_last() =~= prefix);
        if !('0' <= c && c <= '9') {
            assert(!is_digit(d[i - start]));
            return None;
        }
        let digit = (c as u32) - ('0' as u32);
        if value > 255 {
            value = 256;
        } else {
            value = value * 10 + digit;
            if value > 255 {
                value = 256;
            }
        }
        i = i + 1;
    }
    assert(s@.subrange(start as int, n as int) =~= d);
    assert forall|j: int| 0 <= j < d.len() implies is_digit(#[trigger] d[j]) by {
        assert(d[j] == s@[start + j]);
    }
    if value > 255 {
        None
    } else {
        Some(value as u8)
    }
}

impl Config {
    /// The default settings.
    pub fn defaults() -> (r: Config)
        ensures
            r@ == default_settings(),
    {
        Config {
            bind_address: DEFAULT_BIND_ADDRESS.to_owned(),
            port: DEFAULT_BIND_PORT.to_owned(),
            cache_write_through: DEFAULT_CACHE_WRITE_THROUGH,
            debug: DEFAULT_DEBUG,
        }
    }

    /// Applies one line of a settings file; a malformed line gives `ConfigError` and
    /// changes nothing.
    pub fn apply_line(&mut self, line: &str) -> (r: Result<(), ConfigError>)
        ensures
            match settings_after_line(old(self)@, line@) {
                Some(c) => r is Ok && final(self)@ == c,
                None => r is Err && final(self)@ == old(self)@,
            },
    {
        if line.unicode_len() > 0 && line.get_char(0) == '#' {
            return Ok(());
        }
        let folded = lowercase(line);
        let words = split_tokens(folded.as_str());
        assert(views(words@) == tokens(lower_of(line@)));
        if words.len() < 2 {
            return Ok(());
        }
        assert(views(words@)[0] == words@[0]@ && views(words@)[1] == words@[1]@);
        if same_text(words[0], "bind_address") {
            self.bind_address = words[1].to_owned();
        } else if same_text(words[0], "port") {
            self.port = words[1].to_owned();
        } else if same_text(words[0], "cache_write_through") {
            match parse_u8_text(words[1]) {
                Some(n) => self.cache_write_through = n,
                None => return Err(ConfigError),
            }
        }
        Ok(())
    }

    /// The settings that `lines` give, in turn, to the defaults; `ConfigError` where one
    /// of them is malformed.
    pub fn from_lines(lines: &Vec<&str>) -> (r: Result<Config, ConfigError>)
        ensures
            match settings_after_lines(default_settings(), views(lines@)) {
                Some(c) => r matches Ok(cfg) && cfg@ == c,
                None => r is Err,
            },
    {
        let mut config = Config::defaults();
        let mut i: usize = 0;
        while i < lines.len()
            invariant
                i <= lines.len(),
                settings_after_lines(default_settings(), views(lines@).subrange(0, i as int))
                    == Some(config@),
            decreases lines.len() - i,
        {
            let ghost done = views(lines@).subrange(0, i + 1);
            assert(done.drop_last() =~= views(lines@).subrange(0, i as int));
            assert(done.last() == lines@[i as int]@);
            match config.apply_line(lines[i]) {
                Ok(()) => {},
                Err(e) => {
                    proof {
                        lemma_malformed_stays(default_settings(), views(lines@), i as int + 1);
                    }
                    return Err(e);
                },
            }
            i = i + 1;
        }
        assert(views(lines@).subrange(0, i as int) =~= views(lines@));
        Ok(config)
    }

    /// The text of the setting named `key`, case-folded; `None` where it names none.
    pub fn get(&self, key: &str) -> (r: Option<String>)
        ensures
            match r {
                Some(v) => setting_text(self@, lower_of(key@)) == Some(v@),
                None => setting_text(self@, lower_of(key@)) is None,
            },
    {
        let name = lowercase(key);
        let name = name.as_str();
        if same_text(name, "bind_address") {
            Some(self.bind_address.clone())
        } else if same_text(name, "port") {
            Some(self.port.clone())
        } else if same_text(name, "cache_write_through") {
            Some(u8_text(self.cache_write_through))
        } else if same_text(name, "debug") {
            if self.debug {
                Some("true".to_owned())
            } else {
                Some("false".to_owned())
            }
        } else {
            None
        }
    }
}

/// Once a line is malformed, the lines after it do not make the settings whole again.
proof fn lemma_malformed_stays(c: Settings, lines: Seq<Seq<char>>, k: int)
    requires
        0 <= k <= lines.len(),
        settings_after_lines(c, lines.subrange(0, k)) is None,
    ensures
        settings_after_lines(c, lines) is None,
    decreases lines.len() - k,
{
    if k < lines.len() {
        let next = lines.subrange(0, k + 1);
        assert(next.drop_last() =~= lines.subrange(0, k));
        lemma_malformed_stays(c, lines, k + 1);
    } else {
        assert(lines.subrange(0, k) =~= lines);
    }
}

} // verus!
