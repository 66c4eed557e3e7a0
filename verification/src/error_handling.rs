//! A configuration of `key=value` lines, with the errors that reading one
//! can give.

use vstd::prelude::*;
use crate::text::{
    decimal_of, index_of, lines, lines_of, lowercase_of, find_char, parse_i32, parse_unsigned,
    push_all, push_decimal, push_str, same_str, signed_of, slice, to_chars, to_lowercase,
    to_string, trim, trimmed, unsigned_of, texts,
};
use crate::text_map::TextMap;

verus! {

/// `std::io::Error`: an input/output error, carried along without a look
/// inside it.
#[verifier::external_type_specification]
#[verifier::external_body]
pub struct ExIoError(std::io::Error);

/// Why a configuration could not be had.
#[derive(Debug)]
pub enum ConfigError {
    IoError(std::io::Error),
    ParseError(String),
    ValidationError(String),
}

/// What a `ConfigError` says, apart from what an input/output error holds.
pub ghost enum ConfigFault {
    Io,
    Parse(Seq<char>),
    Validation(Seq<char>),
}

impl View for ConfigError {
    type V = ConfigFault;

    open spec fn view(&self) -> ConfigFault {
        match self {
            ConfigError::IoError(_) => ConfigFault::Io,
            ConfigError::ParseError(message) => ConfigFault::Parse(message@),
            ConfigError::ValidationError(message) => ConfigFault::Validation(message@),
        }
    }
}

/// The text of an input/output error, as its `Display` writes it; it may
/// depend on the system that raised the error.
#[verifier::external_body]
fn io_error_text(error: &std::io::Error) -> (text: String) {
    format!("{}", error)
}

impl ConfigError {
    /// The error as a line of text: its kind, a colon, and its message.
    pub fn to_string(&self) -> (text: String)
        ensures
            match self {
                ConfigError::IoError(_) => exists|detail: Seq<char>|
                    text@ == "IO error: "@ + detail,
                ConfigError::ParseError(message) => text@ == "Parse error: "@ + message@,
                ConfigError::ValidationError(message) => text@ == "Validation error: "@
                    + message@,
            },
    {
        let mut out: Vec<char> = Vec::new();
        match self {
            ConfigError::IoError(error) => {
                push_str(&mut out, "IO error: ");
                let detail: String = io_error_text(error);
                push_str(&mut out, detail.as_str());
                assert(out@ =~= "IO error: "@ + detail@);
            },
            ConfigError::ParseError(message) => {
                push_str(&mut out, "Parse error: ");
                push_str(&mut out, message.as_str());
                assert(out@ =~= "Parse error: "@ + message@);
            },
            ConfigError::ValidationError(message) => {
                push_str(&mut out, "Validation error: ");
                push_str(&mut out, message.as_str());
                assert(out@ =~= "Validation error: "@ + message@);
            },
        }
        to_string(&out)
    }

    /// The input/output error behind this error, where there is one.
    pub fn source(&self) -> (r: Option<&std::io::Error>)
        ensures
            r is Some <==> self is IoError,
            r matches Some(e) ==> *e == self->IoError_0,
    {
        match self {
            ConfigError::IoError(error) => Some(error),
            _ => None,
        }
    }
}

impl From<std::io::Error> for ConfigError {
    fn from(error: std::io::Error) -> (r: ConfigError) {
        ConfigError::IoError(error)
    }
}

impl vstd::std_specs::convert::FromSpecImpl<std::io::Error> for ConfigError {
    open spec fn obeys_from_spec() -> bool {
        true
    }

    open spec fn from_spec(error: std::io::Error) -> ConfigError {
        ConfigError::IoError(error)
    }
}

/// What one line of a configuration holds.
pub ghost enum ConfigLine {
    /// An empty line or a comment.
    Blank,
    /// A key and its value.
    Setting(Seq<char>, Seq<char>),
    /// A line that is neither, with the message that says so.
    Malformed(Seq<char>),
}

/// The message for a line without an equals sign.
pub open spec fn invalid_format_message(number: nat, line: Seq<char>) -> Seq<char> {
    "Invalid format on line "@ + decimal_of(number) + ": '"@ + line + "'"@
}

/// The message for a line whose key is empty.
pub open spec fn empty_key_message(number: nat) -> Seq<char> {
    "Empty key on line "@ + decimal_of(number)
}

/// What the line `line`, the `number`-th of its text, holds. White space
/// around the line, the key and the value does not count; a line that is
/// empty or starts with `#` is blank; the first equals sign parts key and
/// value.
pub open spec fn read_line(line: Seq<char>, number: nat) -> ConfigLine {
    let t = trimmed(line);
    if t.len() == 0 || t[0] == '#' {
        ConfigLine::Blank
    } else {
        let eq = index_of(t, '=', 0);
        if eq >= t.len() {
            ConfigLine::Malformed(invalid_format_message(number, t))
        } else {
            let key = trimmed(t.take(eq));
            if key.len() == 0 {
                ConfigLine::Malformed(empty_key_message(number))
            } else {
                ConfigLine::Setting(key, trimmed(t.skip(eq + 1)))
            }
        }
    }
}

/// The settings that `lines` make, later lines overriding earlier ones, or
/// the message for the first line that is malformed.
pub open spec fn read_lines(lines: Seq<Seq<char>>) -> Result<Map<Seq<char>, Seq<char>>, Seq<char>>
    decreases lines.len(),
{
    if lines.len() == 0 {
        Ok(Map::empty())
    } else {
        match read_lines(lines.drop_last()) {
            Err(message) => Err(message),
            Ok(settings) => match read_line(lines.last(), lines.len()) {
                ConfigLine::Blank => Ok(settings),
                ConfigLine::Setting(key, value) => Ok(settings.insert(key, value)),
                ConfigLine::Malformed(message) => Err(message),
            },
        }
    }
}

/// Whether `settings` name a port that reads as the number zero.
pub open spec fn port_is_zero(settings: Map<Seq<char>, Seq<char>>) -> bool {
    settings.contains_key("port"@) && unsigned_of(settings["port"@], u16::MAX as int) == Some(
        0int,
    )
}

/// The configuration that the text `contents` holds, or why it holds none.
pub open spec fn config_of(contents: Seq<char>) -> Result<Map<Seq<char>, Seq<char>>, ConfigFault> {
    match read_lines(lines_of(contents)) {
        Err(message) => Err(ConfigFault::Parse(message)),
        Ok(settings) => if port_is_zero(settings) {
            Err(ConfigFault::Validation("Port cannot be 0"@))
        } else {
            Ok(settings)
        },
    }
}

/// The message for a key that a configuration lacks.
pub open spec fn missing_key_message(key: Seq<char>) -> Seq<char> {
    "Required key '"@ + key + "' not found"@
}

/// The message for a value that is not of the kind asked for.
pub open spec fn invalid_value_message(value: Seq<char>, key: Seq<char>, kind: Seq<char>) -> Seq<
    char,
> {
    "Value '"@ + value + "' for key '"@ + key + "' is not a valid "@ + kind
}

/// The truth value that `value` spells, whatever its case.
pub open spec fn bool_of(value: Seq<char>) -> Option<bool> {
    let lower = lowercase_of(value);
    if lower == "true"@ || lower == "yes"@ || lower == "1"@ {
        Some(true)
    } else if lower == "false"@ || lower == "no"@ || lower == "0"@ {
        Some(false)
    } else {
        None
    }
}

/// The texts that the strings of `settings` hold.
pub open spec fn text_values(settings: Map<Seq<char>, String>) -> Map<Seq<char>, Seq<char>> {
    settings.map_values(|v: String| v@)
}

/// Settings by key.
#[derive(Debug)]
pub struct Config {
    settings: TextMap<String>,
}

impl View for Config {
    type V = Map<Seq<char>, Seq<char>>;

    closed spec fn view(&self) -> Map<Seq<char>, Seq<char>> {
        text_values(self.settings@)
    }
}

fn invalid_value(value: &String, key: &str, kind: &str) -> (e: ConfigError)
    ensures
        e@ == ConfigFault::Parse(invalid_value_message(value@, key@, kind@)),
{
    let mut out: Vec<char> = Vec::new();
    push_str(&mut out, "Value '");
    push_str(&mut out, value.as_str());
    push_str(&mut out, "' for key '");
    push_str(&mut out, key);
    push_str(&mut out, "' is not a valid ");
    push_str(&mut out, kind);
    assert(out@ =~= invalid_value_message(value@, key@, kind@));
    ConfigError::ParseError(to_string(&out))
}

impl Config {
    /// A configuration without settings.
    pub fn new() -> (config: Self)
        ensures
            config@ == Map::<Seq<char>, Seq<char>>::empty(),
    {
        let config = Config { settings: TextMap::new() };
        assert(config@ =~= Map::<Seq<char>, Seq<char>>::empty());
        config
    }

    /// Reads a configuration from text.
    pub fn from_string(contents: &str) -> (r: Result<Self, ConfigError>)
        ensures
            match r {
                Ok(config) => config_of(contents@) == Ok::<_, ConfigFault>(config@),
                Err(e) => config_of(contents@) == Err::<Map<Seq<char>, Seq<char>>, _>(e@),
            },
    {
        let mut config = Config::new();
        let chars: Vec<char> = to_chars(contents);
        let all: Vec<Vec<char>> = lines(&chars);
        let ghost all_lines = lines_of(contents@);
        let mut i: usize = 0;
        assert(all_lines.take(0) =~= Seq::<Seq<char>>::empty());
        while i < all.len()
            invariant
                i <= all.len(),
                texts(all@) == all_lines,
                all_lines == lines_of(contents@),
                read_lines(all_lines.take(i as int)) == Ok::<_, Seq<char>>(config@),
            decreases all.len() - i,
        {
            let ghost number = (i + 1) as nat;
            proof {
                assert(all_lines.take(i + 1).drop_last() =~= all_lines.take(i as int));
                assert(all_lines.take(i + 1).last() == all@[i as int]@);
            }
            let line: Vec<char> = trim(&all[i]);
            if line.len() == 0 || line[0] == '#' {
            } else {
                let eq: usize = find_char(&line, '=', 0);
                if eq >= line.len() {
                    let mut out: Vec<char> = Vec::new();
                    push_str(&mut out, "Invalid format on line ");
                    push_decimal(&mut out, i as u64 + 1);
                    push_str(&mut out, ": '");
                    push_all(&mut out, &line);
                    push_str(&mut out, "'");
                    proof {
                        assert(out@ =~= invalid_format_message(number, line@));
                        assert(read_line(all@[i as int]@, number) == ConfigLine::Malformed(out@));
                        assert(read_lines(all_lines.take(i + 1)) == Err::<
                            Map<Seq<char>, Seq<char>>,
                            _,
                        >(out@));
                        lemma_first_failure(all_lines, i as int + 1);
                    }
                    return Err(ConfigError::ParseError(to_string(&out)));
                }
                let key: Vec<char> = trim(&slice(&line, 0, eq));
                let value: Vec<char> = trim(&slice(&line, eq + 1, line.len()));
                proof {
                    assert(line@.take(eq as int) =~= line@.subrange(0, eq as int));
                    if eq + 1 < line@.len() {
                        assert(line@.skip(eq + 1) =~= line@.subrange(
                            eq + 1,
                            line@.len() as int,
                        ));
                    } else {
                        assert(line@.skip(eq + 1) =~= Seq::<char>::empty());
                    }
                }
                if key.len() == 0 {
                    let mut out: Vec<char> = Vec::new();
                    push_str(&mut out, "Empty key on line ");
                    push_decimal(&mut out, i as u64 + 1);
                    proof {
                        assert(out@ =~= empty_key_message(number));
                        assert(read_line(all@[i as int]@, number) == ConfigLine::Malformed(out@));
                        assert(read_lines(all_lines.take(i + 1)) == Err::<
                            Map<Seq<char>, Seq<char>>,
                            _,
                        >(out@));
                        lemma_first_failure(all_lines, i as int + 1);
                    }
                    return Err(ConfigError::ParseError(to_string(&out)));
                }
                let ghost before = config.settings@;
                let value: String = to_string(&value);
                config.settings.insert(to_string(&key), value);
                assert(config@ =~= text_values(before).insert(key@, value@));
            }
            i = i + 1;
        }
        assert(all_lines.take(all_lines.len() as int) =~= all_lines);
        match config.validate() {
            Ok(()) => Ok(config),
            Err(e) => Err(e),
        }
    }

    /// The value of `key`.
    pub fn get(&self, key: &str) -> (r: Option<&String>)
        ensures
            match r {
                Some(value) => self@.contains_key(key@) && value@ == self@[key@],
                None => !self@.contains_key(key@),
            },
    {
        self.settings.get(key)
    }

    /// The value of `key`, or an error that names the key.
    pub fn get_required(&self, key: &str) -> (r: Result<&String, ConfigError>)
        ensures
            match r {
                Ok(value) => self@.contains_key(key@) && value@ == self@[key@],
                Err(e) => !self@.contains_key(key@) && e@ == ConfigFault::Validation(
                    missing_key_message(key@),
                ),
            },
    {
        match self.settings.get(key) {
            Some(value) => Ok(value),
            None => {
                let mut out: Vec<char> = Vec::new();
                push_str(&mut out, "Required key '");
                push_str(&mut out, key);
                push_str(&mut out, "' not found");
                assert(out@ =~= missing_key_message(key@));
                Err(ConfigError::ValidationError(to_string(&out)))
            },
        }
    }

    /// The value of `key` as a signed number of 32 bits.
    pub fn get_int(&self, key: &str) -> (r: Result<i32, ConfigError>)
        ensures
            match r {
                Ok(n) => self@.contains_key(key@) && signed_of(
                    self@[key@],
                    i32::MIN as int,
                    i32::MAX as int,
                ) == Some(n as int),
                Err(e) => if self@.contains_key(key@) {
                    signed_of(self@[key@], i32::MIN as int, i32::MAX as int) is None && e@
                        == ConfigFault::Parse(
                        invalid_value_message(self@[key@], key@, "integer"@),
                    )
                } else {
                    e@ == ConfigFault::Validation(missing_key_message(key@))
                },
            },
    {
        let value: &String = match self.get_required(key) {
            Ok(value) => value,
            Err(e) => {
                return Err(e);
            },
        };
        match parse_i32(&to_chars(value.as_str())) {
            Some(n) => Ok(n),
            None => Err(invalid_value(value, key, "integer")),
        }
    }

    /// The value of `key` as a truth value.
    pub fn get_bool(&self, key: &str) -> (r: Result<bool, ConfigError>)
        ensures
            match r {
                Ok(b) => self@.contains_key(key@) && bool_of(self@[key@]) == Some(b),
                Err(e) => if self@.contains_key(key@) {
                    bool_of(self@[key@]) is None && e@ == ConfigFault::Parse(
                        invalid_value_message(self@[key@], key@, "boolean"@),
                    )
                } else {
                    e@ == ConfigFault::Validation(missing_key_message(key@))
                },
            },
    {
        let value: &String = match self.get_required(key) {
            Ok(value) => value,
            Err(e) => {
                return Err(e);
            },
        };
        let lower: String = to_lowercase(value.as_str());
        if same_str(lower.as_str(), "true") || same_str(lower.as_str(), "yes") || same_str(
            lower.as_str(),
            "1",
        ) {
            Ok(true)
        } else if same_str(lower.as_str(), "false") || same_str(lower.as_str(), "no")
            || same_str(lower.as_str(), "0") {
            Ok(false)
        } else {
            Err(invalid_value(value, key, "boolean"))
        }
    }

    /// Sets `key` to `value`.
    pub fn set(&mut self, key: String, value: String)
        ensures
            final(self)@ == old(self)@.insert(key@, value@),
    {
        let ghost before = self.settings@;
        self.settings.insert(key, value);
        assert(self@ =~= text_values(before).insert(key@, value@));
    }

    /// The keys, each once, in the order in which they were first set.
    pub fn keys(&self) -> (r: Vec<String>)
        ensures
            r@.map_values(|k: String| k@).no_duplicates(),
            r@.map_values(|k: String| k@).to_set() == self@.dom(),
    {
        let r: Vec<String> = self.settings.keys();
        assert(self@.dom() =~= self.settings@.dom());
        r
    }

    /// The number of settings.
    pub fn len(&self) -> (n: usize)
        ensures
            self@.dom().finite(),
            n == self@.dom().len(),
    {
        assert(self@.dom() =~= self.settings@.dom());
        self.settings.len()
    }

    pub fn is_empty(&self) -> (b: bool)
        ensures
            b == (self@ == Map::<Seq<char>, Seq<char>>::empty()),
    {
        proof {
            assert(self@.dom() =~= self.settings@.dom());
            if self.settings@ == Map::<Seq<char>, String>::empty() {
                assert(self@ =~= Map::<Seq<char>, Seq<char>>::empty());
            }
            if self@ == Map::<Seq<char>, Seq<char>>::empty() {
                assert(self.settings@ =~= Map::<Seq<char>, String>::empty());
            }
        }
        self.settings.is_empty()
    }

    /// Checks the settings: a port must not read as zero.
    fn validate(&self) -> (r: Result<(), ConfigError>)
        ensures
            r is Ok <==> !port_is_zero(self@),
            r matches Err(e) ==> e@ == ConfigFault::Validation("Port cannot be 0"@),
    {
        match self.get("port") {
            Some(port) => match parse_unsigned(&to_chars(port.as_str()), 65535) {
                Some(n) => if n == 0 {
                    let message: Vec<char> = to_chars("Port cannot be 0");
                    return Err(ConfigError::ValidationError(to_string(&message)));
                },
                None => {},
            },
            None => {},
        }
        Ok(())
    }
}

/// Once a line is malformed, the lines after it do not matter.
proof fn lemma_first_failure(lines: Seq<Seq<char>>, k: int)
    requires
        0 < k <= lines.len(),
        read_lines(lines.take(k)) is Err,
    ensures
        read_lines(lines) == read_lines(lines.take(k)),
    decreases lines.len() - k,
{
    if k == lines.len() {
        assert(lines.take(k) =~= lines);
    } else {
        assert(lines.drop_last().take(k) =~= lines.take(k));
        lemma_first_failure(lines.drop_last(), k);
    }
}

impl Default for Config {
    fn default() -> (config: Self)
        ensures
            config@ == Map::<Seq<char>, Seq<char>>::empty(),
    {
        Self::new()
    }
}

/// The message for a configuration that could not be read from `path`.
pub open spec fn load_failure_message(path: Seq<char>) -> Seq<char> {
    "Failed to load config from '"@ + path + "'"@
}

/// What loading the configuration at `path` gives, once the attempt to read
/// the file has given `read`: the configuration that the text holds, or why
/// it holds none; a failure to read becomes a validation error that names
/// the path.
pub fn load_config_with_context(path: &str, read: Result<String, std::io::Error>) -> (r: Result<
    Config,
    ConfigError,
>)
    ensures
        match read {
            Ok(contents) => match r {
                Ok(config) => config_of(contents@) == Ok::<_, ConfigFault>(config@),
                Err(e) => config_of(contents@) == Err::<Map<Seq<char>, Seq<char>>, _>(e@),
            },
            Err(_) => r matches Err(e) && e@ == ConfigFault::Validation(
                load_failure_message(path@),
            ),
        },
{
    match read {
        Ok(contents) => Config::from_string(contents.as_str()),
        Err(_) => {
            let mut out: Vec<char> = Vec::new();
            push_str(&mut out, "Failed to load config from '");
            push_str(&mut out, path);
            push_str(&mut out, "'");
            assert(out@ =~= load_failure_message(path@));
            Err(ConfigError::ValidationError(to_string(&out)))
        },
    }
}

} // verus!
