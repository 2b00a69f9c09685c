//! Limits and settings that stay fixed during one run.

use crate::error::GitingestError;
use crate::text::{
    chars_of, split, split_text, str_eq, string_of, texts, trim_bounds, trimmed,
};
use vstd::prelude::*;
use vstd::string::*;

verus! {

/// The settings of one run.
#[derive(Debug, Clone)]
pub struct AppConfig {
    pub host: String,
    pub port: u16,
    pub max_file_size: u64,
    pub max_files: usize,
    pub max_total_size: u64,
    pub max_directory_depth: u32,
    pub default_timeout: u64,
    pub temp_dir: String,
    pub github_token: Option<String>,
    pub allowed_hosts: Vec<String>,
    pub concurrent_file_limit: usize,
    pub batch_size: usize,
}

impl Default for AppConfig {
    /// No bound on sizes, counts or depth; a thousand fetches in flight at
    /// most, handed out in batches of five hundred.
    fn default() -> (config: Self)
        ensures
            config.host@ == "0.0.0.0"@,
            config.port == 8080,
            config.max_file_size == u64::MAX,
            config.max_files == usize::MAX,
            config.max_total_size == u64::MAX,
            config.max_directory_depth == u32::MAX,
            config.default_timeout == 60,
            config.temp_dir@ == "/tmp/fast-gitingest"@,
            config.github_token is None,
            config.allowed_hosts@.len() == 3,
            config.allowed_hosts@[0]@ == "github.com"@,
            config.allowed_hosts@[1]@ == "gitlab.com"@,
            config.allowed_hosts@[2]@ == "bitbucket.org"@,
            config.concurrent_file_limit == 1000,
            config.batch_size == 500,
    {
        let mut allowed_hosts: Vec<String> = Vec::new();
        allowed_hosts.push(String::from_str("github.com"));
        allowed_hosts.push(String::from_str("gitlab.com"));
        allowed_hosts.push(String::from_str("bitbucket.org"));
        AppConfig {
            host: String::from_str("0.0.0.0"),
            port: 8080,
            max_file_size: u64::MAX,
            max_files: usize::MAX,
            max_total_size: u64::MAX,
            max_directory_depth: u32::MAX,
            default_timeout: 60,
            temp_dir: String::from_str("/tmp/fast-gitingest"),
            github_token: None,
            allowed_hosts,
            concurrent_file_limit: 1000,
            batch_size: 500,
        }
    }
}

/// The value of the first variable with the given name, if there is one.
pub open spec fn lookup(variables: Seq<(String, String)>, name: Seq<char>) -> Option<Seq<char>>
    decreases variables.len(),
{
    if variables.len() == 0 {
        None
    } else if variables[0].0@ == name {
        Some(variables[0].1@)
    } else {
        lookup(variables.drop_first(), name)
    }
}

/// Whether `c` is one of the ten digits.
pub open spec fn is_digit(c: char) -> bool {
    '0' <= c && c <= '9'
}

/// The number that a text of digits writes in base ten.
pub open spec fn digits_value(digits: Seq<char>) -> nat
    decreases digits.len(),
{
    if digits.len() == 0 {
        0
    } else {
        digits_value(digits.drop_last()) * 10 + ((digits.last() as u32) - ('0' as u32)) as nat
    }
}

/// `text` without the `+` that may stand in front of it.
pub open spec fn unsigned_part(text: Seq<char>) -> Seq<char> {
    if text.len() > 0 && text[0] == '+' {
        text.drop_first()
    } else {
        text
    }
}

/// Whether `text` is made of digits only.
pub open spec fn all_digits(text: Seq<char>) -> bool {
    forall|i: int| 0 <= i < text.len() ==> is_digit(#[trigger] text[i])
}

/// The number that a text writes, if it writes one that is at most `max`:
/// digits only, at least one, with a `+` in front of them or without.
pub open spec fn number_of(text: Seq<char>, max: nat) -> Option<nat> {
    let digits = unsigned_part(text);
    if digits.len() > 0 && all_digits(digits) && digits_value(digits) <= max {
        Some(digits_value(digits))
    } else {
        None
    }
}

/// The pieces of `text` between commas, each trimmed.
pub open spec fn comma_list(text: Seq<char>) -> Seq<Seq<char>> {
    split_text(text, ',').map_values(|piece: Seq<char>| trimmed(piece))
}

/// A larger count of digits writes no smaller a number.
proof fn lemma_digits_value_grows(digits: Seq<char>, count: int)
    requires
        0 <= count <= digits.len(),
        all_digits(digits),
    ensures
        digits_value(digits.take(count)) <= digits_value(digits),
    decreases digits.len() - count,
{
    if count < digits.len() {
        let longer = digits.take(count + 1);
        assert(longer.drop_last() =~= digits.take(count));
        assert(longer.last() == digits[count]);
        assert(is_digit(digits[count]));
        lemma_digits_value_grows(digits, count + 1);
    } else {
        assert(digits.take(count) =~= digits);
    }
}

/// Reads a number that is at most `max`.
#[verifier::rlimit(50)]
pub fn parse_number(text: &str, max: u64) -> (r: Option<u64>)
    ensures
        match r {
            Some(n) => number_of(text@, max as nat) == Some(n as nat),
            None => number_of(text@, max as nat) is None,
        },
{
    let chars = chars_of(text);
    let start: usize = if chars.len() > 0 && chars[0] == '+' {
        1
    } else {
        0
    };
    let ghost digits = chars@.skip(start as int);
    assert(start == 1 ==> digits =~= chars@.drop_first());
    assert(start == 0 ==> digits =~= chars@);
    if start == chars.len() {
        return None;
    }
    let mut value: u64 = 0;
    let mut i: usize = start;
    assert(digits.take(0) =~= Seq::<char>::empty());
    while i < chars.len()
        invariant
            start <= i <= chars.len(),
            digits == chars@.skip(start as int),
            digits == unsigned_part(text@),
            forall|k: int| 0 <= k < i - start ==> is_digit(#[trigger] digits[k]),
            value == digits_value(digits.take(i - start)),
            value <= max,
        decreases chars.len() - i,
    {
        let c = chars[i];
        assert(digits[i - start] == c);
        if !('0' <= c && c <= '9') {
            assert(!is_digit(digits[i - start]));
            assert(!all_digits(digits));
            return None;
        }
        let digit: u64 = (c as u32 - '0' as u32) as u64;
        let ghost longer = digits.take(i - start + 1);
        assert(longer.drop_last() =~= digits.take(i - start));
        assert(longer.last() == c);
        if (value as u128) * 10 + (digit as u128) > (max as u128) {
            // The number is beyond `max`, whatever follows.
            proof {
                assert(digits_value(longer) > max);
                if all_digits(digits) {
                    lemma_digits_value_grows(digits, i - start + 1);
                }
            }
            return None;
        }
        value = value * 10 + digit;
        i = i + 1;
    }
    assert(digits.take(i - start) =~= digits);
    assert(all_digits(digits));
    Some(value)
}

impl AppConfig {
    /// The value of the first variable called `name`.
    pub fn variable(variables: &Vec<(String, String)>, name: &str) -> (value: Option<String>)
        ensures
            match value {
                Some(text) => lookup(variables@, name@) == Some(text@),
                None => lookup(variables@, name@) is None,
            },
    {
        let mut i: usize = 0;
        assert(variables@.skip(0) =~= variables@);
        while i < variables.len()
            invariant
                i <= variables.len(),
                lookup(variables@, name@) == lookup(variables@.skip(i as int), name@),
            decreases variables.len() - i,
        {
            assert(variables@.skip(i as int)[0] == variables@[i as int]);
            assert(variables@.skip(i as int).drop_first() =~= variables@.skip(i as int + 1));
            if str_eq(variables[i].0.as_str(), name) {
                return Some(variables[i].1.clone());
            }
            i = i + 1;
        }
        None
    }

    /// Reads the number in the variable called `name`, if that variable is
    /// there; a value that is no number, or one beyond `max`, is an error.
    fn number_setting(variables: &Vec<(String, String)>, name: &str, max: u64, default: u64) -> (r:
        Result<u64, GitingestError>)
        requires
            default <= max,
        ensures
            match lookup(variables@, name@) {
                Some(text) => match number_of(text, max as nat) {
                    Some(n) => r == Ok::<u64, GitingestError>(n as u64),
                    None => r matches Err(e) && e is ConfigError,
                },
                None => r == Ok::<u64, GitingestError>(default),
            },
            r matches Ok(n) ==> n <= max,
    {
        match Self::variable(variables, name) {
            Some(text) => match parse_number(text.as_str(), max) {
                Some(n) => Ok(n),
                None => {
                    let mut message = String::from_str("invalid value for ");
                    message.append(name);
                    message.append(": ");
                    message.append(text.as_str());
                    Err(GitingestError::ConfigError(message))
                },
            },
            None => Ok(default),
        }
    }

    /// The settings that a list of environment variables asks for. Each
    /// setting has its variable; a variable that is absent leaves the
    /// default, and one that should hold a number and does not is an error.
    /// The variables are read in the order of the fields.
    #[verifier::rlimit(50)]
    pub fn from_env(variables: &Vec<(String, String)>) -> (r: Result<AppConfig, GitingestError>)
        ensures
            r is Ok <==> {
                &&& Self::number_is_fine(variables@, "PORT"@, u16::MAX as nat)
                &&& Self::number_is_fine(variables@, "MAX_FILE_SIZE"@, u64::MAX as nat)
                &&& Self::number_is_fine(variables@, "MAX_FILES"@, usize::MAX as nat)
                &&& Self::number_is_fine(variables@, "MAX_TOTAL_SIZE"@, u64::MAX as nat)
                &&& Self::number_is_fine(variables@, "MAX_DIRECTORY_DEPTH"@, u32::MAX as nat)
                &&& Self::number_is_fine(variables@, "DEFAULT_TIMEOUT"@, u64::MAX as nat)
                &&& Self::number_is_fine(variables@, "CONCURRENT_FILE_LIMIT"@, usize::MAX as nat)
                &&& Self::number_is_fine(variables@, "BATCH_SIZE"@, usize::MAX as nat)
            },
            r matches Err(e) ==> e is ConfigError,
            r matches Ok(config) ==> {
                &&& config.host@ == Self::text_or(variables@, "HOST"@, "0.0.0.0"@)
                &&& config.port == Self::number_or(variables@, "PORT"@, 8080)
                &&& config.max_file_size == Self::number_or(
                    variables@,
                    "MAX_FILE_SIZE"@,
                    u64::MAX as nat,
                )
                &&& config.max_files == Self::number_or(variables@, "MAX_FILES"@, usize::MAX as nat)
                &&& config.max_total_size == Self::number_or(
                    variables@,
                    "MAX_TOTAL_SIZE"@,
                    u64::MAX as nat,
                )
                &&& config.max_directory_depth == Self::number_or(
                    variables@,
                    "MAX_DIRECTORY_DEPTH"@,
                    u32::MAX as nat,
                )
                &&& config.default_timeout == Self::number_or(variables@, "DEFAULT_TIMEOUT"@, 60)
                &&& config.temp_dir@ == Self::text_or(
                    variables@,
                    "TEMP_DIR"@,
                    "/tmp/fast-gitingest"@,
                )
                &&& (match config.github_token {
                    Some(token) => Some(token@),
                    None => None,
                }) == lookup(variables@, "GITHUB_TOKEN"@)
                &&& texts(config.allowed_hosts@) == (match lookup(variables@, "ALLOWED_HOSTS"@) {
                    Some(hosts) => comma_list(hosts),
                    None => seq!["github.com"@, "gitlab.com"@, "bitbucket.org"@],
                })
                &&& config.concurrent_file_limit == Self::number_or(
                    variables@,
                    "CONCURRENT_FILE_LIMIT"@,
                    1000,
                )
                &&& config.batch_size == Self::number_or(variables@, "BATCH_SIZE"@, 500)
            },
    {
        let mut config = AppConfig::default();
        if let Some(host) = Self::variable(variables, "HOST") {
            config.host = host;
        }
        config.port = match Self::number_setting(variables, "PORT", u16::MAX as u64, 8080) {
            Ok(n) => n as u16,
            Err(e) => {
                return Err(e);
            },
        };
        config.max_file_size = match Self::number_setting(
            variables,
            "MAX_FILE_SIZE",
            u64::MAX,
            u64::MAX,
        ) {
            Ok(n) => n,
            Err(e) => {
                return Err(e);
            },
        };
        config.max_files = match Self::number_setting(
            variables,
            "MAX_FILES",
            usize::MAX as u64,
            usize::MAX as u64,
        ) {
            Ok(n) => n as usize,
            Err(e) => {
                return Err(e);
            },
        };
        config.max_total_size = match Self::number_setting(
            variables,
            "MAX_TOTAL_SIZE",
            u64::MAX,
            u64::MAX,
        ) {
            Ok(n) => n,
            Err(e) => {
                return Err(e);
            },
        };
        config.max_directory_depth = match Self::number_setting(
            variables,
            "MAX_DIRECTORY_DEPTH",
            u32::MAX as u64,
            u32::MAX as u64,
        ) {
            Ok(n) => n as u32,
            Err(e) => {
                return Err(e);
            },
        };
        config.default_timeout = match Self::number_setting(
            variables,
            "DEFAULT_TIMEOUT",
            u64::MAX,
            60,
        ) {
            Ok(n) => n,
            Err(e) => {
                return Err(e);
            },
        };
        if let Some(temp_dir) = Self::variable(variables, "TEMP_DIR") {
            config.temp_dir = temp_dir;
        }
        config.github_token = Self::variable(variables, "GITHUB_TOKEN");
        if let Some(hosts) = Self::variable(variables, "ALLOWED_HOSTS") {
            let pieces = split(hosts.as_str(), ',');
            let mut allowed: Vec<String> = Vec::new();
            let mut i: usize = 0;
            while i < pieces.len()
                invariant
                    i <= pieces.len(),
                    texts(pieces@) == split_text(hosts@, ','),
                    allowed.len() == i,
                    forall|k: int| 0 <= k < i ==> (#[trigger] allowed@[k])@ == trimmed(pieces@[k]@),
                decreases pieces.len() - i,
            {
                let chars = chars_of(pieces[i].as_str());
                let (from, to) = trim_bounds(&chars);
                allowed.push(string_of(&chars, from, to));
                i = i + 1;
            }
            assert(texts(allowed@) =~= comma_list(hosts@));
            config.allowed_hosts = allowed;
        } else {
            assert(texts(config.allowed_hosts@) =~= seq![
                "github.com"@,
                "gitlab.com"@,
                "bitbucket.org"@,
            ]);
        }
        config.concurrent_file_limit = match Self::number_setting(
            variables,
            "CONCURRENT_FILE_LIMIT",
            usize::MAX as u64,
            1000,
        ) {
            Ok(n) => n as usize,
            Err(e) => {
                return Err(e);
            },
        };
        config.batch_size = match Self::number_setting(
            variables,
            "BATCH_SIZE",
            usize::MAX as u64,
            500,
        ) {
            Ok(n) => n as usize,
            Err(e) => {
                return Err(e);
            },
        };
        Ok(config)
    }

    /// Whether the variable called `name` is absent or holds a number that
    /// is at most `max`.
    pub open spec fn number_is_fine(variables: Seq<(String, String)>, name: Seq<char>, max: nat) -> bool {
        match lookup(variables, name) {
            Some(text) => number_of(text, max) is Some,
            None => true,
        }
    }

    /// The number in the variable called `name`; `default` if the variable
    /// is absent.
    pub open spec fn number_or(variables: Seq<(String, String)>, name: Seq<char>, default: nat) -> nat {
        match lookup(variables, name) {
            Some(text) => match number_of(text, u64::MAX as nat) {
                Some(n) => n,
                None => 0,
            },
            None => default,
        }
    }

    /// The text of the variable called `name`; `default` if the variable is
    /// absent.
    pub open spec fn text_or(variables: Seq<(String, String)>, name: Seq<char>, default: Seq<char>) -> Seq<
        char,
    > {
        match lookup(variables, name) {
            Some(text) => text,
            None => default,
        }
    }
}

} // verus!
