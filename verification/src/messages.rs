//! The words the program's errors are reported in.
use vstd::prelude::*;
use crate::config::{ConfigError, ParseError};
use crate::migrations::SqlInputFailure;
use crate::text::{decimal_digits, push_str, u64_to_decimal};

verus! {

/// What `{:?}` writes for a string: the string in double quotes, with
/// quotes, backslashes and unprintable characters escaped.
pub uninterp spec fn debug_quoted(s: Seq<char>) -> Seq<char>;

/// `<str as Debug>::fmt`, through `format!("{:?}")`. Its result is given the
/// name `debug_quoted`; the escaping rules are not stated here.
#[verifier::external_body]
fn debug_quote(s: &str) -> (res: String)
    ensures
        res@ == debug_quoted(s@),
{
    format!("{:?}", s)
}

/// The message of a configuration file's error.
pub open spec fn parse_error_message(e: ParseError) -> Seq<char> {
    match e {
        ParseError::File(reason) => "could not open config file: "@ + reason@,
        ParseError::Malformed(line) => "malformed line in config: "@ + line@,
        ParseError::Invalid { key, value } => debug_quoted(value@) + " is not a valid value for "@
            + key@,
        ParseError::RequiresFeature { key, value, feature } => "the value of "@ + key@ + " ("@
            + debug_quoted(value@) + ") requires the feature "@ + debug_quoted(feature@)
            + " to be enabled"@,
        ParseError::NotValidDir { key, value } => "could not read from directory "@ + debug_quoted(
            value@,
        ) + " (value of "@ + key@,
    }
}

impl ParseError {
    /// The error in words.
    pub fn message(&self) -> (res: String)
        ensures
            res@ == parse_error_message(*self),
    {
        match self {
            ParseError::File(reason) => {
                let mut s = String::from_str("could not open config file: ");
                push_str(&mut s, reason.as_str());
                s
            },
            ParseError::Malformed(line) => {
                let mut s = String::from_str("malformed line in config: ");
                push_str(&mut s, line.as_str());
                s
            },
            ParseError::Invalid { key, value } => {
                let mut s = debug_quote(value.as_str());
                push_str(&mut s, " is not a valid value for ");
                push_str(&mut s, key);
                s
            },
            ParseError::RequiresFeature { key, value, feature } => {
                let mut s = String::from_str("the value of ");
                push_str(&mut s, key);
                push_str(&mut s, " (");
                let v = debug_quote(value.as_str());
                push_str(&mut s, v.as_str());
                push_str(&mut s, ") requires the feature ");
                let f = debug_quote(feature);
                push_str(&mut s, f.as_str());
                push_str(&mut s, " to be enabled");
                s
            },
            ParseError::NotValidDir { key, value } => {
                let mut s = String::from_str("could not read from directory ");
                let v = debug_quote(value.as_str());
                push_str(&mut s, v.as_str());
                push_str(&mut s, " (value of ");
                push_str(&mut s, key);
                s
            },
        }
    }
}

/// The message of a command line's error.
pub open spec fn config_error_message(e: ConfigError) -> Seq<char> {
    match e {
        ConfigError::MissingArgument(flag) => "the flag "@ + debug_quoted(flag@)
            + " is missing its following argument"@,
        ConfigError::MissingCommandArgument(command) => "the command "@ + debug_quoted(command@)
            + " is missing its following argument"@,
        ConfigError::UnrecognizedArgument(arg) => "unrecognized argument "@ + debug_quoted(arg@),
        ConfigError::UnrecognizedCommand(command) => "unrecognized command "@ + debug_quoted(
            command@,
        ),
        ConfigError::ParseError(path, error) => "error parsing config file "@ + path@ + ": "@
            + parse_error_message(error),
    }
}

impl ConfigError {
    /// The error in words.
    pub fn message(&self) -> (res: String)
        ensures
            res@ == config_error_message(*self),
    {
        match self {
            ConfigError::MissingArgument(flag) => {
                let mut s = String::from_str("the flag ");
                let q = debug_quote(flag.as_str());
                push_str(&mut s, q.as_str());
                push_str(&mut s, " is missing its following argument");
                s
            },
            ConfigError::MissingCommandArgument(command) => {
                let mut s = String::from_str("the command ");
                let q = debug_quote(command.as_str());
                push_str(&mut s, q.as_str());
                push_str(&mut s, " is missing its following argument");
                s
            },
            ConfigError::UnrecognizedArgument(arg) => {
                let mut s = String::from_str("unrecognized argument ");
                let q = debug_quote(arg.as_str());
                push_str(&mut s, q.as_str());
                s
            },
            ConfigError::UnrecognizedCommand(command) => {
                let mut s = String::from_str("unrecognized command ");
                let q = debug_quote(command.as_str());
                push_str(&mut s, q.as_str());
                s
            },
            ConfigError::ParseError(path, error) => {
                let mut s = String::from_str("error parsing config file ");
                push_str(&mut s, path.as_str());
                push_str(&mut s, ": ");
                let m = error.message();
                push_str(&mut s, m.as_str());
                s
            },
        }
    }
}

/// The message of a migration that stopped on an SQL statement.
pub open spec fn sql_failure_message(f: SqlInputFailure) -> Seq<char> {
    match f {
        SqlInputFailure::SQLiteVersion { name, min_version } => "Migration "@ + name@
            + " requires SQLite version "@ + min_version@
            + ". Consider compiling with the bundled_sqlite feature."@,
        SqlInputFailure::Syntax { name, message, index, queries } => message@ + ", in "@ + name@
            + ".sql, line "@ + decimal_digits(index.0 as nat) + ", column "@ + decimal_digits(
            index.1 as nat,
        ) + ":\n"@ + queries@,
    }
}

impl SqlInputFailure {
    /// The failure in words.
    pub fn message(&self) -> (res: String)
        ensures
            res@ == sql_failure_message(*self),
    {
        match self {
            SqlInputFailure::SQLiteVersion { name, min_version } => {
                let mut s = String::from_str("Migration ");
                push_str(&mut s, name);
                push_str(&mut s, " requires SQLite version ");
                push_str(&mut s, min_version);
                push_str(&mut s, ". Consider compiling with the bundled_sqlite feature.");
                s
            },
            SqlInputFailure::Syntax { name, message, index, queries } => {
                let mut s = String::from_str(message.as_str());
                push_str(&mut s, ", in ");
                push_str(&mut s, name);
                push_str(&mut s, ".sql, line ");
                let l = u64_to_decimal(index.0 as u64);
                push_str(&mut s, l.as_str());
                push_str(&mut s, ", column ");
                let c = u64_to_decimal(index.1 as u64);
                push_str(&mut s, c.as_str());
                push_str(&mut s, ":\n");
                push_str(&mut s, queries);
                s
            },
        }
    }
}

} // verus!
