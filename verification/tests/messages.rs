use grafbabe::config::{ConfigError, ParseError};
use grafbabe::migrations::SqlInputFailure;

#[test]
fn parse_error_messages() {
    assert_eq!(
        ParseError::Invalid { key: "poll_rate", value: "5s".to_string() }.message(),
        "\"5s\" is not a valid value for poll_rate"
    );
    assert_eq!(
        ParseError::RequiresFeature {
            key: "prometheus_addr",
            value: "https://x".to_string(),
            feature: "tls"
        }
        .message(),
        "the value of prometheus_addr (\"https://x\") requires the feature \"tls\" to be enabled"
    );
    assert_eq!(
        ParseError::NotValidDir { key: "frontend_dir", value: "a\"b".to_string() }.message(),
        "could not read from directory \"a\\\"b\" (value of frontend_dir"
    );
    assert_eq!(ParseError::Malformed("x".to_string()).message(), "malformed line in config: x");
    assert_eq!(ParseError::File("gone".to_string()).message(), "could not open config file: gone");
}

#[test]
fn config_error_messages() {
    assert_eq!(
        ConfigError::MissingArgument("-c".to_string()).message(),
        "the flag \"-c\" is missing its following argument"
    );
    assert_eq!(
        ConfigError::UnrecognizedCommand("serve x".to_string()).message(),
        "unrecognized command \"serve x\""
    );
    assert_eq!(
        ConfigError::ParseError("g.ini".to_string(), ParseError::Malformed("y".to_string()))
            .message(),
        "error parsing config file g.ini: malformed line in config: y"
    );
}

#[test]
fn migration_failure_messages() {
    let f = SqlInputFailure::Syntax {
        name: "000_init",
        message: "syntax error".to_string(),
        index: (3, 14),
        queries: "SELECT 1;",
    };
    assert_eq!(f.message(), "syntax error, in 000_init.sql, line 3, column 14:\nSELECT 1;");
    let v = SqlInputFailure::SQLiteVersion { name: "001_x", min_version: "3.53.0" };
    assert_eq!(
        v.message(),
        "Migration 001_x requires SQLite version 3.53.0. Consider compiling with the bundled_sqlite feature."
    );
}
