use grafbabe::ini::{frontend_dir_from, parse_frontend_dir};
use grafbabe::config::poll_rate_secs;
use grafbabe::args::parse_lowered_args;
use grafbabe::ini::prometheus_addr_from;
use grafbabe::ini::listen_addr_from;
use grafbabe::args::{build_config, info_config, parse_args, ParsedArgs};
use grafbabe::config::{
    BuildFeatures, Command, Config, ConfigError, InfoCommand, IpValue, ListenAddr, LogFormat,
    LogLevel, LogTarget, ParseError, DEFAULT_PORT,
};
use grafbabe::ini::{
    parse_ini, parse_listen_addrs, parse_log_format, parse_log_level,
    parse_log_target, parse_poll_rate, parse_prometheus_addr, poll_rate_fits,
};

fn release() -> BuildFeatures {
    BuildFeatures {
        debug_assertions: false,
        tls: false,
        mock_data: false,
        serve_live: false,
        systemd_journal: false,
    }
}

fn dev() -> BuildFeatures {
    BuildFeatures { debug_assertions: true, mock_data: true, ..release() }
}

fn args(a: &[&str]) -> Vec<String> {
    a.iter().map(|s| s.to_string()).collect()
}

#[test]
fn defaults_follow_the_readme() {
    let c = Config::default_for(&release());
    assert_eq!(c.command, Command::Serve);
    assert_eq!(c.info_command, None);
    assert_eq!(
        c.listen_addrs,
        vec![ListenAddr { ip: IpValue::V4(127, 0, 0, 1), port: 4242, flowinfo: 0, scope_id: 0 }]
    );
    assert_eq!(c.frontend_dir, None);
    assert_eq!(c.prometheus_addr, "http://localhost/metrics");
    assert_eq!(c.poll_rate_mins, 1);
    assert_eq!(c.state_location, ".");
    assert_eq!(c.database_name, "grafbabe");
    assert_eq!(c.log_level, LogLevel::Info);
    assert_eq!(c.log_format, LogFormat::Plain);
    assert_eq!(c.log_target, LogTarget::Stderr);
    let d = Config::default_for(&dev());
    assert_eq!(d.listen_addrs[0].ip, IpValue::V4(127, 0, 0, 1));
    assert_eq!(d.frontend_dir, Some("frontend".to_string()));
}

#[test]
fn command_line_flags() {
    assert!(matches!(
        parse_args(&args(&["-h"]), &release()),
        Ok(ParsedArgs::Info(InfoCommand::Usage))
    ));
    assert!(matches!(
        parse_args(&args(&["-v"]), &release()),
        Ok(ParsedArgs::Info(InfoCommand::Version))
    ));
    assert!(matches!(
        parse_args(&args(&["--VERSION"]), &release()),
        Ok(ParsedArgs::Info(InfoCommand::VersionMore))
    ));
    match parse_args(&args(&["-c", "/etc/g.ini", "serve", "live"]), &release()) {
        Ok(ParsedArgs::Run { config_file, command }) => {
            assert_eq!(config_file, Some("/etc/g.ini".to_string()));
            assert_eq!(command, Command::ServeLive);
        }
        other => panic!("unexpected {:?}", other),
    }
    match parse_args(&args(&[]), &release()) {
        Ok(ParsedArgs::Run { config_file, command }) => {
            assert_eq!(config_file, None);
            assert_eq!(command, Command::Serve);
        }
        other => panic!("unexpected {:?}", other),
    }
}

#[test]
fn command_line_errors() {
    match parse_args(&args(&["-c"]), &release()) {
        Err(ConfigError::MissingArgument(f)) => assert_eq!(f, "-c"),
        other => panic!("unexpected {:?}", other),
    }
    match parse_args(&args(&["--frobnicate"]), &release()) {
        Err(ConfigError::UnrecognizedArgument(f)) => assert_eq!(f, "--frobnicate"),
        other => panic!("unexpected {:?}", other),
    }
    match parse_args(&args(&["serve", "dead"]), &release()) {
        Err(ConfigError::UnrecognizedCommand(c)) => assert_eq!(c, "serve dead"),
        other => panic!("unexpected {:?}", other),
    }
    match parse_args(&args(&["mock"]), &release()) {
        Err(ConfigError::UnrecognizedCommand(c)) => assert_eq!(c, "mock"),
        other => panic!("unexpected {:?}", other),
    }
    match parse_args(&args(&["seed"]), &dev()) {
        Err(ConfigError::MissingCommandArgument(c)) => assert_eq!(c, "seed"),
        other => panic!("unexpected {:?}", other),
    }
}

#[test]
fn mock_and_seed_take_a_path() {
    match parse_args(&args(&["mock", "Data.txt"]), &dev()) {
        Ok(ParsedArgs::Run { command, .. }) => {
            assert_eq!(command, Command::ServeMockData("Data.txt".to_string()))
        }
        other => panic!("unexpected {:?}", other),
    }
}

#[test]
fn info_commands_use_the_defaults() {
    let c = info_config(InfoCommand::Version, &release());
    assert_eq!(c.info_command, Some(InfoCommand::Version));
    assert_eq!(c.poll_rate_mins, 1);
}

#[test]
fn listen_addresses_default_to_port_4242() {
    let addrs = parse_listen_addrs("127.0.0.1 [::1]:8080").unwrap();
    assert_eq!(addrs.len(), 2);
    assert_eq!(addrs[0].ip, IpValue::V4(127, 0, 0, 1));
    assert_eq!(addrs[0].port, DEFAULT_PORT);
    assert_eq!(addrs[1].ip, IpValue::V6(0, 0, 0, 0, 0, 0, 0, 1));
    assert_eq!(addrs[1].port, 8080);
    assert!(matches!(
        parse_listen_addrs("127.0.0.1:80 nope"),
        Err(ParseError::Invalid { key: "listen_addrs", .. })
    ));
}

#[test]
fn prometheus_address_gets_a_scheme() {
    assert_eq!(
        parse_prometheus_addr("localhost:9100/metrics", &release()).unwrap(),
        "http://localhost:9100/metrics"
    );
    assert!(matches!(
        parse_prometheus_addr("https://example.com/metrics", &release()),
        Err(ParseError::RequiresFeature { key: "prometheus_addr", feature: "tls", .. })
    ));
    let tls = BuildFeatures { tls: true, ..release() };
    assert_eq!(
        parse_prometheus_addr("https://example.com/metrics", &tls).unwrap(),
        "https://example.com/metrics"
    );
    assert!(matches!(
        parse_prometheus_addr("ftp://example.com", &release()),
        Err(ParseError::Invalid { key: "prometheus_addr", .. })
    ));
}

#[test]
fn poll_rates() {
    assert_eq!(parse_poll_rate("1m").unwrap(), 1);
    assert_eq!(parse_poll_rate("2h").unwrap(), 120);
    assert_eq!(parse_poll_rate("1d").unwrap(), 1440);
    assert!(matches!(parse_poll_rate("0m"), Err(ParseError::Invalid { key: "poll_rate", .. })));
    assert!(matches!(parse_poll_rate("5"), Err(ParseError::Invalid { .. })));
    assert!(matches!(parse_poll_rate("5s"), Err(ParseError::Invalid { .. })));
    assert!(poll_rate_fits("1m"));
    assert!(!poll_rate_fits("18446744073709551615h"));
    assert!(poll_rate_fits("18446744073709551615m"));
}

#[test]
fn log_settings_ignore_case() {
    assert_eq!(parse_log_level("WARN").unwrap(), LogLevel::Warn);
    assert_eq!(parse_log_level("trace").unwrap(), LogLevel::Trace);
    assert!(matches!(parse_log_level("loud"), Err(ParseError::Invalid { key: "log_level", .. })));
    assert_eq!(parse_log_format("Pretty").unwrap(), LogFormat::Pretty);
    assert_eq!(parse_log_target("none", &release()).unwrap(), LogTarget::Off);
    assert_eq!(parse_log_target("STDOUT", &release()).unwrap(), LogTarget::Stdout);
    assert!(parse_log_target("systemd-journal", &release()).is_err());
    let journal = BuildFeatures { systemd_journal: true, ..release() };
    assert_eq!(
        parse_log_target("systemd-journal", &journal).unwrap(),
        LogTarget::SystemdJournal
    );
}

#[test]
fn ini_file_settings() {
    let text = "# comment\n; another\n\npoll_rate = 5m\nlog_level=DEBUG\nstate_location = /var/lib/g\ndatabase_name = other\nunknown = 1\n";
    let c = parse_ini(text, &release(), &Command::Serve).unwrap().unwrap();
    assert_eq!(c.poll_rate_mins, 5);
    assert_eq!(c.log_level, LogLevel::Debug);
    assert_eq!(c.state_location, "/var/lib/g");
    assert_eq!(c.database_name, "other");
}

#[test]
fn ini_file_errors() {
    assert!(matches!(
        parse_ini("no equals sign", &release(), &Command::Serve),
        Some(Err(ParseError::Malformed(l))) if l == "no equals sign"
    ));
    assert!(matches!(
        parse_ini("key = ", &release(), &Command::Serve),
        Some(Err(ParseError::Malformed(_)))
    ));
    assert!(matches!(
        parse_ini("log_format = fancy", &release(), &Command::Serve),
        Some(Err(ParseError::Invalid { key: "log_format", .. }))
    ));
    assert!(parse_ini("poll_rate = 18446744073709551615d", &release(), &Command::Serve).is_none());
    let refused_first = "log_format = fancy\npoll_rate = 18446744073709551615d";
    assert!(matches!(
        parse_ini(refused_first, &release(), &Command::Serve),
        Some(Err(ParseError::Invalid { key: "log_format", .. }))
    ));
    let missing_dir = "frontend_dir = /nonexistent/dir\npoll_rate = 18446744073709551615d";
    assert!(matches!(
        parse_ini(missing_dir, &dev(), &Command::Serve),
        Some(Err(ParseError::NotValidDir { key: "frontend_dir", .. }))
    ));
    assert!(parse_ini(missing_dir, &release(), &Command::Serve).is_none());
}

#[test]
fn frontend_dir_is_ignored_in_release() {
    let c = parse_ini("frontend_dir = /nonexistent/dir", &release(), &Command::Serve)
        .unwrap()
        .unwrap();
    assert_eq!(c.frontend_dir, None);
    assert!(matches!(
        parse_ini("frontend_dir = /nonexistent/dir", &dev(), &Command::Serve),
        Some(Err(ParseError::NotValidDir { key: "frontend_dir", .. }))
    ));
}

#[test]
fn build_config_keeps_the_command() {
    let c = build_config(Command::ServeLive, None, &release()).unwrap().unwrap();
    assert_eq!(c.command, Command::ServeLive);
    let c = build_config(
        Command::Serve,
        Some(("g.ini".to_string(), Ok("poll_rate = 3h".to_string()))),
        &release(),
    )
    .unwrap()
    .unwrap();
    assert_eq!(c.poll_rate_mins, 180);
    match build_config(
        Command::Serve,
        Some(("g.ini".to_string(), Err(ParseError::File("gone".to_string())))),
        &release(),
    ) {
        Some(Err(ConfigError::ParseError(p, ParseError::File(r)))) => {
            assert_eq!(p, "g.ini");
            assert_eq!(r, "gone");
        }
        other => panic!("unexpected {:?}", other),
    }
}

#[test]
fn listen_address_decision() {
    let a = ListenAddr { ip: IpValue::V4(10, 0, 0, 1), port: 80, flowinfo: 0, scope_id: 0 };
    assert_eq!(listen_addr_from("x", Some(a), None).unwrap(), a);
    assert_eq!(
        listen_addr_from("x", None, Some(IpValue::V4(10, 0, 0, 2))).unwrap(),
        ListenAddr { ip: IpValue::V4(10, 0, 0, 2), port: 4242, flowinfo: 0, scope_id: 0 }
    );
    assert!(matches!(
        listen_addr_from("x", None, None),
        Err(ParseError::Invalid { key: "listen_addrs", value }) if value == "x"
    ));
}

#[test]
fn prometheus_scheme_decision() {
    let u = "http://a/metrics".to_string();
    assert_eq!(
        prometheus_addr_from(u.clone(), Some(Some("http".to_string())), &release()).unwrap(),
        u
    );
    assert!(matches!(
        prometheus_addr_from(u.clone(), Some(Some("https".to_string())), &release()),
        Err(ParseError::RequiresFeature { .. })
    ));
    assert!(matches!(
        prometheus_addr_from(u.clone(), Some(None), &release()),
        Err(ParseError::Invalid { .. })
    ));
    assert!(matches!(prometheus_addr_from(u, None, &release()), Err(ParseError::Invalid { .. })));
}

#[test]
fn lowered_arguments() {
    let a = args(&["SERVE", "live"]);
    let l = args(&["serve", "live"]);
    match parse_lowered_args(&a, &l, &release()) {
        Ok(ParsedArgs::Run { command, .. }) => assert_eq!(command, Command::ServeLive),
        other => panic!("unexpected {:?}", other),
    }
    match parse_args(&args(&["SERVE", "LIVE"]), &release()) {
        Err(ConfigError::UnrecognizedCommand(c)) => assert_eq!(c, "serve LIVE"),
        other => panic!("unexpected {:?}", other),
    }
}

#[test]
fn frontend_dir_must_be_a_directory() {
    assert_eq!(parse_frontend_dir("/").unwrap(), "/");
    assert!(matches!(
        parse_frontend_dir("/nonexistent/dir"),
        Err(ParseError::NotValidDir { key: "frontend_dir", .. })
    ));
}

const EXAMPLE_CONFIG: &str = "# configuration for grafbabe


# Addresses to listen for HTTP requests
#
# This can one address, or multiple space-separated addresses
# if you want to listen on both an IPv4 and IPv6 address.
#
# If the addresses do not include a port, it defaults to 4242.
#
listen_addrs = 127.0.0.1:4242


# Address of Prometheus endpoint
#
# This is the source of the metrics to collect and visualize.
# grafbabe must be compiled with the `tls` feature in order to
# make requests over https.
#
prometheus_addr = http://localhost/metrics


# Directory of frontend assets
#
# If set, frontend assets will be served from this directory.
# In dev, the default is the \"frontend\" directory (included in
# the codebase). In release, this setting is ignored unless
# grafbabe is started with the command `serve live`.
#
frontend_dir = frontend


# Prometheus endpoint poll rate
#
# The duration to wait between polling `prometheus_addr` metrics.
#
# Valid values are a decimal number followed by `m` for minutes,
# `h` for hours, or `d` for days.
#
# Note: grafbabe is hardcoded to store a maximum of 1 month of
# metrics. Changing this value will affect the maximum size of
# the database under typical usage.
#
# Also note: if the poll rate is changed with existing metrics
# in the database, the metrics older than the change may appear
# compressed or expanded until they age out of the database.
# This is an intentional limitation.
#
poll_rate = 1m


# State location
#
# Directory on disk to persist state (namely the metrics database)
#
# If the location is omitted, it defaults to the current directory.
#
state_location = /var/lib/grafbabe


# Database name
#
# The database path is {state_location}/{database_name}.db3. If you
# leave this blank, it defaults to \"grafbabe\". Set this if you want
# multiple grafbabe processes storing their data in the same state
# location.
#
database_name = grafbabe


# Log level
#
# Options are ERROR, WARN, INFO, DEBUG, TRACE
#
log_level = INFO


# Log format
#
# Options are:
# - plain (single line log events, with no ANSI formatting)
# - pretty (optimized for readability, with ANSI formatting)
#
log_format = plain


# Log target
#
# Options are:
# - none (no logging)
# - stdout
# - stderr
# - systemd-journal (only when compiled with systemd_journal feature)
#
log_target = stderr

";

#[test]
fn example_config_file() {
    let c = parse_ini(EXAMPLE_CONFIG, &release(), &Command::Serve).unwrap().unwrap();
    assert_eq!(
        c.listen_addrs,
        vec![ListenAddr { ip: IpValue::V4(127, 0, 0, 1), port: 4242, flowinfo: 0, scope_id: 0 }]
    );
    assert_eq!(c.prometheus_addr, "http://localhost/metrics");
    assert_eq!(c.frontend_dir, None);
    assert_eq!(c.poll_rate_mins, 1);
    assert_eq!(c.state_location, "/var/lib/grafbabe");
    assert_eq!(c.database_name, "grafbabe");
    assert_eq!(c.log_level, LogLevel::Info);
    assert_eq!(c.log_format, LogFormat::Plain);
    assert_eq!(c.log_target, LogTarget::Stderr);
}

#[test]
fn build_stops_at_an_overflowing_poll_rate() {
    let file = Some(("g.ini".to_string(), Ok("poll_rate = 18446744073709551615d".to_string())));
    assert!(build_config(Command::Serve, file, &release()).is_none());
    let file = Some(("g.ini".to_string(), Ok("poll_rate = 2h".to_string())));
    assert_eq!(
        build_config(Command::Serve, file, &release()).unwrap().unwrap().poll_rate_mins,
        120
    );
    let file = Some(("g.ini".to_string(), Ok("log_level = loud\npoll_rate = 18446744073709551615d".to_string())));
    assert!(matches!(
        build_config(Command::Serve, file, &release()),
        Some(Err(ConfigError::ParseError(_, ParseError::Invalid { key: "log_level", .. })))
    ));
}

#[test]
fn poll_rate_units_scale() {
    let m = parse_poll_rate("7m").unwrap();
    let h = parse_poll_rate("7h").unwrap();
    let d = parse_poll_rate("7d").unwrap();
    assert_eq!(m, 7);
    assert_eq!(h, 60 * m);
    assert_eq!(d, 24 * h);
}

#[test]
fn database_file_and_path() {
    let mut c = Config::default_for(&release());
    assert_eq!(c.database_name(), "grafbabe.db3");
    assert_eq!(c.database_path(), "./grafbabe.db3");
    c.database_name = "metrics.v2".to_string();
    c.state_location = "/var/lib/g".to_string();
    assert_eq!(c.database_name(), "metrics.v2.db3");
    assert_eq!(c.database_path(), "/var/lib/g/metrics.v2.db3");
}

#[test]
fn poll_rate_in_seconds() {
    assert_eq!(poll_rate_secs(1), Some(60));
    assert_eq!(poll_rate_secs(1440), Some(86400));
    assert_eq!(poll_rate_secs(u64::MAX), None);
}

#[test]
fn frontend_dir_follows_the_answer() {
    assert_eq!(frontend_dir_from("/srv/ui", true).unwrap(), "/srv/ui");
    assert!(matches!(
        frontend_dir_from("/srv/ui", false),
        Err(ParseError::NotValidDir { key: "frontend_dir", value }) if value == "/srv/ui"
    ));
}
