//! The program's settings: their types, their defaults and the build
//! options that decide them.
use vstd::prelude::*;

verus! {

/// The options the program was built with. The settings that the program
/// accepts, and their defaults, depend on them.
#[derive(Clone, Copy, Debug)]
pub struct BuildFeatures {
    /// A development build (`debug_assertions`).
    pub debug_assertions: bool,
    /// Requests to the Prometheus endpoint may use https.
    pub tls: bool,
    /// The `mock` and `seed` commands exist.
    pub mock_data: bool,
    /// The `serve live` command serves files from `frontend_dir`.
    pub serve_live: bool,
    /// The `systemd-journal` log target exists.
    pub systemd_journal: bool,
}

/// The port listened on when an address names none.
pub const DEFAULT_PORT: u16 = 4242;

/// An IP address, as its parts.
#[derive(Clone, Copy, Debug, PartialEq, Eq, Structural)]
pub enum IpValue {
    V4(u8, u8, u8, u8),
    V6(u16, u16, u16, u16, u16, u16, u16, u16),
}

/// A socket address to listen on.
#[derive(Clone, Copy, Debug, PartialEq, Eq, Structural)]
pub struct ListenAddr {
    pub ip: IpValue,
    pub port: u16,
    /// IPv6 flow information (zero for IPv4).
    pub flowinfo: u32,
    /// IPv6 scope identifier (zero for IPv4).
    pub scope_id: u32,
}

/// What the program runs.
#[derive(Clone, Debug, PartialEq, Eq)]
pub enum Command {
    Serve,
    ServeLive,
    ServeMockData(String),
    Seed(String),
}

/// A request for information in place of running.
#[derive(Clone, Copy, Debug, PartialEq, Eq, Structural)]
pub enum InfoCommand {
    Usage,
    Version,
    VersionMore,
}

/// The most verbose kind of log event that is written.
#[derive(Clone, Copy, Debug, PartialEq, Eq, Structural)]
pub enum LogLevel {
    Error,
    Warn,
    Info,
    Debug,
    Trace,
}

#[derive(Clone, Copy, Debug, PartialEq, Eq, Structural)]
pub enum LogFormat {
    Plain,
    Pretty,
}

#[derive(Clone, Copy, Debug, PartialEq, Eq, Structural)]
pub enum LogTarget {
    /// No logging at all (`none` in a configuration file).
    Off,
    Stdout,
    Stderr,
    SystemdJournal,
}

/// Why a configuration file was refused.
#[derive(Debug)]
pub enum ParseError {
    /// The file could not be read (the reason, in words).
    File(String),
    Malformed(String),
    Invalid { key: &'static str, value: String },
    RequiresFeature { key: &'static str, value: String, feature: &'static str },
    NotValidDir { key: &'static str, value: String },
}

/// Why the command line was refused.
#[derive(Debug)]
pub enum ConfigError {
    MissingArgument(String),
    MissingCommandArgument(String),
    UnrecognizedArgument(String),
    UnrecognizedCommand(String),
    ParseError(String, ParseError),
}

/// The settings of a run.
#[derive(Debug)]
pub struct Config {
    pub command: Command,
    pub info_command: Option<InfoCommand>,
    pub listen_addrs: Vec<ListenAddr>,
    pub frontend_dir: Option<String>,
    pub prometheus_addr: String,
    pub poll_rate_mins: u64,
    pub state_location: String,
    pub database_name: String,
    pub log_level: LogLevel,
    pub log_format: LogFormat,
    pub log_target: LogTarget,
}

// ---------------------------------------------------------------------------
// Models
// ---------------------------------------------------------------------------

pub enum CommandModel {
    Serve,
    ServeLive,
    ServeMockData(Seq<char>),
    Seed(Seq<char>),
}

pub enum ParseErrorModel {
    File(Seq<char>),
    Malformed(Seq<char>),
    Invalid { key: Seq<char>, value: Seq<char> },
    RequiresFeature { key: Seq<char>, value: Seq<char>, feature: Seq<char> },
    NotValidDir { key: Seq<char>, value: Seq<char> },
}

pub enum ConfigErrorModel {
    MissingArgument(Seq<char>),
    MissingCommandArgument(Seq<char>),
    UnrecognizedArgument(Seq<char>),
    UnrecognizedCommand(Seq<char>),
    ParseError(Seq<char>, ParseErrorModel),
}

pub struct ConfigModel {
    pub command: CommandModel,
    pub info_command: Option<InfoCommand>,
    pub listen_addrs: Seq<ListenAddr>,
    pub frontend_dir: Option<Seq<char>>,
    pub prometheus_addr: Seq<char>,
    pub poll_rate_mins: u64,
    pub state_location: Seq<char>,
    pub database_name: Seq<char>,
    pub log_level: LogLevel,
    pub log_format: LogFormat,
    pub log_target: LogTarget,
}

impl View for Command {
    type V = CommandModel;

    open spec fn view(&self) -> CommandModel {
        match self {
            Command::Serve => CommandModel::Serve,
            Command::ServeLive => CommandModel::ServeLive,
            Command::ServeMockData(p) => CommandModel::ServeMockData(p@),
            Command::Seed(p) => CommandModel::Seed(p@),
        }
    }
}

impl View for ParseError {
    type V = ParseErrorModel;

    open spec fn view(&self) -> ParseErrorModel {
        match self {
            ParseError::File(s) => ParseErrorModel::File(s@),
            ParseError::Malformed(s) => ParseErrorModel::Malformed(s@),
            ParseError::Invalid { key, value } => ParseErrorModel::Invalid {
                key: key@,
                value: value@,
            },
            ParseError::RequiresFeature { key, value, feature } => ParseErrorModel::RequiresFeature {
                key: key@,
                value: value@,
                feature: feature@,
            },
            ParseError::NotValidDir { key, value } => ParseErrorModel::NotValidDir {
                key: key@,
                value: value@,
            },
        }
    }
}

impl View for ConfigError {
    type V = ConfigErrorModel;

    open spec fn view(&self) -> ConfigErrorModel {
        match self {
            ConfigError::MissingArgument(s) => ConfigErrorModel::MissingArgument(s@),
            ConfigError::MissingCommandArgument(s) => ConfigErrorModel::MissingCommandArgument(s@),
            ConfigError::UnrecognizedArgument(s) => ConfigErrorModel::UnrecognizedArgument(s@),
            ConfigError::UnrecognizedCommand(s) => ConfigErrorModel::UnrecognizedCommand(s@),
            ConfigError::ParseError(p, e) => ConfigErrorModel::ParseError(p@, e@),
        }
    }
}

pub open spec fn opt_string_view(o: Option<String>) -> Option<Seq<char>> {
    match o {
        Some(s) => Some(s@),
        None => None,
    }
}

impl View for Config {
    type V = ConfigModel;

    open spec fn view(&self) -> ConfigModel {
        ConfigModel {
            command: self.command@,
            info_command: self.info_command,
            listen_addrs: self.listen_addrs@,
            frontend_dir: opt_string_view(self.frontend_dir),
            prometheus_addr: self.prometheus_addr@,
            poll_rate_mins: self.poll_rate_mins,
            state_location: self.state_location@,
            database_name: self.database_name@,
            log_level: self.log_level,
            log_format: self.log_format,
            log_target: self.log_target,
        }
    }
}

// ---------------------------------------------------------------------------
// Defaults
// ---------------------------------------------------------------------------

/// The address listened on by default: the loopback interface, on the
/// default port.
pub open spec fn default_listen_addr() -> ListenAddr {
    ListenAddr {
        ip: IpValue::V4(127, 0, 0, 1),
        port: DEFAULT_PORT,
        flowinfo: 0,
        scope_id: 0,
    }
}

/// The settings used where neither the command line nor a file sets them.
pub open spec fn default_config(f: BuildFeatures) -> ConfigModel {
    ConfigModel {
        command: CommandModel::Serve,
        info_command: None,
        listen_addrs: seq![default_listen_addr()],
        frontend_dir: if f.debug_assertions {
            Some("frontend"@)
        } else {
            None
        },
        prometheus_addr: "http://localhost/metrics"@,
        poll_rate_mins: 1,
        state_location: "."@,
        database_name: "grafbabe"@,
        log_level: LogLevel::Info,
        log_format: LogFormat::Plain,
        log_target: LogTarget::Stderr,
    }
}

/// An owned copy of a string.
pub fn owned(s: &str) -> (res: String)
    ensures
        res@ == s@,
{
    String::from_str(s)
}

// ---------------------------------------------------------------------------
// Paths
// ---------------------------------------------------------------------------

/// What `std::path::Path::join` makes of a base path and a path to add to
/// it.
pub uninterp spec fn path_join(base: Seq<char>, rel: Seq<char>) -> Seq<char>;

/// What `std::path::Path::with_added_extension` makes of a path and an
/// extension.
pub uninterp spec fn path_with_added_extension(path: Seq<char>, ext: Seq<char>) -> Seq<char>;

/// A path that is one plain file name: not empty, without a separator or a
/// drive colon, and neither `.` nor `..`. Such a path is its own file name.
pub open spec fn plain_file_name(p: Seq<char>) -> bool {
    &&& p.len() > 0
    &&& !p.contains('/')
    &&& !p.contains('\\')
    &&& !p.contains(':')
    &&& p != seq!['.']
    &&& p != seq!['.', '.']
}

/// Calls `Path::join`: `rel` added under `base`, or in its place where
/// `rel` is absolute; the result is the one that `path_join` names.
#[verifier::external_body]
fn join_path(base: &str, rel: &str) -> (res: String)
    ensures
        res@ == path_join(base@, rel@),
{
    std::path::Path::new(base).join(rel).to_string_lossy().into_owned()
}

/// Calls `Path::with_added_extension`, which panics on an extension that
/// holds a separator. The result is the one that `path_with_added_extension`
/// names; for a path that is a plain file name, the documented one: the
/// name, a dot and the extension, appended after any extension the name
/// already has.
#[verifier::external_body]
fn add_extension(path: &str, ext: &str) -> (res: String)
    requires
        !ext@.contains('/'),
        !ext@.contains('\\'),
    ensures
        res@ == path_with_added_extension(path@, ext@),
        plain_file_name(path@) && ext@.len() > 0 ==> res@ == path@ + seq!['.'] + ext@,
{
    std::path::Path::new(path).with_added_extension(ext).to_string_lossy().into_owned()
}

/// The database's file name: `database_name` with the `db3` extension
/// added.
pub open spec fn database_file_name(c: ConfigModel) -> Seq<char> {
    path_with_added_extension(c.database_name, "db3"@)
}

/// The seconds in a number of minutes, where they fit in `u64`.
pub fn poll_rate_secs(mins: u64) -> (res: Option<u64>)
    ensures
        mins * 60 <= u64::MAX ==> res == Some((mins * 60) as u64),
        mins * 60 > u64::MAX ==> res is None,
{
    mins.checked_mul(60)
}

impl Config {
    /// The database's file name: `database_name` with the `db3` extension
    /// added (after any extension it has).
    pub fn database_name(&self) -> (res: String)
        ensures
            res@ == database_file_name(self@),
            plain_file_name(self.database_name@) ==> res@ == self.database_name@ + ".db3"@,
    {
        let ext = "db3";
        proof {
            reveal_strlit("db3");
            reveal_strlit(".db3");
            assert(!ext@.contains('/')) by {
                if ext@.contains('/') {
                    let i = choose|i: int| 0 <= i < ext@.len() && ext@[i] == '/';
                }
            }
            assert(!ext@.contains('\\')) by {
                if ext@.contains('\\') {
                    let i = choose|i: int| 0 <= i < ext@.len() && ext@[i] == '\\';
                }
            }
            assert(seq!['.'] + "db3"@ =~= ".db3"@);
            assert(self.database_name@ + seq!['.'] + "db3"@ =~= self.database_name@ + ".db3"@);
        }
        add_extension(self.database_name.as_str(), ext)
    }

    /// Where the database is: its file name under `state_location`.
    pub fn database_path(&self) -> (res: String)
        ensures
            res@ == path_join(self.state_location@, database_file_name(self@)),
    {
        let name = self.database_name();
        join_path(self.state_location.as_str(), name.as_str())
    }

    /// The default settings for a build.
    pub fn default_for(f: &BuildFeatures) -> (res: Config)
        ensures
            res@ == default_config(*f),
    {
        let ip = IpValue::V4(127, 0, 0, 1);
        let mut listen_addrs = Vec::new();
        listen_addrs.push(ListenAddr { ip, port: DEFAULT_PORT, flowinfo: 0, scope_id: 0 });
        let frontend_dir = if f.debug_assertions {
            Some(owned("frontend"))
        } else {
            None
        };
        let res = Config {
            command: Command::Serve,
            info_command: None,
            listen_addrs,
            frontend_dir,
            prometheus_addr: owned("http://localhost/metrics"),
            poll_rate_mins: 1,
            state_location: owned("."),
            database_name: owned("grafbabe"),
            log_level: LogLevel::Info,
            log_format: LogFormat::Plain,
            log_target: LogTarget::Stderr,
        };
        assert(res.listen_addrs@ =~= seq![default_listen_addr()]);
        res
    }
}

} // verus!
