//! Reading the command line, and putting the settings of a run together.
use vstd::prelude::*;
use crate::config::{
    default_config, owned, BuildFeatures, Command, CommandModel, Config, ConfigError,
    ConfigErrorModel, ConfigModel, InfoCommand, ParseError, ParseErrorModel,
};
use crate::ini::{honors_frontend_dir, ini_outcome, ini_reach, parse_ini};
use crate::text::{has_prefix, lines_spec, push_str, starts_with, str_eq};

verus! {

/// What `str::to_lowercase` makes of a string (Unicode lower case).
pub uninterp spec fn unicode_lowercase(s: Seq<char>) -> Seq<char>;

/// Calls `str::to_lowercase`; the result is the one that
/// `unicode_lowercase` names.
#[verifier::external_body]
fn to_lowercase(s: &str) -> (res: String)
    ensures
        res@ == unicode_lowercase(s@),
{
    s.to_lowercase()
}

/// What the command line asks for.
#[derive(Debug)]
pub enum ParsedArgs {
    /// Print information and stop.
    Info(InfoCommand),
    /// Run a command, with settings from a file if one is named.
    Run { config_file: Option<String>, command: Command },
}

pub enum ParsedArgsModel {
    Info(InfoCommand),
    Run { config_file: Option<Seq<char>>, command: CommandModel },
}

impl View for ParsedArgs {
    type V = ParsedArgsModel;

    open spec fn view(&self) -> ParsedArgsModel {
        match self {
            ParsedArgs::Info(i) => ParsedArgsModel::Info(*i),
            ParsedArgs::Run { config_file, command } => ParsedArgsModel::Run {
                config_file: crate::config::opt_string_view(*config_file),
                command: command@,
            },
        }
    }
}

/// The characters of each argument.
pub open spec fn arg_views(args: Seq<String>) -> Seq<Seq<char>> {
    args.map_values(|a: String| a@)
}

/// Reading the arguments from position `i` on, with the configuration file
/// and command found so far. Flags and commands are compared in lower case
/// (`lowered` holds each argument in lower case); the values that follow
/// them are taken as they are.
pub open spec fn args_from(
    args: Seq<Seq<char>>,
    lowered: Seq<Seq<char>>,
    i: int,
    config_file: Option<Seq<char>>,
    command: CommandModel,
    f: BuildFeatures,
) -> Result<ParsedArgsModel, ConfigErrorModel>
    decreases args.len() - i,
{
    if i < 0 || i >= args.len() {
        Ok(ParsedArgsModel::Run { config_file, command })
    } else {
        let arg = lowered[i];
        let j = i + 1;
        if arg == "-c"@ || arg == "--config-file"@ {
            if j < args.len() {
                args_from(args, lowered, j + 1, Some(args[j]), command, f)
            } else {
                Err(ConfigErrorModel::MissingArgument(arg))
            }
        } else if arg == "-h"@ || arg == "--help"@ {
            Ok(ParsedArgsModel::Info(InfoCommand::Usage))
        } else if arg == "-v"@ {
            Ok(ParsedArgsModel::Info(InfoCommand::Version))
        } else if arg == "-vv"@ || arg == "--version"@ {
            Ok(ParsedArgsModel::Info(InfoCommand::VersionMore))
        } else if !has_prefix(arg, "-"@) {
            if f.mock_data && arg == "seed"@ {
                if j < args.len() {
                    args_from(args, lowered, j + 1, config_file, CommandModel::Seed(args[j]), f)
                } else {
                    Err(ConfigErrorModel::MissingCommandArgument(arg))
                }
            } else if f.mock_data && arg == "mock"@ {
                if j < args.len() {
                    args_from(args, lowered, j + 1, config_file, CommandModel::ServeMockData(args[j]), f)
                } else {
                    Err(ConfigErrorModel::MissingCommandArgument(arg))
                }
            } else if arg == "serve"@ {
                if j < args.len() && !has_prefix(args[j], "-"@) {
                    if args[j] == "live"@ {
                        args_from(args, lowered, j + 1, config_file, CommandModel::ServeLive, f)
                    } else {
                        Err(ConfigErrorModel::UnrecognizedCommand("serve "@ + args[j]))
                    }
                } else {
                    args_from(args, lowered, j, config_file, CommandModel::Serve, f)
                }
            } else {
                Err(ConfigErrorModel::UnrecognizedCommand(arg))
            }
        } else {
            Err(ConfigErrorModel::UnrecognizedArgument(arg))
        }
    }
}

/// The flags, wherever the reading reaches them: `-c` and `--config-file`
/// alike take the next argument as the configuration file's path and go on
/// after it, or fail naming the flag where it is last; `-h` and `--help`
/// ask for the usage, `-v` for the version, `-vv` and `--version` for the
/// longer version.
pub proof fn lemma_flags(
    args: Seq<Seq<char>>,
    lowered: Seq<Seq<char>>,
    i: int,
    config_file: Option<Seq<char>>,
    command: CommandModel,
    f: BuildFeatures,
)
    requires
        0 <= i < args.len(),
    ensures
        (lowered[i] == "-c"@ || lowered[i] == "--config-file"@) && i + 1 < args.len() ==> args_from(
            args,
            lowered,
            i,
            config_file,
            command,
            f,
        ) == args_from(args, lowered, i + 2, Some(args[i + 1]), command, f),
        (lowered[i] == "-c"@ || lowered[i] == "--config-file"@) && i + 1 == args.len() ==> args_from(
            args,
            lowered,
            i,
            config_file,
            command,
            f,
        ) == Err::<ParsedArgsModel, ConfigErrorModel>(ConfigErrorModel::MissingArgument(lowered[i])),
        lowered[i] == "-h"@ || lowered[i] == "--help"@ ==> args_from(args, lowered, i, config_file, command, f)
            == Ok::<ParsedArgsModel, ConfigErrorModel>(ParsedArgsModel::Info(InfoCommand::Usage)),
        lowered[i] == "-v"@ ==> args_from(args, lowered, i, config_file, command, f) == Ok::<
            ParsedArgsModel,
            ConfigErrorModel,
        >(ParsedArgsModel::Info(InfoCommand::Version)),
        lowered[i] == "-vv"@ || lowered[i] == "--version"@ ==> args_from(
            args,
            lowered,
            i,
            config_file,
            command,
            f,
        ) == Ok::<ParsedArgsModel, ConfigErrorModel>(ParsedArgsModel::Info(InfoCommand::VersionMore)),
{
    reveal_strlit("-c");
    reveal_strlit("--config-file");
    reveal_strlit("-h");
    reveal_strlit("--help");
    reveal_strlit("-v");
    reveal_strlit("-vv");
    reveal_strlit("--version");
    let a = lowered[i];
    assert("-c"@[1] != "-h"@[1] && "-c"@[1] != "-v"@[1] && "-h"@[1] != "-v"@[1]);
    assert("--config-file"@.len() != "--help"@.len() && "--config-file"@.len() != "--version"@.len()
        && "--help"@.len() != "--version"@.len());
    assert("-vv"@.len() != "-c"@.len() && "-vv"@.len() != "-h"@.len() && "-vv"@.len() != "-v"@.len());
    assert("-c"@.len() != "--help"@.len() && "-c"@.len() != "--version"@.len() && "-h"@.len()
        != "--config-file"@.len() && "-v"@.len() != "--config-file"@.len() && "-v"@.len()
        != "--help"@.len() && "-v"@.len() != "--version"@.len() && "-h"@.len() != "--version"@.len());
    assert("-vv"@.len() != "--config-file"@.len() && "-vv"@.len() != "--help"@.len() && "-vv"@.len()
        != "--version"@.len());
}

/// The commands, wherever the reading reaches them: `serve live` runs the
/// live command, `serve` followed by anything but another word that is no
/// flag runs the default command, and `serve` before another word is
/// refused naming both; where the build has them, `seed` and `mock` take
/// the next argument as their path.
pub proof fn lemma_commands(
    args: Seq<Seq<char>>,
    lowered: Seq<Seq<char>>,
    i: int,
    config_file: Option<Seq<char>>,
    command: CommandModel,
    f: BuildFeatures,
)
    requires
        0 <= i < args.len(),
    ensures
        lowered[i] == "serve"@ && i + 1 < args.len() && args[i + 1] == "live"@ ==> args_from(
            args,
            lowered,
            i,
            config_file,
            command,
            f,
        ) == args_from(args, lowered, i + 2, config_file, CommandModel::ServeLive, f),
        lowered[i] == "serve"@ && (i + 1 == args.len() || has_prefix(args[i + 1], "-"@)) ==> args_from(
            args,
            lowered,
            i,
            config_file,
            command,
            f,
        ) == args_from(args, lowered, i + 1, config_file, CommandModel::Serve, f),
        lowered[i] == "serve"@ && i + 1 < args.len() && !has_prefix(args[i + 1], "-"@) && args[i + 1]
            != "live"@ ==> args_from(args, lowered, i, config_file, command, f) == Err::<
            ParsedArgsModel,
            ConfigErrorModel,
        >(ConfigErrorModel::UnrecognizedCommand("serve "@ + args[i + 1])),
        f.mock_data && lowered[i] == "seed"@ && i + 1 < args.len() ==> args_from(
            args,
            lowered,
            i,
            config_file,
            command,
            f,
        ) == args_from(args, lowered, i + 2, config_file, CommandModel::Seed(args[i + 1]), f),
        f.mock_data && lowered[i] == "mock"@ && i + 1 < args.len() ==> args_from(
            args,
            lowered,
            i,
            config_file,
            command,
            f,
        ) == args_from(args, lowered, i + 2, config_file, CommandModel::ServeMockData(args[i + 1]), f),
{
    reveal_strlit("-c");
    reveal_strlit("--config-file");
    reveal_strlit("-h");
    reveal_strlit("--help");
    reveal_strlit("-v");
    reveal_strlit("-vv");
    reveal_strlit("--version");
    reveal_strlit("-");
    reveal_strlit("serve");
    reveal_strlit("seed");
    reveal_strlit("mock");
    let a = lowered[i];
    if a == "serve"@ || a == "seed"@ || a == "mock"@ {
        assert(!has_prefix(a, "-"@)) by {
            assert(a[0] != '-');
            assert("-"@[0] == '-');
            if a.len() >= 1 {
                assert(a.take(1)[0] == a[0]);
            }
        }
        if i + 1 < args.len() && args[i + 1] == "live"@ {
            reveal_strlit("live");
            assert(!has_prefix(args[i + 1], "-"@)) by {
                assert(args[i + 1].take(1)[0] == args[i + 1][0]);
                assert("-"@[0] == '-');
            }
        }
        assert(a != "-c"@ && a != "--config-file"@ && a != "-h"@ && a != "--help"@ && a != "-v"@ && a
            != "-vv"@ && a != "--version"@) by {
            assert(a[0] != '-');
            assert("-c"@[0] == '-' && "--config-file"@[0] == '-' && "-h"@[0] == '-' && "--help"@[0]
                == '-' && "-v"@[0] == '-' && "-vv"@[0] == '-' && "--version"@[0] == '-');
        }
        assert("serve"@ != "seed"@ && "serve"@ != "mock"@ && "seed"@ != "mock"@) by {
            assert("serve"@.len() != "seed"@.len() && "serve"@.len() != "mock"@.len());
            assert("seed"@[0] != "mock"@[0]);
        }
    }
}

/// Reads the command line (the arguments after the program's name), given
/// each argument in lower case as well.
pub fn parse_lowered_args(args: &Vec<String>, lowered: &Vec<String>, f: &BuildFeatures) -> (res:
    Result<ParsedArgs, ConfigError>)
    requires
        lowered.len() == args.len(),
    ensures
        match res {
            Ok(p) => args_from(arg_views(args@), arg_views(lowered@), 0, None, CommandModel::Serve, *f)
                == Ok::<ParsedArgsModel, ConfigErrorModel>(p@),
            Err(e) => args_from(arg_views(args@), arg_views(lowered@), 0, None, CommandModel::Serve, *f)
                == Err::<ParsedArgsModel, ConfigErrorModel>(e@),
        },
{
    let ghost av = arg_views(args@);
    let ghost lv = arg_views(lowered@);
    let n = args.len();
    let mut config_file: Option<String> = None;
    let mut command = Command::Serve;
    let mut i: usize = 0;
    while i < n
        invariant
            n == args@.len(),
            av == arg_views(args@),
            av.len() == n,
            lv == arg_views(lowered@),
            lv.len() == n,
            i <= n,
            args_from(av, lv, 0, None, CommandModel::Serve, *f) == args_from(
                av,
                lv,
                i as int,
                crate::config::opt_string_view(config_file),
                command@,
                *f,
            ),
        decreases n - i,
    {
        let ghost cf = crate::config::opt_string_view(config_file);
        let ghost cmd = command@;
        let arg = lowered[i].as_str();
        assert(av[i as int] == args@[i as int]@);
        assert(lv[i as int] == lowered@[i as int]@);
        let j = i + 1;
        if str_eq(arg, "-c") || str_eq(arg, "--config-file") {
            if j < n {
                assert(av[j as int] == args@[j as int]@);
                config_file = Some(args[j].clone());
                i = j + 1;
            } else {
                return Err(ConfigError::MissingArgument(lowered[i].clone()));
            }
        } else if str_eq(arg, "-h") || str_eq(arg, "--help") {
            return Ok(ParsedArgs::Info(InfoCommand::Usage));
        } else if str_eq(arg, "-v") {
            return Ok(ParsedArgs::Info(InfoCommand::Version));
        } else if str_eq(arg, "-vv") || str_eq(arg, "--version") {
            return Ok(ParsedArgs::Info(InfoCommand::VersionMore));
        } else if !starts_with(arg, "-") {
            if f.mock_data && str_eq(arg, "seed") {
                if j < n {
                    assert(av[j as int] == args@[j as int]@);
                    command = Command::Seed(args[j].clone());
                    i = j + 1;
                } else {
                    return Err(ConfigError::MissingCommandArgument(lowered[i].clone()));
                }
            } else if f.mock_data && str_eq(arg, "mock") {
                if j < n {
                    assert(av[j as int] == args@[j as int]@);
                    command = Command::ServeMockData(args[j].clone());
                    i = j + 1;
                } else {
                    return Err(ConfigError::MissingCommandArgument(lowered[i].clone()));
                }
            } else if str_eq(arg, "serve") {
                if j < n && !starts_with(args[j].as_str(), "-") {
                    assert(av[j as int] == args@[j as int]@);
                    if str_eq(args[j].as_str(), "live") {
                        command = Command::ServeLive;
                        i = j + 1;
                    } else {
                        let mut s = owned("serve ");
                        push_str(&mut s, args[j].as_str());
                        return Err(ConfigError::UnrecognizedCommand(s));
                    }
                } else {
                    command = Command::Serve;
                    i = j;
                }
            } else {
                return Err(ConfigError::UnrecognizedCommand(lowered[i].clone()));
            }
        } else {
            return Err(ConfigError::UnrecognizedArgument(lowered[i].clone()));
        }
    }
    Ok(ParsedArgs::Run { config_file, command })
}

/// Each argument in lower case, by Unicode's rules.
pub open spec fn lowered_args(args: Seq<String>) -> Seq<Seq<char>> {
    args.map_values(|a: String| unicode_lowercase(a@))
}

/// Reads the command line (the arguments after the program's name). Flags
/// and commands are compared in lower case.
pub fn parse_args(args: &Vec<String>, f: &BuildFeatures) -> (res: Result<ParsedArgs, ConfigError>)
    ensures
        match res {
            Ok(p) => args_from(arg_views(args@), lowered_args(args@), 0, None, CommandModel::Serve, *f)
                == Ok::<ParsedArgsModel, ConfigErrorModel>(p@),
            Err(e) => args_from(arg_views(args@), lowered_args(args@), 0, None, CommandModel::Serve, *f)
                == Err::<ParsedArgsModel, ConfigErrorModel>(e@),
        },
{
    let mut lowered: Vec<String> = Vec::new();
    let mut i: usize = 0;
    while i < args.len()
        invariant
            i <= args@.len(),
            arg_views(lowered@) == lowered_args(args@).take(i as int),
        decreases args@.len() - i,
    {
        let l = to_lowercase(args[i].as_str());
        let ghost before = lowered@;
        lowered.push(l);
        assert(arg_views(lowered@) =~= arg_views(before).push(l@));
        assert(lowered_args(args@).take(i + 1) =~= lowered_args(args@).take(i as int).push(
            unicode_lowercase(args@[i as int]@),
        ));
        i = i + 1;
    }
    assert(lowered_args(args@).take(args@.len() as int) =~= lowered_args(args@));
    parse_lowered_args(args, &lowered, f)
}

/// The settings for an information command: the defaults.
pub fn info_config(info: InfoCommand, f: &BuildFeatures) -> (res: Config)
    ensures
        res@ == (ConfigModel { info_command: Some(info), ..default_config(*f) }),
{
    let mut c = Config::default_for(f);
    c.info_command = Some(info);
    c
}

/// What a run's settings are, given what reading the configuration file at
/// `path` gave: its settings with the command of the command line, or its
/// error tied to the path.
pub open spec fn run_settings(
    read: Option<Result<ConfigModel, ParseErrorModel>>,
    path: Seq<char>,
    command: CommandModel,
) -> Option<Result<ConfigModel, ConfigErrorModel>> {
    match read {
        Some(Ok(c)) => Some(Ok(ConfigModel { command, ..c })),
        Some(Err(e)) => Some(Err(ConfigErrorModel::ParseError(path, e))),
        None => None,
    }
}

pub open spec fn settings_view(r: Option<Result<Config, ConfigError>>) -> Option<
    Result<ConfigModel, ConfigErrorModel>,
> {
    match r {
        Some(Ok(c)) => Some(Ok(c@)),
        Some(Err(e)) => Some(Err(e@)),
        None => None,
    }
}

/// The settings of a run: those of the configuration file if one was named
/// (`file` holds its path and what reading it gave), else the defaults; in
/// either case with the command of the command line. `None` where reading
/// the file reaches a `poll_rate` line whose number of minutes does not fit
/// in `u64`.
pub fn build_config(
    command: Command,
    file: Option<(String, Result<String, ParseError>)>,
    f: &BuildFeatures,
) -> (res: Option<Result<Config, ConfigError>>)
    ensures
        match file {
            None => res matches Some(Ok(c)) && c@ == (ConfigModel {
                command: command@,
                ..default_config(*f)
            }),
            Some((path, Err(e))) => res matches Some(Err(ce)) && ce@ == ConfigErrorModel::ParseError(
                path@,
                e@,
            ),
            Some((path, Ok(contents))) => exists|answers: Seq<bool>|
                answers.len() == lines_spec(contents@).len() && run_settings(
                    #[trigger] ini_reach(
                        lines_spec(contents@),
                        answers,
                        *f,
                        honors_frontend_dir(*f, command@),
                    ),
                    path@,
                    command@,
                ) == settings_view(res),
        },
{
    match file {
        None => {
            let mut c = Config::default_for(f);
            c.command = command;
            Some(Ok(c))
        },
        Some((path, Err(e))) => Some(Err(ConfigError::ParseError(path, e))),
        Some((path, Ok(contents))) => {
            let read = parse_ini(contents.as_str(), f, &command);
            let ghost cmd = command@;
            let ghost ls = lines_spec(contents@);
            let ghost honor = honors_frontend_dir(*f, cmd);
            let ghost answers = choose|answers: Seq<bool>|
                answers.len() == ls.len() && #[trigger] ini_reach(ls, answers, *f, honor)
                    == ini_outcome(read);
            let res = match read {
                Some(Ok(c)) => {
                    let mut c = c;
                    c.command = command;
                    Some(Ok(c))
                },
                Some(Err(e)) => Some(Err(ConfigError::ParseError(path, e))),
                None => None,
            };
            assert(run_settings(ini_reach(ls, answers, *f, honor), path@, cmd) == settings_view(res));
            res
        },
    }
}

} // verus!
