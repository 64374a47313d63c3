//! Configuration: the command line, the environment and the checks made at start-up.
use crate::text;
use vstd::prelude::*;
use vstd::string::*;

verus! {

pub const DEFAULT_MAX_CONCURRENT: usize = 1024;

pub const DEFAULT_BIND: &'static str = "127.0.0.1:8080";

pub const DEFAULT_ROOT: &'static str = "./public";

pub const DEFAULT_CACHE_MAX_AGE: u64 = 3600;

/// What `--help` prints, and what follows a configuration error.
pub const USAGE: &'static str =
    "static-html-server – secure static HTML/CSS server (pure std, MIT)\n\n\
     USAGE:\n\
     static-html-server [OPTIONS]\n\n\
     OPTIONS:\n\
     -b, --bind <ADDR>          Bind address (default: 127.0.0.1:8080)\n\
     -r, --root <DIR>           Document root (default: ./public)\n\
     --max-concurrent <N>   Max concurrent connections (default: 1024)\n\
     --cache-max-age <SEC>  Cache-Control max-age (default: 3600)\n\
     --keep-alive           Enable short keep-alive (off by default)\n\
     --drop-user <NAME>     Drop privileges to this user after bind (Unix)\n\
     -h, --help                 Show this help\n\n\
     ENVIRONMENT:\n\
     STATIC_BIND, STATIC_ROOT   Same meaning as the corresponding flags\n";

/// The settings that the environment and the command line give, before they are checked.
pub struct Options {
    pub bind: String,
    pub root: String,
    pub max_concurrent: usize,
    pub cache_max_age: u64,
    pub keep_alive: bool,
    pub drop_user: Option<String>,
}

/// What `Options` stand for.
pub struct Settings {
    pub bind: Seq<char>,
    pub root: Seq<char>,
    pub max_concurrent: nat,
    pub cache_max_age: nat,
    pub keep_alive: bool,
    pub drop_user: Option<Seq<char>>,
}

impl View for Options {
    type V = Settings;

    open spec fn view(&self) -> Settings {
        Settings {
            bind: self.bind@,
            root: self.root@,
            max_concurrent: self.max_concurrent as nat,
            cache_max_age: self.cache_max_age as nat,
            keep_alive: self.keep_alive,
            drop_user: match self.drop_user {
                Some(user) => Some(user@),
                None => None,
            },
        }
    }
}

/// What a command line asks for.
pub enum CommandLine {
    /// To show the usage, and nothing else.
    Help,
    /// To serve with these settings.
    Run(Options),
    /// Nothing: it is wrong, as this message says.
    Wrong(String),
}

/// What a `CommandLine` stands for.
pub enum Parsed {
    Help,
    Run(Settings),
    Wrong(Seq<char>),
}

impl View for CommandLine {
    type V = Parsed;

    open spec fn view(&self) -> Parsed {
        match *self {
            CommandLine::Help => Parsed::Help,
            CommandLine::Run(options) => Parsed::Run(options@),
            CommandLine::Wrong(message) => Parsed::Wrong(message@),
        }
    }
}

/// What the arguments that follow the program's name ask for, on top of the settings `given`.
pub open spec fn parse_flags(args: Seq<Seq<char>>, given: Settings) -> Parsed
    decreases args.len(),
{
    if args.len() == 0 {
        Parsed::Run(given)
    } else if args[0] == "--bind"@ || args[0] == "-b"@ {
        if args.len() < 2 {
            Parsed::Wrong("--bind requires an argument"@)
        } else {
            parse_flags(args.skip(2), Settings { bind: args[1], ..given })
        }
    } else if args[0] == "--root"@ || args[0] == "-r"@ {
        if args.len() < 2 {
            Parsed::Wrong("--root requires an argument"@)
        } else {
            parse_flags(args.skip(2), Settings { root: args[1], ..given })
        }
    } else if args[0] == "--max-concurrent"@ {
        if args.len() < 2 {
            Parsed::Wrong("--max-concurrent requires an argument"@)
        } else {
            match text::unsigned(args[1], usize::MAX as nat) {
                Some(n) => parse_flags(args.skip(2), Settings { max_concurrent: n, ..given }),
                None => Parsed::Wrong("invalid --max-concurrent"@),
            }
        }
    } else if args[0] == "--cache-max-age"@ {
        if args.len() < 2 {
            Parsed::Wrong("--cache-max-age requires an argument"@)
        } else {
            match text::unsigned(args[1], u64::MAX as nat) {
                Some(n) => parse_flags(args.skip(2), Settings { cache_max_age: n, ..given }),
                None => Parsed::Wrong("invalid --cache-max-age"@),
            }
        }
    } else if args[0] == "--keep-alive"@ {
        parse_flags(args.skip(1), Settings { keep_alive: true, ..given })
    } else if args[0] == "--drop-user"@ {
        if args.len() < 2 {
            Parsed::Wrong("--drop-user requires an argument"@)
        } else {
            parse_flags(args.skip(2), Settings { drop_user: Some(args[1]), ..given })
        }
    } else if args[0] == "--help"@ || args[0] == "-h"@ {
        Parsed::Help
    } else {
        Parsed::Wrong("unknown argument: "@ + args[0])
    }
}

/// The settings before any argument: those of the environment, or else the defaults.
pub open spec fn initial_settings(
    env_bind: Option<Seq<char>>,
    env_root: Option<Seq<char>>,
) -> Settings {
    Settings {
        bind: match env_bind {
            Some(bind) => bind,
            None => DEFAULT_BIND@,
        },
        root: match env_root {
            Some(root) => root,
            None => DEFAULT_ROOT@,
        },
        max_concurrent: DEFAULT_MAX_CONCURRENT as nat,
        cache_max_age: DEFAULT_CACHE_MAX_AGE as nat,
        keep_alive: false,
        drop_user: None,
    }
}

/// The text of an optional string.
pub open spec fn optional_text(s: Option<String>) -> Option<Seq<char>> {
    match s {
        Some(text) => Some(text@),
        None => None,
    }
}

/// Runtime configuration. Immutable after startup.
pub struct Config {
    /// The address to listen on, as it was given.
    pub bind: String,
    /// The canonical path of the document root.
    pub root: Vec<u8>,
    pub max_concurrent: usize,
    pub cache_max_age: u64,
    pub keep_alive: bool,
    /// The user to switch to once the listener is bound.
    pub drop_user: Option<String>,
}

/// What a `Config` stands for.
pub struct Setup {
    pub bind: Seq<char>,
    pub root: Seq<u8>,
    pub max_concurrent: nat,
    pub cache_max_age: nat,
    pub keep_alive: bool,
    pub drop_user: Option<Seq<char>>,
}

impl View for Config {
    type V = Setup;

    open spec fn view(&self) -> Setup {
        Setup {
            bind: self.bind@,
            root: self.root@,
            max_concurrent: self.max_concurrent as nat,
            cache_max_age: self.cache_max_age as nat,
            keep_alive: self.keep_alive,
            drop_user: optional_text(self.drop_user),
        }
    }
}

/// What the system has said so far of the settings. An error carries the system's own words.
pub struct StartupFacts {
    /// Whether the address to bind is one.
    pub address: Option<Result<(), String>>,
    /// The canonical path of the document root.
    pub canonical: Option<Result<Vec<u8>, String>>,
    /// Whether that path is a directory; where it is not, the path for display.
    pub directory: Option<Result<(), String>>,
}

/// What to do next to arrive at a configuration.
pub enum ConfigStep {
    /// Show the usage and leave.
    Usage,
    /// Read this as a socket address.
    ParseAddress(String),
    /// Find the canonical form of this path.
    Canonicalize(String),
    /// Find out whether the canonical path is a directory.
    CheckDirectory,
    /// Serve with this configuration.
    Ready(Config),
    /// Refuse to start, with this message.
    Invalid(String),
}

/// What a `ConfigStep` stands for.
pub enum Configuring {
    Usage,
    ParseAddress(Seq<char>),
    Canonicalize(Seq<char>),
    CheckDirectory,
    Ready(Setup),
    Invalid(Seq<char>),
}

impl View for ConfigStep {
    type V = Configuring;

    open spec fn view(&self) -> Configuring {
        match *self {
            ConfigStep::Usage => Configuring::Usage,
            ConfigStep::ParseAddress(address) => Configuring::ParseAddress(address@),
            ConfigStep::Canonicalize(path) => Configuring::Canonicalize(path@),
            ConfigStep::CheckDirectory => Configuring::CheckDirectory,
            ConfigStep::Ready(config) => Configuring::Ready(config@),
            ConfigStep::Invalid(message) => Configuring::Invalid(message@),
        }
    }
}

/// The next step on the way from settings to a configuration. The address is checked first, then
/// that the document root exists, then that it is a directory.
pub open spec fn checking(settings: Settings, facts: StartupFacts) -> Configuring {
    match facts.address {
        None => Configuring::ParseAddress(settings.bind),
        Some(Err(error)) => Configuring::Invalid(
            "invalid bind address '"@ + settings.bind + "': "@ + error@,
        ),
        Some(Ok(_)) => match facts.canonical {
            None => Configuring::Canonicalize(settings.root),
            Some(Err(error)) => Configuring::Invalid(
                "document root '"@ + settings.root + "' cannot be canonicalized: "@ + error@
                    + " (does the directory exist?)"@,
            ),
            Some(Ok(root)) => match facts.directory {
                None => Configuring::CheckDirectory,
                Some(Err(shown)) => Configuring::Invalid(
                    "document root '"@ + shown@ + "' is not a directory"@,
                ),
                Some(Ok(_)) => Configuring::Ready(
                    Setup {
                        bind: settings.bind,
                        root: root@,
                        max_concurrent: settings.max_concurrent,
                        cache_max_age: settings.cache_max_age,
                        keep_alive: settings.keep_alive,
                        drop_user: settings.drop_user,
                    },
                ),
            },
        },
    }
}

/// The arguments that follow the program's name.
pub open spec fn flags_of(args: Seq<Seq<char>>) -> Seq<Seq<char>> {
    if args.len() == 0 {
        args
    } else {
        args.skip(1)
    }
}

/// The next step on the way from the environment and the command line to a configuration. The
/// first argument is the program's name.
pub open spec fn configuring(
    env_bind: Option<Seq<char>>,
    env_root: Option<Seq<char>>,
    args: Seq<Seq<char>>,
    facts: StartupFacts,
) -> Configuring {
    match parse_flags(flags_of(args), initial_settings(env_bind, env_root)) {
        Parsed::Help => Configuring::Usage,
        Parsed::Wrong(message) => Configuring::Invalid(message),
        Parsed::Run(settings) => checking(settings, facts),
    }
}

/// Whether a command-line argument is the given flag, in its long or its short form.
fn is_flag(arg: &str, long: &str, short: &str) -> (r: bool)
    ensures
        r == (arg@ == long@ || arg@ == short@),
{
    text::same_text(arg, long) || text::same_text(arg, short)
}

impl Options {
    /// Reads the settings that the environment and the command line give. The first argument is
    /// the program's name.
    pub fn parse(env_bind: Option<String>, env_root: Option<String>, args: &Vec<String>) -> (r:
        CommandLine)
        ensures
            r@ == parse_flags(
                flags_of(text::texts(args@)),
                initial_settings(optional_text(env_bind), optional_text(env_root)),
            ),
            match r {
                CommandLine::Help => r@ is Help,
                CommandLine::Run(options) => r@ == Parsed::Run(options@),
                CommandLine::Wrong(message) => r@ == Parsed::Wrong(message@),
            },
    {
        let mut options = Options {
            bind: match env_bind {
                Some(bind) => bind,
                None => text::copy_text(DEFAULT_BIND),
            },
            root: match env_root {
                Some(root) => root,
                None => text::copy_text(DEFAULT_ROOT),
            },
            max_concurrent: DEFAULT_MAX_CONCURRENT,
            cache_max_age: DEFAULT_CACHE_MAX_AGE,
            keep_alive: false,
            drop_user: None,
        };
        if args.len() == 0 {
            return CommandLine::Run(options);
        }
        let ghost given = options@;
        let ghost all = text::texts(args@);
        let mut i: usize = 1;
        while i < args.len()
            invariant
                1 <= i <= args@.len(),
                all == text::texts(args@),
                given == initial_settings(optional_text(env_bind), optional_text(env_root)),
                parse_flags(all.skip(1), given) == parse_flags(all.skip(i as int), options@),
            decreases args@.len() - i,
        {
            let ghost rest = all.skip(i as int);
            let arg = args[i].as_str();
            assert(rest[0] == arg@);
            assert(rest.skip(1) =~= all.skip(i + 1));
            assert(rest.len() >= 2 ==> rest.skip(2) =~= all.skip(i + 2));
            assert(rest.len() >= 2 ==> rest[1] == args@[i + 1]@);
            if is_flag(arg, "--bind", "-b") {
                i += 1;
                if i >= args.len() {
                    return CommandLine::Wrong(text::copy_text("--bind requires an argument"));
                }
                options.bind = args[i].clone();
            } else if is_flag(arg, "--root", "-r") {
                i += 1;
                if i >= args.len() {
                    return CommandLine::Wrong(text::copy_text("--root requires an argument"));
                }
                options.root = args[i].clone();
            } else if text::same_text(arg, "--max-concurrent") {
                i += 1;
                if i >= args.len() {
                    return CommandLine::Wrong(
                        text::copy_text("--max-concurrent requires an argument"),
                    );
                }
                match text::parse_unsigned(args[i].as_str(), usize::MAX as u64) {
                    Some(n) => {
                        options.max_concurrent = n as usize;
                    },
                    None => {
                        return CommandLine::Wrong(text::copy_text("invalid --max-concurrent"));
                    },
                }
            } else if text::same_text(arg, "--cache-max-age") {
                i += 1;
                if i >= args.len() {
                    return CommandLine::Wrong(
                        text::copy_text("--cache-max-age requires an argument"),
                    );
                }
                match text::parse_unsigned(args[i].as_str(), u64::MAX) {
                    Some(n) => {
                        options.cache_max_age = n;
                    },
                    None => {
                        return CommandLine::Wrong(text::copy_text("invalid --cache-max-age"));
                    },
                }
            } else if text::same_text(arg, "--keep-alive") {
                options.keep_alive = true;
            } else if text::same_text(arg, "--drop-user") {
                i += 1;
                if i >= args.len() {
                    return CommandLine::Wrong(text::copy_text("--drop-user requires an argument"));
                }
                options.drop_user = Some(args[i].clone());
            } else if is_flag(arg, "--help", "-h") {
                return CommandLine::Help;
            } else {
                let mut message = text::copy_text("unknown argument: ");
                message.append(arg);
                return CommandLine::Wrong(message);
            }
            i += 1;
        }
        CommandLine::Run(options)
    }
}

impl Config {
    /// Arrives at a configuration from the environment and the command line, one question to the
    /// system at a time. A document root that does not exist or is not a directory is refused:
    /// better than serving from an unexpected location.
    pub fn from_env_and_args(
        env_bind: Option<String>,
        env_root: Option<String>,
        args: &Vec<String>,
        facts: &StartupFacts,
    ) -> (r: ConfigStep)
        ensures
            r@ == configuring(
                optional_text(env_bind),
                optional_text(env_root),
                text::texts(args@),
                *facts,
            ),
            match r {
                ConfigStep::Usage => r@ is Usage,
                ConfigStep::ParseAddress(address) => r@ == Configuring::ParseAddress(address@),
                ConfigStep::Canonicalize(path) => r@ == Configuring::Canonicalize(path@),
                ConfigStep::CheckDirectory => r@ is CheckDirectory,
                ConfigStep::Ready(config) => r@ == Configuring::Ready(config@),
                ConfigStep::Invalid(message) => r@ == Configuring::Invalid(message@),
            },
    {
        let options = match Options::parse(env_bind, env_root, args) {
            CommandLine::Help => return ConfigStep::Usage,
            CommandLine::Wrong(message) => return ConfigStep::Invalid(message),
            CommandLine::Run(options) => options,
        };
        match &facts.address {
            None => return ConfigStep::ParseAddress(options.bind),
            Some(Err(error)) => {
                let mut message = text::copy_text("invalid bind address '");
                message.append(options.bind.as_str());
                message.append("': ");
                message.append(error.as_str());
                return ConfigStep::Invalid(message);
            },
            Some(Ok(_)) => {},
        }
        let root = match &facts.canonical {
            None => return ConfigStep::Canonicalize(options.root),
            Some(Err(error)) => {
                let mut message = text::copy_text("document root '");
                message.append(options.root.as_str());
                message.append("' cannot be canonicalized: ");
                message.append(error.as_str());
                message.append(" (does the directory exist?)");
                return ConfigStep::Invalid(message);
            },
            Some(Ok(root)) => text::copy_bytes(root),
        };
        match &facts.directory {
            None => ConfigStep::CheckDirectory,
            Some(Err(shown)) => {
                let mut message = text::copy_text("document root '");
                message.append(shown.as_str());
                message.append("' is not a directory");
                ConfigStep::Invalid(message)
            },
            Some(Ok(_)) => ConfigStep::Ready(
                Config {
                    bind: options.bind,
                    root,
                    max_concurrent: options.max_concurrent,
                    cache_max_age: options.cache_max_age,
                    keep_alive: options.keep_alive,
                    drop_user: options.drop_user,
                },
            ),
        }
    }
}

/// Arguments that come after a complete list of flags are read on top of what that list gave:
/// a later flag overrides an earlier one, and any flag overrides the environment.
pub proof fn later_flags_override(first: Seq<Seq<char>>, second: Seq<Seq<char>>, given: Settings)
    requires
        parse_flags(first, given) is Run,
    ensures
        parse_flags(first + second, given) == parse_flags(
            second,
            parse_flags(first, given)->Run_0,
        ),
    decreases first.len(),
{
    if first.len() == 0 {
        assert(first + second =~= second);
    } else {
        let whole = first + second;
        assert(whole[0] == first[0]);
        assert(whole.skip(1) =~= first.skip(1) + second);
        if first.len() >= 2 {
            assert(whole[1] == first[1]);
            assert(whole.skip(2) =~= first.skip(2) + second);
        }
        if first[0] == "--bind"@ || first[0] == "-b"@ {
            later_flags_override(first.skip(2), second, Settings { bind: first[1], ..given });
        } else if first[0] == "--root"@ || first[0] == "-r"@ {
            later_flags_override(first.skip(2), second, Settings { root: first[1], ..given });
        } else if first[0] == "--max-concurrent"@ {
            let n = text::unsigned(first[1], usize::MAX as nat)->Some_0;
            later_flags_override(first.skip(2), second, Settings { max_concurrent: n, ..given });
        } else if first[0] == "--cache-max-age"@ {
            let n = text::unsigned(first[1], u64::MAX as nat)->Some_0;
            later_flags_override(first.skip(2), second, Settings { cache_max_age: n, ..given });
        } else if first[0] == "--keep-alive"@ {
            later_flags_override(first.skip(1), second, Settings { keep_alive: true, ..given });
        } else {
            later_flags_override(
                first.skip(2),
                second,
                Settings { drop_user: Some(first[1]), ..given },
            );
        }
    }
}

/// Keep-alive and the drop of privileges are off unless the command line asks for them.
pub proof fn keep_alive_and_dropping_are_opt_in(args: Seq<Seq<char>>, given: Settings)
    requires
        parse_flags(args, given) is Run,
    ensures
        !args.contains("--keep-alive"@) ==> parse_flags(args, given)->Run_0.keep_alive
            == given.keep_alive,
        !args.contains("--drop-user"@) ==> parse_flags(args, given)->Run_0.drop_user
            == given.drop_user,
    decreases args.len(),
{
    if args.len() > 0 {
        let (n, next): (int, Settings) = if args[0] == "--bind"@ || args[0] == "-b"@ {
            (2, Settings { bind: args[1], ..given })
        } else if args[0] == "--root"@ || args[0] == "-r"@ {
            (2, Settings { root: args[1], ..given })
        } else if args[0] == "--max-concurrent"@ {
            let max_concurrent = text::unsigned(args[1], usize::MAX as nat)->Some_0;
            (2, Settings { max_concurrent, ..given })
        } else if args[0] == "--cache-max-age"@ {
            let cache_max_age = text::unsigned(args[1], u64::MAX as nat)->Some_0;
            (2, Settings { cache_max_age, ..given })
        } else if args[0] == "--keep-alive"@ {
            (1, Settings { keep_alive: true, ..given })
        } else {
            (2, Settings { drop_user: Some(args[1]), ..given })
        };
        let rest = args.skip(n);
        assert(parse_flags(args, given) == parse_flags(rest, next));
        assert forall|flag: Seq<char>| rest.contains(flag) implies args.contains(flag) by {
            let i = choose|i: int| 0 <= i < rest.len() && rest[i] == flag;
            assert(args[i + n] == flag);
        }
        assert(args.contains(args[0]));
        keep_alive_and_dropping_are_opt_in(rest, next);
    }
}

/// A configuration is only ever arrived at with an address that is one and a document root that
/// exists and is a directory.
pub proof fn no_start_without_a_root(settings: Settings, facts: StartupFacts)
    ensures
        checking(settings, facts) is Ready <==> {
            &&& facts.address matches Some(Ok(_))
            &&& facts.canonical matches Some(Ok(_))
            &&& facts.directory matches Some(Ok(_))
        },
{
}

/// No question to the system is asked again once it is answered.
pub proof fn no_question_is_repeated(settings: Settings, facts: StartupFacts)
    ensures
        checking(settings, facts) is ParseAddress ==> facts.address is None,
        checking(settings, facts) is Canonicalize ==> facts.canonical is None,
        checking(settings, facts) is CheckDirectory ==> facts.canonical is Some
            && facts.directory is None,
{
}

/// No flag is another.
proof fn lemma_flags_differ()
    ensures
        "-b"@ != "--bind"@,
        "--root"@ != "--bind"@,
        "--root"@ != "-b"@,
        "-r"@ != "--bind"@,
        "-r"@ != "-b"@,
        "-r"@ != "--root"@,
        "--max-concurrent"@ != "--bind"@,
        "--max-concurrent"@ != "-b"@,
        "--max-concurrent"@ != "--root"@,
        "--max-concurrent"@ != "-r"@,
        "--cache-max-age"@ != "--bind"@,
        "--cache-max-age"@ != "-b"@,
        "--cache-max-age"@ != "--root"@,
        "--cache-max-age"@ != "-r"@,
        "--cache-max-age"@ != "--max-concurrent"@,
        "--keep-alive"@ != "--bind"@,
        "--keep-alive"@ != "-b"@,
        "--keep-alive"@ != "--root"@,
        "--keep-alive"@ != "-r"@,
        "--keep-alive"@ != "--max-concurrent"@,
        "--keep-alive"@ != "--cache-max-age"@,
        "--drop-user"@ != "--bind"@,
        "--drop-user"@ != "-b"@,
        "--drop-user"@ != "--root"@,
        "--drop-user"@ != "-r"@,
        "--drop-user"@ != "--max-concurrent"@,
        "--drop-user"@ != "--cache-max-age"@,
        "--drop-user"@ != "--keep-alive"@,
        "--help"@ != "--bind"@,
        "--help"@ != "-b"@,
        "--help"@ != "--root"@,
        "--help"@ != "-r"@,
        "--help"@ != "--max-concurrent"@,
        "--help"@ != "--cache-max-age"@,
        "--help"@ != "--keep-alive"@,
        "--help"@ != "--drop-user"@,
        "-h"@ != "--bind"@,
        "-h"@ != "-b"@,
        "-h"@ != "--root"@,
        "-h"@ != "-r"@,
        "-h"@ != "--max-concurrent"@,
        "-h"@ != "--cache-max-age"@,
        "-h"@ != "--keep-alive"@,
        "-h"@ != "--drop-user"@,
        "-h"@ != "--help"@,
{
    reveal_strlit("--bind");
    reveal_strlit("-b");
    reveal_strlit("--root");
    reveal_strlit("-r");
    reveal_strlit("--max-concurrent");
    reveal_strlit("--cache-max-age");
    reveal_strlit("--keep-alive");
    reveal_strlit("--drop-user");
    reveal_strlit("--help");
    reveal_strlit("-h");
    assert("--bind"@.len() == 6);
    assert("-b"@.len() == 2);
    assert("--root"@.len() == 6);
    assert("-r"@.len() == 2);
    assert("--max-concurrent"@.len() == 16);
    assert("--cache-max-age"@.len() == 15);
    assert("--keep-alive"@.len() == 12);
    assert("--drop-user"@.len() == 11);
    assert("--help"@.len() == 6);
    assert("-h"@.len() == 2);
    assert("--bind"@[2] == 'b');
    assert("--root"@[2] == 'r');
    assert("--help"@[2] == 'h');
    assert("-b"@[1] == 'b');
    assert("-r"@[1] == 'r');
    assert("-h"@[1] == 'h');
}

/// A flag with its value sets the one setting that it is for, to that value, and leaves the others.
pub proof fn a_flag_sets_its_setting(value: Seq<char>, given: Settings)
    ensures
        parse_flags(seq!["--bind"@, value], given) == Parsed::Run(
            Settings { bind: value, ..given },
        ),
        parse_flags(seq!["-b"@, value], given) == Parsed::Run(Settings { bind: value, ..given }),
        parse_flags(seq!["--root"@, value], given) == Parsed::Run(
            Settings { root: value, ..given },
        ),
        parse_flags(seq!["-r"@, value], given) == Parsed::Run(Settings { root: value, ..given }),
        parse_flags(seq!["--drop-user"@, value], given) == Parsed::Run(
            Settings { drop_user: Some(value), ..given },
        ),
        parse_flags(seq!["--keep-alive"@], given) == Parsed::Run(
            Settings { keep_alive: true, ..given },
        ),
        parse_flags(Seq::empty(), given) == Parsed::Run(given),
{
    lemma_flags_differ();
    reveal_with_fuel(parse_flags, 2);
    assert(seq!["--bind"@, value].skip(2) =~= Seq::<Seq<char>>::empty());
    assert(seq!["-b"@, value].skip(2) =~= Seq::<Seq<char>>::empty());
    assert(seq!["--root"@, value].skip(2) =~= Seq::<Seq<char>>::empty());
    assert(seq!["-r"@, value].skip(2) =~= Seq::<Seq<char>>::empty());
    assert(seq!["--drop-user"@, value].skip(2) =~= Seq::<Seq<char>>::empty());
    assert(seq!["--keep-alive"@].skip(1) =~= Seq::<Seq<char>>::empty());
}

/// A number sets the limit or the age to that number, however it is spelled, and written in decimal
/// as long as it fits; what spells no number is refused.
pub proof fn a_number_sets_its_setting(n: nat, value: Seq<char>, given: Settings)
    ensures
        n <= usize::MAX ==> parse_flags(seq!["--max-concurrent"@, text::decimal(n)], given)
            == Parsed::Run(Settings { max_concurrent: n, ..given }),
        n <= u64::MAX ==> parse_flags(seq!["--cache-max-age"@, text::decimal(n)], given)
            == Parsed::Run(Settings { cache_max_age: n, ..given }),
        text::unsigned(value, usize::MAX as nat) == Some(n) ==> parse_flags(
            seq!["--max-concurrent"@, value],
            given,
        ) == Parsed::Run(Settings { max_concurrent: n, ..given }),
        text::unsigned(value, u64::MAX as nat) == Some(n) ==> parse_flags(
            seq!["--cache-max-age"@, value],
            given,
        ) == Parsed::Run(Settings { cache_max_age: n, ..given }),
        text::unsigned(value, usize::MAX as nat) is None ==> parse_flags(
            seq!["--max-concurrent"@, value],
            given,
        ) == Parsed::Wrong("invalid --max-concurrent"@),
        text::unsigned(value, u64::MAX as nat) is None ==> parse_flags(
            seq!["--cache-max-age"@, value],
            given,
        ) == Parsed::Wrong("invalid --cache-max-age"@),
{
    lemma_flags_differ();
    reveal_with_fuel(parse_flags, 2);
    if n <= usize::MAX {
        text::decimal_spells_its_number(n, usize::MAX as nat);
    }
    if n <= u64::MAX {
        text::decimal_spells_its_number(n, u64::MAX as nat);
    }
    assert(seq!["--max-concurrent"@, text::decimal(n)].skip(2) =~= Seq::<Seq<char>>::empty());
    assert(seq!["--cache-max-age"@, text::decimal(n)].skip(2) =~= Seq::<Seq<char>>::empty());
    assert(seq!["--max-concurrent"@, value].skip(2) =~= Seq::<Seq<char>>::empty());
    assert(seq!["--cache-max-age"@, value].skip(2) =~= Seq::<Seq<char>>::empty());
}

/// Where the help is asked for, or an argument is missing or unknown, nothing that follows is
/// looked at.
pub proof fn a_wrong_argument_ends_the_command_line(
    arg: Seq<char>,
    rest: Seq<Seq<char>>,
    given: Settings,
)
    ensures
        parse_flags(seq!["--help"@] + rest, given) == Parsed::Help,
        parse_flags(seq!["-h"@] + rest, given) == Parsed::Help,
        parse_flags(seq!["--bind"@], given) == Parsed::Wrong("--bind requires an argument"@),
        parse_flags(seq!["-b"@], given) == Parsed::Wrong("--bind requires an argument"@),
        parse_flags(seq!["--root"@], given) == Parsed::Wrong("--root requires an argument"@),
        parse_flags(seq!["-r"@], given) == Parsed::Wrong("--root requires an argument"@),
        parse_flags(seq!["--max-concurrent"@], given) == Parsed::Wrong(
            "--max-concurrent requires an argument"@,
        ),
        parse_flags(seq!["--cache-max-age"@], given) == Parsed::Wrong(
            "--cache-max-age requires an argument"@,
        ),
        parse_flags(seq!["--drop-user"@], given) == Parsed::Wrong(
            "--drop-user requires an argument"@,
        ),
        arg != "--bind"@ && arg != "-b"@ && arg != "--root"@ && arg != "-r"@ && arg
            != "--max-concurrent"@ && arg != "--cache-max-age"@ && arg != "--keep-alive"@ && arg
            != "--drop-user"@ && arg != "--help"@ && arg != "-h"@ ==> parse_flags(
            seq![arg] + rest,
            given,
        ) == Parsed::Wrong("unknown argument: "@ + arg),
{
    lemma_flags_differ();
    assert((seq!["--help"@] + rest)[0] == "--help"@);
    assert((seq!["-h"@] + rest)[0] == "-h"@);
    assert((seq![arg] + rest)[0] == arg);
}

/// A setting that no argument is for keeps its value.
pub proof fn other_settings_are_kept(args: Seq<Seq<char>>, given: Settings)
    requires
        parse_flags(args, given) is Run,
    ensures
        !args.contains("--bind"@) && !args.contains("-b"@) ==> parse_flags(
            args,
            given,
        )->Run_0.bind == given.bind,
        !args.contains("--root"@) && !args.contains("-r"@) ==> parse_flags(
            args,
            given,
        )->Run_0.root == given.root,
        !args.contains("--max-concurrent"@) ==> parse_flags(args, given)->Run_0.max_concurrent
            == given.max_concurrent,
        !args.contains("--cache-max-age"@) ==> parse_flags(args, given)->Run_0.cache_max_age
            == given.cache_max_age,
        !args.contains("--keep-alive"@) ==> parse_flags(args, given)->Run_0.keep_alive
            == given.keep_alive,
        !args.contains("--drop-user"@) ==> parse_flags(args, given)->Run_0.drop_user
            == given.drop_user,
    decreases args.len(),
{
    if args.len() > 0 {
        let (n, next): (int, Settings) = if args[0] == "--bind"@ || args[0] == "-b"@ {
            (2, Settings { bind: args[1], ..given })
        } else if args[0] == "--root"@ || args[0] == "-r"@ {
            (2, Settings { root: args[1], ..given })
        } else if args[0] == "--max-concurrent"@ {
            let max_concurrent = text::unsigned(args[1], usize::MAX as nat)->Some_0;
            (2, Settings { max_concurrent, ..given })
        } else if args[0] == "--cache-max-age"@ {
            let cache_max_age = text::unsigned(args[1], u64::MAX as nat)->Some_0;
            (2, Settings { cache_max_age, ..given })
        } else if args[0] == "--keep-alive"@ {
            (1, Settings { keep_alive: true, ..given })
        } else {
            (2, Settings { drop_user: Some(args[1]), ..given })
        };
        let rest = args.skip(n);
        assert(parse_flags(args, given) == parse_flags(rest, next));
        assert forall|flag: Seq<char>| rest.contains(flag) implies args.contains(flag) by {
            let i = choose|i: int| 0 <= i < rest.len() && rest[i] == flag;
            assert(args[i + n] == flag);
        }
        assert(args.contains(args[0]));
        other_settings_are_kept(rest, next);
    }
}

/// The environment says what to bind and what to serve, and the defaults where it does not, unless
/// a flag says otherwise; of the other settings the defaults stand until a flag says otherwise.
pub proof fn the_environment_stands_unless_a_flag_overrides_it(
    env_bind: Option<Seq<char>>,
    env_root: Option<Seq<char>>,
    program: Seq<char>,
    flags: Seq<Seq<char>>,
)
    requires
        parse_flags(flags_of(seq![program] + flags), initial_settings(env_bind, env_root)) is Run,
    ensures
        ({
            let settings = parse_flags(
                flags_of(seq![program] + flags),
                initial_settings(env_bind, env_root),
            )->Run_0;
            &&& !flags.contains("--bind"@) && !flags.contains("-b"@) ==> settings.bind == (
            match env_bind {
                Some(bind) => bind,
                None => "127.0.0.1:8080"@,
            })
            &&& !flags.contains("--root"@) && !flags.contains("-r"@) ==> settings.root == (
            match env_root {
                Some(root) => root,
                None => "./public"@,
            })
            &&& !flags.contains("--max-concurrent"@) ==> settings.max_concurrent == 1024
            &&& !flags.contains("--cache-max-age"@) ==> settings.cache_max_age == 3600
            &&& !flags.contains("--keep-alive"@) ==> !settings.keep_alive
            &&& !flags.contains("--drop-user"@) ==> settings.drop_user is None
        }),
{
    assert((seq![program] + flags).skip(1) =~= flags);
    other_settings_are_kept(flags, initial_settings(env_bind, env_root));
}

/// The last flag for a setting is the one that counts, whatever the environment and the flags
/// before it say.
pub proof fn the_last_flag_counts(
    env_bind: Option<Seq<char>>,
    env_root: Option<Seq<char>>,
    program: Seq<char>,
    flags: Seq<Seq<char>>,
    value: Seq<char>,
)
    requires
        parse_flags(flags, initial_settings(env_bind, env_root)) is Run,
    ensures
        ({
            let given = parse_flags(flags, initial_settings(env_bind, env_root))->Run_0;
            &&& parse_flags(
                flags_of(seq![program] + (flags + seq!["--root"@, value])),
                initial_settings(env_bind, env_root),
            ) == Parsed::Run(Settings { root: value, ..given })
            &&& parse_flags(
                flags_of(seq![program] + (flags + seq!["--bind"@, value])),
                initial_settings(env_bind, env_root),
            ) == Parsed::Run(Settings { bind: value, ..given })
            &&& parse_flags(
                flags_of(seq![program] + (flags + seq!["--drop-user"@, value])),
                initial_settings(env_bind, env_root),
            ) == Parsed::Run(Settings { drop_user: Some(value), ..given })
        }),
{
    let initial = initial_settings(env_bind, env_root);
    let given = parse_flags(flags, initial)->Run_0;
    a_flag_sets_its_setting(value, given);
    later_flags_override(flags, seq!["--root"@, value], initial);
    later_flags_override(flags, seq!["--bind"@, value], initial);
    later_flags_override(flags, seq!["--drop-user"@, value], initial);
    assert((seq![program] + (flags + seq!["--root"@, value])).skip(1) =~= flags + seq![
        "--root"@,
        value,
    ]);
    assert((seq![program] + (flags + seq!["--bind"@, value])).skip(1) =~= flags + seq![
        "--bind"@,
        value,
    ]);
    assert((seq![program] + (flags + seq!["--drop-user"@, value])).skip(1) =~= flags + seq![
        "--drop-user"@,
        value,
    ]);
}

/// The server runs with what was asked for, the address and the limits as they were given and the
/// root in its canonical form, once the system has accepted all of it; until then the system is
/// asked about just that, and what it refuses is reported with the system's own words.
pub proof fn a_server_runs_as_it_was_asked_to(
    env_bind: Option<Seq<char>>,
    env_root: Option<Seq<char>>,
    program: Seq<char>,
    flags: Seq<Seq<char>>,
    facts: StartupFacts,
)
    requires
        parse_flags(flags, initial_settings(env_bind, env_root)) is Run,
    ensures
        ({
            let asked = parse_flags(flags, initial_settings(env_bind, env_root))->Run_0;
            let step = configuring(env_bind, env_root, seq![program] + flags, facts);
            &&& step matches Configuring::Ready(setup) ==> {
                &&& setup.bind == asked.bind
                &&& facts.canonical matches Some(Ok(root)) && setup.root == root@
                &&& setup.max_concurrent == asked.max_concurrent
                &&& setup.cache_max_age == asked.cache_max_age
                &&& setup.keep_alive == asked.keep_alive
                &&& setup.drop_user == asked.drop_user
            }
            &&& facts.address is None ==> step == Configuring::ParseAddress(asked.bind)
            &&& facts.address matches Some(Err(e)) ==> step == Configuring::Invalid(
                "invalid bind address '"@ + asked.bind + "': "@ + e@,
            )
            &&& facts.address matches Some(Ok(_)) ==> {
                &&& facts.canonical is None ==> step == Configuring::Canonicalize(asked.root)
                &&& facts.canonical matches Some(Err(e)) ==> step == Configuring::Invalid(
                    "document root '"@ + asked.root + "' cannot be canonicalized: "@ + e@
                        + " (does the directory exist?)"@,
                )
                &&& facts.canonical matches Some(Ok(_)) ==> {
                    &&& facts.directory is None ==> step is CheckDirectory
                    &&& facts.directory matches Some(Err(shown)) ==> step == Configuring::Invalid(
                        "document root '"@ + shown@ + "' is not a directory"@,
                    )
                    &&& facts.directory matches Some(Ok(_)) ==> step is Ready
                }
            }
        }),
{
    assert((seq![program] + flags).skip(1) =~= flags);
}

/// A command line that asks for the usage, or that is wrong, is answered with that alone, whatever
/// the system would say.
pub proof fn a_wrong_command_line_starts_nothing(
    env_bind: Option<Seq<char>>,
    env_root: Option<Seq<char>>,
    program: Seq<char>,
    flags: Seq<Seq<char>>,
    facts: StartupFacts,
)
    ensures
        ({
            let parsed = parse_flags(flags, initial_settings(env_bind, env_root));
            let step = configuring(env_bind, env_root, seq![program] + flags, facts);
            &&& parsed is Help ==> step is Usage
            &&& parsed matches Parsed::Wrong(message) ==> step == Configuring::Invalid(message)
        }),
{
    assert((seq![program] + flags).skip(1) =~= flags);
}

/// An optional string stands for its text.
pub proof fn an_optional_text_is_kept(s: Option<String>)
    ensures
        s is None <==> optional_text(s) is None,
        s matches Some(string) ==> optional_text(s) == Some(string@),
{
}

/// What a configuration stands for is what its fields hold, each of them.
pub proof fn a_setup_shows_every_field(config: Config, options: Options)
    ensures
        config@.bind == config.bind@,
        config@.root == config.root@,
        config@.max_concurrent == config.max_concurrent,
        config@.cache_max_age == config.cache_max_age,
        config@.keep_alive == config.keep_alive,
        config@.drop_user matches Some(user) ==> config.drop_user matches Some(u) && u@ == user,
        config@.drop_user is None ==> config.drop_user is None,
        options@.bind == options.bind@,
        options@.root == options.root@,
        options@.max_concurrent == options.max_concurrent,
        options@.cache_max_age == options.cache_max_age,
        options@.keep_alive == options.keep_alive,
        options@.drop_user matches Some(user) ==> options.drop_user matches Some(u) && u@ == user,
        options@.drop_user is None ==> options.drop_user is None,
{
}

} // verus!
