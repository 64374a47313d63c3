use flax::config::{CommandLine, Config, ConfigStep, Options, StartupFacts, USAGE};

fn args(list: &[&str]) -> Vec<String> {
    list.iter().map(|s| s.to_string()).collect()
}

fn facts() -> StartupFacts {
    StartupFacts { address: None, canonical: None, directory: None }
}

fn run(list: &[&str]) -> Options {
    match Options::parse(None, None, &args(list)) {
        CommandLine::Run(options) => options,
        _ => panic!("expected options"),
    }
}

fn wrong(list: &[&str]) -> String {
    match Options::parse(None, None, &args(list)) {
        CommandLine::Wrong(message) => message,
        _ => panic!("expected an error"),
    }
}

fn invalid(facts: &StartupFacts) -> String {
    match Config::from_env_and_args(None, None, &args(&["flax"]), facts) {
        ConfigStep::Invalid(message) => message,
        _ => panic!("expected an error"),
    }
}

#[test]
fn defaults() {
    for list in [&[][..], &["flax"][..]] {
        let options = run(list);
        assert_eq!(options.bind, "127.0.0.1:8080");
        assert_eq!(options.root, "./public");
        assert_eq!(options.max_concurrent, 1024);
        assert_eq!(options.cache_max_age, 3600);
        assert!(!options.keep_alive);
        assert_eq!(options.drop_user, None);
    }
}

#[test]
fn every_flag() {
    let options = run(&[
        "flax", "--bind", "0.0.0.0:80", "--root", "/srv", "--max-concurrent", "7", "--cache-max-age", "0",
        "--keep-alive", "--drop-user", "www-data",
    ]);
    assert_eq!(options.bind, "0.0.0.0:80");
    assert_eq!(options.root, "/srv");
    assert_eq!(options.max_concurrent, 7);
    assert_eq!(options.cache_max_age, 0);
    assert!(options.keep_alive);
    assert_eq!(options.drop_user.as_deref(), Some("www-data"));
}

#[test]
fn the_environment_gives_way_to_flags() {
    let env_bind = Some("[::1]:1".to_string());
    let env_root = Some("/env".to_string());
    match Options::parse(env_bind, env_root, &args(&["flax", "-r", "/flag"])) {
        CommandLine::Run(options) => {
            assert_eq!(options.bind, "[::1]:1");
            assert_eq!(options.root, "/flag");
        }
        _ => panic!("expected options"),
    }
}

#[test]
fn later_flags_win() {
    let options = run(&["flax", "-b", "a", "--bind", "b", "-b", "c", "--cache-max-age", "1", "--cache-max-age", "+2"]);
    assert_eq!(options.bind, "c");
    assert_eq!(options.cache_max_age, 2);
}

#[test]
fn a_flag_can_be_a_value() {
    let options = run(&["flax", "--root", "--keep-alive"]);
    assert_eq!(options.root, "--keep-alive");
    assert!(!options.keep_alive);
}

#[test]
fn missing_and_invalid_values() {
    for flag in ["--bind", "--root", "--max-concurrent", "--cache-max-age", "--drop-user"] {
        assert_eq!(wrong(&["flax", flag]), format!("{} requires an argument", flag));
    }
    assert_eq!(wrong(&["flax", "-b"]), "--bind requires an argument");
    assert_eq!(wrong(&["flax", "-r"]), "--root requires an argument");
    assert_eq!(wrong(&["flax", "--max-concurrent", "many"]), "invalid --max-concurrent");
    assert_eq!(wrong(&["flax", "--max-concurrent", "-1"]), "invalid --max-concurrent");
    assert_eq!(
        wrong(&["flax", "--max-concurrent", "18446744073709551616"]),
        "invalid --max-concurrent"
    );
    assert_eq!(wrong(&["flax", "--cache-max-age", ""]), "invalid --cache-max-age");
    assert_eq!(wrong(&["flax", "--tls"]), "unknown argument: --tls");
    assert_eq!(wrong(&["flax", "--bind=x"]), "unknown argument: --bind=x");
}

#[test]
fn help_comes_before_later_mistakes() {
    assert!(matches!(
        Options::parse(None, None, &args(&["flax", "--help", "--nonsense"])),
        CommandLine::Help
    ));
    assert!(matches!(
        Config::from_env_and_args(None, None, &args(&["flax", "-h"]), &facts()),
        ConfigStep::Usage
    ));
    assert_eq!(wrong(&["flax", "--nonsense", "--help"]), "unknown argument: --nonsense");
}

#[test]
fn a_configuration_step_by_step() {
    let list = args(&["flax", "--bind", "127.0.0.1:0", "--root", "site", "--drop-user", "nobody"]);
    let mut facts = facts();
    match Config::from_env_and_args(None, None, &list, &facts) {
        ConfigStep::ParseAddress(address) => assert_eq!(address, "127.0.0.1:0"),
        _ => panic!("expected a question on the address"),
    }
    facts.address = Some(Ok(()));
    match Config::from_env_and_args(None, None, &list, &facts) {
        ConfigStep::Canonicalize(path) => assert_eq!(path, "site"),
        _ => panic!("expected a question on the root"),
    }
    facts.canonical = Some(Ok(b"/srv/site".to_vec()));
    assert!(matches!(
        Config::from_env_and_args(None, None, &list, &facts),
        ConfigStep::CheckDirectory
    ));
    facts.directory = Some(Ok(()));
    match Config::from_env_and_args(None, None, &list, &facts) {
        ConfigStep::Ready(config) => {
            assert_eq!(config.bind, "127.0.0.1:0");
            assert_eq!(config.root, b"/srv/site");
            assert_eq!(config.max_concurrent, 1024);
            assert_eq!(config.cache_max_age, 3600);
            assert!(!config.keep_alive);
            assert_eq!(config.drop_user.as_deref(), Some("nobody"));
        }
        _ => panic!("expected a configuration"),
    }
}

#[test]
fn no_start_on_a_bad_address_or_root() {
    let mut facts = facts();
    facts.address = Some(Err("invalid socket address syntax".to_string()));
    assert_eq!(
        invalid(&facts),
        "invalid bind address '127.0.0.1:8080': invalid socket address syntax"
    );
    facts.address = Some(Ok(()));
    facts.canonical = Some(Err("No such file or directory (os error 2)".to_string()));
    assert_eq!(
        invalid(&facts),
        "document root './public' cannot be canonicalized: No such file or directory (os error 2) \
         (does the directory exist?)"
    );
    facts.canonical = Some(Ok(b"/etc/passwd".to_vec()));
    facts.directory = Some(Err("/etc/passwd".to_string()));
    assert_eq!(invalid(&facts), "document root '/etc/passwd' is not a directory");
}

#[test]
fn the_usage_names_every_flag() {
    for flag in [
        "-b, --bind", "-r, --root", "--max-concurrent", "--cache-max-age", "--keep-alive", "--drop-user",
        "-h, --help", "STATIC_BIND, STATIC_ROOT",
    ] {
        assert!(USAGE.contains(flag), "{}", flag);
    }
}
