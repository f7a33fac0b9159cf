use crucible::config::{
    clean_branch_names, clean_start_from, engine_form_complete, split_branch_list,
    classify_web_host, engine_repo_path, token_is_placeholder, validate_engine_binary_path,
    validate_engine_name, validate_engine_storage_path, BinaryPathError, Config, ConfigChecks,
    ConfigError, EngineConfig, EngineNameError, GateOpponentConfig, GateProfileConfig, ServerConfig,
    WebHost,
};
use std::collections::BTreeMap;

/// The default SPRT bounds (elo0 0, elo1 5, alpha and beta 0.05) judged as
/// the application judges them, and the host judged by its address text.
fn checks_for(config: &Config) -> ConfigChecks {
    let (elo0, elo1, alpha, beta) = (0.0f64, 5.0f64, 0.05f64, 0.05f64);
    let loopback = match classify_web_host(&config.server.web_host) {
        WebHost::Localhost => true,
        WebHost::Address(addr) => addr == "127.0.0.1" || addr == "::1",
    };
    ConfigChecks {
        sprt_elo_ordered: elo0 < elo1,
        sprt_alpha_in_range: 0.0 < alpha && alpha < 1.0,
        sprt_beta_in_range: 0.0 < beta && beta < 1.0,
        web_host_is_loopback: loopback,
    }
}

fn validate(config: &Config) -> Result<(), ConfigError> {
    config.validate(checks_for(config))
}

#[test]
fn rejects_placeholder_admin_token() {
    let mut config = Config::default();
    config.server.admin_token = Some("changeme".into());
    assert!(validate(&config).is_err());
}

#[test]
fn requires_admin_token_for_non_loopback_hosts() {
    let mut config = Config::default();
    config.server.web_host = "0.0.0.0".into();
    assert!(validate(&config).is_err());
}

#[test]
fn allows_tokenless_loopback_hosts() {
    let config = Config {
        server: ServerConfig {
            web_host: "127.0.0.1".into(),
            admin_token: None,
            ..ServerConfig::default()
        },
        ..Config::default()
    };
    assert!(validate(&config).is_ok());
}

#[test]
fn rejects_unsafe_engine_paths() {
    let mut config = Config::default();
    config.engines.push(EngineConfig {
        name: "../outside".into(),
        repo: "https://example.invalid/repo.git".into(),
        branches: vec!["main".into()],
        experimental_branches: Vec::new(),
        build_cmd: "make".into(),
        binary_path: "../engine".into(),
        start_from: None,
    });
    assert!(validate(&config).is_err());
}

#[test]
fn progression_games_must_preserve_color_pairs() {
    let mut config = Config::default();
    config.testing.progression_games = Some(101);
    assert!(validate(&config).is_err());

    config.testing.progression_games = Some(100);
    assert!(validate(&config).is_ok());
}

#[test]
fn gate_games_must_preserve_color_pairs() {
    let mut config = Config::default();
    config.gate.opponents.push(GateOpponentConfig {
        name: "Stockfish".into(),
        binary_path: "/opt/engines/stockfish".into(),
        options: BTreeMap::new(),
    });
    config.gate.profiles.push(GateProfileConfig {
        name: "release".into(),
        opponents: vec!["Stockfish".into()],
        games_per_opponent: 3,
        time_control: None,
        opening_book: None,
    });
    assert!(validate(&config).is_err());
}

#[test]
fn reports_the_first_broken_rule() {
    let mut config = Config::default();
    config.testing.concurrency = 0;
    config.testing.max_games = 0;
    assert_eq!(validate(&config), Err(ConfigError::ZeroConcurrency));
    config.testing.concurrency = 2;
    assert_eq!(validate(&config), Err(ConfigError::ZeroMaxGames));
    config.testing.max_games = 10;
    config.testing.progression_games = Some(1);
    assert_eq!(validate(&config), Err(ConfigError::ProgressionGamesTooFew));
    config.testing.progression_games = None;
    config.testing.time_control.base_ms = 0;
    assert_eq!(validate(&config), Err(ConfigError::TimeControlEmpty));
    config.testing.time_control.nodes = Some(0);
    assert_eq!(validate(&config), Err(ConfigError::ZeroNodes));
    config.testing.time_control.nodes = Some(1000);
    assert_eq!(validate(&config), Ok(()));
    let mut checks = checks_for(&config);
    checks.sprt_alpha_in_range = false;
    assert_eq!(config.validate(checks), Err(ConfigError::SprtAlpha));
}

#[test]
fn gate_profiles_must_name_known_opponents() {
    let mut config = Config::default();
    config.gate.opponents.push(GateOpponentConfig {
        name: "Stockfish".into(),
        binary_path: "/opt/engines/stockfish".into(),
        options: BTreeMap::new(),
    });
    config.gate.profiles.push(GateProfileConfig {
        name: "release".into(),
        opponents: vec!["Stockfish".into(), "Ethereal".into()],
        games_per_opponent: 4,
        time_control: None,
        opening_book: None,
    });
    assert_eq!(validate(&config), Err(ConfigError::ProfileUnknownOpponent(0, 1)));
}

#[test]
fn engine_rules_report_the_engine() {
    let mut config = Config::default();
    config.engines.push(EngineConfig {
        name: "ok".into(),
        repo: "https://example.invalid/repo.git".into(),
        branches: Vec::new(),
        experimental_branches: Vec::new(),
        build_cmd: "make".into(),
        binary_path: "bin/engine".into(),
        start_from: None,
    });
    assert_eq!(validate(&config), Err(ConfigError::NoBranches(0)));
}

#[test]
fn admin_token_rules() {
    let mut config = Config::default();
    config.server.admin_token = Some("   ".into());
    assert_eq!(validate(&config), Err(ConfigError::EmptyAdminToken));
    config.server.admin_token = Some("  Replace-Me ".into());
    assert_eq!(validate(&config), Err(ConfigError::PlaceholderAdminToken));
    config.server.admin_token = Some("s3cret-token".into());
    config.server.web_host = "0.0.0.0".into();
    assert_eq!(validate(&config), Ok(()));
    config.server.admin_token = None;
    assert_eq!(validate(&config), Err(ConfigError::AdminTokenRequired));
}

#[test]
fn engine_names_must_be_single_components() {
    assert_eq!(validate_engine_name("stockfish"), Ok(()));
    assert_eq!(validate_engine_name("  "), Err(EngineNameError::Empty));
    assert_eq!(validate_engine_name(" sf"), Err(EngineNameError::SurroundingWhitespace));
    assert_eq!(validate_engine_name("a/b"), Err(EngineNameError::NotSingleComponent));
    assert_eq!(validate_engine_name("a\\b"), Err(EngineNameError::NotSingleComponent));
    assert_eq!(validate_engine_name(".."), Err(EngineNameError::NotSingleComponent));
    assert_eq!(validate_engine_name("."), Err(EngineNameError::NotSingleComponent));
    assert_eq!(validate_engine_name("..x"), Ok(()));
}

#[test]
fn binary_paths_stay_inside_the_repository() {
    assert_eq!(validate_engine_binary_path("target/release/engine"), Ok(()));
    assert_eq!(validate_engine_binary_path("a/./b"), Ok(()));
    assert_eq!(validate_engine_binary_path(""), Err(BinaryPathError::Empty));
    assert_eq!(validate_engine_binary_path("a "), Err(BinaryPathError::SurroundingWhitespace));
    assert_eq!(validate_engine_binary_path("a\\b"), Err(BinaryPathError::Backslash));
    assert_eq!(validate_engine_binary_path("/usr/bin/e"), Err(BinaryPathError::Absolute));
    assert_eq!(validate_engine_binary_path("./engine"), Err(BinaryPathError::SpecialComponent));
    assert_eq!(validate_engine_binary_path("a/../b"), Err(BinaryPathError::SpecialComponent));
}

#[test]
fn repository_paths_live_under_repos() {
    assert_eq!(engine_repo_path(".crucible", "sf").unwrap(), ".crucible/repos/sf");
    assert_eq!(engine_repo_path("/data/", "sf").unwrap(), "/data/repos/sf");
    assert_eq!(engine_repo_path("", "sf").unwrap(), "repos/sf");
    assert_eq!(engine_repo_path("/data", "../x"), Err(EngineNameError::NotSingleComponent));
}

#[test]
fn storage_paths_must_be_inside_the_repos_directory() {
    assert!(validate_engine_storage_path("/data/repos", "/data/repos/sf").is_ok());
    assert!(validate_engine_storage_path("/data/repos", "/data/repos").is_ok());
    assert!(validate_engine_storage_path("/data/repos", "/data/reposx/sf").is_err());
    assert!(validate_engine_storage_path("/data/repos", "/data").is_err());
    assert!(validate_engine_storage_path("/data/repos", "data/repos/sf").is_err());
}

#[test]
fn placeholder_tokens_are_recognised() {
    assert!(token_is_placeholder("changeme"));
    assert!(token_is_placeholder("  CHANGE-ME "));
    assert!(token_is_placeholder("paste-generated-token-here"));
    assert!(!token_is_placeholder("a-real-token"));
}

#[test]
fn web_hosts_are_classified() {
    assert!(matches!(classify_web_host(" LocalHost "), WebHost::Localhost));
    assert!(matches!(classify_web_host("[::1]"), WebHost::Address(a) if a == "::1"));
    assert!(matches!(classify_web_host(" 0.0.0.0 "), WebHost::Address(a) if a == "0.0.0.0"));
}

#[test]
fn branch_lists_are_trimmed_and_blank_entries_dropped() {
    assert_eq!(split_branch_list("main, dev ,,exp/* "), vec!["main".to_string(), "dev".into(), "exp/*".into()]);
    assert_eq!(split_branch_list(""), Vec::<String>::new());
    assert_eq!(split_branch_list(" , "), Vec::<String>::new());
    assert_eq!(
        clean_branch_names(&vec![" main ".to_string(), "".into(), "  ".into(), "dev".into()]),
        vec!["main".to_string(), "dev".into()]
    );
}

#[test]
fn engine_forms_need_every_field_and_a_branch() {
    let main = vec!["main".to_string()];
    let none: Vec<String> = Vec::new();
    assert!(engine_form_complete("engine", "https://x/y", "make", "bin/engine", &main, &none));
    assert!(engine_form_complete("engine", "https://x/y", "make", "bin/engine", &none, &main));
    assert!(!engine_form_complete("engine", "https://x/y", "make", "bin/engine", &none, &none));
    assert!(!engine_form_complete("  ", "https://x/y", "make", "bin/engine", &main, &none));
    assert!(!engine_form_complete("engine", "", "make", "bin/engine", &main, &none));
    assert!(!engine_form_complete("engine", "https://x/y", " ", "bin/engine", &main, &none));
    assert!(!engine_form_complete("engine", "https://x/y", "make", "", &main, &none));
}

#[test]
fn blank_start_references_mean_none() {
    assert_eq!(clean_start_from(Some(" v1.0.0 ")), Some("v1.0.0".to_string()));
    assert_eq!(clean_start_from(Some("   ")), None);
    assert_eq!(clean_start_from(Some("")), None);
    assert_eq!(clean_start_from(None), None);
}
