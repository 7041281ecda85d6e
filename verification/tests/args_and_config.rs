use ctxsnap::args::{Args, ArgsError};
use ctxsnap::config::{AppConfig, ConfigError, ConfigRead};

fn args() -> Args {
    Args {
        root: ".".to_string(),
        run: true,
        output: None,
        force: false,
        dry_run: false,
        max_file_mb: None,
        max_total_mb: None,
        no_gitignore: false,
        include_lockfiles: false,
        exclude_ext: Vec::new(),
        exclude_dir: Vec::new(),
        exclude_file: Vec::new(),
        remove_comments: false,
        depth: None,
        init: false,
    }
}

#[test]
fn test_invalid_max_file_mb() {
    let mut a = args();
    a.max_file_mb = Some(0);
    let err = a.validate(true).unwrap_err();
    assert_eq!(err, ArgsError::MaxFileMbNotPositive);
    assert!(err.message().contains("must be positive"));
}

#[test]
fn test_nonexistent_root() {
    let mut a = args();
    a.root = "/tmp/does_not_exist_xyz123".to_string();
    let err = a.validate(false).unwrap_err();
    assert_eq!(err, ArgsError::RootMissing);
    assert!(err.message().contains("does not exist"));
}

#[test]
fn validate_accepts_plain_options() {
    assert_eq!(args().validate(true), Ok(()));
    let mut a = args();
    a.max_file_mb = Some(1024);
    a.max_total_mb = Some(10240);
    a.depth = Some(999);
    assert_eq!(a.validate(true), Ok(()));
    a.max_file_mb = Some(1);
    a.max_total_mb = Some(1);
    a.depth = Some(1);
    assert_eq!(a.validate(true), Ok(()));
}

#[test]
fn validate_gives_each_error() {
    let mut a = args();
    a.max_file_mb = Some(1025);
    assert_eq!(a.validate(true), Err(ArgsError::MaxFileMbTooLarge));
    let mut a = args();
    a.max_total_mb = Some(0);
    assert_eq!(a.validate(true), Err(ArgsError::MaxTotalMbNotPositive));
    let mut a = args();
    a.max_total_mb = Some(10241);
    assert_eq!(a.validate(true), Err(ArgsError::MaxTotalMbTooLarge));
    let mut a = args();
    a.depth = Some(0);
    assert_eq!(a.validate(true), Err(ArgsError::DepthOutOfRange));
    let mut a = args();
    a.depth = Some(1000);
    assert_eq!(a.validate(true), Err(ArgsError::DepthOutOfRange));
}

#[test]
fn validate_reports_the_first_broken_rule() {
    let mut a = args();
    a.max_file_mb = Some(2000);
    a.max_total_mb = Some(0);
    a.depth = Some(0);
    assert_eq!(a.validate(false), Err(ArgsError::MaxFileMbTooLarge));
    a.max_file_mb = None;
    assert_eq!(a.validate(false), Err(ArgsError::MaxTotalMbNotPositive));
    a.max_total_mb = None;
    assert_eq!(a.validate(false), Err(ArgsError::DepthOutOfRange));
    a.depth = None;
    assert_eq!(a.validate(false), Err(ArgsError::RootMissing));
}

#[test]
fn error_messages_are_exact() {
    assert_eq!(ArgsError::MaxFileMbNotPositive.message(), "max_file_mb must be positive");
    assert_eq!(ArgsError::MaxFileMbTooLarge.message(), "max_file_mb cannot exceed 1GB");
    assert_eq!(ArgsError::MaxTotalMbNotPositive.message(), "max_total_mb must be positive");
    assert_eq!(ArgsError::MaxTotalMbTooLarge.message(), "max_total_mb cannot exceed 10GB");
    assert_eq!(ArgsError::DepthOutOfRange.message(), "depth must be between 1 and 999");
    assert_eq!(ArgsError::RootMissing.message(), "Root path does not exist");
}

#[test]
fn default_config_values() {
    let c = AppConfig::default();
    assert_eq!(c.exclude_ext.len(), 23);
    assert_eq!(c.exclude_ext[0], "exe");
    assert_eq!(c.exclude_ext[22], "key");
    assert!(c.exclude_ext.contains(&"sqlite3".to_string()));
    assert_eq!(
        c.exclude_dir,
        vec![".git", "node_modules", "target", "dist", "build", ".venv", "venv", ".idea", ".vscode"]
    );
    assert_eq!(c.exclude_file, vec![".DS_Store", "Thumbs.db", ".gitignore", ".gitattributes"]);
    assert_eq!(c.max_file_mb, 10);
    assert_eq!(c.max_total_mb, 200);
    assert!(c.use_gitignore);
    assert!(!c.include_lockfiles);
    assert!(!c.remove_comments);
    assert_eq!(c.depth, 50);
}

#[test]
fn corrupted_global_config_falls_back_to_defaults() {
    let got = AppConfig::load_global(ConfigRead::Corrupted("bad key".to_string()));
    assert_eq!(got.config.max_file_mb, 10);
    assert_eq!(got.config.exclude_ext.len(), 23);
    assert_eq!(
        got.warning,
        Some("Warning: Global config corrupted (race condition?): bad key".to_string())
    );
    assert!(!got.write_defaults);
}

#[test]
fn unreadable_global_config_falls_back_to_defaults() {
    let got = AppConfig::load_global(ConfigRead::Unreadable("denied".to_string()));
    assert_eq!(got.config.depth, 50);
    assert_eq!(
        got.warning,
        Some("Warning: Could not read global config: denied".to_string())
    );
    assert!(!got.write_defaults);
}

#[test]
fn missing_global_config_asks_for_defaults_to_be_written() {
    let got = AppConfig::load_global(ConfigRead::Missing);
    assert_eq!(got.config.max_total_mb, 200);
    assert_eq!(got.warning, None);
    assert!(got.write_defaults);
}

#[test]
fn parsed_global_config_is_taken_as_it_is() {
    let mut c = AppConfig::default();
    c.max_file_mb = 3;
    c.exclude_ext = vec!["zzz".to_string()];
    let got = AppConfig::load_global(ConfigRead::Parsed(c));
    assert_eq!(got.config.max_file_mb, 3);
    assert_eq!(got.config.exclude_ext, vec!["zzz"]);
    assert_eq!(got.warning, None);
    assert!(!got.write_defaults);
}

#[test]
fn corrupted_local_config_is_an_error() {
    match AppConfig::load_local(ConfigRead::Corrupted("line 3".to_string())) {
        Err(ConfigError::Corrupted(cause)) => assert_eq!(cause, "line 3"),
        other => panic!("unexpected: {:?}", other),
    }
    let e = ConfigError::Corrupted("line 3".to_string());
    assert_eq!(e.message(), "Local config is corrupted: line 3");
}

#[test]
fn unreadable_local_config_is_an_error() {
    match AppConfig::load_local(ConfigRead::Unreadable("denied".to_string())) {
        Err(ConfigError::Unreadable(cause)) => assert_eq!(cause, "denied"),
        other => panic!("unexpected: {:?}", other),
    }
    let e = ConfigError::Unreadable("denied".to_string());
    assert_eq!(e.message(), "Failed to read local config: denied");
}

#[test]
fn missing_local_config_is_no_error() {
    assert!(matches!(AppConfig::load_local(ConfigRead::Missing), Ok(None)));
    let mut c = AppConfig::default();
    c.depth = 7;
    match AppConfig::load_local(ConfigRead::Parsed(c)) {
        Ok(Some(got)) => assert_eq!(got.depth, 7),
        other => panic!("unexpected: {:?}", other),
    }
}

#[test]
fn overrides_layer_over_the_configuration() {
    let mut a = args();
    a.max_file_mb = Some(5);
    a.depth = Some(3);
    a.remove_comments = true;
    a.no_gitignore = true;
    a.exclude_ext = vec!["log".to_string(), "tmp".to_string()];
    a.exclude_dir = vec!["out".to_string()];
    let c = AppConfig::default().with_overrides(&a);
    assert_eq!(c.max_file_mb, 5);
    assert_eq!(c.max_total_mb, 200);
    assert_eq!(c.depth, 3);
    assert!(c.remove_comments);
    assert!(!c.include_lockfiles);
    assert!(!c.use_gitignore);
    assert_eq!(c.exclude_ext.len(), 25);
    assert_eq!(c.exclude_ext[23], "log");
    assert_eq!(c.exclude_ext[24], "tmp");
    assert_eq!(c.exclude_dir.len(), 10);
    assert_eq!(c.exclude_dir[9], "out");
    assert_eq!(c.exclude_file.len(), 4);
}

#[test]
fn local_configuration_replaces_the_global_one() {
    let mut global = AppConfig::default();
    global.max_total_mb = 1;
    global.include_lockfiles = true;
    let mut local = AppConfig::default();
    local.max_total_mb = 2;
    local.exclude_file = vec!["only.txt".to_string()];
    let mut a = args();
    a.exclude_file = vec!["more.txt".to_string()];

    let c = AppConfig::resolve(global.clone(), Some(local), &a);
    assert_eq!(c.max_total_mb, 2);
    assert!(!c.include_lockfiles);
    assert_eq!(c.exclude_file, vec!["only.txt", "more.txt"]);

    let c = AppConfig::resolve(global, None, &a);
    assert_eq!(c.max_total_mb, 1);
    assert!(c.include_lockfiles);
    assert_eq!(c.exclude_file.len(), 5);
}
