use envhist::config::{
    default_10000, default_3, default_3600, default_ignore_patterns, default_ignore_system, default_local,
    default_true, track_verdict, Config, CoreConfig, DisplayConfig, FiltersConfig,
};

#[test]
fn test_should_track() {
    let config = Config::default();

    // Should not track system vars
    assert!(!config.should_track("PATH"));
    assert!(!config.should_track("HOME"));

    // Should not track secrets by default
    assert!(!config.should_track("MY_PASSWORD"));
    assert!(!config.should_track("API_SECRET"));

    // Should track normal vars
    assert!(config.should_track("MY_VAR"));
    assert!(config.should_track("CANTON_NODE_1"));

    // Force track should override
    let mut config = Config::default();
    config.filters.force_track.push("MY_PASSWORD".to_string());
    assert!(config.should_track("MY_PASSWORD"));
}

#[test]
fn defaults_are_as_documented() {
    let config = Config::default();
    assert!(config.core.auto_snapshot);
    assert_eq!(config.core.auto_snapshot_interval, 3600);
    assert_eq!(config.core.max_timeline_size, 10000);
    assert!(config.core.daemon_enabled);
    assert_eq!(
        config.filters.ignore_patterns,
        vec![".*PASSWORD.*", ".*SECRET.*", ".*TOKEN.*", "AWS_.*", "SSH_.*"]
    );
    assert!(config.filters.force_track.is_empty());
    assert_eq!(
        config.filters.ignore_system,
        vec!["PATH", "HOME", "USER", "SHELL", "PWD", "OLDPWD", "TERM", "SHLVL", "_", "LS_COLORS"]
    );
    assert_eq!(config.display.diff_context, 3);
    assert!(config.display.color);
    assert_eq!(config.display.timezone, "local");
    assert_eq!(config.core, CoreConfig::default());
    assert_eq!(config.filters, FiltersConfig::default());
    assert_eq!(config.display, DisplayConfig::default());
}

#[test]
fn default_helpers_give_their_values() {
    assert!(default_true());
    assert_eq!(default_3600(), 3600);
    assert_eq!(default_10000(), 10000);
    assert_eq!(default_3(), 3);
    assert_eq!(default_local(), "local");
    assert_eq!(default_ignore_patterns().len(), 5);
    assert_eq!(default_ignore_system().len(), 10);
}

#[test]
fn config_clone_is_equal() {
    let mut config = Config::default();
    config.filters.force_track.push("KEEP_.*".to_string());
    config.display.timezone = "UTC".to_string();
    assert_eq!(config.clone(), config);
}

#[test]
fn layout_paths_are_relative_to_the_base() {
    assert_eq!(Config::sessions_dir(), "sessions");
    assert_eq!(Config::global_snapshots_dir(), "global/snapshots");
    assert_eq!(Config::daemon_socket_path(), "daemon.sock");
    assert_eq!(Config::config_path(), "config.toml");
}

#[test]
fn track_verdict_follows_the_rule() {
    // forced wins over everything
    assert!(track_verdict(true, true, true));
    assert!(track_verdict(true, false, true));
    assert!(track_verdict(true, true, false));
    // otherwise a system name or an ignored pattern holds the name back
    assert!(!track_verdict(false, true, false));
    assert!(!track_verdict(false, false, true));
    assert!(!track_verdict(false, true, true));
    assert!(track_verdict(false, false, false));
}

#[test]
fn ignore_patterns_match_anywhere_in_the_name() {
    let config = Config::default();
    assert!(!config.should_track("AWS_TOKEN"));
    assert!(!config.should_track("MY_AWS_KEY"));
    assert!(!config.should_track("SSH_AUTH_SOCK"));
    assert!(!config.should_track("GITHUB_TOKEN"));
    assert!(config.should_track("EDITOR"));
}

#[test]
fn system_names_are_matched_whole() {
    let config = Config::default();
    assert!(!config.should_track("_"));
    assert!(!config.should_track("SHLVL"));
    assert!(config.should_track("PATHS"));
    assert!(config.should_track("MY_HOME"));
    assert!(config.should_track("path"));
}

#[test]
fn force_track_is_a_pattern_and_overrides_system_names() {
    let mut config = Config::default();
    config.filters.force_track.push("^PA.H$".to_string());
    assert!(config.should_track("PATH"));
    assert!(!config.should_track("HOME"));
}

#[test]
fn a_pattern_that_does_not_compile_matches_nothing() {
    let mut config = Config::default();
    config.filters.ignore_patterns = vec!["(".to_string()];
    config.filters.force_track = vec!["[".to_string()];
    assert!(config.should_track("ANYTHING"));
    assert!(!config.should_track("PATH"));
}

#[test]
fn empty_filters_track_everything() {
    let config = Config {
        core: CoreConfig::default(),
        filters: FiltersConfig { ignore_patterns: vec![], force_track: vec![], ignore_system: vec![] },
        display: DisplayConfig::default(),
    };
    assert!(config.should_track("PATH"));
    assert!(config.should_track("AWS_TOKEN"));
    assert!(config.should_track(""));
}
