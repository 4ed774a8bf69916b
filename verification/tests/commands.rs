//! The command line's decisions.

use funky::command::{action_for, mode_of, settings_source, Action, Mode, SettingsSource};
use funky::config::IgnoreConfig;
use funky::error::FunkyError;
use funky::walk::{glob_match, is_ignored, is_selected};

#[test]
fn modes_exclude_each_other() {
    assert_eq!(mode_of(false, false), Ok(Mode::Print));
    assert_eq!(mode_of(true, false), Ok(Mode::Check));
    assert_eq!(mode_of(false, true), Ok(Mode::InPlace));
    assert_eq!(mode_of(true, true), Err(FunkyError::ConflictingModes));
}

#[test]
fn actions_depend_on_whether_the_text_changed() {
    assert_eq!(action_for(Mode::Print, "a", "a"), Action::Print);
    assert_eq!(action_for(Mode::Print, "a", "b"), Action::Print);
    assert_eq!(action_for(Mode::InPlace, "a", "a"), Action::Keep);
    assert_eq!(action_for(Mode::InPlace, "a", "b"), Action::Write);
    assert_eq!(action_for(Mode::Check, "a", "a"), Action::Keep);
    assert_eq!(action_for(Mode::Check, "a", "ab"), Action::Report);
}

#[test]
fn a_named_settings_file_comes_first() {
    assert_eq!(settings_source(true, true), SettingsSource::Explicit);
    assert_eq!(settings_source(true, false), SettingsSource::Explicit);
    assert_eq!(settings_source(false, true), SettingsSource::DefaultFile);
    assert_eq!(settings_source(false, false), SettingsSource::Defaults);
}

#[test]
fn patterns_match_relative_paths() {
    assert!(glob_match("vendor/**", "vendor/a/b.c"));
    assert!(!glob_match("vendor/**", "src/vendor.c"));
    assert!(glob_match("*.pb.h", "x.pb.h"));
    assert!(glob_match("*.pb.h", "gen/x.pb.h"));
    assert!(!glob_match("*.pb.h", "x.pb.hpp"));
    assert!(glob_match("generated_*.c", "generated_1.c"));
    assert!(glob_match("?.c", "a.c"));
    assert!(!glob_match("?.c", "ab.c"));
    assert!(glob_match("", ""));
    assert!(!glob_match("", "a"));
    assert!(glob_match("*", ""));
    assert!(glob_match("a*b*c", "aXbYbZc"));
}

#[test]
fn walk_selects_sources_that_are_not_ignored() {
    let config = IgnoreConfig {
        patterns: vec!["vendor/**".to_string(), "*.pb.h".to_string()],
    };
    assert!(is_selected(&config, "src/a.c", "c"));
    assert!(is_selected(&config, "src/a.hpp", "hpp"));
    assert!(!is_selected(&config, "src/a.rs", "rs"));
    assert!(!is_selected(&config, "src/README", ""));
    assert!(!is_selected(&config, "vendor/a.c", "c"));
    assert!(!is_selected(&config, "a.pb.h", "h"));
    assert!(is_ignored(&config, "vendor/x"));
    assert!(!is_ignored(&IgnoreConfig::default(), "vendor/x"));
}
