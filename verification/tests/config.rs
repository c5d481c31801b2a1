use custom_grep::{Config, ConfigError};

fn args(words: &[&str]) -> Vec<String> {
    words.iter().map(|word| String::from(*word)).collect()
}

#[test]
fn two_arguments_make_a_config() {
    let config = Config::from(args(&["grep", "to", "poem.txt"]), false).unwrap();
    assert_eq!(config.query, "to");
    assert_eq!(config.file_path, "poem.txt");
    assert!(!config.ignore_case);
}

#[test]
fn case_switch_is_stored() {
    let config = Config::from(args(&["grep", "to", "poem.txt"]), true).unwrap();
    assert!(config.ignore_case);
}

#[test]
fn extra_arguments_are_ignored() {
    let config = Config::from(args(&["grep", "to", "poem.txt", "more", "words"]), false).unwrap();
    assert_eq!(config.query, "to");
    assert_eq!(config.file_path, "poem.txt");
}

#[test]
fn empty_query_is_accepted() {
    let config = Config::from(args(&["grep", "", ""]), false).unwrap();
    assert_eq!(config.query, "");
    assert_eq!(config.file_path, "");
}

#[test]
fn missing_query_is_reported() {
    assert_eq!(Config::from(args(&["grep"]), false).unwrap_err(), ConfigError::MissingQuery);
    assert_eq!(Config::from(args(&[]), true).unwrap_err(), ConfigError::MissingQuery);
}

#[test]
fn missing_file_path_is_reported() {
    assert_eq!(
        Config::from(args(&["grep", "to"]), false).unwrap_err(),
        ConfigError::MissingFilePath,
    );
}

#[test]
fn error_messages() {
    assert_eq!(ConfigError::MissingQuery.message(), "Query not found");
    assert_eq!(ConfigError::MissingFilePath.message(), "File path not found");
}
