use ruvex::Config;

#[test]
fn missing_minor_trigger_from_cc_types() {
    let test_config: Config = Config {
        cc_types: vec![
            "feat".to_owned(),
            "fix".to_owned(),
            "ci".to_owned(),
            "chore".to_owned(),
        ],
        minor_trigger: vec!["INEXISTENT".to_owned()],
        patch_trigger: vec!["fix".to_owned()],
        check: None,
        tag: None,
    };
    assert!(test_config.config_check().is_err());
}

#[test]
fn missing_patch_trigger_from_cc_types() {
    let test_config: Config = Config {
        cc_types: vec![
            "feat".to_owned(),
            "fix".to_owned(),
            "ci".to_owned(),
            "chore".to_owned(),
        ],
        minor_trigger: vec!["feat".to_owned()],
        patch_trigger: vec!["INEXISTENT".to_owned()],
        check: None,
        tag: None,
    };
    assert!(test_config.config_check().is_err());
}

#[test]
fn stock_configuration_is_coherent() {
    let config = Config::default();
    assert!(config.config_check().is_ok());
    assert_eq!(
        config.cc_types,
        vec![
            "feat".to_owned(),
            "fix".to_owned(),
            "ci".to_owned(),
            "chore".to_owned(),
        ]
    );
    assert!(config.cc_type_in_config("feat"));
    assert!(!config.cc_type_in_config("feature"));
    assert!(config.tag.is_none());
}

#[test]
fn which_trigger_failed() {
    let minor_bad: Config = Config {
        cc_types: vec!["feat".to_owned()],
        minor_trigger: vec!["nope".to_owned()],
        patch_trigger: vec!["feat".to_owned()],
        check: None,
        tag: None,
    };
    assert_eq!(
        minor_bad.config_check().unwrap_err(),
        ruvex::config::ConfigError::MinorTriggerNotInTypes
    );
    let patch_bad: Config = Config {
        cc_types: vec!["feat".to_owned()],
        minor_trigger: vec!["feat".to_owned()],
        patch_trigger: vec!["nope".to_owned()],
        check: None,
        tag: None,
    };
    assert_eq!(
        patch_bad.config_check().unwrap_err(),
        ruvex::config::ConfigError::PatchTriggerNotInTypes
    );
}
