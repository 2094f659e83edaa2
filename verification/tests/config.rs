use nitro_log::config::{
    assemble_logger, default_levels, find_builder, resolve_logger_name, unknown_target_type,
    FormatConfig, LoggerConfig, TargetConfig,
};
use nitro_log::{Error, Level, Target};

#[test]
fn default_levels_lists_all_severities_in_order() {
    let levels = default_levels();
    assert_eq!(
        levels,
        vec![Level::Trace, Level::Info, Level::Debug, Level::Warn, Level::Error]
    );
}

#[test]
fn logger_name_default_chain() {
    let explicit = resolve_logger_name(
        Some("named".to_string()),
        &Some("a::b".to_string()),
    );
    assert_eq!(explicit, "named");
    let from_module = resolve_logger_name(None, &Some("a::b".to_string()));
    assert_eq!(from_module, "a::b");
    let fallback = resolve_logger_name(None, &None);
    assert_eq!(fallback, "root");
}

#[test]
fn find_builder_picks_first_exact_name() {
    let names = vec![
        "console".to_string(),
        "file".to_string(),
        "console".to_string(),
    ];
    assert_eq!(find_builder(&names, &"file".to_string()), Some(1));
    assert_eq!(find_builder(&names, &"console".to_string()), Some(0));
    assert_eq!(find_builder(&names, &"syslog".to_string()), None);
    assert_eq!(find_builder(&names, &"Console".to_string()), None);
}

#[test]
fn unknown_target_type_reports_the_name() {
    let err = unknown_target_type(&"syslog".to_string());
    match err {
        Error::UnknownTargetType(name) => assert_eq!(name, "syslog"),
        Error::TargetBuild(_) => panic!("wrong error variant"),
    }
}

#[test]
fn error_message_carries_the_detail() {
    assert_eq!(
        Error::UnknownTargetType("syslog".to_string()).message(),
        "syslog"
    );
    assert_eq!(Error::TargetBuild("no space".to_string()).message(), "no space");
}

#[test]
fn format_config_from_bare_string() {
    let fc = FormatConfig::from_str("{message}");
    assert_eq!(fc.format, "{message}");
    assert!(fc.placeholders.is_empty());
}

#[test]
fn assemble_logger_resolves_name_and_keeps_target_order() {
    let config = LoggerConfig {
        logger_name: None,
        module: Some("nitro::repo".to_string()),
        levels: vec![Level::Warn, Level::Error],
        targets: vec![TargetConfig {
            target_type: "console".to_string(),
            properties: serde_json::Value::Null,
        }],
        format: FormatConfig::from_str("{message}"),
        structure_dump: true,
        always_execute: true,
    };
    let built = vec![
        Target { name: "console".to_string(), format: "{message}".to_string() },
        Target { name: "file".to_string(), format: "{message}".to_string() },
    ];
    let logger = assemble_logger(config, built);
    assert_eq!(logger.logger_name, "nitro::repo");
    assert_eq!(logger.module.as_deref(), Some("nitro::repo"));
    assert_eq!(logger.levels, vec![Level::Warn, Level::Error]);
    assert_eq!(logger.targets.len(), 2);
    assert_eq!(logger.targets[0].name, "console");
    assert_eq!(logger.targets[1].name, "file");
    assert!(logger.always_execute);
    assert!(logger.structure_dump);
    assert_eq!(logger.format, "{message}");
}

#[test]
fn assemble_logger_explicit_name_wins() {
    let config = LoggerConfig {
        logger_name: Some("my-logger".to_string()),
        module: None,
        levels: default_levels(),
        targets: vec![],
        format: FormatConfig::from_str(""),
        structure_dump: false,
        always_execute: false,
    };
    let logger = assemble_logger(config, Vec::new());
    assert_eq!(logger.logger_name, "my-logger");
    assert_eq!(logger.module, None);
    assert!(logger.targets.is_empty());
}
