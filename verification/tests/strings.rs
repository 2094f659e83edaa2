use nitro_log::file::{file_path_components, FileConfig, FileLogger};
use nitro_log::{eq_ignore_case, split_delim};

#[test]
fn split_on_double_colon() {
    assert_eq!(split_delim("nitro::repo::maven", "::"), vec!["nitro", "repo", "maven"]);
    assert_eq!(split_delim("nitro", "::"), vec!["nitro"]);
    assert_eq!(split_delim("", "::"), vec![""]);
    assert_eq!(split_delim("a:::b", "::"), vec!["a", ":b"]);
    assert_eq!(split_delim("::a::", "::"), vec!["", "a", ""]);
}

#[test]
fn case_insensitive_comparison_is_ascii_only() {
    assert!(eq_ignore_case("Nitro", "nitro"));
    assert!(eq_ignore_case("NITRO", "nitro"));
    assert!(eq_ignore_case("", ""));
    assert!(!eq_ignore_case("nitro", "nitr"));
    assert!(!eq_ignore_case("nitro", "nitra"));
    // Only ASCII letters fold; other characters must match exactly.
    assert!(eq_ignore_case("a-b_c9", "A-B_C9"));
    assert!(!eq_ignore_case("a-b", "a_b"));
}

#[test]
fn file_path_components_split_on_slash() {
    assert_eq!(file_path_components("logs/app/log.log"), vec!["logs", "app", "log.log"]);
    assert_eq!(file_path_components("log.log"), vec!["log.log"]);
}

#[test]
fn file_logger_init_and_defaults() {
    let config = FileConfig { format: "{message}".to_string(), file: "out.log".to_string() };
    let logger = FileLogger::init(config).unwrap();
    assert_eq!(logger.config.file, "out.log");
    assert_eq!(logger.format(), "{message}");
    assert_eq!(logger.name(), "file-logger");

    let stock = FileLogger::default();
    assert_eq!(stock.config.format, "%module% %level%: %message%");
    assert_eq!(stock.config.file, "log.log");
    let stock_config = FileConfig::default();
    assert_eq!(stock_config.file, "log.log");
}
