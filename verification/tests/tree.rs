use nitro_log::{Level, Logger, LoggerTree};

fn module_logger(module: &str, levels: Vec<Level>, always_execute: bool) -> Logger {
    Logger {
        logger_name: module.to_string(),
        module: Some(module.to_string()),
        levels,
        targets: vec![],
        always_execute,
        structure_dump: false,
        format: String::new(),
    }
}

fn root_logger(name: &str) -> Logger {
    Logger {
        logger_name: name.to_string(),
        module: None,
        levels: vec![Level::Info],
        targets: vec![],
        always_execute: false,
        structure_dump: false,
        format: String::new(),
    }
}

fn fixture_loggers() -> Vec<Logger> {
    let mut loggers = Vec::new();
    loggers.push(module_logger("nitro::repo::maven", vec![Level::Info], false));
    loggers.push(module_logger("nitro::repo", vec![Level::Info], false));
    loggers.push(module_logger("nitro::repo::maven", vec![Level::Warn], false));
    loggers.push(module_logger("nitro::system", vec![Level::Info], true));
    loggers.push(module_logger("nitro::system::admin", vec![Level::Info], false));
    loggers.push(module_logger("nitro", vec![Level::Info], false));
    loggers
}

#[test]
fn basic() {
    let tree = LoggerTree::new(Vec::new(), fixture_loggers());
    let option = tree.find_logger(&"nitro::repo::maven".to_string()).unwrap();
    assert_eq!(option.len(), 2);
    assert_eq!(tree.find_logger("nitro::repo::npm").unwrap().len(), 1);
    assert_eq!(tree.find_logger("nitro::test::test").unwrap().len(), 1);
    assert_eq!(tree.find_logger("nitro::system::admin").unwrap().len(), 2);
}

#[test]
fn empty_path_is_none() {
    let tree = LoggerTree::new(vec![root_logger("root")], fixture_loggers());
    assert!(tree.find_logger("").is_none());
}

#[test]
fn root_loggers_come_first() {
    let tree = LoggerTree::new(
        vec![root_logger("first-root"), root_logger("second-root")],
        fixture_loggers(),
    );
    let found = tree.find_logger("nitro::repo::maven").unwrap();
    assert_eq!(found.len(), 4);
    assert_eq!(found[0].logger_name, "first-root");
    assert_eq!(found[1].logger_name, "second-root");
    assert_eq!(found[2].module.as_deref(), Some("nitro::repo::maven"));

    // Root loggers are present even when nothing below the root matches.
    let fallback = tree.find_logger("unknown::path").unwrap();
    assert_eq!(fallback.len(), 2);
    assert_eq!(fallback[0].logger_name, "first-root");
}

#[test]
fn deepest_prefix_fallback() {
    let tree = LoggerTree::new(Vec::new(), fixture_loggers());
    // No node for `npm`: the deepest matched ancestor is `nitro::repo`.
    let found = tree.find_logger("nitro::repo::npm").unwrap();
    assert_eq!(found.len(), 1);
    assert_eq!(found[0].module.as_deref(), Some("nitro::repo"));
    // Nothing matches past `nitro`.
    let found = tree.find_logger("nitro::test::test").unwrap();
    assert_eq!(found.len(), 1);
    assert_eq!(found[0].module.as_deref(), Some("nitro"));
}

#[test]
fn always_execute_applies_below_but_not_at_its_node() {
    let tree = LoggerTree::new(Vec::new(), fixture_loggers());
    // Resolving deeper pulls the always-execute logger of nitro::system in,
    // after the deeper loggers.
    let found = tree.find_logger("nitro::system::admin").unwrap();
    assert_eq!(found.len(), 2);
    assert_eq!(found[0].module.as_deref(), Some("nitro::system::admin"));
    assert_eq!(found[1].module.as_deref(), Some("nitro::system"));
    assert!(found[1].always_execute);
    // Resolving the node itself returns it once, as an ordinary logger.
    let at_node = tree.find_logger("nitro::system").unwrap();
    assert_eq!(at_node.len(), 1);
    assert_eq!(at_node[0].module.as_deref(), Some("nitro::system"));
}

#[test]
fn insertion_order_is_preserved() {
    let mut loggers = Vec::new();
    for name in ["alpha", "beta", "gamma"] {
        let mut l = module_logger("app::core", vec![Level::Info], false);
        l.logger_name = name.to_string();
        loggers.push(l);
    }
    let tree = LoggerTree::new(Vec::new(), loggers);
    let found = tree.find_logger("app::core").unwrap();
    assert_eq!(found.len(), 3);
    assert_eq!(found[0].logger_name, "alpha");
    assert_eq!(found[1].logger_name, "beta");
    assert_eq!(found[2].logger_name, "gamma");
}

#[test]
fn lookup_is_case_insensitive() {
    let tree = LoggerTree::new(Vec::new(), fixture_loggers());
    let lower = tree.find_logger("nitro::repo").unwrap();
    let mixed = tree.find_logger("Nitro::Repo").unwrap();
    assert_eq!(lower.len(), mixed.len());
    assert_eq!(lower[0].logger_name, mixed[0].logger_name);
    assert_eq!(tree.find_logger("NITRO::SYSTEM::ADMIN").unwrap().len(), 2);
}

#[test]
fn insertion_is_case_sensitive() {
    let mut loggers = Vec::new();
    let mut upper = module_logger("Nitro", vec![Level::Info], false);
    upper.logger_name = "upper".to_string();
    loggers.push(upper);
    let mut lower = module_logger("nitro", vec![Level::Info], false);
    lower.logger_name = "lower".to_string();
    loggers.push(lower);
    let tree = LoggerTree::new(Vec::new(), loggers);
    // Two distinct children were created, one per spelling.
    assert_eq!(tree.children.len(), 2);
    assert_eq!(tree.children[0].module, "Nitro");
    assert_eq!(tree.children[1].module, "nitro");
    // Lookup matches the first child created, whatever the query's case.
    let found = tree.find_logger("nitro").unwrap();
    assert_eq!(found.len(), 1);
    assert_eq!(found[0].logger_name, "upper");
}

#[test]
fn loggers_without_module_join_the_root_set() {
    let mut loggers = fixture_loggers();
    loggers.push(root_logger("late-root"));
    let tree = LoggerTree::new(vec![root_logger("early-root")], loggers);
    assert_eq!(tree.loggers.len(), 2);
    assert_eq!(tree.loggers[0].logger_name, "early-root");
    assert_eq!(tree.loggers[1].logger_name, "late-root");
}

#[test]
fn add_node_lookup_extends_a_built_tree() {
    let mut tree = LoggerTree::new(Vec::new(), fixture_loggers());
    let extra = module_logger("nitro::repo::maven", vec![Level::Error], false);
    tree.add_node_lookup(extra, "nitro::repo::maven".to_string());
    assert_eq!(tree.find_logger("nitro::repo::maven").unwrap().len(), 3);
}
