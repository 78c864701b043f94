use httpdispatcher::cli::Cli;

fn cli(level: &str) -> Cli {
    Cli {
        config: "config.yaml".to_string(),
        host: None,
        port: None,
        log_level: level.to_string(),
        print_config: false,
    }
}

#[test]
fn log_filter_names_crate_and_level() {
    assert_eq!(cli("info").get_log_filter(), "httpdispacher=info");
    assert_eq!(cli("debug").get_log_filter(), "httpdispacher=debug");
}

#[test]
fn log_filter_with_empty_level() {
    assert_eq!(cli("").get_log_filter(), "httpdispacher=");
}
