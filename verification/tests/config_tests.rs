use skypier_blackhole::config::{
    default_custom_list, default_listen_addr, default_listen_port, default_log_level,
    default_log_path, default_timezone, default_true, default_update_schedule,
    default_upstream_dns, Config,
};
use skypier_blackhole::message::BlockedResponse;

#[test]
fn test_default_config() {
    let config = Config::default();
    assert_eq!(config.server.listen_addr, "127.0.0.1");
    assert_eq!(config.server.listen_port, 53);
    assert!(config.blocklist.enable_wildcards);
}

#[test]
fn test_default_values() {
    assert_eq!(default_listen_addr(), "127.0.0.1");
    assert_eq!(default_listen_port(), 53);
    assert_eq!(default_upstream_dns(), vec!["1.1.1.1:53".to_string()]);
    assert_eq!(default_custom_list(), "/etc/skypier/custom-blocklist.txt");
    assert!(default_true());
    assert_eq!(default_log_path(), "/var/log/skypier/blackhole.log");
    assert_eq!(default_log_level(), "info");
    assert_eq!(default_update_schedule(), "0 0 * * *");
    assert_eq!(default_timezone(), "EST");

    let config = Config::default();
    assert!(matches!(config.server.blocked_response, BlockedResponse::Refused));
    assert!(config.blocklist.remote_lists.is_empty());
    assert!(config.blocklist.local_lists.is_empty());
    assert!(config.updater.enabled);
}
