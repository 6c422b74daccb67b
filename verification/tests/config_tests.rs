use ccp::config::ConfigBuilder;

#[test]
fn root_from_config_file_text_wins() {
    let cfg = ConfigBuilder::new()
        .config_text("root = \"/from/file\"\n")
        .ccp_root("/fallback")
        .build();
    assert_eq!(cfg.ccp_root(), "/from/file");
}

#[test]
fn fallback_root_when_text_does_not_parse() {
    let cfg = ConfigBuilder::new()
        .config_text("this is not toml {{{")
        .ccp_root("/fallback")
        .build();
    assert_eq!(cfg.ccp_root(), "/fallback");
}

#[test]
fn fallback_root_when_key_is_absent() {
    let cfg = ConfigBuilder::new()
        .config_text("other = 3\n")
        .ccp_root("/fallback")
        .build();
    assert_eq!(cfg.ccp_root(), "/fallback");
}

#[test]
fn fallback_root_without_any_config() {
    let cfg = ConfigBuilder::new().ccp_root("/plain").build();
    assert_eq!(cfg.ccp_root(), "/plain");
}
