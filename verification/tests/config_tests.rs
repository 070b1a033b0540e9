use pbanki::config::Config;

#[test]
fn default_config_values() {
    let c = Config::default();
    assert_eq!(c.general.language, "en-GB");
    assert_eq!(c.general.collection_path, "/mnt/ext1/applications/pbanki/collection");
    assert_eq!(c.ankiweb.username, "");
    assert_eq!(c.ankiweb.password, "");
    assert!(c.ankiweb.token.is_none());
    assert!(!c.ankiweb.auto_sync);
    assert!(!c.ankiweb.sync_on_exit);
}
