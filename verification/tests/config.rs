use site_router::{ServerConfig, SiteConfig, StrMap};

fn myapp_config() -> SiteConfig {
    SiteConfig {
        root_dir: "/Users/test/Sites/myapp".to_string(),
        domain: "myapp.test".to_string(),
        secure: true,
        php_version: Some("8.2".to_string()),
        env_vars: {
            let mut map = StrMap::new();
            map.insert("APP_ENV".to_string(), "local".to_string());
            map
        },
        driver: Some("laravel".to_string()),
    }
}

#[test]
fn test_default_config() {
    let config = ServerConfig::default();
    assert_eq!(config.version, 1);
    assert_eq!(config.threads, num_cpus::get());
    assert_eq!(config.http_listen_addr, "127.0.0.1:80");
    assert_eq!(config.https_listen_addr, "127.0.0.1:443");
    assert_eq!(config.tls_cert_path, None);
    assert_eq!(config.tls_key_path, None);
    assert_eq!(config.pid_file, None);
    assert!(!config.daemon);
    assert_eq!(config.error_log, None);
    assert_eq!(config.user, None);
    assert_eq!(config.group, None);
    assert!(config.parked_paths.is_empty());
    assert!(config.sites.is_empty());
    assert_eq!(config.default_site, None);
    assert_eq!(config.tld, ".test");
    assert!(!config.network_access);
    assert_eq!(config.share_port, 8080);
}

#[test]
fn test_site_management() {
    let mut config = ServerConfig::default();

    // Test parking paths
    config.add_parked_path("/Users/test/Sites");
    assert_eq!(config.parked_paths.len(), 1);
    config.remove_parked_path("/Users/test/Sites");
    assert!(config.parked_paths.is_empty());

    // Test site configuration
    let site_config = myapp_config();

    config.add_site("myapp.test".to_string(), site_config.clone());
    assert_eq!(config.sites.len(), 1);

    let retrieved = config.sites.get("myapp.test").unwrap();
    assert_eq!(retrieved.domain, "myapp.test");
    assert_eq!(retrieved.php_version, Some("8.2".to_string()));

    config.remove_site("myapp.test");
    assert!(config.sites.is_empty());
}

#[test]
fn test_default_site() {
    let mut config = ServerConfig::default();

    config.set_default_site(Some("/Users/test/Sites/default"));
    assert_eq!(config.default_site, Some("/Users/test/Sites/default".to_string()));

    config.set_default_site(None);
    assert_eq!(config.default_site, None);
}

#[test]
fn the_number_of_threads_is_what_was_asked_for() {
    let config = ServerConfig::with_threads(3);
    assert_eq!(config.threads, 3);
    assert_eq!(config.version, 1);
    assert_eq!(config.tld, ".test");
    assert_eq!(config.share_port, 8080);
    assert!(ServerConfig::default().threads >= 1);
}

#[test]
fn removing_a_parked_path_takes_every_copy_and_keeps_the_order() {
    let mut config = ServerConfig::with_threads(1);
    config.add_parked_path("/a");
    config.add_parked_path("/b");
    config.add_parked_path("/a");
    config.add_parked_path("/c");
    assert_eq!(config.parked_paths, vec!["/a", "/b", "/a", "/c"]);

    config.remove_parked_path("/a");
    assert_eq!(config.parked_paths, vec!["/b", "/c"]);

    config.remove_parked_path("/missing");
    assert_eq!(config.parked_paths, vec!["/b", "/c"]);
}

#[test]
fn adding_a_site_twice_keeps_the_later_settings() {
    let mut config = ServerConfig::with_threads(1);
    config.add_site("myapp.test".to_string(), myapp_config());
    let mut other = myapp_config();
    other.secure = false;
    other.php_version = None;
    config.add_site("myapp.test".to_string(), other);
    assert_eq!(config.sites.len(), 1);
    let kept = config.sites.get("myapp.test").unwrap();
    assert!(!kept.secure);
    assert_eq!(kept.php_version, None);
}

#[test]
fn removing_a_site_hands_its_settings_back() {
    let mut config = ServerConfig::with_threads(1);
    config.add_site("myapp.test".to_string(), myapp_config());

    assert!(config.remove_site("other.test").is_none());
    assert_eq!(config.sites.len(), 1);

    let removed = config.remove_site("myapp.test").unwrap();
    assert_eq!(removed.root_dir, "/Users/test/Sites/myapp");
    assert_eq!(removed.driver, Some("laravel".to_string()));
    assert_eq!(removed.env_vars.get("APP_ENV"), Some(&"local".to_string()));
    assert!(config.sites.is_empty());
}

#[test]
fn a_copy_of_the_settings_of_a_site_holds_the_same() {
    let original = myapp_config();
    let copy = original.clone();
    assert_eq!(copy.root_dir, original.root_dir);
    assert_eq!(copy.domain, original.domain);
    assert_eq!(copy.secure, original.secure);
    assert_eq!(copy.php_version, original.php_version);
    assert_eq!(copy.driver, original.driver);
    assert_eq!(copy.env_vars.len(), 1);
    assert_eq!(copy.env_vars.get("APP_ENV"), Some(&"local".to_string()));
}
