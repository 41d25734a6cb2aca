use site_router::{
    AnyDriver, CustomDriver, Driver, DriverRegistry, FileSystem, RegistryError,
};

const DIR: &str = "/tmp/project";

fn in_dir(rel: &str) -> String {
    format!("{}/{}", DIR, rel)
}

// A driver that serves every directory.
fn mock_driver() -> AnyDriver {
    AnyDriver::Custom(CustomDriver::new("mock", Vec::new(), "", "mock.php"))
}

#[test]
fn test_registry_default_drivers() {
    let registry = DriverRegistry::new();

    // Should have static and Laravel drivers by default
    assert!(registry.get_driver("static").is_some());
    assert!(registry.get_driver("laravel").is_some());

    // Should not have non-existent drivers
    assert!(registry.get_driver("not-found").is_none());
}

#[test]
fn test_registry_register_driver() {
    let mut registry = DriverRegistry::new();
    let mock_driver = mock_driver();

    // Should be able to register a new driver
    registry.register_driver(mock_driver.clone());

    // Should be able to get the registered driver
    let driver = registry.get_driver("mock").unwrap();
    assert_eq!(driver.name(), "mock");
}

#[test]
fn test_registry_detect_driver() {
    let registry = DriverRegistry::new();
    let mut fs = FileSystem::new();
    fs.add_dir(DIR);

    // Should detect static site
    fs.add_file(&in_dir("index.html"));
    let driver = registry.detect_driver(&fs, DIR).unwrap();
    assert_eq!(driver.name(), "static");

    // Should detect Laravel site
    fs.remove(&in_dir("index.html"));
    fs.add_dir(&in_dir("public"));
    fs.add_file(&in_dir("artisan"));
    fs.add_file(&in_dir("public/index.php"));
    let driver = registry.detect_driver(&fs, DIR).unwrap();
    assert_eq!(driver.name(), "laravel");

    // Should return None for unknown site type
    fs.remove(&in_dir("artisan"));
    fs.remove(&in_dir("public/index.php"));
    assert!(registry.detect_driver(&fs, DIR).is_none());
}

#[test]
fn test_registry_driver_priority() {
    let mut registry = DriverRegistry::new();
    let mock_driver = mock_driver();

    // Register mock driver that always returns true for serves()
    registry.register_driver(mock_driver);

    let mut fs = FileSystem::new();
    fs.add_dir(DIR);

    // Create both Laravel and static markers
    fs.add_dir(&in_dir("public"));
    fs.add_file(&in_dir("artisan"));
    fs.add_file(&in_dir("public/index.php"));
    fs.add_file(&in_dir("index.html"));

    // Mock driver should be detected first as it was registered last
    let driver = registry.detect_driver(&fs, DIR).unwrap();
    assert_eq!(driver.name(), "mock");
}

#[test]
fn test_registry_load_custom_driver() {
    let mut registry = DriverRegistry::new();

    // Should return error since dynamic loading is not implemented
    assert!(registry.load_driver_file("/tmp/drivers/custom_driver.rs").is_err());
}

#[test]
fn loading_a_driver_file_names_its_reason_and_changes_nothing() {
    let mut registry = DriverRegistry::new();
    assert_eq!(
        registry.load_driver_file("/tmp/drivers/custom_driver.rs"),
        Err(RegistryError::DynamicLoadingUnsupported)
    );
    assert_eq!(
        RegistryError::DynamicLoadingUnsupported.message(),
        "Dynamic loading of drivers is not yet implemented"
    );
    assert_eq!(registry.len(), 2);
    assert!(registry.get_driver("custom").is_none());
}

#[test]
fn laravel_is_asked_before_static() {
    let registry = DriverRegistry::default();
    assert_eq!(registry.len(), 2);

    let mut fs = FileSystem::new();
    fs.add_dir(DIR);
    fs.add_file(&in_dir("index.html"));
    fs.add_file(&in_dir("artisan"));
    fs.add_file(&in_dir("public/index.php"));

    let driver = registry.detect_driver(&fs, DIR).unwrap();
    assert_eq!(driver.name(), "laravel");
}

#[test]
fn a_driver_that_does_not_match_leaves_detection_as_it_was() {
    let mut registry = DriverRegistry::new();
    registry.register_driver(AnyDriver::Custom(CustomDriver::new(
        "rails",
        vec!["Gemfile".to_string()],
        "public",
        "config.ru",
    )));
    assert_eq!(registry.len(), 3);

    let mut fs = FileSystem::new();
    fs.add_dir(DIR);
    fs.add_file(&in_dir("index.html"));
    assert_eq!(registry.detect_driver(&fs, DIR).unwrap().name(), "static");

    fs.add_file(&in_dir("Gemfile"));
    assert_eq!(registry.detect_driver(&fs, DIR).unwrap().name(), "rails");
}

#[test]
fn of_two_drivers_with_one_name_the_newer_is_found() {
    let mut registry = DriverRegistry::new();
    registry.register_driver(AnyDriver::Custom(CustomDriver::new(
        "static",
        vec!["home.html".to_string()],
        "",
        "home.html",
    )));
    let found = registry.get_driver("static").unwrap();
    assert_eq!(found.front_controller_path(DIR), in_dir("home.html"));
}
