use site_router::{AnyDriver, CustomDriver, Driver, FileSystem, LaravelDriver, StaticDriver};

const ROOT: &str = "/tmp/site";

fn in_site(rel: &str) -> String {
    format!("{}/{}", ROOT, rel)
}

#[test]
fn test_static_driver_name() {
    let driver = StaticDriver;
    assert_eq!(driver.name(), "static");
}

#[test]
fn test_static_driver_serves() {
    let mut fs = FileSystem::new();
    fs.add_dir(ROOT);
    let driver = StaticDriver;

    // Should not serve empty directory
    assert!(!driver.serves(&fs, ROOT));

    // Should not serve directory with random files
    fs.add_file(&in_site("random.txt"));
    assert!(!driver.serves(&fs, ROOT));

    // Should serve directory with index.html
    fs.add_file(&in_site("index.html"));
    assert!(driver.serves(&fs, ROOT));

    // Should serve directory with index.htm
    fs.remove(&in_site("index.html"));
    fs.add_file(&in_site("index.htm"));
    assert!(driver.serves(&fs, ROOT));
}

#[test]
fn test_static_driver_static_files() {
    let mut fs = FileSystem::new();
    fs.add_dir(ROOT);
    let driver = StaticDriver;

    // Create some static files
    fs.add_file(&in_site("style.css"));
    fs.add_dir(&in_site("assets"));
    fs.add_file(&in_site("assets/app.js"));

    // Should find existing static files
    assert_eq!(driver.is_static_file(&fs, ROOT, "/style.css").unwrap(), in_site("style.css"));
    assert_eq!(driver.is_static_file(&fs, ROOT, "/assets/app.js").unwrap(), in_site("assets/app.js"));

    // Should return None for non-existent files
    assert!(driver.is_static_file(&fs, ROOT, "/not-found.css").is_none());
    assert!(driver.is_static_file(&fs, ROOT, "/assets/not-found.js").is_none());

    // Should return None for directories
    assert!(driver.is_static_file(&fs, ROOT, "/assets").is_none());
}

#[test]
fn test_static_driver_front_controller() {
    let driver = StaticDriver;
    assert_eq!(driver.front_controller_path(ROOT), in_site("index.html"));
}

#[test]
fn test_laravel_driver_name() {
    let driver = LaravelDriver;
    assert_eq!(driver.name(), "laravel");
}

#[test]
fn test_laravel_driver_serves() {
    let mut fs = FileSystem::new();
    fs.add_dir(ROOT);
    let driver = LaravelDriver;

    // Should not serve empty directory
    assert!(!driver.serves(&fs, ROOT));

    // Should not serve directory with only artisan
    fs.add_file(&in_site("artisan"));
    assert!(!driver.serves(&fs, ROOT));

    // Should not serve directory with only public/index.php
    fs.add_dir(&in_site("public"));
    fs.add_file(&in_site("public/index.php"));
    fs.remove(&in_site("artisan"));
    assert!(!driver.serves(&fs, ROOT));

    // Should serve directory with both artisan and public/index.php
    fs.add_file(&in_site("artisan"));
    assert!(driver.serves(&fs, ROOT));

    // Should also serve with composer.json
    fs.add_file(&in_site("composer.json"));
    assert!(driver.serves(&fs, ROOT));
}

#[test]
fn test_laravel_driver_static_files() {
    let mut fs = FileSystem::new();
    fs.add_dir(ROOT);
    let driver = LaravelDriver;

    // Create public directory and static files
    fs.add_dir(&in_site("public"));
    fs.add_dir(&in_site("public/assets"));
    fs.add_file(&in_site("public/app.css"));
    fs.add_file(&in_site("public/assets/app.js"));

    // Should find existing static files in public directory
    assert_eq!(driver.is_static_file(&fs, ROOT, "/app.css").unwrap(), in_site("public/app.css"));
    assert_eq!(
        driver.is_static_file(&fs, ROOT, "/assets/app.js").unwrap(),
        in_site("public/assets/app.js")
    );

    // Should return None for non-existent files
    assert!(driver.is_static_file(&fs, ROOT, "/not-found.css").is_none());
    assert!(driver.is_static_file(&fs, ROOT, "/assets/not-found.js").is_none());

    // Should return None for files outside public directory
    fs.add_file(&in_site("secret.txt"));
    assert!(driver.is_static_file(&fs, ROOT, "/secret.txt").is_none());

    // Should return None for directories
    assert!(driver.is_static_file(&fs, ROOT, "/assets").is_none());
}

#[test]
fn test_laravel_driver_front_controller() {
    let driver = LaravelDriver;
    assert_eq!(driver.front_controller_path(ROOT), in_site("public/index.php"));
}

#[test]
fn test_laravel_driver_setup() {
    let driver = LaravelDriver;

    // Basic setup should succeed
    assert!(driver.setup(ROOT).is_ok());
}

#[test]
fn laravel_driver_refuses_to_climb_out_of_public() {
    let mut fs = FileSystem::new();
    fs.add_dir(ROOT);
    fs.add_dir(&in_site("public"));
    fs.add_file(&in_site("secret.txt"));
    fs.add_file(&in_site("public/../secret.txt"));
    let driver = LaravelDriver;

    assert!(driver.is_static_file(&fs, ROOT, "/../secret.txt").is_none());
    assert!(driver.is_static_file(&fs, ROOT, "../secret.txt").is_none());
    assert!(driver.is_static_file(&fs, ROOT, "/assets/../../secret.txt").is_none());
    assert!(driver.is_static_file(&fs, ROOT, "/..").is_none());
}

#[test]
fn static_driver_refuses_to_climb_out_of_the_site() {
    let mut fs = FileSystem::new();
    fs.add_dir(ROOT);
    fs.add_file("/tmp/other.txt");
    fs.add_file(&in_site("../other.txt"));
    let driver = StaticDriver;

    assert!(driver.is_static_file(&fs, ROOT, "/../other.txt").is_none());
}

#[test]
fn names_with_two_dots_inside_are_ordinary_names() {
    let mut fs = FileSystem::new();
    fs.add_dir(ROOT);
    fs.add_file(&in_site("a..b.css"));
    fs.add_file(&in_site("..hidden"));
    let driver = StaticDriver;

    assert_eq!(driver.is_static_file(&fs, ROOT, "/a..b.css").unwrap(), in_site("a..b.css"));
    assert_eq!(driver.is_static_file(&fs, ROOT, "/..hidden").unwrap(), in_site("..hidden"));
}

#[test]
fn leading_slashes_of_a_request_do_not_count() {
    let mut fs = FileSystem::new();
    fs.add_dir(ROOT);
    fs.add_file(&in_site("style.css"));
    let driver = StaticDriver;

    assert_eq!(driver.is_static_file(&fs, ROOT, "style.css").unwrap(), in_site("style.css"));
    assert_eq!(driver.is_static_file(&fs, ROOT, "///style.css").unwrap(), in_site("style.css"));
    assert!(driver.is_static_file(&fs, ROOT, "/").is_none());
    assert!(driver.is_static_file(&fs, ROOT, "").is_none());
}

#[test]
fn custom_driver_serves_when_all_markers_are_there() {
    let mut fs = FileSystem::new();
    fs.add_dir(ROOT);
    let driver = CustomDriver::new(
        "symfony",
        vec!["bin/console".to_string(), "public/index.php".to_string()],
        "public",
        "public/index.php",
    );
    assert_eq!(driver.name(), "symfony");
    assert!(!driver.serves(&fs, ROOT));
    fs.add_file(&in_site("bin/console"));
    assert!(!driver.serves(&fs, ROOT));
    fs.add_file(&in_site("public/index.php"));
    assert!(driver.serves(&fs, ROOT));
    assert_eq!(driver.front_controller_path(ROOT), in_site("public/index.php"));

    fs.add_file(&in_site("public/app.css"));
    fs.add_file(&in_site("secret.txt"));
    assert_eq!(driver.is_static_file(&fs, ROOT, "/app.css").unwrap(), in_site("public/app.css"));
    assert!(driver.is_static_file(&fs, ROOT, "/secret.txt").is_none());
    assert!(driver.setup(ROOT).is_ok());
}

#[test]
fn custom_driver_without_markers_serves_everything() {
    let fs = FileSystem::new();
    let driver = CustomDriver::new("mock", Vec::new(), "", "mock.php");
    assert!(driver.serves(&fs, ROOT));
    assert!(driver.serves(&fs, "/nowhere"));
}

#[test]
fn any_driver_behaves_as_the_driver_it_holds() {
    let mut fs = FileSystem::new();
    fs.add_dir(ROOT);
    fs.add_file(&in_site("index.html"));
    fs.add_file(&in_site("style.css"));

    let any = AnyDriver::Static(StaticDriver);
    assert_eq!(any.name(), "static");
    assert!(any.serves(&fs, ROOT));
    assert_eq!(any.is_static_file(&fs, ROOT, "/style.css").unwrap(), in_site("style.css"));
    assert_eq!(any.front_controller_path(ROOT), in_site("index.html"));
    assert!(any.setup(ROOT).is_ok());

    let any = AnyDriver::Laravel(LaravelDriver);
    assert_eq!(any.name(), "laravel");
    assert!(!any.serves(&fs, ROOT));
    assert!(any.is_static_file(&fs, ROOT, "/style.css").is_none());
    assert_eq!(any.front_controller_path(ROOT), in_site("public/index.php"));

    let copy = any.clone();
    assert_eq!(copy.name(), "laravel");

    let custom = AnyDriver::Custom(CustomDriver::new(
        "mock",
        vec!["index.html".to_string()],
        "",
        "mock.php",
    ));
    let copy = custom.clone();
    assert_eq!(copy.name(), "mock");
    assert!(copy.serves(&fs, ROOT));
    assert_eq!(copy.front_controller_path(ROOT), in_site("mock.php"));
}
