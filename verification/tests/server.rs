use std::sync::Arc;

use site_router::server::{route, serve, strip_port};
use site_router::{DriverRegistry, FileSystem, MiniServer, Response, SiteManager};

const HOME: &str = "/tmp/www";

fn below(rel: &str) -> String {
    format!("{}/{}", HOME, rel)
}

fn file_of(response: Response) -> String {
    match response {
        Response::File(path) => path,
        other => panic!("expected a file, got {:?}", other),
    }
}

fn target_of(response: Response) -> String {
    match response {
        Response::Execute(path) => path,
        other => panic!("expected a front controller, got {:?}", other),
    }
}

// A static site linked under example.com.
fn static_setup() -> (FileSystem, MiniServer) {
    let mut fs = FileSystem::new();
    fs.add_dir(HOME);
    fs.add_file(&below("index.html"));
    fs.add_file(&below("style.css"));
    fs.add_dir(&below("assets"));
    fs.add_file(&below("assets/app.js"));
    let mut manager = SiteManager::new(DriverRegistry::new());
    manager.link_site(&fs, "example.com", HOME).unwrap();
    (fs, MiniServer::new(Arc::new(manager)))
}

#[test]
fn test_static_site_request() {
    let (fs, server) = static_setup();

    // Test index request
    assert_eq!(
        target_of(server.handle_request(&fs, Some("example.com"), "/")),
        below("index.html")
    );

    // Test CSS request
    assert_eq!(
        file_of(server.handle_request(&fs, Some("example.com"), "/style.css")),
        below("style.css")
    );

    // Test JS request
    assert_eq!(
        file_of(server.handle_request(&fs, Some("example.com"), "/assets/app.js")),
        below("assets/app.js")
    );
}

#[test]
fn test_laravel_site_request() {
    let mut fs = FileSystem::new();
    fs.add_dir(HOME);
    fs.add_dir(&below("public"));
    fs.add_file(&below("public/index.php"));
    fs.add_file(&below("artisan"));
    let mut manager = SiteManager::new(DriverRegistry::new());
    manager.link_site(&fs, "laravel.test", HOME).unwrap();
    let server = MiniServer::new(Arc::new(manager));

    // Test index request
    assert_eq!(
        target_of(server.handle_request(&fs, Some("laravel.test"), "/")),
        below("public/index.php")
    );
    // The front controller is a file below public, and can be asked for by name.
    assert_eq!(
        file_of(server.handle_request(&fs, Some("laravel.test"), "/index.php")),
        below("public/index.php")
    );
    // What lies beside public is not handed out.
    assert_eq!(
        target_of(server.handle_request(&fs, Some("laravel.test"), "/artisan")),
        below("public/index.php")
    );
}

#[test]
fn test_secured_site_request() {
    let mut fs = FileSystem::new();
    fs.add_dir(HOME);
    fs.add_file(&below("index.html"));
    let mut manager = SiteManager::new(DriverRegistry::new());
    manager.link_site(&fs, "secure.test", HOME).unwrap();
    manager.secure_site("secure.test").unwrap();
    let server = MiniServer::new(Arc::new(manager));

    // Test index request
    assert_eq!(
        target_of(server.handle_request(&fs, Some("secure.test"), "/")),
        below("index.html")
    );
    assert_eq!(
        file_of(server.handle_request(&fs, Some("secure.test"), "/index.html")),
        below("index.html")
    );
}

#[test]
fn test_parked_site_request() {
    let mut fs = FileSystem::new();
    fs.add_dir("/tmp/sites");
    fs.add_dir("/tmp/sites/parked");
    fs.add_file("/tmp/sites/parked/index.html");
    let mut manager = SiteManager::new(DriverRegistry::new());
    manager.park_directory(&fs, "/tmp/sites").unwrap();
    manager.scan_parked_directory(&fs, "/tmp/sites").unwrap();
    let server = MiniServer::new(Arc::new(manager));

    // Test index request
    assert_eq!(
        target_of(server.handle_request(&fs, Some("parked.test"), "/")),
        "/tmp/sites/parked/index.html"
    );
}

#[test]
fn test_404_request() {
    let (fs, server) = static_setup();

    // Test nonexistent file request
    assert_eq!(
        target_of(server.handle_request(&fs, Some("example.com"), "/nonexistent.txt")),
        below("index.html")
    );
}

#[test]
fn a_request_without_a_host_is_a_bad_request() {
    let (fs, server) = static_setup();
    assert!(matches!(server.handle_request(&fs, None, "/"), Response::BadRequest));
}

#[test]
fn a_host_that_is_not_linked_is_not_found() {
    let (fs, server) = static_setup();
    assert!(matches!(
        server.handle_request(&fs, Some("unknown.test"), "/"),
        Response::NotFound
    ));
    assert!(matches!(server.handle_request(&fs, Some(""), "/"), Response::NotFound));
}

#[test]
fn the_default_site_answers_for_unknown_hosts() {
    let (fs, server) = static_setup();
    let server = server.with_default_site("example.com");
    assert_eq!(
        file_of(server.handle_request(&fs, Some("unknown.test"), "/style.css")),
        below("style.css")
    );
    // A default site that is not linked answers for nobody.
    let (fs, server) = static_setup();
    let server = server.with_default_site("gone.test");
    assert!(matches!(
        server.handle_request(&fs, Some("unknown.test"), "/"),
        Response::NotFound
    ));
    // A host that is linked is served by its own site.
    assert_eq!(
        file_of(server.handle_request(&fs, Some("example.com"), "/style.css")),
        below("style.css")
    );
}

#[test]
fn the_port_of_the_host_does_not_count() {
    let (fs, server) = static_setup();
    assert_eq!(
        file_of(server.handle_request(&fs, Some("example.com:8080"), "/style.css")),
        below("style.css")
    );
    assert_eq!(
        file_of(server.handle_request(&fs, Some("example.com:"), "/style.css")),
        below("style.css")
    );
}

#[test]
fn strip_port_takes_a_colon_and_digits_off_the_end() {
    assert_eq!(strip_port("example.test:8080"), "example.test");
    assert_eq!(strip_port("example.test:80"), "example.test");
    assert_eq!(strip_port("example.test:"), "example.test");
    assert_eq!(strip_port("example.test"), "example.test");
    assert_eq!(strip_port("example.test:80a"), "example.test:80a");
    assert_eq!(strip_port("a:b:443"), "a:b");
    assert_eq!(strip_port("[::1]:8080"), "[::1]");
    assert_eq!(strip_port("8080"), "8080");
    assert_eq!(strip_port(":8080"), "");
    assert_eq!(strip_port(""), "");
    assert_eq!(strip_port("bücher.test:443"), "bücher.test");
}

#[test]
fn a_static_file_comes_before_the_front_controller() {
    let (fs, server) = static_setup();
    // index.html is both a static file and the front controller.
    assert_eq!(
        file_of(server.handle_request(&fs, Some("example.com"), "/index.html")),
        below("index.html")
    );
    // A directory is no static file.
    assert_eq!(
        target_of(server.handle_request(&fs, Some("example.com"), "/assets")),
        below("index.html")
    );
    // Nor is anything above the site.
    assert_eq!(
        target_of(server.handle_request(&fs, Some("example.com"), "/../www/style.css")),
        below("index.html")
    );
}

#[test]
fn route_and_serve_work_on_a_borrowed_manager() {
    let mut fs = FileSystem::new();
    fs.add_dir(HOME);
    fs.add_file(&below("index.html"));
    fs.add_file(&below("style.css"));
    let mut manager = SiteManager::new(DriverRegistry::new());
    manager.link_site(&fs, "example.com", HOME).unwrap();

    assert_eq!(
        file_of(route(&manager, None, &fs, Some("example.com:80"), "/style.css")),
        below("style.css")
    );
    assert!(matches!(route(&manager, None, &fs, Some("other.com"), "/"), Response::NotFound));
    assert_eq!(
        target_of(route(&manager, Some("example.com"), &fs, Some("other.com"), "/x")),
        below("index.html")
    );
    let site = manager.get_site("example.com").unwrap();
    assert_eq!(file_of(serve(site, &fs, "style.css")), below("style.css"));
}
