use simple_router::config::{Config, JsConfig, OutConfig, ScriptsConfig, SourceConfig, XmlConfig};
use simple_router::server::{decimal_string, parse_request_line, Action, Reply, Responder, Stage, Watch};

fn responder() -> Responder {
    Responder { directory: "out".to_string(), not_found: "404.html".to_string() }
}

fn respond_bytes(a: Action) -> Vec<u8> {
    match a {
        Action::Respond(b) => b,
        other => panic!("expected a response, got {:?}", other),
    }
}

fn asked(a: &Action) -> String {
    match a {
        Action::IsDir(p) => format!("dir {}", p),
        Action::Exists(p) => format!("exists {}", p),
        Action::Read(p) => format!("read {}", p),
        Action::Respond(_) => "respond".to_string(),
    }
}

#[test]
fn request_line_is_split() {
    assert_eq!(parse_request_line("GET /a/b HTTP/1.1"), Some(("GET".to_string(), "/a/b".to_string())));
    assert_eq!(parse_request_line("GET /x"), Some(("GET".to_string(), "/x".to_string())));
    assert_eq!(parse_request_line("GARBAGE"), None);
}

#[test]
fn existing_file_is_served() {
    let r = responder();
    let (s, a) = r.begin(Some("GET /style.css HTTP/1.1"));
    assert_eq!(asked(&a), "dir out/style.css");
    let (s, a) = r.step(s, Reply::Flag(false));
    assert_eq!(asked(&a), "exists out/style.css");
    let (s, a) = r.step(s, Reply::Flag(true));
    assert_eq!(asked(&a), "read out/style.css");
    let (s, a) = r.step(s, Reply::Contents(b"p{}".to_vec()));
    assert!(matches!(s, Stage::Done));
    assert_eq!(respond_bytes(a), b"HTTP/1.1 200 OK\r\nContent-Length: 3\r\nContent-Type: text/css\r\n\r\np{}".to_vec());
}

#[test]
fn directory_maps_to_index() {
    let r = responder();
    let (s, a) = r.begin(Some("GET / HTTP/1.1"));
    assert_eq!(asked(&a), "dir out/");
    let (_, a) = r.step(s, Reply::Flag(true));
    assert_eq!(asked(&a), "exists out/index.html");
}

#[test]
fn missing_route_falls_back_to_not_found_document() {
    let r = responder();
    let (s, _) = r.begin(Some("GET /missing HTTP/1.1"));
    let (s, _) = r.step(s, Reply::Flag(false));
    let (s, a) = r.step(s, Reply::Flag(false));
    assert_eq!(asked(&a), "exists out/404.html");
    let (s, a) = r.step(s, Reply::Flag(true));
    assert_eq!(asked(&a), "read out/404.html");
    let (_, a) = r.step(s, Reply::Contents(b"gone".to_vec()));
    assert_eq!(
        respond_bytes(a),
        b"HTTP/1.1 404 NOT FOUND\r\nContent-Length: 4\r\nContent-Type: text/html\r\n\r\ngone".to_vec()
    );
}

#[test]
fn missing_route_without_not_found_document_is_plain_text() {
    let r = responder();
    let (s, _) = r.begin(Some("GET /missing HTTP/1.1"));
    let (s, _) = r.step(s, Reply::Flag(false));
    let (s, _) = r.step(s, Reply::Flag(false));
    let (s, a) = r.step(s, Reply::Flag(false));
    assert!(matches!(s, Stage::Done));
    assert_eq!(respond_bytes(a), b"HTTP/1.1 404 NOT FOUND\r\n\r\nCannot GET /missing".to_vec());
}

#[test]
fn other_methods_and_bad_requests() {
    let r = responder();
    let (s, a) = r.begin(Some("POST /form HTTP/1.1"));
    assert!(matches!(s, Stage::Done));
    assert_eq!(respond_bytes(a), b"HTTP/1.1 404 NOT FOUND\r\n\r\nCannot POST /form".to_vec());
    let (_, a) = r.begin(Some("nonsense"));
    assert_eq!(respond_bytes(a), b"HTTP/1.1 404 NOT FOUND\r\n\r\nBad request".to_vec());
    let (_, a) = r.begin(None);
    assert_eq!(respond_bytes(a), b"HTTP/1.1 404 NOT FOUND\r\n\r\nBad request".to_vec());
    let (_, a) = r.step(Stage::Done, Reply::Flag(true));
    assert_eq!(respond_bytes(a), b"HTTP/1.1 404 NOT FOUND\r\n\r\nBad request".to_vec());
}

#[test]
fn unreadable_file_is_not_found() {
    let r = responder();
    let (s, _) = r.begin(Some("GET /a.html HTTP/1.1"));
    let (s, _) = r.step(s, Reply::Flag(false));
    let (s, _) = r.step(s, Reply::Flag(true));
    let (_, a) = r.step(s, Reply::Unreadable);
    assert_eq!(respond_bytes(a), b"HTTP/1.1 404 NOT FOUND\r\n\r\nCannot GET /a.html".to_vec());
}

#[test]
fn decimal_digits() {
    assert_eq!(decimal_string(0), "0");
    assert_eq!(decimal_string(7), "7");
    assert_eq!(decimal_string(1234), "1234");
    assert_eq!(decimal_string(1000), "1000");
}

fn watch() -> Watch {
    let config = Config {
        library_version: "0.1.0".to_string(),
        out: OutConfig { path: "dist".to_string(), lib_file: "simple-router.js".to_string() },
        source: SourceConfig { exclude: vec!["target".to_string()], ..SourceConfig::default() },
        xml: XmlConfig::default(),
        js: JsConfig::default(),
        scripts: ScriptsConfig::default(),
    };
    Watch::new("/site", "/site/pages".to_string(), "/site".to_string(), &config)
}

#[test]
fn watcher_excludes_output() {
    let w = watch();
    assert_eq!(w.excludes, vec!["/site/dist".to_string(), "/site/target".to_string()]);
    assert!(!w.should_rebuild(false, &vec!["/site/dist/index.html".to_string()], None));
    assert!(!w.should_rebuild(false, &vec!["/site/target/x".to_string()], None));
    assert!(w.should_rebuild(false, &vec!["/site/pages/a.html".to_string()], None));
    assert!(w.should_rebuild(false, &vec!["/site/dist/a".to_string(), "/site/style.css".to_string()], None));
    assert!(!w.should_rebuild(false, &vec!["/elsewhere/a".to_string()], None));
}

#[test]
fn watcher_debounces_and_ignores_access() {
    let w = watch();
    let p = vec!["/site/pages/a.html".to_string()];
    assert!(!w.should_rebuild(true, &p, None));
    assert!(!w.should_rebuild(false, &p, Some(999)));
    assert!(w.should_rebuild(false, &p, Some(1000)));
}

#[test]
fn targets_outside_the_root_are_refused() {
    let r = responder();
    let (s, a) = r.begin(Some("GET //etc/passwd HTTP/1.1"));
    assert!(matches!(s, Stage::Done));
    assert_eq!(respond_bytes(a), b"HTTP/1.1 404 NOT FOUND\r\n\r\nCannot GET //etc/passwd".to_vec());
    let (_, a) = r.begin(Some("GET /../secret.txt HTTP/1.1"));
    assert_eq!(respond_bytes(a), b"HTTP/1.1 404 NOT FOUND\r\n\r\nCannot GET /../secret.txt".to_vec());
    let (_, a) = r.begin(Some("GET /a/../../b HTTP/1.1"));
    assert_eq!(respond_bytes(a), b"HTTP/1.1 404 NOT FOUND\r\n\r\nCannot GET /a/../../b".to_vec());
    let (_, a) = r.begin(Some("GET /a..b/c HTTP/1.1"));
    assert_eq!(asked(&a), "dir out/a..b/c");
}
