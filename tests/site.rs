use simple_router::config::{Config, JsConfig, OutConfig, ScriptsConfig, SourceConfig, XmlConfig, default_js_lib_path};
use simple_router::paths::{is_under, join, split_segments};
use simple_router::site::{
    build_page, check_source_dirs, compile_template, is_excluded, is_page, page_route, scan_excludes, sidecar_path, BuildError,
    Verbosity,
};
use simple_router::template::TemplateError;

fn config() -> Config {
    Config {
        library_version: "0.1.0".to_string(),
        out: OutConfig { path: "dist".to_string(), lib_file: default_js_lib_path() },
        source: SourceConfig::default(),
        xml: XmlConfig::default(),
        js: JsConfig::default(),
        scripts: ScriptsConfig::default(),
    }
}

#[test]
fn js_config_code_strips_html() {
    let code = JsConfig::default().get_code();
    assert_eq!(code, "const config = {\n    updateAnchors: true,\n    notFound: \"404\",\n};\n\n");
    let code = JsConfig { update_anchors: false, not_found: "missing.htm".to_string() }.get_code();
    assert_eq!(code, "const config = {\n    updateAnchors: false,\n    notFound: \"missing.htm\",\n};\n\n");
}

#[test]
fn defaults_match_documentation() {
    let s = SourceConfig::default();
    assert_eq!(s.static_path, ".");
    assert_eq!(s.pages_path, "pages");
    assert_eq!(s.template, "layout.html");
    assert!(s.exclude.is_empty());
    assert_eq!(default_js_lib_path(), "simple-router.js");
    assert!(XmlConfig::default().ignore_comments);
    assert!(ScriptsConfig::default().prebuild.is_none());
}

#[test]
fn route_strips_output_dir_and_extension() {
    assert_eq!(page_route("dist", "dist/blog/post-1.html"), "blog/post-1");
    assert_eq!(page_route("./dist", "./dist/index.html"), "index");
    assert_eq!(page_route("./dist", "dist/index.html"), "dist/index");
    assert_eq!(page_route("dist", "/blog/post-1.html"), "blog/post-1");
    assert_eq!(page_route("dist", "dist/.hidden"), ".hidden");
    assert_eq!(page_route("dist", "dist/a.tar.gz"), "a.tar");
}

#[test]
fn sidecar_sits_beside_page() {
    assert_eq!(sidecar_path("dist/blog/post-1.html"), "dist/blog/post-1.page.json");
    assert_eq!(sidecar_path("dist/readme"), "dist/readme.page.json");
    assert_eq!(sidecar_path("dist.d/readme"), "dist.d/readme.page.json");
}

#[test]
fn paths_join_and_compare_by_segment() {
    assert_eq!(join("out", "a.html"), "out/a.html");
    assert_eq!(join("out/", "a.html"), "out/a.html");
    assert_eq!(join("out", "/abs"), "/abs");
    assert_eq!(split_segments("./a//b/./c/"), vec![".", "a", "b", "c"]);
    assert_eq!(split_segments("/./a"), vec!["a"]);
    assert!(is_under("/site/dist/x.html", "/site/dist"));
    assert!(is_under("/site/dist", "/site/dist/"));
    assert!(is_under("./dist/a", "./dist"));
    assert!(!is_under("dist/a", "./dist"));
    assert!(!is_under("pages/a.html", "./."));
    assert!(!is_under("/site/distant", "/site/dist"));
    assert!(!is_under("site/dist", "/site/dist"));
    assert!(is_under("/a", ""));
}

#[test]
fn scans_leave_out_output_and_other_sources() {
    let mut c = config();
    c.source.exclude = vec!["node_modules".to_string()];
    let ex = scan_excludes(&c, false);
    assert_eq!(ex, vec!["node_modules", "dist", "pages", "layout.html", "simple-router.toml"]);
    let ex = scan_excludes(&c, true);
    assert_eq!(ex, vec!["node_modules", "dist", ".", "layout.html", "simple-router.toml"]);
    assert!(is_excluded("./dist/a.html", &ex));
    assert!(is_excluded("./layout.html", &ex));
    assert!(!is_excluded("layout.html", &ex));
    assert!(!is_excluded("pages/a.html", &scan_excludes(&c, true)[..2].to_vec()));
}

#[test]
fn same_source_dirs_are_refused() {
    let mut c = config();
    assert!(check_source_dirs(&c).is_ok());
    c.source.pages_path = "./".to_string();
    assert!(matches!(check_source_dirs(&c), Err(BuildError::Other { source: None, .. })));
}

#[test]
fn page_failures_name_their_source() {
    let c = config();
    let t = compile_template("<html><head></head><body><aside sr-prop=\"aside\"></aside></body></html>", &c, "layout.html".to_string()).unwrap();
    match build_page(&t, "<main/>", "pages/a.html".to_string(), "dist", "dist/a.html") {
        Err(BuildError::Other { msg, source }) => {
            assert_eq!(msg, "Missing property aside.");
            assert_eq!(source, Some("pages/a.html".to_string()));
        }
        other => panic!("unexpected: {:?}", other),
    }
    match compile_template("<a sr-prop=\"a-b\"/>", &c, "layout.html".to_string()) {
        Err(BuildError::Other { msg, source }) => {
            assert_eq!(msg, "Property 'a-b' is non-alphanumeric or reserved.\n  (accepted: A-z 0-9 _; must not start with __).");
            assert_eq!(source, Some("layout.html".to_string()));
        }
        other => panic!("unexpected: {:?}", other.is_ok()),
    }
    assert!(matches!(
        build_page(&t, "<main>", "pages/b.html".to_string(), "dist", "dist/b.html"),
        Err(BuildError::Parse { source: Some(_), .. })
    ));
}

#[test]
fn build_page_fills_route() {
    let c = config();
    let t = compile_template("<html><head></head><body><p sr-prop=\"__path\"></p></body></html>", &c, "layout.html".to_string()).unwrap();
    let out = build_page(&t, "<main/>", "pages/blog/post-1.html".to_string(), "dist", "dist/blog/post-1.html").unwrap();
    assert_eq!(
        out.html,
        "<html><head><script src=\"simple-router.js\"></script></head><body><p data-sr-prop=\"__path\">blog/post-1</p></body></html>"
    );
}

#[test]
fn template_errors_become_build_errors() {
    let e = BuildError::from(TemplateError::MissingProp("x".to_string()));
    assert!(matches!(e, BuildError::Other { ref msg, source: None } if msg == "Missing property x."));
    let e = e.with_source("p.html".to_string());
    assert!(matches!(e, BuildError::Other { source: Some(ref s), .. } if s == "p.html"));
}

#[test]
fn verbosity_names() {
    assert_eq!(Verbosity::try_from("silent"), Ok(Verbosity::Silent));
    assert_eq!(Verbosity::try_from("low"), Ok(Verbosity::Low));
    assert_eq!(Verbosity::try_from("high"), Ok(Verbosity::High));
    assert_eq!(Verbosity::try_from("loud"), Err(()));
    assert!(Verbosity::High > Verbosity::Low);
}

#[test]
fn config_version_must_match() {
    let c = config();
    assert_eq!(c.check_version("0.1.0"), Ok(()));
    assert_eq!(
        c.check_version("0.2.0"),
        Err("Incorrect config version. Using version 0.2.0, but config is on 0.1.0.".to_string())
    );
}

#[test]
fn layout_is_not_a_page() {
    let c = config();
    assert!(!is_page("layout.html", &c));
    assert!(is_page("pages/layout.html", &c));
}

#[test]
fn js_config_escapes_route() {
    let code = JsConfig { update_anchors: true, not_found: "a\"b\\c\nd.html".to_string() }.get_code();
    assert_eq!(code, "const config = {\n    updateAnchors: true,\n    notFound: \"a\\\"b\\\\c\\nd\",\n};\n\n");
}
