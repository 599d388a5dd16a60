use simple_router::config::XmlConfig;
use simple_router::template::{extract_props, is_valid_slot_name, Props, Template, TemplateError};
use xml::reader::{EventReader, XmlEvent};

const LAYOUT: &str = "<html><head><title sr-prop=\"title\"></title></head><body><main sr-prop=\"main\"></main><p sr-prop=\"__path\"></p></body></html>";
const PAGE: &str = "<title>Hi</title><main><b>x</b></main>";

fn layout(text: &str) -> Template {
    match Template::parse(text, XmlConfig { ignore_comments: true }, "/simple-router.js".to_string()) {
        Ok(t) => t,
        Err(e) => panic!("layout refused: {:?}", e),
    }
}

fn events(text: &str) -> Vec<XmlEvent> {
    EventReader::from_str(text).into_iter().map(|e| e.unwrap()).collect()
}

fn malformed(text: &str) -> Option<String> {
    match Template::parse(text, XmlConfig { ignore_comments: true }, "/lib.js".to_string()) {
        Err(TemplateError::MalformedProp(n)) => Some(n),
        _ => None,
    }
}

#[test]
fn renders_page_into_layout() {
    let t = layout(LAYOUT);
    let out = t.render_page(PAGE, "blog/post-1".to_string()).unwrap();
    assert_eq!(
        out.html,
        "<html><head><title data-sr-prop=\"title\">Hi</title><script src=\"/simple-router.js\"></script></head><body><main data-sr-prop=\"main\"><b>x</b></main><p data-sr-prop=\"__path\">blog/post-1</p></body></html>"
    );
    assert_eq!(out.json, "{\"__path\":\"blog/post-1\",\"main\":\"<b>x</b>\",\"title\":\"Hi\"}");
}

#[test]
fn sidecar_fragment_round_trips() {
    let t = layout(LAYOUT);
    let out = t.render_page(PAGE, "index".to_string()).unwrap();
    let side: serde_json::Value = serde_json::from_str(&out.json).unwrap();
    let fragment = side["main"].as_str().unwrap().to_string();
    let from_page = extract_props(events(PAGE));
    let again = extract_props(events(&format!("<main>{}</main>", fragment)));
    assert_eq!(from_page.get("main"), again.get("main"));
    assert_eq!(from_page.get("main").unwrap().len(), 3);
}

#[test]
fn missing_slot_fails_closed() {
    let t = layout("<html><body><aside sr-prop=\"aside\"></aside></body></html>");
    match t.render_page("<main>x</main>", "a".to_string()) {
        Err(TemplateError::MissingProp(n)) => assert_eq!(n, "aside"),
        other => panic!("unexpected: {:?}", other),
    }
}

#[test]
fn slot_names_are_validated() {
    assert!(is_valid_slot_name("title"));
    assert!(is_valid_slot_name("nav_1"));
    assert!(is_valid_slot_name("__path"));
    assert!(!is_valid_slot_name("__secret"));
    assert!(!is_valid_slot_name("nav-1"));
    assert!(!is_valid_slot_name(""));
    assert!(Template::parse("<a sr-prop=\"title\"/>", XmlConfig { ignore_comments: true }, String::new()).is_ok());
    assert!(Template::parse("<a sr-prop=\"nav_1\"/>", XmlConfig { ignore_comments: true }, String::new()).is_ok());
    assert_eq!(malformed("<a sr-prop=\"__secret\"/>"), Some("__secret".to_string()));
    assert_eq!(malformed("<a sr-prop=\"nav-1\"/>"), Some("nav-1".to_string()));
}

#[test]
fn system_path_slot_wins_over_page_content() {
    let t = layout("<html><body><p sr-prop=\"__path\"></p></body></html>");
    let out = t.render_page("<__path>evil</__path>", "blog/post-1".to_string()).unwrap();
    assert_eq!(out.html, "<html><body><p data-sr-prop=\"__path\">blog/post-1</p></body></html>");
    assert_eq!(out.json, "{\"__path\":\"blog/post-1\"}");
}

#[test]
fn rendering_twice_gives_identical_output() {
    let t = layout(LAYOUT);
    let a = t.render_page(PAGE, "x".to_string()).unwrap();
    let b = t.render_page(PAGE, "x".to_string()).unwrap();
    assert_eq!(a.html, b.html);
    assert_eq!(a.json, b.json);
}

#[test]
fn malformed_markup_is_a_parse_error() {
    let r = Template::parse("<html><head></html>", XmlConfig { ignore_comments: true }, String::new());
    assert!(matches!(r, Err(TemplateError::Parse(_))));
    let t = layout(LAYOUT);
    assert!(matches!(t.render_page("<main>", "x".to_string()), Err(TemplateError::Parse(_))));
}

#[test]
fn layout_without_head_gets_no_library() {
    let t = layout("<html><body><main sr-prop=\"main\"></main></body></html>");
    let out = t.render_page("<main>y</main>", "x".to_string()).unwrap();
    assert_eq!(out.html, "<html><body><main data-sr-prop=\"main\">y</main></body></html>");
}

#[test]
fn slot_closes_at_first_close_of_its_name() {
    let props = extract_props(events("<main><div><main>x</main></div></main><title>t</title>"));
    let main = props.get("main").unwrap();
    assert_eq!(main.len(), 3);
    assert!(matches!(&main[2], XmlEvent::Characters(s) if s == "x"));
    assert_eq!(props.get("title").unwrap().len(), 1);
    assert!(props.get("div").is_none());
}

#[test]
fn props_insert_replaces() {
    let mut p = Props::new();
    assert!(p.get("a").is_none());
    p.insert("a".to_string(), events("<x/>"));
    p.insert("a".to_string(), Vec::new());
    assert_eq!(p.get("a").unwrap().len(), 0);
}

#[test]
fn comments_follow_the_reader_setting() {
    let keep = Template::parse(
        "<html><body><main sr-prop=\"main\"></main></body></html>",
        XmlConfig { ignore_comments: false },
        String::new(),
    )
    .unwrap();
    let out = keep.render_page("<main><!--c-->y</main>", "x".to_string()).unwrap();
    assert_eq!(out.html, "<html><body><main data-sr-prop=\"main\"><!-- c -->y</main></body></html>");
    let drop = layout("<html><body><main sr-prop=\"main\"></main></body></html>");
    let out = drop.render_page("<main><!--c-->y</main>", "x".to_string()).unwrap();
    assert_eq!(out.html, "<html><body><main data-sr-prop=\"main\">y</main></body></html>");
}
