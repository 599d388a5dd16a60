//! Site configuration: where the sources and the output live, how markup is
//! read, what the router script is told, and the hooks around a build.
use vstd::prelude::*;

verus! {

/// The whole configuration of a site.
#[derive(Clone, Debug)]
pub struct Config {
    pub library_version: String,
    pub out: OutConfig,
    pub source: SourceConfig,
    pub xml: XmlConfig,
    pub js: JsConfig,
    pub scripts: ScriptsConfig,
}

/// The message for a configuration written for another version.
pub open spec fn version_message(running: Seq<char>, configured: Seq<char>) -> Seq<char> {
    "Incorrect config version. Using version "@ + running + ", but config is on "@ + configured
        + "."@
}

impl Config {
    /// Accepts a configuration written for the running version `running`
    /// only; any other version is refused with a message naming both.
    pub fn check_version(&self, running: &str) -> (r: Result<(), String>)
        ensures
            r is Ok <==> self.library_version@ == running@,
            r matches Err(m) ==> m@ == version_message(running@, self.library_version@),
    {
        if self.library_version == running.to_string() {
            return Ok(());
        }
        let mut m = "Incorrect config version. Using version ".to_string();
        m.append(running);
        m.append(", but config is on ");
        m.append(self.library_version.as_str());
        m.append(".");
        Err(m)
    }
}

/// Where the sources are.
#[derive(Clone, Debug)]
pub struct SourceConfig {
    pub static_path: String,
    pub pages_path: String,
    pub template: String,
    pub exclude: Vec<String>,
}

impl Default for SourceConfig {
    fn default() -> (r: SourceConfig)
        ensures
            r.static_path@ == "."@,
            r.pages_path@ == "pages"@,
            r.template@ == "layout.html"@,
            r.exclude@.len() == 0,
    {
        SourceConfig {
            static_path: ".".to_string(),
            pages_path: "pages".to_string(),
            template: "layout.html".to_string(),
            exclude: Vec::new(),
        }
    }
}

/// Where the output goes, and the name of the router library in it.
#[derive(Clone, Debug)]
pub struct OutConfig {
    pub path: String,
    pub lib_file: String,
}

/// The router library's file name when none is configured.
pub fn default_js_lib_path() -> (r: String)
    ensures
        r@ == "simple-router.js"@,
{
    "simple-router.js".to_string()
}

/// Settings for reading markup.
#[derive(Clone, Copy, Debug, PartialEq, Eq, Structural)]
pub struct XmlConfig {
    pub ignore_comments: bool,
}

impl Default for XmlConfig {
    /// Comments are dropped unless asked for.
    fn default() -> (r: XmlConfig)
        ensures
            r.ignore_comments,
    {
        XmlConfig { ignore_comments: true }
    }
}

/// What the router script is told.
#[derive(Clone, Debug)]
pub struct JsConfig {
    pub update_anchors: bool,
    pub not_found: String,
}

/// `s` without a trailing `.html`, if it has one.
pub open spec fn strip_html(s: Seq<char>) -> Seq<char> {
    if s.len() >= 5 && s.subrange(s.len() - 5, s.len() as int) == ".html"@ {
        s.subrange(0, s.len() - 5)
    } else {
        s
    }
}

pub open spec fn bool_text(b: bool) -> Seq<char> {
    if b {
        "true"@
    } else {
        "false"@
    }
}

/// How one character stands inside a double-quoted JavaScript string: a
/// quote, a backslash and the line terminators are escaped.
pub open spec fn js_escape_char(c: char) -> Seq<char> {
    if c == '"' {
        seq!['\\', '"']
    } else if c == '\\' {
        seq!['\\', '\\']
    } else if c == '\n' {
        seq!['\\', 'n']
    } else if c == '\r' {
        seq!['\\', 'r']
    } else if c == '\u{2028}' {
        seq!['\\', 'u', '2', '0', '2', '8']
    } else if c == '\u{2029}' {
        seq!['\\', 'u', '2', '0', '2', '9']
    } else {
        seq![c]
    }
}

/// The text of `s` inside a double-quoted JavaScript string.
pub open spec fn js_escaped(s: Seq<char>) -> Seq<char>
    decreases s.len(),
{
    if s.len() == 0 {
        Seq::empty()
    } else {
        js_escaped(s.drop_last()) + js_escape_char(s.last())
    }
}

/// The configuration literal that precedes the router library; the
/// not-found route is a JavaScript string whose value is the route.
pub open spec fn js_config_code(update_anchors: bool, not_found: Seq<char>) -> Seq<char> {
    "const config = {\n    updateAnchors: "@ + bool_text(update_anchors) + ",\n    notFound: \""@
        + js_escaped(strip_html(not_found)) + "\",\n};\n\n"@
}

/// How one character stands inside a double-quoted JavaScript string.
fn js_escape_piece(s: &str, i: usize) -> (r: String)
    requires
        i < s@.len(),
    ensures
        r@ == js_escape_char(s@[i as int]),
{
    let _n = s.unicode_len();
    let c = s.get_char(i);
    proof {
        reveal_strlit("\\\"");
        reveal_strlit("\\\\");
        reveal_strlit("\\n");
        reveal_strlit("\\r");
        reveal_strlit("\\u2028");
        reveal_strlit("\\u2029");
    }
    let r = if c == '"' {
        "\\\"".to_string()
    } else if c == '\\' {
        "\\\\".to_string()
    } else if c == '\n' {
        "\\n".to_string()
    } else if c == '\r' {
        "\\r".to_string()
    } else if c == '\u{2028}' {
        "\\u2028".to_string()
    } else if c == '\u{2029}' {
        "\\u2029".to_string()
    } else {
        let one = s.substring_char(i, i + 1);
        assert(one@ =~= seq![c]);
        one.to_string()
    };
    assert(r@ =~= js_escape_char(c));
    r
}

/// The text of `s` inside a double-quoted JavaScript string.
pub fn js_escape(s: &str) -> (r: String)
    ensures
        r@ == js_escaped(s@),
{
    let n = s.unicode_len();
    let mut r = String::new();
    let mut i: usize = 0;
    while i < n
        invariant
            n == s@.len(),
            i <= n,
            r@ == js_escaped(s@.take(i as int)),
        decreases n - i,
    {
        let piece = js_escape_piece(s, i);
        r.append(piece.as_str());
        assert(s@.take(i + 1).drop_last() =~= s@.take(i as int));
        i = i + 1;
    }
    assert(s@.take(n as int) =~= s@);
    r
}

/// `s` without a trailing `.html`, if it has one.
fn strip_html_suffix(s: &str) -> (r: String)
    ensures
        r@ == strip_html(s@),
{
    let n = s.unicode_len();
    if n >= 5 {
        let tail = s.substring_char(n - 5, n).to_string();
        if tail == ".html".to_string() {
            return s.substring_char(0, n - 5).to_string();
        }
    }
    s.to_string()
}

impl JsConfig {
    /// The configuration literal for the router script: whether it rewrites
    /// in-page anchors, and the route of the not-found document.
    pub fn get_code(&self) -> (r: String)
        ensures
            r@ == js_config_code(self.update_anchors, self.not_found@),
    {
        let mut code = "const config = {\n    updateAnchors: ".to_string();
        if self.update_anchors {
            code.append("true");
        } else {
            code.append("false");
        }
        code.append(",\n    notFound: \"");
        let route = strip_html_suffix(self.not_found.as_str());
        let quoted = js_escape(route.as_str());
        code.append(quoted.as_str());
        code.append("\",\n};\n\n");
        code
    }
}

impl Default for JsConfig {
    fn default() -> (r: JsConfig)
        ensures
            r.update_anchors,
            r.not_found@ == "404.html"@,
    {
        JsConfig { update_anchors: true, not_found: "404.html".to_string() }
    }
}

/// Shell commands run before and after a build.
#[derive(Clone, Debug)]
pub struct ScriptsConfig {
    pub prebuild: Option<String>,
    pub postbuild: Option<String>,
}

impl Default for ScriptsConfig {
    fn default() -> (r: ScriptsConfig)
        ensures
            r.prebuild is None,
            r.postbuild is None,
    {
        ScriptsConfig { prebuild: None, postbuild: None }
    }
}

} // verus!
