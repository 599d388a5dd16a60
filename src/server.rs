//! The development server's decisions: the per-request state machine of the
//! static responder, whose file-system questions the caller answers, and the
//! watcher's rule for when a batch of changes triggers a rebuild.
use vstd::prelude::*;
use crate::config::Config;
use crate::paths::{
    is_absolute, is_under, join, joined, lemma_join_under, lemma_under_trans, path_under,
    segments, split_segments,
};
use crate::site::views;

verus! {

/// The type that mime_guess guesses from a path, as its essence text, or
/// empty where it knows none.
pub uninterp spec fn guessed_mime(path: Seq<char>) -> Seq<char>;

/// Relies on mime_guess::from_path and `Mime::essence_str`: the first type
/// known for the path's extension, which depends on the path alone.
#[verifier::external_body]
fn guess_mime(path: &str) -> (r: String)
    ensures
        r@ == guessed_mime(path@),
{
    match mime_guess::from_path(path).first() {
        Some(m) => m.essence_str().to_string(),
        None => String::new(),
    }
}

/// The decimal digits of `n`.
pub open spec fn decimal(n: nat) -> Seq<char>
    decreases n,
{
    if n < 10 {
        seq![digit_char(n)]
    } else {
        decimal(n / 10) + seq![digit_char(n % 10)]
    }
}

pub open spec fn digit_char(d: nat) -> char {
    if d == 0 {
        '0'
    } else if d == 1 {
        '1'
    } else if d == 2 {
        '2'
    } else if d == 3 {
        '3'
    } else if d == 4 {
        '4'
    } else if d == 5 {
        '5'
    } else if d == 6 {
        '6'
    } else if d == 7 {
        '7'
    } else if d == 8 {
        '8'
    } else {
        '9'
    }
}

fn digit_string(d: usize) -> (r: String)
    requires
        d < 10,
    ensures
        r@ == seq![digit_char(d as nat)],
{
    proof {
        reveal_strlit("0");
        reveal_strlit("1");
        reveal_strlit("2");
        reveal_strlit("3");
        reveal_strlit("4");
        reveal_strlit("5");
        reveal_strlit("6");
        reveal_strlit("7");
        reveal_strlit("8");
        reveal_strlit("9");
    }
    let s = if d == 0 {
        "0"
    } else if d == 1 {
        "1"
    } else if d == 2 {
        "2"
    } else if d == 3 {
        "3"
    } else if d == 4 {
        "4"
    } else if d == 5 {
        "5"
    } else if d == 6 {
        "6"
    } else if d == 7 {
        "7"
    } else if d == 8 {
        "8"
    } else {
        "9"
    };
    assert(s@ =~= seq![digit_char(d as nat)]);
    s.to_string()
}

/// The decimal digits of `n`.
pub fn decimal_string(n: usize) -> (r: String)
    ensures
        r@ == decimal(n as nat),
    decreases n,
{
    if n < 10 {
        digit_string(n)
    } else {
        let mut s = decimal_string(n / 10);
        let d = digit_string(n % 10);
        s.append(d.as_str());
        s
    }
}


/// The position of the first `c` in `s`, or -1.
pub open spec fn first_index_of(s: Seq<char>, c: char) -> int
    decreases s.len(),
{
    if s.len() == 0 {
        -1
    } else if s[0] == c {
        0
    } else if first_index_of(s.drop_first(), c) < 0 {
        -1
    } else {
        first_index_of(s.drop_first(), c) + 1
    }
}

proof fn lemma_first_index(s: Seq<char>, c: char)
    ensures
        -1 <= first_index_of(s, c) < s.len(),
        first_index_of(s, c) >= 0 ==> s[first_index_of(s, c)] == c,
        forall|j: int|
            0 <= j < s.len() && (first_index_of(s, c) < 0 || j < first_index_of(s, c)) ==> s[j]
                != c,
    decreases s.len(),
{
    if s.len() > 0 && s[0] != c {
        lemma_first_index(s.drop_first(), c);
        assert forall|j: int|
            0 <= j < s.len() && (first_index_of(s, c) < 0 || j < first_index_of(s, c)) implies s[j]
            != c by {
            if j > 0 {
                assert(s.drop_first()[j - 1] == s[j]);
            }
        }
    }
}

/// The position of the first `c` in `s`, if any.
fn find_first(s: &str, c: char) -> (r: Option<usize>)
    ensures
        match r {
            Some(k) => k as int == first_index_of(s@, c),
            None => first_index_of(s@, c) == -1,
        },
{
    proof {
        lemma_first_index(s@, c);
    }
    let n = s.unicode_len();
    let mut i: usize = 0;
    while i < n
        invariant
            i <= n,
            n == s@.len(),
            forall|j: int| 0 <= j < i ==> s@[j] != c,
        decreases n - i,
    {
        if s.get_char(i) == c {
            proof {
                lemma_first_index(s@, c);
            }
            return Some(i);
        }
        i = i + 1;
    }
    proof {
        lemma_first_index(s@, c);
    }
    None
}

/// The method and the target of a request line: the words before and after
/// its first space (the target ending at the next space, if any).
pub open spec fn request_parts(line: Seq<char>) -> Option<(Seq<char>, Seq<char>)> {
    let k = first_index_of(line, ' ');
    if k < 0 {
        None
    } else {
        let rest = line.skip(k + 1);
        let e = first_index_of(rest, ' ');
        Some((line.take(k), if e < 0 { rest } else { rest.take(e) }))
    }
}

/// The method and the target of a request line.
pub fn parse_request_line(line: &str) -> (r: Option<(String, String)>)
    ensures
        match r {
            Some((m, p)) => request_parts(line@) == Some((m@, p@)),
            None => request_parts(line@) is None,
        },
{
    proof {
        lemma_first_index(line@, ' ');
    }
    let n = line.unicode_len();
    match find_first(line, ' ') {
        None => None,
        Some(k) => {
            let method = line.substring_char(0, k).to_string();
            let rest = line.substring_char(k + 1, n);
            assert(rest@ =~= line@.skip(k + 1));
            proof {
                lemma_first_index(rest@, ' ');
            }
            let path = match find_first(rest, ' ') {
                Some(e) => rest.substring_char(0, e).to_string(),
                None => rest.to_string(),
            };
            Some((method, path))
        },
    }
}

/// A request target without its leading `/`, if it has one.
pub open spec fn relative_target(p: Seq<char>) -> Seq<char> {
    if p.len() > 0 && p[0] == '/' {
        p.drop_first()
    } else {
        p
    }
}

fn strip_leading_slash(p: &str) -> (r: &str)
    ensures
        r@ == relative_target(p@),
{
    let n = p.unicode_len();
    if n > 0 && p.get_char(0) == '/' {
        p.substring_char(1, n)
    } else {
        p
    }
}

/// The bytes of an ASCII or UTF-8 text.
fn text_bytes(s: &str) -> (r: Vec<u8>)
    ensures
        r@ == text_encoding(s@),
{
    s.as_bytes_vec()
}

pub open spec fn text_encoding(s: Seq<char>) -> Seq<u8> {
    vstd::utf8::encode_utf8(s)
}

/// The answer to a request that cannot be read: a plain-text 404, as the
/// responder knows no other failure status.
pub open spec fn bad_request_bytes() -> Seq<u8> {
    text_encoding("HTTP/1.1 404 NOT FOUND\r\n\r\nBad request"@)
}

/// The plain-text answer naming a method and a target that have nothing to serve.
pub open spec fn not_found_text_bytes(method: Seq<char>, path: Seq<char>) -> Seq<u8> {
    text_encoding("HTTP/1.1 404 NOT FOUND\r\n\r\nCannot "@ + method + " "@ + path)
}

pub open spec fn ok_status() -> Seq<char> {
    "HTTP/1.1 200 OK"@
}

pub open spec fn not_found_status() -> Seq<char> {
    "HTTP/1.1 404 NOT FOUND"@
}

/// An answer that carries a file: the status line, its length and type,
/// then its bytes.
pub open spec fn file_response_bytes(status: Seq<char>, mime: Seq<char>, body: Seq<u8>) -> Seq<u8> {
    text_encoding(
        status + "\r\nContent-Length: "@ + decimal(body.len()) + "\r\nContent-Type: "@ + mime
            + "\r\n\r\n"@,
    ) + body
}

fn bad_request() -> (r: Vec<u8>)
    ensures
        r@ == bad_request_bytes(),
{
    text_bytes("HTTP/1.1 404 NOT FOUND\r\n\r\nBad request")
}

fn not_found_text(method: &str, path: &str) -> (r: Vec<u8>)
    ensures
        r@ == not_found_text_bytes(method@, path@),
{
    let mut s = "HTTP/1.1 404 NOT FOUND\r\n\r\nCannot ".to_string();
    s.append(method);
    s.append(" ");
    s.append(path);
    text_bytes(s.as_str())
}

fn file_response(found: bool, file: &str, body: Vec<u8>) -> (r: Vec<u8>)
    ensures
        r@ == file_response_bytes(
            if found {
                ok_status()
            } else {
                not_found_status()
            },
            guessed_mime(file@),
            body@,
        ),
{
    let mut s = if found {
        "HTTP/1.1 200 OK".to_string()
    } else {
        "HTTP/1.1 404 NOT FOUND".to_string()
    };
    let mime = guess_mime(file);
    let length = decimal_string(body.len());
    s.append("\r\nContent-Length: ");
    s.append(length.as_str());
    s.append("\r\nContent-Type: ");
    s.append(mime.as_str());
    s.append("\r\n\r\n");
    let mut r = text_bytes(s.as_str());
    let mut body = body;
    r.append(&mut body);
    r
}


/// Where a request stands while the responder waits for an answer about the
/// file system. `path` is the request's target, kept for the messages.
#[derive(Debug)]
pub enum Stage {
    /// Waiting to learn whether `file` is a directory.
    Resolving { path: String, file: String },
    /// Waiting to learn whether `file` exists.
    Locating { path: String, file: String },
    /// Waiting to learn whether the not-found document `file` exists.
    Falling { path: String, file: String },
    /// Waiting for the bytes of `file`; `found` is false for the not-found
    /// document.
    Reading { path: String, file: String, found: bool },
    /// The answer has been given.
    Done,
}

/// What the responder asks of its caller.
#[derive(Debug)]
pub enum Action {
    /// Is this path a directory? Answer with `Reply::Flag`.
    IsDir(String),
    /// Does this file exist? Answer with `Reply::Flag`.
    Exists(String),
    /// Read this file. Answer with `Reply::Contents`, or `Reply::Unreadable`.
    Read(String),
    /// Send these bytes and close the connection.
    Respond(Vec<u8>),
}

/// The caller's answer to an action.
#[derive(Debug)]
pub enum Reply {
    Flag(bool),
    Contents(Vec<u8>),
    Unreadable,
}

pub enum StageView {
    Resolving { path: Seq<char>, file: Seq<char> },
    Locating { path: Seq<char>, file: Seq<char> },
    Falling { path: Seq<char>, file: Seq<char> },
    Reading { path: Seq<char>, file: Seq<char>, found: bool },
    Done,
}

pub enum ActionView {
    IsDir(Seq<char>),
    Exists(Seq<char>),
    Read(Seq<char>),
    Respond(Seq<u8>),
}

pub enum ReplyView {
    Flag(bool),
    Contents(Seq<u8>),
    Unreadable,
}

pub open spec fn stage_view(s: Stage) -> StageView {
    match s {
        Stage::Resolving { path, file } => StageView::Resolving { path: path@, file: file@ },
        Stage::Locating { path, file } => StageView::Locating { path: path@, file: file@ },
        Stage::Falling { path, file } => StageView::Falling { path: path@, file: file@ },
        Stage::Reading { path, file, found } => StageView::Reading {
            path: path@,
            file: file@,
            found,
        },
        Stage::Done => StageView::Done,
    }
}

pub open spec fn action_view(a: Action) -> ActionView {
    match a {
        Action::IsDir(p) => ActionView::IsDir(p@),
        Action::Exists(p) => ActionView::Exists(p@),
        Action::Read(p) => ActionView::Read(p@),
        Action::Respond(b) => ActionView::Respond(b@),
    }
}

pub open spec fn reply_view(r: Reply) -> ReplyView {
    match r {
        Reply::Flag(b) => ReplyView::Flag(b),
        Reply::Contents(b) => ReplyView::Contents(b@),
        Reply::Unreadable => ReplyView::Unreadable,
    }
}

/// The index document of a directory.
pub open spec fn index_name() -> Seq<char> {
    "index.html"@
}

/// Whether a relative target would leave the directory it is resolved in:
/// it is absolute, or one of its segments is `..`.
pub open spec fn escapes_root(rel: Seq<char>) -> bool {
    is_absolute(rel) || exists|i: int|
        0 <= i < segments(rel).len() && #[trigger] segments(rel)[i] == ".."@
}

/// Whether a relative target would leave the directory it is resolved in.
fn leaves_root(rel: &str) -> (r: bool)
    ensures
        r == escapes_root(rel@),
{
    if rel.unicode_len() > 0 && rel.get_char(0) == '/' {
        return true;
    }
    let segs = split_segments(rel);
    let ghost sv = segs@.map_values(|x: String| x@);
    let n = segs.len();
    for i in 0..n
        invariant
            n == segs@.len(),
            sv == segs@.map_values(|x: String| x@),
            sv == segments(rel@),
            !is_absolute(rel@),
            forall|j: int| 0 <= j < i ==> sv[j] != ".."@,
    {
        assert(sv[i as int] == segs@[i as int]@);
        if segs[i] == "..".to_string() {
            return true;
        }
    }
    false
}

/// How a request line opens: a request that cannot be read gets a
/// plain-text 404; so does any method but `GET`, and a `GET` whose target
/// would leave the output root, with nothing asked of the file system; any
/// other `GET` asks whether its target, under the output root, is a
/// directory.
pub open spec fn begin_spec(directory: Seq<char>, line: Option<Seq<char>>) -> (
    StageView,
    ActionView,
) {
    let parts = match line {
        Some(l) => request_parts(l),
        None => None,
    };
    match parts {
        None => (StageView::Done, ActionView::Respond(bad_request_bytes())),
        Some((method, path)) => if method == "GET"@ && !escapes_root(relative_target(path)) {
            let file = joined(directory, relative_target(path));
            (StageView::Resolving { path, file }, ActionView::IsDir(file))
        } else {
            (StageView::Done, ActionView::Respond(not_found_text_bytes(method, path)))
        },
    }
}

/// One answer moves the request on: a directory stands for its index
/// document; a missing file for the not-found document; a missing
/// not-found document gives the plain-text 404; the bytes read are served,
/// with status 200 for the file asked for and 404 for the not-found
/// document. An unreadable file, or an answer that does not fit the
/// question, gives the plain-text 404.
pub open spec fn next_spec(
    directory: Seq<char>,
    not_found: Seq<char>,
    stage: StageView,
    reply: ReplyView,
) -> (StageView, ActionView) {
    let give_up = |path: Seq<char>|
        (StageView::Done, ActionView::Respond(not_found_text_bytes("GET"@, path)));
    match (stage, reply) {
        (StageView::Resolving { path, file }, ReplyView::Flag(is_dir)) => {
            let f = if is_dir {
                joined(file, index_name())
            } else {
                file
            };
            (StageView::Locating { path, file: f }, ActionView::Exists(f))
        },
        (StageView::Locating { path, file }, ReplyView::Flag(exists)) => if exists {
            (StageView::Reading { path, file, found: true }, ActionView::Read(file))
        } else {
            let f = joined(directory, not_found);
            (StageView::Falling { path, file: f }, ActionView::Exists(f))
        },
        (StageView::Falling { path, file }, ReplyView::Flag(exists)) => if exists {
            (StageView::Reading { path, file, found: false }, ActionView::Read(file))
        } else {
            give_up(path)
        },
        (StageView::Reading { path, file, found }, ReplyView::Contents(b)) => (
            StageView::Done,
            ActionView::Respond(
                file_response_bytes(
                    if found {
                        ok_status()
                    } else {
                        not_found_status()
                    },
                    guessed_mime(file),
                    b,
                ),
            ),
        ),
        (StageView::Resolving { path, .. }, _) => give_up(path),
        (StageView::Locating { path, .. }, _) => give_up(path),
        (StageView::Falling { path, .. }, _) => give_up(path),
        (StageView::Reading { path, .. }, _) => give_up(path),
        (StageView::Done, _) => (StageView::Done, ActionView::Respond(bad_request_bytes())),
    }
}

/// The static responder: the output root it serves, and the document it
/// serves where a target is missing.
pub struct Responder {
    pub directory: String,
    pub not_found: String,
}

impl Responder {
    /// Starts a request from its first line (`None` where the request had
    /// no line).
    pub fn begin(&self, line: Option<&str>) -> (r: (Stage, Action))
        ensures
            (stage_view(r.0), action_view(r.1)) == begin_spec(
                self.directory@,
                match line {
                    Some(l) => Some(l@),
                    None => None,
                },
            ),
            r.1 matches Action::IsDir(f) ==> path_under(f@, self.directory@),
    {
        let l = match line {
            Some(l) => l,
            None => {
                return (Stage::Done, Action::Respond(bad_request()));
            },
        };
        match parse_request_line(l) {
            None => (Stage::Done, Action::Respond(bad_request())),
            Some((method, path)) => {
                proof {
                    reveal_strlit("GET");
                }
                let rel = strip_leading_slash(path.as_str());
                if method == "GET".to_string() && !leaves_root(rel) {
                    proof {
                        lemma_join_under(self.directory@, rel@);
                    }
                    let file = join(self.directory.as_str(), rel);
                    let ask = file.clone();
                    (Stage::Resolving { path, file }, Action::IsDir(ask))
                } else {
                    let body = not_found_text(method.as_str(), path.as_str());
                    (Stage::Done, Action::Respond(body))
                }
            },
        }
    }

    /// Moves a request on with the caller's answer to the last action.
    pub fn step(&self, stage: Stage, reply: Reply) -> (r: (Stage, Action))
        ensures
            (stage_view(r.0), action_view(r.1)) == next_spec(
                self.directory@,
                self.not_found@,
                stage_view(stage),
                reply_view(reply),
            ),
    {
        match stage {
            Stage::Resolving { path, file } => match reply {
                Reply::Flag(is_dir) => {
                    let f = if is_dir {
                        proof {
                            reveal_strlit("index.html");
                        }
                        join(file.as_str(), "index.html")
                    } else {
                        file
                    };
                    let ask = f.clone();
                    (Stage::Locating { path, file: f }, Action::Exists(ask))
                },
                _ => Responder::give_up(path),
            },
            Stage::Locating { path, file } => match reply {
                Reply::Flag(exists) => {
                    if exists {
                        let ask = file.clone();
                        (Stage::Reading { path, file, found: true }, Action::Read(ask))
                    } else {
                        let f = join(self.directory.as_str(), self.not_found.as_str());
                        let ask = f.clone();
                        (Stage::Falling { path, file: f }, Action::Exists(ask))
                    }
                },
                _ => Responder::give_up(path),
            },
            Stage::Falling { path, file } => match reply {
                Reply::Flag(exists) => {
                    if exists {
                        let ask = file.clone();
                        (Stage::Reading { path, file, found: false }, Action::Read(ask))
                    } else {
                        Responder::give_up(path)
                    }
                },
                _ => Responder::give_up(path),
            },
            Stage::Reading { path, file, found } => match reply {
                Reply::Contents(b) => {
                    let body = file_response(found, file.as_str(), b);
                    (Stage::Done, Action::Respond(body))
                },
                _ => Responder::give_up(path),
            },
            Stage::Done => (Stage::Done, Action::Respond(bad_request())),
        }
    }

    fn give_up(path: String) -> (r: (Stage, Action))
        ensures
            stage_view(r.0) == StageView::Done,
            action_view(r.1) == ActionView::Respond(not_found_text_bytes("GET"@, path@)),
    {
        (Stage::Done, Action::Respond(not_found_text("GET", path.as_str())))
    }
}

/// A request for a target that is missing: where the not-found document
/// exists its bytes are served with a 404 status, and where it does not the
/// answer is the plain-text 404 naming the target.
pub proof fn law_responder_fallback(
    directory: Seq<char>,
    not_found: Seq<char>,
    path: Seq<char>,
    file: Seq<char>,
    body: Seq<u8>,
)
    ensures
        ({
            let nf = joined(directory, not_found);
            let s1 = next_spec(
                directory,
                not_found,
                StageView::Resolving { path, file },
                ReplyView::Flag(false),
            );
            let s2 = next_spec(directory, not_found, s1.0, ReplyView::Flag(false));
            let s3 = next_spec(directory, not_found, s2.0, ReplyView::Flag(true));
            let s4 = next_spec(directory, not_found, s3.0, ReplyView::Contents(body));
            let t3 = next_spec(directory, not_found, s2.0, ReplyView::Flag(false));
            &&& s2.1 == ActionView::Exists(nf)
            &&& s3.1 == ActionView::Read(nf)
            &&& s4.0 == StageView::Done
            &&& s4.1 == ActionView::Respond(
                file_response_bytes(not_found_status(), guessed_mime(nf), body),
            )
            &&& t3.0 == StageView::Done
            &&& t3.1 == ActionView::Respond(not_found_text_bytes("GET"@, path))
        }),
{
}


/// The shortest time between two rebuilds, in milliseconds.
pub const MIN_REBUILD_INTERVAL_MS: u64 = 1000;

/// Whether `p` lies at or under one of `dirs`.
pub open spec fn under_some(p: Seq<char>, dirs: Seq<Seq<char>>) -> bool {
    exists|i: int| 0 <= i < dirs.len() && path_under(p, #[trigger] dirs[i])
}

/// Whether `p` lies at or under one of `dirs`.
fn is_under_any(p: &str, dirs: &Vec<String>) -> (r: bool)
    ensures
        r == under_some(p@, views(dirs@)),
{
    let n = dirs.len();
    for i in 0..n
        invariant
            n == dirs@.len(),
            forall|j: int| 0 <= j < i ==> !path_under(p@, #[trigger] views(dirs@)[j]),
    {
        assert(views(dirs@)[i as int] == dirs@[i as int]@);
        if is_under(p, dirs[i].as_str()) {
            return true;
        }
    }
    false
}

/// Whether a changed path calls for a rebuild: it is not under an excluded
/// directory, and it lies in the pages or the static directory.
pub open spec fn qualifies(
    p: Seq<char>,
    excludes: Seq<Seq<char>>,
    pages: Seq<char>,
    statics: Seq<char>,
) -> bool {
    !under_some(p, excludes) && (path_under(p, pages) || path_under(p, statics))
}

/// Whether a batch of changes triggers a rebuild: it is more than an
/// access, the last rebuild (if any) is at least the minimum interval ago,
/// and one of its paths qualifies.
pub open spec fn rebuild_due(
    is_access: bool,
    paths: Seq<Seq<char>>,
    excludes: Seq<Seq<char>>,
    pages: Seq<char>,
    statics: Seq<char>,
    since_last_ms: Option<u64>,
) -> bool {
    &&& !is_access
    &&& !(since_last_ms matches Some(t) && t < MIN_REBUILD_INTERVAL_MS)
    &&& exists|i: int|
        0 <= i < paths.len() && qualifies(#[trigger] paths[i], excludes, pages, statics)
}

/// What the watcher filters changes with: the excluded directories (the
/// output directory first), and the source directories.
pub struct Watch {
    pub excludes: Vec<String>,
    pub pages_path: String,
    pub static_path: String,
}

impl Watch {
    /// The watcher's filter for a site rooted at `current_dir`: the output
    /// directory and the configured exclusions, each under `current_dir`,
    /// are excluded; `pages_path` and `static_path` are the source
    /// directories as the caller resolved them.
    pub fn new(current_dir: &str, pages_path: String, static_path: String, config: &Config) -> (r:
        Watch)
        ensures
            r.excludes@.len() == config.source.exclude@.len() + 1,
            r.excludes@[0]@ == joined(current_dir@, config.out.path@),
            forall|i: int|
                0 <= i < config.source.exclude@.len() ==> (#[trigger] r.excludes@[i + 1])@
                    == joined(current_dir@, config.source.exclude@[i]@),
            r.pages_path == pages_path,
            r.static_path == static_path,
    {
        let mut excludes: Vec<String> = Vec::new();
        excludes.push(join(current_dir, config.out.path.as_str()));
        let n = config.source.exclude.len();
        for i in 0..n
            invariant
                n == config.source.exclude@.len(),
                excludes@.len() == i + 1,
                excludes@[0]@ == joined(current_dir@, config.out.path@),
                forall|j: int|
                    0 <= j < i ==> (#[trigger] excludes@[j + 1])@ == joined(
                        current_dir@,
                        config.source.exclude@[j]@,
                    ),
        {
            excludes.push(join(current_dir, config.source.exclude[i].as_str()));
        }
        Watch { excludes, pages_path, static_path }
    }

    /// Whether a batch of changes to `paths` triggers a rebuild, given the
    /// time since the last one (`None` where there was none).
    pub fn should_rebuild(&self, is_access: bool, paths: &Vec<String>, since_last_ms: Option<u64>) -> (r:
        bool)
        ensures
            r == rebuild_due(
                is_access,
                views(paths@),
                views(self.excludes@),
                self.pages_path@,
                self.static_path@,
                since_last_ms,
            ),
    {
        if is_access {
            return false;
        }
        match since_last_ms {
            Some(t) => {
                if t < MIN_REBUILD_INTERVAL_MS {
                    return false;
                }
            },
            None => {},
        }
        let n = paths.len();
        for i in 0..n
            invariant
                n == paths@.len(),
                !is_access,
                !(since_last_ms matches Some(t) && t < MIN_REBUILD_INTERVAL_MS),
                forall|j: int|
                    0 <= j < i ==> !qualifies(
                        #[trigger] views(paths@)[j],
                        views(self.excludes@),
                        self.pages_path@,
                        self.static_path@,
                    ),
        {
            let p = paths[i].as_str();
            assert(views(paths@)[i as int] == paths@[i as int]@);
            if !is_under_any(p, &self.excludes) && (is_under(p, self.pages_path.as_str()) || is_under(
                p,
                self.static_path.as_str(),
            )) {
                assert(qualifies(
                    views(paths@)[i as int],
                    views(self.excludes@),
                    self.pages_path@,
                    self.static_path@,
                ));
                return true;
            }
        }
        false
    }
}

/// The build's own writes never trigger a rebuild: a batch whose paths all
/// lie under an excluded directory, such as the output directory, is
/// ignored.
pub proof fn law_output_writes_ignored(
    is_access: bool,
    paths: Seq<Seq<char>>,
    excludes: Seq<Seq<char>>,
    pages: Seq<char>,
    statics: Seq<char>,
    since_last_ms: Option<u64>,
    k: int,
)
    requires
        0 <= k < excludes.len(),
        forall|i: int| 0 <= i < paths.len() ==> path_under(#[trigger] paths[i], excludes[k]),
    ensures
        !rebuild_due(is_access, paths, excludes, pages, statics, since_last_ms),
{
    assert forall|i: int| 0 <= i < paths.len() implies !qualifies(
        #[trigger] paths[i],
        excludes,
        pages,
        statics,
    ) by {
        assert(path_under(paths[i], excludes[k]));
    }
}


/// The index document of a directory under the output root lies under the
/// root too.
pub proof fn law_index_stays_in_root(
    directory: Seq<char>,
    not_found: Seq<char>,
    path: Seq<char>,
    file: Seq<char>,
)
    requires
        path_under(file, directory),
        file.len() > 0,
    ensures
        next_spec(
            directory,
            not_found,
            StageView::Resolving { path, file },
            ReplyView::Flag(true),
        ).1 matches ActionView::Exists(f) && path_under(f, directory),
{
    reveal_strlit("index.html");
    assert(index_name()[0] == 'i');
    lemma_join_under(file, index_name());
    lemma_under_trans(joined(file, index_name()), file, directory);
}

} // verus!
