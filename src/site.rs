//! The decisions of a full build: which paths a scan leaves out, where a
//! page's output and sidecar go, the route that fills a page's `__path`
//! slot, and how failures are reported with the file they came from.
use vstd::prelude::*;
use crate::config::Config;
use crate::markup::parsed_markup;
use crate::paths::{is_absolute, is_under, path_under, segments, split_segments};
use crate::template::{
    library_ref_view, page_props, render_outcome, Rendered, Template, TemplateError,
};

verus! {

/// How much a build reports as it goes.
#[derive(PartialEq, Eq, Structural, PartialOrd, Ord, Clone, Copy, Debug)]
pub enum Verbosity {
    Silent,
    Low,
    High,
}

impl Verbosity {
    /// The level named `silent`, `low` or `high`.
    pub fn try_from(value: &str) -> (r: Result<Verbosity, ()>)
        ensures
            value@ == "silent"@ ==> r == Ok::<Verbosity, ()>(Verbosity::Silent),
            value@ == "low"@ ==> r == Ok::<Verbosity, ()>(Verbosity::Low),
            value@ == "high"@ ==> r == Ok::<Verbosity, ()>(Verbosity::High),
            r is Err <==> (value@ != "silent"@ && value@ != "low"@ && value@ != "high"@),
    {
        let v = value.to_string();
        proof {
            reveal_strlit("silent");
            reveal_strlit("low");
            reveal_strlit("high");
            assert("low"@.len() != "silent"@.len());
            assert("high"@.len() != "low"@.len());
            assert("high"@.len() != "silent"@.len());
        }
        if v == "silent".to_string() {
            Ok(Verbosity::Silent)
        } else if v == "low".to_string() {
            Ok(Verbosity::Low)
        } else if v == "high".to_string() {
            Ok(Verbosity::High)
        } else {
            Err(())
        }
    }
}

/// A failed build, with the source file it concerns where known.
#[derive(Debug)]
pub enum BuildError {
    Io(std::io::Error),
    Parse { err: xml::reader::Error, source: Option<String> },
    Write { err: xml::writer::Error, source: Option<String> },
    Other { msg: String, source: Option<String> },
}

pub open spec fn missing_prop_message(name: Seq<char>) -> Seq<char> {
    "Missing property "@ + name + "."@
}

pub open spec fn malformed_prop_message(name: Seq<char>) -> Seq<char> {
    "Property '"@ + name
        + "' is non-alphanumeric or reserved.\n  (accepted: A-z 0-9 _; must not start with __)."@
}

/// The build error that a template error becomes: the same failure with no
/// source yet, a slot problem as a message that names the slot.
pub open spec fn from_template_error(e: TemplateError, b: BuildError) -> bool {
    match e {
        TemplateError::Io(_) => b is Io,
        TemplateError::Parse(_) => b matches BuildError::Parse { source: None, .. },
        TemplateError::Write(_) => b matches BuildError::Write { source: None, .. },
        TemplateError::MissingProp(n) => b matches BuildError::Other { msg, source: None }
            && msg@ == missing_prop_message(n@),
        TemplateError::MalformedProp(n) => b matches BuildError::Other { msg, source: None }
            && msg@ == malformed_prop_message(n@),
    }
}

/// `b` is `a` with its source set to `source`; an I/O error keeps none.
pub open spec fn sourced(a: BuildError, source: Seq<char>, b: BuildError) -> bool {
    match a {
        BuildError::Io(_) => b is Io,
        BuildError::Parse { .. } => b matches BuildError::Parse { source: Some(s), .. } && s@
            == source,
        BuildError::Write { .. } => b matches BuildError::Write { source: Some(s), .. } && s@
            == source,
        BuildError::Other { msg, .. } => b matches BuildError::Other { msg: m, source: Some(s) }
            && m == msg && s@ == source,
    }
}

impl BuildError {
    /// The same error, naming `source` as the file it concerns.
    pub fn with_source(self, source: String) -> (r: BuildError)
        ensures
            sourced(self, source@, r),
    {
        match self {
            BuildError::Io(e) => BuildError::Io(e),
            BuildError::Parse { err, .. } => BuildError::Parse { err, source: Some(source) },
            BuildError::Write { err, .. } => BuildError::Write { err, source: Some(source) },
            BuildError::Other { msg, .. } => BuildError::Other { msg, source: Some(source) },
        }
    }

    /// The build error for a template error.
    pub fn from(value: TemplateError) -> (r: BuildError)
        ensures
            from_template_error(value, r),
    {
        match value {
            TemplateError::Io(e) => BuildError::Io(e),
            TemplateError::Parse(err) => BuildError::Parse { err, source: None },
            TemplateError::Write(err) => BuildError::Write { err, source: None },
            TemplateError::MissingProp(name) => {
                let mut msg = "Missing property ".to_string();
                msg.append(name.as_str());
                msg.append(".");
                BuildError::Other { msg, source: None }
            },
            TemplateError::MalformedProp(name) => {
                let mut msg = "Property '".to_string();
                msg.append(name.as_str());
                msg.append(
                    "' is non-alphanumeric or reserved.\n  (accepted: A-z 0-9 _; must not start with __).",
                );
                BuildError::Other { msg, source: None }
            },
        }
    }
}


/// A template error, reported as a build error for the file `source`.
pub open spec fn reported(e: TemplateError, source: Seq<char>, b: BuildError) -> bool {
    match e {
        TemplateError::Io(_) => b is Io,
        TemplateError::Parse(_) => b matches BuildError::Parse { source: Some(s), .. } && s@
            == source,
        TemplateError::Write(_) => b matches BuildError::Write { source: Some(s), .. } && s@
            == source,
        TemplateError::MissingProp(n) => b matches BuildError::Other { msg, source: Some(s) }
            && msg@ == missing_prop_message(n@) && s@ == source,
        TemplateError::MalformedProp(n) => b matches BuildError::Other { msg, source: Some(s) }
            && msg@ == malformed_prop_message(n@) && s@ == source,
    }
}

/// The result of a template step, reported for the file `source`.
pub open spec fn reported_result<T>(
    t: Result<T, TemplateError>,
    source: Seq<char>,
    r: Result<T, BuildError>,
) -> bool {
    match (t, r) {
        (Ok(a), Ok(b)) => a == b,
        (Err(e), Err(b)) => reported(e, source, b),
        _ => false,
    }
}

/// Reports a template error for the file `source`.
pub fn report(e: TemplateError, source: String) -> (r: BuildError)
    ensures
        reported(e, source@, r),
{
    BuildError::from(e).with_source(source)
}

/// The position of the last `c` in `s`, or -1.
pub open spec fn last_index_of(s: Seq<char>, c: char) -> int
    decreases s.len(),
{
    if s.len() == 0 {
        -1
    } else if s.last() == c {
        s.len() - 1
    } else {
        last_index_of(s.drop_last(), c)
    }
}

proof fn lemma_last_index_bounds(s: Seq<char>, c: char)
    ensures
        -1 <= last_index_of(s, c) < s.len(),
        last_index_of(s, c) >= 0 ==> s[last_index_of(s, c)] == c,
        forall|j: int| last_index_of(s, c) < j < s.len() ==> s[j] != c,
    decreases s.len(),
{
    if s.len() > 0 && s.last() != c {
        lemma_last_index_bounds(s.drop_last(), c);
        assert forall|j: int| last_index_of(s, c) < j < s.len() implies s[j] != c by {
            if j < s.len() - 1 {
                assert(s.drop_last()[j] == s[j]);
            }
        }
    }
}

/// The position of the last `c` in `s`, if any.
fn find_last(s: &str, c: char) -> (r: Option<usize>)
    ensures
        match r {
            Some(k) => k as int == last_index_of(s@, c),
            None => last_index_of(s@, c) == -1,
        },
{
    let n = s.unicode_len();
    let mut i: usize = n;
    assert(s@.take(n as int) =~= s@);
    while i > 0
        invariant
            i <= n,
            n == s@.len(),
            last_index_of(s@, c) == last_index_of(s@.take(i as int), c),
        decreases i,
    {
        assert(s@.take(i as int).drop_last() =~= s@.take(i - 1));
        if s.get_char(i - 1) == c {
            return Some(i - 1);
        }
        i = i - 1;
    }
    None
}

/// A file name without its extension: the part before the last `.`, where
/// that dot is not the name's first character.
pub open spec fn strip_extension(name: Seq<char>) -> Seq<char> {
    if last_index_of(name, '.') > 0 {
        name.take(last_index_of(name, '.'))
    } else {
        name
    }
}

/// Path segments joined with `/`.
pub open spec fn join_segments(s: Seq<Seq<char>>) -> Seq<char>
    decreases s.len(),
{
    if s.len() == 0 {
        Seq::empty()
    } else if s.len() == 1 {
        s[0]
    } else {
        join_segments(s.drop_last()) + seq!['/'] + s.last()
    }
}

/// The segments of an output file below the output directory (all of them
/// where the file is not below it).
pub open spec fn route_segments(out_dir: Seq<char>, page_out: Seq<char>) -> Seq<Seq<char>> {
    if path_under(page_out, out_dir) {
        segments(page_out).skip(segments(out_dir).len() as int)
    } else {
        segments(page_out)
    }
}

/// The route of an output file: its path below the output directory, with
/// no leading separator and the extension of its name removed.
pub open spec fn page_route_text(out_dir: Seq<char>, page_out: Seq<char>) -> Seq<char> {
    let segs = route_segments(out_dir, page_out);
    if segs.len() == 0 {
        Seq::empty()
    } else {
        join_segments(segs.drop_last().push(strip_extension(segs.last())))
    }
}

/// A file name without its extension.
fn strip_name_extension(name: &str) -> (r: String)
    ensures
        r@ == strip_extension(name@),
{
    match find_last(name, '.') {
        Some(k) => {
            if k > 0 {
                proof {
                    lemma_last_index_bounds(name@, '.');
                }
                name.substring_char(0, k).to_string()
            } else {
                name.to_string()
            }
        },
        None => name.to_string(),
    }
}

/// The route of the output file `page_out` below `out_dir`, which fills a
/// page's `__path` slot.
pub fn page_route(out_dir: &str, page_out: &str) -> (r: String)
    ensures
        r@ == page_route_text(out_dir@, page_out@),
{
    let all = split_segments(page_out);
    let ghost av = all@.map_values(|x: String| x@);
    let skip: usize = if is_under(page_out, out_dir) {
        let base = split_segments(out_dir);
        base.len()
    } else {
        0
    };
    let ghost segs = route_segments(out_dir@, page_out@);
    assert(segs =~= av.skip(skip as int));
    let n = all.len();
    if skip >= n {
        return String::new();
    }
    let mut r = String::new();
    let mut i: usize = skip;
    let ghost fixed = segs.drop_last().push(strip_extension(segs.last()));
    while i < n
        invariant
            skip <= i <= n,
            skip < n,
            n == all@.len(),
            av == all@.map_values(|x: String| x@),
            segs == av.skip(skip as int),
            fixed == segs.drop_last().push(strip_extension(segs.last())),
            i > skip ==> r@ == join_segments(fixed.take(i - skip)),
            i == skip ==> r@.len() == 0,
        decreases n - i,
    {
        let piece = if i + 1 == n {
            strip_name_extension(all[i].as_str())
        } else {
            all[i].clone()
        };
        assert(piece@ == fixed[i - skip]);
        if i > skip {
            r.append("/");
            proof {
                reveal_strlit("/");
            }
        }
        r.append(piece.as_str());
        proof {
            let t = fixed.take(i + 1 - skip);
            assert(t.drop_last() =~= fixed.take(i - skip));
            assert(r@ =~= join_segments(t));
        }
        i = i + 1;
    }
    assert(fixed.take(n - skip) =~= fixed);
    r
}

/// Where a page's sidecar goes: the output file with its extension replaced
/// by `page.json` (added where it has none).
pub open spec fn sidecar_path_text(page_out: Seq<char>) -> Seq<char> {
    if last_index_of(page_out, '.') > last_index_of(page_out, '/') + 1 {
        page_out.take(last_index_of(page_out, '.')) + ".page.json"@
    } else {
        page_out + ".page.json"@
    }
}

/// Where the sidecar of the output file `page_out` goes.
pub fn sidecar_path(page_out: &str) -> (r: String)
    ensures
        r@ == sidecar_path_text(page_out@),
{
    proof {
        lemma_last_index_bounds(page_out@, '.');
        lemma_last_index_bounds(page_out@, '/');
    }
    let dot = find_last(page_out, '.');
    let slash = find_last(page_out, '/');
    let cut: Option<usize> = match dot {
        Some(d) => match slash {
            Some(sl) => if d > sl && d - sl >= 2 {
                Some(d)
            } else {
                None
            },
            None => if d > 0 {
                Some(d)
            } else {
                None
            },
        },
        None => None,
    };
    let mut r = match cut {
        Some(d) => page_out.substring_char(0, d).to_string(),
        None => page_out.to_string(),
    };
    r.append(".page.json");
    r
}


/// The configuration file of a site, never copied into the output.
pub open spec fn config_file_name() -> Seq<char> {
    "simple-router.toml"@
}

pub open spec fn views(s: Seq<String>) -> Seq<Seq<char>> {
    s.map_values(|x: String| x@)
}

/// The paths that a scan of one source directory leaves out: the configured
/// exclusions, the output directory, the other source directory, the layout
/// and the configuration file.
pub open spec fn scan_excludes_of(
    exclude: Seq<Seq<char>>,
    out: Seq<char>,
    other: Seq<char>,
    template: Seq<char>,
) -> Seq<Seq<char>> {
    exclude + seq![out, other, template, config_file_name()]
}

/// The paths that the scan of the static directory (or, with `for_pages`,
/// of the pages directory) leaves out.
pub fn scan_excludes(config: &Config, for_pages: bool) -> (r: Vec<String>)
    ensures
        views(r@) == scan_excludes_of(
            views(config.source.exclude@),
            config.out.path@,
            if for_pages {
                config.source.static_path@
            } else {
                config.source.pages_path@
            },
            config.source.template@,
        ),
{
    let mut r: Vec<String> = Vec::new();
    let n = config.source.exclude.len();
    for i in 0..n
        invariant
            n == config.source.exclude@.len(),
            r@.len() == i,
            views(r@) == views(config.source.exclude@).take(i as int),
    {
        let ghost before = r@;
        r.push(config.source.exclude[i].clone());
        assert(r@ == before.push(config.source.exclude@[i as int]));
        assert forall|j: int| 0 <= j < i implies views(r@)[j] == views(before)[j] by {
            assert(r@[j] == before[j]);
        }
        assert(views(r@) =~= views(config.source.exclude@).take(i + 1));
    }
    assert(views(config.source.exclude@).take(n as int) =~= views(config.source.exclude@));
    r.push(config.out.path.clone());
    if for_pages {
        r.push(config.source.static_path.clone());
    } else {
        r.push(config.source.pages_path.clone());
    }
    r.push(config.source.template.clone());
    r.push("simple-router.toml".to_string());
    let ghost other = if for_pages {
        config.source.static_path@
    } else {
        config.source.pages_path@
    };
    assert(views(r@) =~= scan_excludes_of(
        views(config.source.exclude@),
        config.out.path@,
        other,
        config.source.template@,
    ));
    r
}

/// Whether a scan leaves `path` out: it lies at or under one of
/// `excludes`, each taken relative to the current directory (`./` put
/// before it), so that only paths written from `./` are matched.
pub open spec fn excluded(path: Seq<char>, excludes: Seq<Seq<char>>) -> bool {
    exists|i: int| 0 <= i < excludes.len() && path_under(path, "./"@ + #[trigger] excludes[i])
}

/// Whether a scan leaves `path` out.
pub fn is_excluded(path: &str, excludes: &Vec<String>) -> (r: bool)
    ensures
        r == excluded(path@, views(excludes@)),
{
    let n = excludes.len();
    for i in 0..n
        invariant
            n == excludes@.len(),
            forall|j: int|
                0 <= j < i ==> !path_under(path@, "./"@ + #[trigger] views(excludes@)[j]),
    {
        let mut base = "./".to_string();
        base.append(excludes[i].as_str());
        assert(views(excludes@)[i as int] == excludes@[i as int]@);
        if is_under(path, base.as_str()) {
            return true;
        }
    }
    false
}

/// Whether two paths name the same place: each lies at or under the other.
pub open spec fn same_path(a: Seq<char>, b: Seq<char>) -> bool {
    path_under(a, b) && path_under(b, a)
}

/// Checks that the static and the pages directories differ.
pub fn check_source_dirs(config: &Config) -> (r: Result<(), BuildError>)
    ensures
        r is Ok <==> !same_path(config.source.static_path@, config.source.pages_path@),
        r matches Err(BuildError::Other { msg, source: None }) ==> msg@
            == "static_path cannot be the same as pages_path."@,
        r is Ok || r matches Err(BuildError::Other { source: None, .. }),
{
    let a = config.source.static_path.as_str();
    let b = config.source.pages_path.as_str();
    if is_under(a, b) && is_under(b, a) {
        return Err(
            BuildError::Other {
                msg: "static_path cannot be the same as pages_path.".to_string(),
                source: None,
            },
        );
    }
    Ok(())
}

/// Compiles the layout read from `template_path`, reporting a failure for
/// that file.
pub fn compile_template(text: &str, config: &Config, template_path: String) -> (r: Result<
    Template,
    BuildError,
>)
    ensures
        exists|t: Result<Template, TemplateError>|
            {
                &&& match parsed_markup(text@, config.xml.ignore_comments) {
                    None => t matches Err(TemplateError::Parse(_)),
                    Some(evs) => match crate::template::first_malformed(evs) {
                        Some(v) => t matches Err(TemplateError::MalformedProp(p)) && p@ == v,
                        None => t matches Ok(tm) && tm.wf() && tm.steps()
                            == crate::template::compiled(evs) && tm.library()
                            == config.out.lib_file@ && tm.reader_config() == config.xml,
                    },
                }
                &&& reported_result(t, template_path@, r)
            },
{
    let xml = crate::config::XmlConfig { ignore_comments: config.xml.ignore_comments };
    let res = Template::parse(text, xml, config.out.lib_file.clone());
    let ghost witness = res;
    let r = match res {
        Ok(t) => Ok(t),
        Err(e) => Err(report(e, template_path)),
    };
    assert(reported_result(witness, template_path@, r));
    r
}

/// Whether a document found in the pages directory is a page: the layout
/// itself, named by the same text, is not.
pub fn is_page(source: &str, config: &Config) -> (r: bool)
    ensures
        r == (source@ != config.source.template@),
{
    source.to_string() != config.source.template
}

/// Renders one page of the site: the page read from `source`, whose output
/// goes to `page_out` under `out_dir`, with its route in the `__path` slot.
/// A failure is reported for `source`.
pub fn build_page(
    template: &Template,
    text: &str,
    source: String,
    out_dir: &str,
    page_out: &str,
) -> (r: Result<Rendered, BuildError>)
    requires
        template.wf(),
    ensures
        match parsed_markup(text@, template.reader_config().ignore_comments) {
            None => r matches Err(BuildError::Parse { source: Some(s), .. }) && s@ == source@,
            Some(evs) => exists|t: Result<Rendered, TemplateError>|
                {
                    &&& render_outcome(
                        template.steps(),
                        page_props(evs, page_route_text(out_dir@, page_out@)),
                        library_ref_view(template.library()),
                        t,
                    )
                    &&& reported_result(t, source@, r)
                },
        },
{
    let route = page_route(out_dir, page_out);
    let res = template.render_page(text, route);
    let ghost witness = res;
    let ghost src = source@;
    let r = match res {
        Ok(out) => Ok(out),
        Err(e) => Err(report(e, source)),
    };
    assert(reported_result(witness, src, r));
    r
}

} // verus!
