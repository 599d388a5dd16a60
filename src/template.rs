//! The template engine: a layout compiled once into template events, the
//! slots of a page extracted by top-level element name, and the replay that
//! fills each placeholder and records what went into it.
use vstd::prelude::*;
use crate::markup::{
    attr_view, attrs_view, event_view, events_view, json_object_text, local_name, markup_text,
    name_string, name_text, opt_view, pair_views, parsed_markup, read_markup,
    ref_events_view, write_json_object, write_markup, AttrView, EventView, NameView,
};
use xml::attribute::OwnedAttribute;
use xml::namespace::Namespace;
use xml::reader::XmlEvent;
use std::collections::BTreeMap;
use crate::config::XmlConfig;

verus! {

/// The attribute that marks a layout element as the placeholder of a slot.
pub open spec fn marker_name() -> Seq<char> {
    "sr-prop"@
}

/// The attribute that a placeholder carries in the output in place of the marker.
pub open spec fn inspection_name() -> Seq<char> {
    "data-sr-prop"@
}

/// The element before whose close the router library is referenced.
pub open spec fn mount_name() -> Seq<char> {
    "head"@
}

/// The system slot that holds a page's route.
pub open spec fn path_slot() -> Seq<char> {
    "__path"@
}

pub open spec fn is_slot_char(c: char) -> bool {
    ('a' <= c <= 'z') || ('A' <= c <= 'Z') || ('0' <= c <= '9') || c == '_'
}

pub open spec fn has_reserved_prefix(s: Seq<char>) -> bool {
    s.len() >= 2 && s[0] == '_' && s[1] == '_'
}

/// A slot name that a layout may use: a system slot, or a nonempty run of
/// ASCII letters, digits and underscores that does not start with `__`.
pub open spec fn valid_slot_name(s: Seq<char>) -> bool {
    s == path_slot() || (s.len() > 0 && (forall|i: int| 0 <= i < s.len() ==> is_slot_char(
        #[trigger] s[i],
    )) && !has_reserved_prefix(s))
}

/// Whether `s` may name a slot in a layout.
pub fn is_valid_slot_name(s: &str) -> (r: bool)
    ensures
        r == valid_slot_name(s@),
{
    let path = "__path";
    proof {
        reveal_strlit("__path");
    }
    if s.to_string() == path.to_string() {
        return true;
    }
    let n = s.unicode_len();
    if n == 0 {
        return false;
    }
    let mut i: usize = 0;
    while i < n
        invariant
            n == s@.len(),
            i <= n,
            s@ != path_slot(),
            forall|j: int| 0 <= j < i ==> is_slot_char(#[trigger] s@[j]),
        decreases n - i,
    {
        let c = s.get_char(i);
        if !(('a' <= c && c <= 'z') || ('A' <= c && c <= 'Z') || ('0' <= c && c <= '9') || c
            == '_') {
            return false;
        }
        i = i + 1;
    }
    if n >= 2 && s.get_char(0) == '_' && s.get_char(1) == '_' {
        return false;
    }
    true
}


#[verifier::external_type_specification]
#[verifier::external_body]
pub struct ExIoError(std::io::Error);

/// What can go wrong while compiling a layout or rendering a page.
#[derive(Debug)]
pub enum TemplateError {
    Io(std::io::Error),
    Parse(xml::reader::Error),
    Write(xml::writer::Error),
    MissingProp(String),
    MalformedProp(String),
}

/// One step of a compiled layout.
pub enum TemplateEvent {
    /// An event replayed as it is.
    Passthrough(XmlEvent),
    /// Where the reference to the router library goes.
    LibraryInsert,
    /// The opening tag of a placeholder (with its marker renamed), after
    /// which the slot's content is injected.
    StartPlaceholder { prop: String, start: XmlEvent },
}

/// One step of a compiled layout, as plain values.
pub enum StepView {
    Passthrough(EventView),
    LibraryInsert,
    StartPlaceholder { prop: Seq<char>, start: EventView },
}

pub open spec fn step_view(t: TemplateEvent) -> StepView {
    match t {
        TemplateEvent::Passthrough(e) => StepView::Passthrough(event_view(e)),
        TemplateEvent::LibraryInsert => StepView::LibraryInsert,
        TemplateEvent::StartPlaceholder { prop, start } => StepView::StartPlaceholder {
            prop: prop@,
            start: event_view(start),
        },
    }
}

pub open spec fn steps_view(s: Seq<TemplateEvent>) -> Seq<StepView> {
    s.map_values(|t: TemplateEvent| step_view(t))
}

/// The value of the first marker attribute, if any.
pub open spec fn marker_value(attrs: Seq<AttrView>) -> Option<Seq<char>>
    decreases attrs.len(),
{
    if attrs.len() == 0 {
        None
    } else if name_text(attrs[0].name) == marker_name() {
        Some(attrs[0].value)
    } else {
        marker_value(attrs.drop_first())
    }
}

/// The name that replaces the marker's in a placeholder's opening tag.
pub open spec fn inspection() -> NameView {
    NameView { local: inspection_name(), namespace: None, prefix: None }
}

/// An attribute with a marker renamed.
pub open spec fn renamed_attr(a: AttrView) -> AttrView {
    if name_text(a.name) == marker_name() {
        AttrView { name: inspection(), value: a.value }
    } else {
        a
    }
}

/// The slot name that a layout event declares and that fails the slot grammar.
pub open spec fn malformed_in(e: EventView) -> Option<Seq<char>> {
    match e {
        EventView::StartElement { attributes, .. } => match marker_value(attributes) {
            Some(v) => if valid_slot_name(v) {
                None
            } else {
                Some(v)
            },
            None => None,
        },
        _ => None,
    }
}

/// The first malformed slot name of a layout, in document order.
pub open spec fn first_malformed(events: Seq<EventView>) -> Option<Seq<char>>
    decreases events.len(),
{
    if events.len() == 0 {
        None
    } else {
        match first_malformed(events.drop_last()) {
            Some(v) => Some(v),
            None => malformed_in(events.last()),
        }
    }
}

/// A malformed name found in a prefix is the first of the whole layout.
proof fn lemma_first_malformed_prefix(s: Seq<EventView>, n: int)
    requires
        0 <= n <= s.len(),
        first_malformed(s.take(n)) is Some,
    ensures
        first_malformed(s) == first_malformed(s.take(n)),
    decreases s.len() - n,
{
    if n < s.len() {
        assert(s.take(n + 1).drop_last() =~= s.take(n));
        lemma_first_malformed_prefix(s, n + 1);
    } else {
        assert(s.take(n) =~= s);
    }
}

/// What one layout event compiles to.
pub open spec fn compile_step(e: EventView) -> Seq<StepView> {
    match e {
        EventView::StartDocument { .. } => Seq::empty(),
        EventView::StartElement { name, attributes, namespace } => match marker_value(
            attributes,
        ) {
            Some(v) => seq![
                StepView::StartPlaceholder {
                    prop: v,
                    start: EventView::StartElement {
                        name,
                        attributes: attributes.map_values(|a: AttrView| renamed_attr(a)),
                        namespace,
                    },
                },
            ],
            None => seq![StepView::Passthrough(e)],
        },
        EventView::EndElement { name } => if name_text(name) == mount_name() {
            seq![StepView::LibraryInsert, StepView::Passthrough(e)]
        } else {
            seq![StepView::Passthrough(e)]
        },
        _ => seq![StepView::Passthrough(e)],
    }
}

/// The compiled form of a layout's events.
pub open spec fn compiled(events: Seq<EventView>) -> Seq<StepView>
    decreases events.len(),
{
    if events.len() == 0 {
        Seq::empty()
    } else {
        compiled(events.drop_last()) + compile_step(events.last())
    }
}

/// The value of the first marker attribute, if any.
fn find_marker(attrs: &Vec<OwnedAttribute>) -> (r: Option<String>)
    ensures
        opt_view(r) == marker_value(attrs_view(attrs@)),
{
    let ghost all = attrs_view(attrs@);
    assert(all.subrange(0, all.len() as int) =~= all);
    let mut i: usize = 0;
    while i < attrs.len()
        invariant
            i <= attrs.len(),
            all == attrs_view(attrs@),
            marker_value(all) == marker_value(all.subrange(i as int, all.len() as int)),
        decreases attrs.len() - i,
    {
        assert(all.subrange(i as int, all.len() as int).drop_first() =~= all.subrange(
            i + 1,
            all.len() as int,
        ));
        let n = name_string(&attrs[i].name);
        proof {
            reveal_strlit("sr-prop");
        }
        if n == "sr-prop".to_string() {
            return Some(attrs[i].value.clone());
        }
        i = i + 1;
    }
    None
}

/// The attributes with every marker renamed.
fn rename_markers(attrs: Vec<OwnedAttribute>) -> (r: Vec<OwnedAttribute>)
    ensures
        attrs_view(r@) == attrs_view(attrs@).map_values(|a: AttrView| renamed_attr(a)),
{
    let ghost all = attrs@;
    let mut out: Vec<OwnedAttribute> = Vec::new();
    for a in it: attrs.into_iter()
        invariant
            it.seq() == all,
            out@.len() == it.index(),
            it.index() <= all.len(),
            attrs_view(out@) == attrs_view(all.take(it.index())).map_values(
                |a: AttrView| renamed_attr(a),
            ),
    {
        let n = name_string(&a.name);
        proof {
            reveal_strlit("sr-prop");
            reveal_strlit("data-sr-prop");
            assert(a == all[it.index() as int]);
            assert(all.take(it.index() + 1) =~= all.take(it.index() as int).push(a));
        }
        let ghost av = attr_view(a);
        let ghost before = out@;
        if n == "sr-prop".to_string() {
            assert(name_text(av.name) == marker_name());
            out.push(OwnedAttribute { name: local_name("data-sr-prop"), value: a.value });
            assert(attr_view(out@.last()) == renamed_attr(av));
        } else {
            assert(name_text(av.name) != marker_name());
            out.push(a);
        }
        assert(attr_view(out@.last()) == renamed_attr(av));
        assert(out@.drop_last() == before);
        assert forall|j: int| 0 <= j < before.len() implies attr_view(out@[j]) == renamed_attr(
            attr_view(all[j]),
        ) by {
            assert(attrs_view(before)[j] == attr_view(before[j]));
            assert(all.take(it.index() as int)[j] == all[j]);
        }
        assert(attrs_view(out@) =~= attrs_view(all.take(it.index() + 1)).map_values(
            |a: AttrView| renamed_attr(a),
        ));
    }
    assert(all.take(all.len() as int) =~= all);
    out
}


/// A compiled layout: its steps, the reader settings it was read with, and
/// the router library that it references.
pub struct Template {
    events: Vec<TemplateEvent>,
    parser_config: XmlConfig,
    library_path: String,
    /// The opening and closing tags that reference the library.
    library_ref: Vec<XmlEvent>,
}

/// The events that reference the router library at `path`.
pub open spec fn library_ref_view(path: Seq<char>) -> Seq<EventView> {
    let script = NameView { local: "script"@, namespace: None, prefix: None };
    let src = NameView { local: "src"@, namespace: None, prefix: None };
    seq![
        EventView::StartElement {
            name: script,
            attributes: seq![AttrView { name: src, value: path }],
            namespace: Map::empty(),
        },
        EventView::EndElement { name: script },
    ]
}

/// The events that reference the router library at `path`.
fn library_ref_events(path: &str) -> (r: Vec<XmlEvent>)
    ensures
        events_view(r@) == library_ref_view(path@),
{
    let attr = OwnedAttribute { name: local_name("src"), value: path.to_string() };
    let mut attributes: Vec<OwnedAttribute> = Vec::new();
    attributes.push(attr);
    let open = XmlEvent::StartElement {
        name: local_name("script"),
        attributes,
        namespace: Namespace(BTreeMap::new()),
    };
    let close = XmlEvent::EndElement { name: local_name("script") };
    let mut r: Vec<XmlEvent> = Vec::new();
    r.push(open);
    r.push(close);
    proof {
        assert(attrs_view(attributes@) =~= seq![attr_view(attr)]);
    }
    assert(events_view(r@) =~= library_ref_view(path@));
    r
}

impl Template {
    /// The template's pieces agree: its library reference points at its
    /// library path.
    pub closed spec fn wf(&self) -> bool {
        events_view(self.library_ref@) == library_ref_view(self.library_path@)
    }

    /// The steps of the layout, as plain values.
    pub closed spec fn steps(&self) -> Seq<StepView> {
        steps_view(self.events@)
    }

    /// The path of the router library that the template references.
    pub closed spec fn library(&self) -> Seq<char> {
        self.library_path@
    }

    /// The reader settings that the template was read with, and that its
    /// pages are read with.
    pub closed spec fn reader_config(&self) -> XmlConfig {
        self.parser_config
    }

    /// Compiles a layout from its events: the document start is dropped,
    /// each element with a marker attribute becomes a placeholder for the
    /// slot that the marker names (the marker renamed to its inspection
    /// form), and the library reference goes before each close of the mount
    /// element. Fails on the first marker whose slot name is malformed.
    pub fn from_events(events: Vec<XmlEvent>, parser_config: XmlConfig, library_path: String) -> (r:
        Result<Template, TemplateError>)
        ensures
            match first_malformed(events_view(events@)) {
                Some(v) => r matches Err(TemplateError::MalformedProp(p)) && p@ == v,
                None => r matches Ok(t) && t.wf() && t.steps() == compiled(events_view(events@))
                    && t.library() == library_path@ && t.reader_config() == parser_config,
            },
    {
        let ghost all = events@;
        let mut out: Vec<TemplateEvent> = Vec::new();
        assert(all.take(0) =~= Seq::<XmlEvent>::empty());
        assert(events_view(all.take(0)) =~= Seq::<EventView>::empty());
        for e in it: events.into_iter()
            invariant
                it.seq() == all,
                it.index() <= all.len(),
                first_malformed(events_view(all.take(it.index()))) is None,
                steps_view(out@) == compiled(events_view(all.take(it.index()))),
        {
            let ghost ev = event_view(e);
            let ghost prefix = events_view(all.take(it.index() as int));
            proof {
                assert(e == all[it.index() as int]);
                assert(events_view(all.take(it.index() + 1)) =~= prefix.push(ev));
                assert(prefix.push(ev).drop_last() =~= prefix);
            }
            let ghost before = out@;
            match e {
                XmlEvent::StartDocument { .. } => {},
                XmlEvent::StartElement { name, attributes, namespace } => {
                    match find_marker(&attributes) {
                        None => {
                            out.push(
                                TemplateEvent::Passthrough(
                                    XmlEvent::StartElement { name, attributes, namespace },
                                ),
                            );
                        },
                        Some(v) => {
                            if !is_valid_slot_name(v.as_str()) {
                                proof {
                                    let whole = events_view(all);
                                    assert(whole.take(it.index() + 1) =~= prefix.push(ev));
                                    lemma_first_malformed_prefix(whole, it.index() + 1);
                                }
                                return Err(TemplateError::MalformedProp(v));
                            }
                            let attributes = rename_markers(attributes);
                            out.push(
                                TemplateEvent::StartPlaceholder {
                                    prop: v,
                                    start: XmlEvent::StartElement { name, attributes, namespace },
                                },
                            );
                        },
                    }
                },
                XmlEvent::EndElement { name } => {
                    let n = name_string(&name);
                    proof {
                        reveal_strlit("head");
                    }
                    if n == "head".to_string() {
                        out.push(TemplateEvent::LibraryInsert);
                    }
                    out.push(TemplateEvent::Passthrough(XmlEvent::EndElement { name }));
                },
                other => {
                    out.push(TemplateEvent::Passthrough(other));
                },
            }
            assert(steps_view(out@) =~= steps_view(before) + compile_step(ev));
        }
        assert(all.take(all.len() as int) =~= all);
        let library_ref = library_ref_events(library_path.as_str());
        Ok(Template { events: out, parser_config, library_path, library_ref })
    }

    /// Reads a layout and compiles it (see `from_events`); a document that
    /// the reader rejects is a parse error.
    pub fn parse(text: &str, parser_config: XmlConfig, library_path: String) -> (r: Result<
        Template,
        TemplateError,
    >)
        ensures
            match parsed_markup(text@, parser_config.ignore_comments) {
                None => r matches Err(TemplateError::Parse(_)),
                Some(evs) => match first_malformed(evs) {
                    Some(v) => r matches Err(TemplateError::MalformedProp(p)) && p@ == v,
                    None => r matches Ok(t) && t.wf() && t.steps() == compiled(evs)
                        && t.library() == library_path@ && t.reader_config() == parser_config,
                },
            },
    {
        match read_markup(text, parser_config.ignore_comments) {
            Ok(events) => Template::from_events(events, parser_config, library_path),
            Err(e) => Err(TemplateError::Parse(e)),
        }
    }
}


/// The content of a page's slots: each slot name with the events that fill it.
/// Entries are kept in the order of insertion; a later entry for a name
/// hides the earlier ones.
pub struct Props {
    entries: Vec<(String, Vec<XmlEvent>)>,
}

/// The map that a list of entries stands for, later entries winning.
pub open spec fn entries_map(s: Seq<(String, Vec<XmlEvent>)>) -> Map<Seq<char>, Seq<EventView>>
    decreases s.len(),
{
    if s.len() == 0 {
        Map::empty()
    } else {
        entries_map(s.drop_last()).insert(s.last().0@, events_view(s.last().1@))
    }
}

/// Entries after `n` that do not name `k` do not change what `k` maps to.
proof fn lemma_entries_suffix(s: Seq<(String, Vec<XmlEvent>)>, n: int, k: Seq<char>)
    requires
        0 <= n <= s.len(),
        forall|j: int| n <= j < s.len() ==> (#[trigger] s[j]).0@ != k,
    ensures
        entries_map(s).contains_key(k) == entries_map(s.take(n)).contains_key(k),
        entries_map(s).contains_key(k) ==> entries_map(s)[k] == entries_map(s.take(n))[k],
    decreases s.len() - n,
{
    if n < s.len() {
        let t = s.drop_last();
        assert(t.take(n) =~= s.take(n));
        assert forall|j: int| n <= j < t.len() implies (#[trigger] t[j]).0@ != k by {
            assert(t[j] == s[j]);
        }
        lemma_entries_suffix(t, n, k);
    } else {
        assert(s.take(n) =~= s);
    }
}

impl Props {
    pub closed spec fn view(&self) -> Map<Seq<char>, Seq<EventView>> {
        entries_map(self.entries@)
    }

    pub fn new() -> (r: Props)
        ensures
            r@ == Map::<Seq<char>, Seq<EventView>>::empty(),
    {
        Props { entries: Vec::new() }
    }

    /// Sets the content of slot `name`, replacing any earlier content.
    pub fn insert(&mut self, name: String, events: Vec<XmlEvent>)
        ensures
            final(self)@ == old(self)@.insert(name@, events_view(events@)),
    {
        let ghost before = self.entries@;
        self.entries.push((name, events));
        assert(self.entries@.drop_last() =~= before);
    }

    /// The content of slot `name`, if any.
    pub fn get(&self, name: &str) -> (r: Option<&Vec<XmlEvent>>)
        ensures
            match r {
                Some(v) => self@.contains_key(name@) && self@[name@] == events_view(v@),
                None => !self@.contains_key(name@),
            },
    {
        let ghost s = self.entries@;
        let key = name.to_string();
        let mut i: usize = self.entries.len();
        while i > 0
            invariant
                i <= s.len(),
                s == self.entries@,
                key@ == name@,
                forall|j: int| i <= j < s.len() ==> (#[trigger] s[j]).0@ != name@,
            decreases i,
        {
            i = i - 1;
            if self.entries[i].0 == key {
                proof {
                    lemma_entries_suffix(s, i + 1, name@);
                    assert(s.take(i + 1).drop_last() =~= s.take(i as int));
                }
                return Some(&self.entries[i].1);
            }
        }
        proof {
            lemma_entries_suffix(s, 0, name@);
        }
        None
    }
}

/// The state of the page extractor: the slot being captured, what it has
/// captured so far, and the slots committed.
pub struct ExtractState {
    pub cursor: Option<Seq<char>>,
    pub buf: Seq<EventView>,
    pub props: Map<Seq<char>, Seq<EventView>>,
}

/// One event of a page. With no slot open, an opening tag opens the slot of
/// its name; with one open, a closing tag of that very name commits the
/// capture, and any other event is captured.
pub open spec fn extract_step(st: ExtractState, e: EventView) -> ExtractState {
    match st.cursor {
        None => match e {
            EventView::StartElement { name, .. } => ExtractState {
                cursor: Some(name_text(name)),
                ..st
            },
            _ => st,
        },
        Some(p) => match e {
            EventView::EndElement { name } => if name_text(name) == p {
                ExtractState { cursor: None, buf: Seq::empty(), props: st.props.insert(p, st.buf) }
            } else {
                ExtractState { buf: st.buf.push(e), ..st }
            },
            _ => ExtractState { buf: st.buf.push(e), ..st },
        },
    }
}

pub open spec fn extract_state(events: Seq<EventView>) -> ExtractState
    decreases events.len(),
{
    if events.len() == 0 {
        ExtractState { cursor: None, buf: Seq::empty(), props: Map::empty() }
    } else {
        extract_step(extract_state(events.drop_last()), events.last())
    }
}

/// The slots of a page: each top-level element's content under its name.
pub open spec fn extracted(events: Seq<EventView>) -> Map<Seq<char>, Seq<EventView>> {
    extract_state(events).props
}

/// Extracts the slots of a page from its events. A slot closes at the first
/// closing tag with its name, nested or not; a slot left open at the end of
/// the page is dropped.
pub fn extract_props(events: Vec<XmlEvent>) -> (r: Props)
    ensures
        r@ == extracted(events_view(events@)),
{
    let ghost all = events@;
    let mut props = Props::new();
    let mut cursor: Option<String> = None;
    let mut buf: Vec<XmlEvent> = Vec::new();
    assert(events_view(all.take(0)) =~= Seq::<EventView>::empty());
    assert(events_view(buf@) =~= Seq::<EventView>::empty());
    for e in it: events.into_iter()
        invariant
            it.seq() == all,
            it.index() <= all.len(),
            opt_view(cursor) == extract_state(events_view(all.take(it.index()))).cursor,
            events_view(buf@) == extract_state(events_view(all.take(it.index()))).buf,
            props@ == extract_state(events_view(all.take(it.index()))).props,
    {
        let ghost ev = event_view(e);
        let ghost prefix = events_view(all.take(it.index() as int));
        proof {
            assert(e == all[it.index() as int]);
            assert(events_view(all.take(it.index() + 1)) =~= prefix.push(ev));
            assert(prefix.push(ev).drop_last() =~= prefix);
        }
        let ghost old_buf = buf@;
        match cursor {
            None => {
                match e {
                    XmlEvent::StartElement { name, .. } => {
                        cursor = Some(name_string(&name));
                    },
                    _ => {},
                }
            },
            Some(p) => {
                match e {
                    XmlEvent::EndElement { name } => {
                        if name_string(&name) == p {
                            props.insert(p, buf);
                            buf = Vec::new();
                            assert(events_view(buf@) =~= Seq::<EventView>::empty());
                            cursor = None;
                        } else {
                            buf.push(XmlEvent::EndElement { name });
                            assert(events_view(buf@) =~= events_view(old_buf).push(ev));
                            cursor = Some(p);
                        }
                    },
                    other => {
                        buf.push(other);
                        assert(events_view(buf@) =~= events_view(old_buf).push(ev));
                        cursor = Some(p);
                    },
                }
            },
        }
    }
    assert(all.take(all.len() as int) =~= all);
    props
}


/// What one step of a layout renders to.
pub open spec fn render_step(
    t: StepView,
    props: Map<Seq<char>, Seq<EventView>>,
    library: Seq<EventView>,
) -> Seq<EventView> {
    match t {
        StepView::Passthrough(e) => seq![e],
        StepView::LibraryInsert => library,
        StepView::StartPlaceholder { prop, start } => seq![start] + props[prop],
    }
}

/// The events of the rendered document.
pub open spec fn rendered(
    steps: Seq<StepView>,
    props: Map<Seq<char>, Seq<EventView>>,
    library: Seq<EventView>,
) -> Seq<EventView>
    decreases steps.len(),
{
    if steps.len() == 0 {
        Seq::empty()
    } else {
        rendered(steps.drop_last(), props, library) + render_step(steps.last(), props, library)
    }
}

/// The first slot, in layout order, that the layout declares and `props` lacks.
pub open spec fn missing_prop(steps: Seq<StepView>, props: Map<Seq<char>, Seq<EventView>>) -> Option<
    Seq<char>,
>
    decreases steps.len(),
{
    if steps.len() == 0 {
        None
    } else {
        match missing_prop(steps.drop_last(), props) {
            Some(p) => Some(p),
            None => match steps.last() {
                StepView::StartPlaceholder { prop, .. } => if props.contains_key(prop) {
                    None
                } else {
                    Some(prop)
                },
                _ => None,
            },
        }
    }
}

/// Each placeholder's slot with the events injected into it, in layout order.
pub open spec fn injected(steps: Seq<StepView>, props: Map<Seq<char>, Seq<EventView>>) -> Seq<
    (Seq<char>, Seq<EventView>),
>
    decreases steps.len(),
{
    if steps.len() == 0 {
        Seq::empty()
    } else {
        let rest = injected(steps.drop_last(), props);
        match steps.last() {
            StepView::StartPlaceholder { prop, .. } => rest.push((prop, props[prop])),
            _ => rest,
        }
    }
}

/// Each slot with the text of its fragment, or `None` where the writer
/// refuses one of the fragments.
pub open spec fn fragments_text(s: Seq<(Seq<char>, Seq<EventView>)>) -> Option<
    Seq<(Seq<char>, Seq<char>)>,
>
    decreases s.len(),
{
    if s.len() == 0 {
        Some(Seq::empty())
    } else {
        match (fragments_text(s.drop_last()), markup_text(s.last().1)) {
            (Some(rest), Some(t)) => Some(rest.push((s.last().0, t))),
            _ => None,
        }
    }
}

/// A rendered page: the document and its sidecar, a JSON object from each
/// filled slot to the markup injected into it.
#[derive(Debug)]
pub struct Rendered {
    pub html: String,
    pub json: String,
}

/// What rendering a layout's steps with `props` gives.
pub open spec fn render_outcome(
    steps: Seq<StepView>,
    props: Map<Seq<char>, Seq<EventView>>,
    library: Seq<EventView>,
    r: Result<Rendered, TemplateError>,
) -> bool {
    match missing_prop(steps, props) {
        Some(p) => r matches Err(TemplateError::MissingProp(n)) && n@ == p,
        None => match (
            markup_text(rendered(steps, props, library)),
            fragments_text(injected(steps, props)),
        ) {
            (Some(h), Some(f)) => r matches Ok(out) && out.html@ == h && out.json@
                == json_object_text(f),
            _ => r matches Err(TemplateError::Write(_)),
        },
    }
}

impl Template {
    /// Replays the layout with the slots of `props`: each step is written to
    /// the document, each placeholder followed by its slot's events, which
    /// also go, as a fragment of their own, into the sidecar. Fails on the
    /// first slot that `props` lacks, and otherwise where the writer refuses
    /// the document or a fragment. Both texts are built in memory and
    /// handed back whole, so a failed render leaves nothing to write.
    pub fn render(&self, props: &Props) -> (r: Result<Rendered, TemplateError>)
        requires
            self.wf(),
        ensures
            render_outcome(self.steps(), props@, library_ref_view(self.library()), r),
    {
        let ghost steps = self.steps();
        let ghost library = library_ref_view(self.library_path@);
        let mut doc: Vec<&XmlEvent> = Vec::new();
        let mut frags: Vec<(&String, Vec<&XmlEvent>)> = Vec::new();
        let n = self.events.len();
        assert(steps.take(0) =~= Seq::<StepView>::empty());
        assert(ref_events_view(doc@) =~= Seq::<EventView>::empty());
        for i in 0..n
            invariant
                n == self.events.len(),
                self.wf(),
                steps == self.steps(),
                library == library_ref_view(self.library_path@),
                missing_prop(steps.take(i as int), props@) is None,
                ref_events_view(doc@) == rendered(steps.take(i as int), props@, library),
                frags@.len() == injected(steps.take(i as int), props@).len(),
                forall|j: int|
                    0 <= j < frags@.len() ==> (#[trigger] frags@[j]).0@ == injected(
                        steps.take(i as int),
                        props@,
                    )[j].0 && ref_events_view(frags@[j].1@) == injected(
                        steps.take(i as int),
                        props@,
                    )[j].1,
        {
            let ghost t = steps[i as int];
            let ghost before = doc@;
            let ghost frags_before = frags@;
            proof {
                assert(steps.take(i + 1).drop_last() =~= steps.take(i as int));
                assert(steps.take(i + 1).last() == t);
            }
            match &self.events[i] {
                TemplateEvent::Passthrough(e) => {
                    doc.push(e);
                },
                TemplateEvent::LibraryInsert => {
                    assert(self.library_ref@.len() == events_view(self.library_ref@).len());
                    doc.push(&self.library_ref[0]);
                    doc.push(&self.library_ref[1]);
                    assert(ref_events_view(doc@) =~= ref_events_view(before) + library);
                },
                TemplateEvent::StartPlaceholder { prop, start } => {
                    doc.push(start);
                    match props.get(prop.as_str()) {
                        None => {
                            proof {
                                assert(missing_prop(steps.take(i + 1), props@) == Some(prop@));
                                lemma_missing_prefix(steps, props@, i + 1);
                            }
                            return Err(TemplateError::MissingProp(prop.clone()));
                        },
                        Some(v) => {
                            let mut frag: Vec<&XmlEvent> = Vec::new();
                            let ghost mid = doc@;
                            for j in 0..v.len()
                                invariant
                                    ref_events_view(frag@) == events_view(v@.take(j as int)),
                                    doc@ == mid + frag@,
                            {
                                doc.push(&v[j]);
                                frag.push(&v[j]);
                                assert(events_view(v@.take(j + 1)) =~= events_view(
                                    v@.take(j as int),
                                ).push(event_view(v@[j as int])));
                                assert(ref_events_view(frag@) =~= ref_events_view(
                                    frag@.drop_last(),
                                ).push(event_view(v@[j as int])));
                            }
                            assert(v@.take(v@.len() as int) =~= v@);
                            assert(ref_events_view(doc@) =~= ref_events_view(mid)
                                + ref_events_view(frag@));
                            frags.push((prop, frag));
                        },
                    }
                },
            }
            assert(ref_events_view(doc@) =~= rendered(steps.take(i + 1), props@, library));
            assert forall|j: int| 0 <= j < frags@.len() implies (#[trigger] frags@[j]).0@
                == injected(steps.take(i + 1), props@)[j].0 && ref_events_view(frags@[j].1@)
                == injected(steps.take(i + 1), props@)[j].1 by {
                if j < frags_before.len() {
                    assert(frags@[j] == frags_before[j]);
                }
            }
        }
        assert(steps.take(n as int) =~= steps);
        let html = match write_markup(&doc) {
            Ok(h) => h,
            Err(e) => {
                return Err(TemplateError::Write(e));
            },
        };
        let ghost inj = injected(steps, props@);
        let mut side: Vec<(String, String)> = Vec::new();
        let m = frags.len();
        assert(inj.take(0) =~= Seq::<(Seq<char>, Seq<EventView>)>::empty());
        assert(pair_views(side@) =~= Seq::<(Seq<char>, Seq<char>)>::empty());
        for k in 0..m
            invariant
                m == frags@.len(),
                m == inj.len(),
                inj == injected(steps, props@),
                missing_prop(steps, props@) is None,
                markup_text(rendered(steps, props@, library)) == Some(html@),
                steps == self.steps(),
                library == library_ref_view(self.library_path@),
                forall|j: int|
                    0 <= j < frags@.len() ==> (#[trigger] frags@[j]).0@ == inj[j].0
                        && ref_events_view(frags@[j].1@) == inj[j].1,
                fragments_text(inj.take(k as int)) == Some(pair_views(side@)),
        {
            let ghost before = side@;
            assert(inj.take(k + 1).drop_last() =~= inj.take(k as int));
            assert(inj.take(k + 1).last() == inj[k as int]);
            assert(ref_events_view(frags@[k as int].1@) == inj[k as int].1);
            match write_markup(&frags[k].1) {
                Ok(text) => {
                    side.push((frags[k].0.clone(), text));
                    assert(pair_views(side@) =~= pair_views(before).push((inj[k as int].0, text@)));
                },
                Err(e) => {
                    proof {
                        lemma_fragments_prefix(inj, k + 1);
                    }
                    return Err(TemplateError::Write(e));
                },
            }
        }
        assert(inj.take(m as int) =~= inj);
        let json = write_json_object(&side);
        Ok(Rendered { html, json })
    }
}

/// The first missing slot of a prefix is the first of the whole layout.
proof fn lemma_missing_prefix(s: Seq<StepView>, props: Map<Seq<char>, Seq<EventView>>, n: int)
    requires
        0 <= n <= s.len(),
        missing_prop(s.take(n), props) is Some,
    ensures
        missing_prop(s, props) == missing_prop(s.take(n), props),
    decreases s.len() - n,
{
    if n < s.len() {
        assert(s.take(n + 1).drop_last() =~= s.take(n));
        lemma_missing_prefix(s, props, n + 1);
    } else {
        assert(s.take(n) =~= s);
    }
}

/// A fragment that the writer refuses spoils the whole sidecar.
proof fn lemma_fragments_prefix(s: Seq<(Seq<char>, Seq<EventView>)>, n: int)
    requires
        0 <= n <= s.len(),
        fragments_text(s.take(n)) is None,
    ensures
        fragments_text(s) is None,
    decreases s.len() - n,
{
    if n < s.len() {
        assert(s.take(n + 1).drop_last() =~= s.take(n));
        lemma_fragments_prefix(s, n + 1);
    } else {
        assert(s.take(n) =~= s);
    }
}


/// The slots of a page: what its top-level elements hold, and the system
/// slot `__path` set to the page's route whatever the page holds.
pub open spec fn page_props(page: Seq<EventView>, route: Seq<char>) -> Map<
    Seq<char>,
    Seq<EventView>,
> {
    extracted(page).insert(path_slot(), seq![EventView::Characters(route)])
}

impl Template {
    /// Renders a page from its events: its slots are extracted, the system
    /// slot `__path` is set to `route`, and the layout is replayed with them.
    pub fn render_page_events(&self, page: Vec<XmlEvent>, route: String) -> (r: Result<
        Rendered,
        TemplateError,
    >)
        requires
            self.wf(),
        ensures
            render_outcome(
                self.steps(),
                page_props(events_view(page@), route@),
                library_ref_view(self.library()),
                r,
            ),
    {
        let mut props = extract_props(page);
        let mut value: Vec<XmlEvent> = Vec::new();
        let ghost r = route@;
        value.push(XmlEvent::Characters(route));
        assert(events_view(value@) =~= seq![EventView::Characters(r)]);
        proof {
            reveal_strlit("__path");
        }
        props.insert("__path".to_string(), value);
        self.render(&props)
    }

    /// Reads a page with the layout's reader settings and renders it (see
    /// `render_page_events`); a page that the reader rejects is a parse error.
    pub fn render_page(&self, page: &str, route: String) -> (r: Result<Rendered, TemplateError>)
        requires
            self.wf(),
        ensures
            match parsed_markup(page@, self.reader_config().ignore_comments) {
                None => r matches Err(TemplateError::Parse(_)),
                Some(evs) => render_outcome(
                    self.steps(),
                    page_props(evs, route@),
                    library_ref_view(self.library()),
                    r,
                ),
            },
    {
        match read_markup(page, self.parser_config.ignore_comments) {
            Ok(events) => self.render_page_events(events, route),
            Err(e) => Err(TemplateError::Parse(e)),
        }
    }
}

/// Each injected entry holds the slot's content from `props`.
proof fn lemma_injected_entry(steps: Seq<StepView>, props: Map<Seq<char>, Seq<EventView>>, k: int)
    requires
        0 <= k < injected(steps, props).len(),
    ensures
        injected(steps, props)[k].1 == props[injected(steps, props)[k].0],
    decreases steps.len(),
{
    let rest = injected(steps.drop_last(), props);
    if k < rest.len() {
        lemma_injected_entry(steps.drop_last(), props, k);
    }
}

/// Each fragment text belongs to its entry.
proof fn lemma_fragment_entry(s: Seq<(Seq<char>, Seq<EventView>)>, f: Seq<(Seq<char>, Seq<char>)>, k: int)
    requires
        fragments_text(s) == Some(f),
        0 <= k < s.len(),
    ensures
        f.len() == s.len(),
        f[k].0 == s[k].0,
        markup_text(s[k].1) == Some(f[k].1),
    decreases s.len(),
{
    if s.len() > 0 {
        let rest = fragments_text(s.drop_last())->Some_0;
        if k < s.len() - 1 {
            lemma_fragment_entry(s.drop_last(), rest, k);
        } else {
            if s.len() > 1 {
                lemma_fragment_entry(s.drop_last(), rest, 0);
            }
        }
    }
}

/// Round trip of a slot: where a page fills a slot that the layout declares,
/// the sidecar records for that placeholder the slot's name and the text of
/// exactly the events that the page holds for it.
pub proof fn law_slot_round_trip(
    steps: Seq<StepView>,
    page: Seq<EventView>,
    route: Seq<char>,
    k: int,
    f: Seq<(Seq<char>, Seq<char>)>,
)
    requires
        0 <= k < injected(steps, page_props(page, route)).len(),
        injected(steps, page_props(page, route))[k].0 != path_slot(),
        extracted(page).contains_key(injected(steps, page_props(page, route))[k].0),
        fragments_text(injected(steps, page_props(page, route))) == Some(f),
    ensures
        f[k].0 == injected(steps, page_props(page, route))[k].0,
        markup_text(extracted(page)[f[k].0]) == Some(f[k].1),
{
    let inj = injected(steps, page_props(page, route));
    lemma_injected_entry(steps, page_props(page, route), k);
    lemma_fragment_entry(inj, f, k);
}

/// Whether the layout declares slot `x` with a placeholder.
pub open spec fn declares(steps: Seq<StepView>, x: Seq<char>) -> bool {
    exists|j: int|
        0 <= j < steps.len() && (#[trigger] steps[j] matches StepView::StartPlaceholder {
            prop,
            ..
        } && prop == x)
}

/// A slot that the layout declares and nothing supplies fails the render
/// with a missing-slot error, naming a slot that the layout declares and
/// that is absent (so the slot itself, where it is the only one missing),
/// and no output is produced.
pub proof fn law_missing_slot_fails(
    steps: Seq<StepView>,
    props: Map<Seq<char>, Seq<EventView>>,
    library: Seq<EventView>,
    r: Result<Rendered, TemplateError>,
    i: int,
)
    requires
        0 <= i < steps.len(),
        steps[i] matches StepView::StartPlaceholder { prop, .. } && !props.contains_key(prop),
        render_outcome(steps, props, library, r),
    ensures
        r matches Err(TemplateError::MissingProp(n)) && !props.contains_key(n@) && declares(
            steps,
            n@,
        ),
{
    lemma_missing_is_absent(steps, props);
    if missing_prop(steps, props) is None {
        lemma_missing_none(steps, props, i);
    }
    lemma_missing_declared(steps, props);
}

proof fn lemma_missing_declared(steps: Seq<StepView>, props: Map<Seq<char>, Seq<EventView>>)
    ensures
        missing_prop(steps, props) matches Some(p) ==> declares(steps, p),
    decreases steps.len(),
{
    if steps.len() > 0 {
        lemma_missing_declared(steps.drop_last(), props);
        if let Some(p) = missing_prop(steps.drop_last(), props) {
            let j = choose|j: int|
                0 <= j < steps.drop_last().len() && (#[trigger] steps.drop_last()[j] matches StepView::StartPlaceholder {
                    prop,
                    ..
                } && prop == p);
            assert(steps[j] == steps.drop_last()[j]);
        } else if let Some(p) = missing_prop(steps, props) {
            assert(steps[steps.len() - 1] == steps.last());
        }
    }
}

proof fn lemma_missing_is_absent(steps: Seq<StepView>, props: Map<Seq<char>, Seq<EventView>>)
    ensures
        missing_prop(steps, props) matches Some(p) ==> !props.contains_key(p),
    decreases steps.len(),
{
    if steps.len() > 0 {
        lemma_missing_is_absent(steps.drop_last(), props);
    }
}

proof fn lemma_missing_none(steps: Seq<StepView>, props: Map<Seq<char>, Seq<EventView>>, i: int)
    requires
        0 <= i < steps.len(),
        missing_prop(steps, props) is None,
    ensures
        steps[i] matches StepView::StartPlaceholder { prop, .. } ==> props.contains_key(prop),
    decreases steps.len(),
{
    if i < steps.len() - 1 {
        assert(steps.drop_last()[i] == steps[i]);
        lemma_missing_none(steps.drop_last(), props, i);
    }
}

/// The system slot `__path` holds the page's route as text, whatever the
/// page itself holds.
pub proof fn law_path_slot(page: Seq<EventView>, route: Seq<char>)
    ensures
        page_props(page, route).contains_key(path_slot()),
        page_props(page, route)[path_slot()] == seq![EventView::Characters(route)],
{
}

/// Rendering is a function of the layout and the slots: two renders of the
/// same page with the same layout give the same document and sidecar.
pub proof fn law_render_deterministic(
    steps: Seq<StepView>,
    props: Map<Seq<char>, Seq<EventView>>,
    library: Seq<EventView>,
    r1: Result<Rendered, TemplateError>,
    r2: Result<Rendered, TemplateError>,
)
    requires
        render_outcome(steps, props, library, r1),
        render_outcome(steps, props, library, r2),
    ensures
        r1 is Ok <==> r2 is Ok,
        r1 matches Ok(a) ==> r2 matches Ok(b) && a.html@ == b.html@ && a.json@ == b.json@,
{
}

} // verus!
