//! The logo that an application package declares in its manifest.
use vstd::prelude::*;
use vstd::utf8::{decode_utf8, encode_utf8, is_char_boundary};
use xml::reader::XmlEvent;
use xml::EventReader;

use crate::text::{content_of, text_eq, text_of, texts};

verus! {

/// An attribute of an element, without the namespace of its name.
pub struct ManifestAttribute {
    pub name: String,
    pub value: String,
}

/// One event in a document.
pub enum ManifestEvent {
    /// An element opens. Its name is without namespace.
    Start { name: String, attributes: Vec<ManifestAttribute> },
    /// The innermost open element closes.
    End,
    /// The document cannot be read on.
    Failure,
    /// Anything else.
    Other,
}

/// The content of a `ManifestEvent`.
pub enum EventView {
    Start { name: Seq<char>, attributes: Seq<(Seq<char>, Seq<char>)> },
    End,
    Failure,
    Other,
}

pub open spec fn attribute_views(attributes: Seq<ManifestAttribute>) -> Seq<
    (Seq<char>, Seq<char>),
> {
    attributes.map_values(|a: ManifestAttribute| (a.name@, a.value@))
}

impl View for ManifestEvent {
    type V = EventView;

    open spec fn view(&self) -> EventView {
        match self {
            ManifestEvent::Start { name, attributes } => EventView::Start {
                name: name@,
                attributes: attribute_views(attributes@),
            },
            ManifestEvent::End => EventView::End,
            ManifestEvent::Failure => EventView::Failure,
            ManifestEvent::Other => EventView::Other,
        }
    }
}

pub open spec fn event_views(events: Seq<ManifestEvent>) -> Seq<EventView> {
    events.map_values(|e: ManifestEvent| e@)
}

/// How many elements are open after the first `count` events.
pub open spec fn open_elements(events: Seq<EventView>, count: int) -> int
    decreases count,
{
    if count <= 0 {
        0
    } else {
        let before = open_elements(events, count - 1);
        match events[count - 1] {
            EventView::Start { .. } => before + 1,
            EventView::End => before - 1,
            _ => before,
        }
    }
}

/// No element closes that did not open.
pub open spec fn well_nested(events: Seq<EventView>) -> bool {
    forall|count: int| 0 <= count <= events.len() ==> #[trigger] open_elements(events, count) >= 0
}

/// The events that a reader of the `xml` crate finds in a document.
pub uninterp spec fn xml_events(document: Seq<u8>) -> Seq<EventView>;

/// `xml::EventReader`, walked to its end: what it finds depends on the document
/// alone, and it reports the end of an element only after its start.
#[verifier::external_body]
fn read_events(document: &[u8]) -> (events: Vec<ManifestEvent>)
    ensures
        event_views(events@) == xml_events(document@),
        well_nested(event_views(events@)),
{
    EventReader::new(document).into_iter().map(|event| match event {
        Ok(XmlEvent::StartElement { name, attributes, .. }) => ManifestEvent::Start {
            name: name.local_name,
            attributes: attributes.into_iter().map(
                |a| ManifestAttribute { name: a.name.local_name, value: a.value },
            ).collect(),
        },
        Ok(XmlEvent::EndElement { .. }) => ManifestEvent::End,
        Ok(_) => ManifestEvent::Other,
        Err(_) => ManifestEvent::Failure,
    }).collect()
}

/// Names with a slash between each two.
pub open spec fn joined(names: Seq<Seq<char>>) -> Seq<char>
    decreases names.len(),
{
    if names.len() == 0 {
        Seq::empty()
    } else if names.len() == 1 {
        names[0]
    } else {
        joined(names.drop_last()) + "/"@ + names.last()
    }
}

pub open spec fn is_logo_name(name: Seq<char>) -> bool {
    name == "Square44x44Logo"@ || name == "Square30x30Logo"@ || name == "SmallLogo"@
}

/// Some attribute names the executable.
pub open spec fn names_executable(
    attributes: Seq<(Seq<char>, Seq<char>)>,
    executable: Seq<char>,
) -> bool {
    exists|i: int|
        0 <= i < attributes.len() && (#[trigger] attributes[i]) == ("Executable"@, executable)
}

/// The value of the first attribute that names a logo.
pub open spec fn logo_attribute(attributes: Seq<(Seq<char>, Seq<char>)>) -> Option<Seq<char>>
    decreases attributes.len(),
{
    if attributes.len() == 0 {
        None
    } else if is_logo_name(attributes.first().0) {
        Some(attributes.first().1)
    } else {
        logo_attribute(attributes.drop_first())
    }
}

/// The logo found from event `at` on, below the elements `open`. `matched` tells
/// whether the application entered last is the one that is looked for; without an
/// executable to look for, every application is.
pub open spec fn logo_from(
    events: Seq<EventView>,
    at: int,
    open: Seq<Seq<char>>,
    matched: bool,
    executable: Option<Seq<char>>,
) -> Option<Seq<char>>
    decreases events.len() - at,
{
    if at >= events.len() {
        None
    } else {
        match events[at] {
            EventView::Start { name, attributes } => {
                let inner = open.push(name);
                let path = joined(inner);
                if path == "Package/Applications/Application"@ {
                    let found = if executable is Some {
                        names_executable(attributes, executable->0)
                    } else {
                        matched
                    };
                    logo_from(events, at + 1, inner, found, executable)
                } else if path == "Package/Applications/Application/VisualElements"@ && matched
                    && logo_attribute(attributes) is Some {
                    logo_attribute(attributes)
                } else {
                    logo_from(events, at + 1, inner, matched, executable)
                }
            },
            EventView::End => logo_from(events, at + 1, open.drop_last(), matched, executable),
            EventView::Failure => None,
            EventView::Other => logo_from(events, at + 1, open, matched, executable),
        }
    }
}

/// The logo that a manifest declares for an executable, or for its first
/// application.
pub open spec fn declared_logo(
    events: Seq<EventView>,
    executable: Option<Seq<char>>,
) -> Option<Seq<char>> {
    logo_from(events, 0, Seq::empty(), executable is None, executable)
}

fn join_names(names: &Vec<String>) -> (path: String)
    ensures
        path@ == joined(texts(names@)),
{
    let mut path: String = String::new();
    let mut i: usize = 0;
    while i < names.len()
        invariant
            i <= names@.len(),
            path@ == joined(texts(names@).take(i as int)),
        decreases names@.len() - i,
    {
        let ghost all = texts(names@);
        let ghost before = path@;
        assert(all.take(i + 1).drop_last() =~= all.take(i as int));
        if i > 0 {
            path.append("/");
        }
        path.append(names[i].as_str());
        proof {
            if i == 0 {
                assert(before =~= Seq::<char>::empty());
                assert(path@ =~= all[0]);
            }
        }
        i += 1;
    }
    assert(texts(names@).take(i as int) =~= texts(names@));
    path
}

fn has_executable(attributes: &Vec<ManifestAttribute>, executable: &str) -> (found: bool)
    ensures
        found == names_executable(attribute_views(attributes@), executable@),
{
    let mut i: usize = 0;
    while i < attributes.len()
        invariant
            i <= attributes@.len(),
            forall|j: int|
                0 <= j < i ==> #[trigger] attribute_views(attributes@)[j] != (
                    "Executable"@,
                    executable@,
                ),
        decreases attributes@.len() - i,
    {
        let attribute: &ManifestAttribute = &attributes[i];
        assert(attribute_views(attributes@)[i as int] == (attribute.name@, attribute.value@));
        if text_eq(attribute.name.as_str(), "Executable") && text_eq(
            attribute.value.as_str(),
            executable,
        ) {
            return true;
        }
        i += 1;
    }
    false
}

fn find_logo(attributes: &Vec<ManifestAttribute>) -> (value: Option<String>)
    ensures
        content_of(value) == logo_attribute(attribute_views(attributes@)),
{
    let ghost all = attribute_views(attributes@);
    let mut i: usize = 0;
    assert(all.skip(0) =~= all);
    while i < attributes.len()
        invariant
            i <= attributes@.len(),
            all == attribute_views(attributes@),
            logo_attribute(all) == logo_attribute(all.skip(i as int)),
        decreases attributes@.len() - i,
    {
        let attribute: &ManifestAttribute = &attributes[i];
        assert(all.skip(i as int).drop_first() =~= all.skip(i + 1));
        assert(all.skip(i as int).first() == (attribute.name@, attribute.value@));
        let name: &str = attribute.name.as_str();
        if text_eq(name, "Square44x44Logo") || text_eq(name, "Square30x30Logo") || text_eq(
            name,
            "SmallLogo",
        ) {
            return Some(attribute.value.clone());
        }
        i += 1;
    }
    assert(all.skip(i as int).len() == 0);
    None
}

/// The logo among the events of a manifest.
pub fn appx_logo_value(events: &Vec<ManifestEvent>, executable: Option<&str>) -> (logo: Option<
    String,
>)
    requires
        well_nested(event_views(events@)),
    ensures
        content_of(logo) == declared_logo(event_views(events@), text_of(executable)),
{
    let ghost all = event_views(events@);
    let mut names: Vec<String> = Vec::new();
    let mut matched: bool = executable.is_none();
    let mut i: usize = 0;
    assert(texts(names@) =~= Seq::<Seq<char>>::empty());
    while i < events.len()
        invariant
            i <= events@.len(),
            all == event_views(events@),
            well_nested(all),
            names@.len() == open_elements(all, i as int),
            declared_logo(all, text_of(executable)) == logo_from(
                all,
                i as int,
                texts(names@),
                matched,
                text_of(executable),
            ),
        decreases events@.len() - i,
    {
        let event: &ManifestEvent = &events[i];
        let ghost outer = texts(names@);
        assert(all[i as int] == event@);
        assert(open_elements(all, i + 1) >= 0);
        match event {
            ManifestEvent::Start { name, attributes } => {
                names.push(name.clone());
                assert(texts(names@) =~= outer.push(name@));
                let path: String = join_names(&names);
                if text_eq(path.as_str(), "Package/Applications/Application") {
                    if let Some(exe) = executable {
                        matched = has_executable(attributes, exe);
                    }
                } else if text_eq(path.as_str(), "Package/Applications/Application/VisualElements")
                    && matched {
                    let value: Option<String> = find_logo(attributes);
                    if value.is_some() {
                        return value;
                    }
                }
            },
            ManifestEvent::End => {
                let _ = names.pop();
                assert(texts(names@) =~= outer.drop_last());
            },
            ManifestEvent::Failure => {
                return None;
            },
            ManifestEvent::Other => {},
        }
        i += 1;
    }
    None
}

/// The logo that a manifest declares for an executable; without one, that of its
/// first application which declares any.
pub fn read_appx_logo_value(document: &[u8], executable: Option<&str>) -> (logo: Option<String>)
    ensures
        content_of(logo) == declared_logo(xml_events(document@), text_of(executable)),
{
    let events = read_events(document);
    appx_logo_value(&events, executable)
}

/// A text without its last `count` bytes.
pub open spec fn without_last_bytes(text: Seq<char>, count: int) -> Seq<char> {
    decode_utf8(encode_utf8(text).take(encode_utf8(text).len() - count))
}

/// The names of a logo in the sizes that are looked for, best first.
pub open spec fn sized_names(stem: Seq<char>, extension: Seq<char>) -> Seq<Seq<char>> {
    seq![
        stem + "."@ + "targetsize-256"@ + "."@ + extension,
        stem + "."@ + "targetsize-128"@ + "."@ + extension,
        stem + "."@ + "scale-200"@ + "."@ + extension,
        stem + "."@ + "scale-100"@ + "."@ + extension,
    ]
}

fn sized_name(stem: &str, size: &str, extension: &str) -> (name: String)
    ensures
        name@ == stem@ + "."@ + size@ + "."@ + extension@,
{
    let mut name: String = stem.to_owned();
    name.append(".");
    name.append(size);
    name.append(".");
    name.append(extension);
    name
}

/// The files that a logo may stand in, given its path and the extension that the
/// path ends with.
pub fn appx_logo_candidates(logo_path: &str, extension: &str) -> (names: Vec<String>)
    requires
        encode_utf8(extension@).len() < encode_utf8(logo_path@).len(),
        is_char_boundary(
            encode_utf8(logo_path@),
            encode_utf8(logo_path@).len() - encode_utf8(extension@).len() - 1,
        ),
    ensures
        texts(names@) == sized_names(
            without_last_bytes(logo_path@, encode_utf8(extension@).len() as int + 1),
            extension@,
        ),
{
    let place: usize = logo_path.as_bytes().len() - extension.as_bytes().len() - 1;
    let (stem, _) = logo_path.split_at(place);
    proof {
        vstd::utf8::encode_utf8_decode_utf8(stem@);
    }
    let mut names: Vec<String> = Vec::new();
    names.push(sized_name(stem, "targetsize-256", extension));
    names.push(sized_name(stem, "targetsize-128", extension));
    names.push(sized_name(stem, "scale-200", extension));
    names.push(sized_name(stem, "scale-100", extension));
    assert(texts(names@) =~= sized_names(stem@, extension@));
    names
}

/// The names whose file is there.
pub open spec fn present(names: Seq<Seq<char>>, exists: Seq<bool>) -> Seq<Seq<char>>
    decreases names.len(),
{
    if names.len() == 0 || exists.len() == 0 {
        Seq::empty()
    } else {
        let rest = present(names.drop_last(), exists.drop_last());
        if exists.last() {
            rest.push(names.last())
        } else {
            rest
        }
    }
}

/// The candidates whose file is there, in their order; nothing where there is none.
pub fn resolve_appx_logo_paths(candidates: &Vec<String>, exists: &Vec<bool>) -> (paths: Option<
    Vec<String>,
>)
    requires
        candidates@.len() == exists@.len(),
    ensures
        match paths {
            Some(paths) => {
                &&& paths@.len() > 0
                &&& texts(paths@) == present(texts(candidates@), exists@)
            },
            None => present(texts(candidates@), exists@).len() == 0,
        },
{
    let ghost names = texts(candidates@);
    let mut paths: Vec<String> = Vec::new();
    let mut i: usize = 0;
    assert(texts(paths@) =~= present(names.take(0), exists@.take(0)));
    while i < candidates.len()
        invariant
            i <= candidates@.len(),
            candidates@.len() == exists@.len(),
            names == texts(candidates@),
            texts(paths@) == present(names.take(i as int), exists@.take(i as int)),
        decreases candidates@.len() - i,
    {
        let ghost before = texts(paths@);
        assert(names.take(i + 1).drop_last() =~= names.take(i as int));
        assert(exists@.take(i + 1).drop_last() =~= exists@.take(i as int));
        if exists[i] {
            paths.push(candidates[i].clone());
            assert(texts(paths@) =~= before.push(names[i as int]));
        }
        i += 1;
    }
    assert(names.take(i as int) =~= names);
    assert(exists@.take(i as int) =~= exists@);
    if paths.len() == 0 {
        None
    } else {
        Some(paths)
    }
}

proof fn lemma_encode_concat(one: Seq<char>, other: Seq<char>)
    ensures
        encode_utf8(one + other) == encode_utf8(one) + encode_utf8(other),
    decreases one.len(),
{
    if one.len() == 0 {
        assert(one + other =~= other);
        assert(encode_utf8(one) =~= Seq::<u8>::empty());
        assert(encode_utf8(one) + encode_utf8(other) =~= encode_utf8(other));
    } else {
        lemma_encode_concat(one.drop_first(), other);
        assert((one + other).drop_first() =~= one.drop_first() + other);
        assert(encode_utf8(one + other) =~= encode_utf8(one) + encode_utf8(other));
    }
}

/// A path that ends with a dot and the extension can always be cut, and the cut
/// leaves what stands before the dot.
pub proof fn logo_stem_is_what_precedes_the_extension(stem: Seq<char>, extension: Seq<char>)
    ensures
        ({
            let path = stem + "."@ + extension;
            let bytes = encode_utf8(path);
            let tail = encode_utf8(extension).len() + 1;
            &&& tail <= bytes.len()
            &&& is_char_boundary(bytes, bytes.len() - tail)
            &&& without_last_bytes(path, tail as int) == stem
        }),
{
    let path = stem + "."@ + extension;
    let bytes = encode_utf8(path);
    reveal_strlit(".");
    lemma_encode_concat(stem + "."@, extension);
    lemma_encode_concat(stem, "."@);
    assert(vstd::utf8::is_ascii_chars("."@));
    vstd::utf8::is_ascii_chars_encode_utf8("."@);
    vstd::utf8::encode_utf8_decode_utf8(stem);
    let head = encode_utf8(stem);
    assert(bytes.take(head.len() as int) =~= head);
    vstd::utf8::encode_utf8_valid_utf8(path);
    vstd::utf8::is_char_boundary_iff_is_leading_byte(bytes, head.len() as int);
    assert(bytes[head.len() as int] == encode_utf8("."@)[0]);
}

/// No application names the executable.
pub open spec fn is_unnamed(events: Seq<EventView>, executable: Seq<char>) -> bool {
    forall|i: int|
        0 <= i < events.len() ==> ((#[trigger] events[i]) matches EventView::Start {
            attributes,
            ..
        } ==> !names_executable(attributes, executable))
}

proof fn lemma_unmatched(
    events: Seq<EventView>,
    at: int,
    open: Seq<Seq<char>>,
    executable: Seq<char>,
)
    requires
        0 <= at,
        is_unnamed(events, executable),
    ensures
        logo_from(events, at, open, false, Some(executable)) is None,
    decreases events.len() - at,
{
    if at < events.len() {
        match events[at] {
            EventView::Start { name, .. } => {
                lemma_unmatched(events, at + 1, open.push(name), executable);
            },
            EventView::End => {
                lemma_unmatched(events, at + 1, open.drop_last(), executable);
            },
            EventView::Failure => {},
            EventView::Other => {
                lemma_unmatched(events, at + 1, open, executable);
            },
        }
    }
}

/// An executable that no application of the package names has no logo.
pub proof fn unnamed_executables_have_no_logo(events: Seq<EventView>, executable: Seq<char>)
    requires
        is_unnamed(events, executable),
    ensures
        declared_logo(events, Some(executable)) is None,
{
    lemma_unmatched(events, 0, Seq::empty(), executable);
}

/// What stands after the logo, or after a failure, does not count.
pub proof fn logos_are_found_without_reading_on(
    events: Seq<EventView>,
    more: Seq<EventView>,
    executable: Option<Seq<char>>,
)
    requires
        declared_logo(events, executable) is Some || (events.len() > 0 && events.last()
            == EventView::Failure),
    ensures
        declared_logo(events + more, executable) == declared_logo(events, executable),
{
    lemma_read_on(events, more, 0, Seq::empty(), executable is None, executable);
}

proof fn lemma_read_on(
    events: Seq<EventView>,
    more: Seq<EventView>,
    at: int,
    open: Seq<Seq<char>>,
    matched: bool,
    executable: Option<Seq<char>>,
)
    requires
        0 <= at <= events.len(),
        logo_from(events, at, open, matched, executable) is Some || (at < events.len()
            && events.last() == EventView::Failure),
    ensures
        logo_from(events + more, at, open, matched, executable) == logo_from(
            events,
            at,
            open,
            matched,
            executable,
        ),
    decreases events.len() - at,
{
    if at < events.len() {
        assert((events + more)[at] == events[at]);
        match events[at] {
            EventView::Start { name, attributes } => {
                let inner = open.push(name);
                let path = joined(inner);
                if path == "Package/Applications/Application"@ {
                    let found = if executable is Some {
                        names_executable(attributes, executable->0)
                    } else {
                        matched
                    };
                    lemma_read_on(events, more, at + 1, inner, found, executable);
                } else if path == "Package/Applications/Application/VisualElements"@ && matched
                    && logo_attribute(attributes) is Some {
                } else {
                    lemma_read_on(events, more, at + 1, inner, matched, executable);
                }
            },
            EventView::End => {
                lemma_read_on(events, more, at + 1, open.drop_last(), matched, executable);
            },
            EventView::Failure => {},
            EventView::Other => {
                lemma_read_on(events, more, at + 1, open, matched, executable);
            },
        }
    }
}

} // verus!
