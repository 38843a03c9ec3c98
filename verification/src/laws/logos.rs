//! The logo of an application package: which element of the manifest declares it, and
//! which files it may stand in.
use vstd::prelude::*;

use crate::manifest::{
    appx_logo_candidates, appx_logo_value, declared_logo, event_views, joined, logo_attribute,
    logo_from, logo_stem_is_what_precedes_the_extension, names_executable, open_elements, present,
    read_appx_logo_value, resolve_appx_logo_paths, sized_names, well_nested, xml_events, EventView,
    ManifestEvent,
};
use crate::sequences::{kept_places, lemma_kept_places};
use crate::text::{content_of, text_of, texts};

verus! {

/// The names of the elements that are open after the first `count` events, from the
/// outermost on.
pub open spec fn open_names(events: Seq<EventView>, count: int) -> Seq<Seq<char>>
    decreases count,
{
    if count <= 0 {
        Seq::empty()
    } else {
        let before = open_names(events, count - 1);
        match events[count - 1] {
            EventView::Start { name, .. } => before.push(name),
            EventView::End => before.drop_last(),
            _ => before,
        }
    }
}

/// No element has a slash in its name.
pub open spec fn names_are_plain(events: Seq<EventView>) -> bool {
    forall|i: int|
        0 <= i < events.len() ==> ((#[trigger] events[i]) matches EventView::Start { name, .. }
            ==> !name.contains('/'))
}

/// Event `i` opens an application of the package.
pub open spec fn opens_application(events: Seq<EventView>, i: int) -> bool {
    &&& 0 <= i < events.len()
    &&& events[i] is Start
    &&& open_names(events, i + 1) == seq!["Package"@, "Applications"@, "Application"@]
}

/// Event `i` opens the element of an application that says how it looks.
pub open spec fn opens_visual_elements(events: Seq<EventView>, i: int) -> bool {
    &&& 0 <= i < events.len()
    &&& events[i] is Start
    &&& open_names(events, i + 1) == seq![
        "Package"@,
        "Applications"@,
        "Application"@,
        "VisualElements"@,
    ]
}

/// The attributes with which an element opens.
pub open spec fn attributes_at(events: Seq<EventView>, i: int) -> Seq<(Seq<char>, Seq<char>)> {
    match events[i] {
        EventView::Start { attributes, .. } => attributes,
        _ => Seq::empty(),
    }
}

/// The application that was opened last before event `i` is the one for the executable.
pub open spec fn is_looked_for(events: Seq<EventView>, i: int, executable: Seq<char>) -> bool {
    exists|j: int|
        #![trigger opens_application(events, j)]
        j < i && opens_application(events, j) && (forall|k: int|
            j < k < i ==> !#[trigger] opens_application(events, k)) && attributes_at(
            events,
            j,
        ).contains(("Executable"@, executable))
}

/// The attribute names a logo.
pub open spec fn is_logo(attribute: (Seq<char>, Seq<char>)) -> bool {
    attribute.0 == "Square44x44Logo"@ || attribute.0 == "Square30x30Logo"@ || attribute.0
        == "SmallLogo"@
}

/// The value is that of the first logo among the attributes of event `i`.
pub open spec fn has_logo(events: Seq<EventView>, i: int, value: Seq<char>) -> bool {
    exists|a: int|
        #![trigger attributes_at(events, i)[a]]
        0 <= a < attributes_at(events, i).len() && is_logo(attributes_at(events, i)[a])
            && attributes_at(events, i)[a].1 == value && forall|b: int|
            0 <= b < a ==> !is_logo(#[trigger] attributes_at(events, i)[b])
}

/// Event `i` declares the logo: it says how an application looks, which is the one looked
/// for, it has a logo, and everything before it could be read.
pub open spec fn declares(
    events: Seq<EventView>,
    i: int,
    executable: Option<Seq<char>>,
    value: Seq<char>,
) -> bool {
    &&& opens_visual_elements(events, i)
    &&& executable matches Some(executable) ==> is_looked_for(events, i, executable)
    &&& has_logo(events, i, value)
    &&& forall|k: int| 0 <= k < i ==> !(#[trigger] events[k] is Failure)
}

proof fn lemma_last_name(one: Seq<char>, a: Seq<char>, other: Seq<char>, b: Seq<char>)
    requires
        one + "/"@ + a == other + "/"@ + b,
        !a.contains('/'),
        !b.contains('/'),
    ensures
        one == other,
        a == b,
{
    reveal_strlit("/");
    let text = one + "/"@ + a;
    assert(text.len() == other.len() + 1 + b.len());
    assert(text[one.len() as int] == '/');
    assert((other + "/"@ + b)[other.len() as int] == '/');
    if one.len() < other.len() {
        let k = other.len() - one.len() - 1;
        assert(a[k] == text[other.len() as int]);
        assert(a.contains('/'));
    } else if one.len() > other.len() {
        let k = one.len() - other.len() - 1;
        assert(b[k] == (other + "/"@ + b)[one.len() as int]);
        assert(b.contains('/'));
    }
    assert(one =~= text.take(one.len() as int));
    assert(other =~= (other + "/"@ + b).take(other.len() as int));
    assert(a =~= text.skip(one.len() as int + 1));
    assert(b =~= (other + "/"@ + b).skip(other.len() as int + 1));
}

proof fn lemma_joined(one: Seq<Seq<char>>, other: Seq<Seq<char>>)
    requires
        one.len() > 0,
        other.len() > 0,
        joined(one) == joined(other),
        forall|i: int| 0 <= i < one.len() ==> !(#[trigger] one[i]).contains('/'),
        forall|i: int| 0 <= i < other.len() ==> !(#[trigger] other[i]).contains('/'),
    ensures
        one == other,
    decreases one.len(),
{
    reveal_strlit("/");
    if one.len() == 1 && other.len() == 1 {
        assert(one =~= other);
    } else if one.len() == 1 {
        let text = joined(other.drop_last()) + "/"@ + other.last();
        assert(text[joined(other.drop_last()).len() as int] == '/');
        assert(one[0].contains('/'));
    } else if other.len() == 1 {
        let text = joined(one.drop_last()) + "/"@ + one.last();
        assert(text[joined(one.drop_last()).len() as int] == '/');
        assert(other[0].contains('/'));
    } else {
        assert(one.last() == one[one.len() - 1] && other.last() == other[other.len() - 1]);
        lemma_last_name(
            joined(one.drop_last()),
            one.last(),
            joined(other.drop_last()),
            other.last(),
        );
        assert forall|i: int| 0 <= i < one.len() - 1 implies !(
        #[trigger] one.drop_last()[i]).contains('/') by {
            assert(one.drop_last()[i] == one[i]);
        }
        assert forall|i: int| 0 <= i < other.len() - 1 implies !(
        #[trigger] other.drop_last()[i]).contains('/') by {
            assert(other.drop_last()[i] == other[i]);
        }
        lemma_joined(one.drop_last(), other.drop_last());
        assert(one =~= one.drop_last().push(one.last()));
        assert(other =~= other.drop_last().push(other.last()));
    }
}

spec fn application_names() -> Seq<Seq<char>> {
    seq!["Package"@, "Applications"@, "Application"@]
}

spec fn visual_names() -> Seq<Seq<char>> {
    seq!["Package"@, "Applications"@, "Application"@, "VisualElements"@]
}

proof fn lemma_paths()
    ensures
        joined(application_names()) == "Package/Applications/Application"@,
        joined(visual_names()) == "Package/Applications/Application/VisualElements"@,
        forall|i: int|
            0 <= i < 3 ==> !(#[trigger] application_names()[i]).contains('/'),
        forall|i: int| 0 <= i < 4 ==> !(#[trigger] visual_names()[i]).contains('/'),
        application_names() != visual_names(),
{
    reveal_strlit("/");
    reveal_strlit("Package");
    reveal_strlit("Applications");
    reveal_strlit("Application");
    reveal_strlit("VisualElements");
    reveal_strlit("Package/Applications/Application");
    reveal_strlit("Package/Applications/Application/VisualElements");
    let one = seq!["Package"@];
    let two = seq!["Package"@, "Applications"@];
    let three = application_names();
    let four = visual_names();
    assert(joined(one) == "Package"@);
    assert(two.drop_last() =~= one);
    assert(three.drop_last() =~= two);
    assert(four.drop_last() =~= three);
    assert(joined(two) == "Package"@ + "/"@ + "Applications"@);
    assert(joined(three) == joined(two) + "/"@ + "Application"@);
    assert(joined(four) == joined(three) + "/"@ + "VisualElements"@);
    assert(joined(three) =~= "Package/Applications/Application"@);
    assert(joined(four) =~= "Package/Applications/Application/VisualElements"@);
    assert(three.len() != four.len());
}

proof fn lemma_open_names(events: Seq<EventView>, count: int)
    requires
        names_are_plain(events),
        well_nested(events),
        0 <= count <= events.len(),
    ensures
        open_names(events, count).len() == open_elements(events, count),
        forall|i: int|
            0 <= i < open_names(events, count).len() ==> !(#[trigger] open_names(
                events,
                count,
            )[i]).contains('/'),
    decreases count,
{
    if count > 0 {
        lemma_open_names(events, count - 1);
        assert(open_elements(events, count) >= 0);
        let before = open_names(events, count - 1);
        let all = open_names(events, count);
        assert(events[count - 1] matches EventView::Start { name, .. } ==> !name.contains('/'));
        assert forall|i: int| 0 <= i < all.len() implies !(#[trigger] all[i]).contains('/') by {
            if i < before.len() {
                assert(all[i] == before[i]);
            }
        }
    }
}

proof fn lemma_opened(events: Seq<EventView>, i: int)
    requires
        names_are_plain(events),
        well_nested(events),
        0 <= i < events.len(),
        events[i] is Start,
    ensures
        joined(open_names(events, i + 1)) == "Package/Applications/Application"@
            <==> opens_application(events, i),
        joined(open_names(events, i + 1)) == "Package/Applications/Application/VisualElements"@
            <==> opens_visual_elements(events, i),
{
    let names = open_names(events, i + 1);
    lemma_paths();
    lemma_open_names(events, i + 1);
    assert(names.len() > 0);
    if joined(names) == joined(application_names()) {
        lemma_joined(names, application_names());
    }
    if joined(names) == joined(visual_names()) {
        lemma_joined(names, visual_names());
    }
}

proof fn lemma_logo_attribute(attributes: Seq<(Seq<char>, Seq<char>)>)
    ensures
        match logo_attribute(attributes) {
            Some(value) => exists|a: int|
                #![trigger attributes[a]]
                0 <= a < attributes.len() && is_logo(attributes[a]) && attributes[a].1 == value
                    && forall|b: int| 0 <= b < a ==> !is_logo(#[trigger] attributes[b]),
            None => forall|a: int| 0 <= a < attributes.len() ==> !is_logo(#[trigger] attributes[a]),
        },
    decreases attributes.len(),
{
    if attributes.len() > 0 {
        let rest = attributes.drop_first();
        if is_logo(attributes[0]) {
            assert(is_logo(attributes[0]) && attributes[0].1 == logo_attribute(attributes)->0);
        } else {
            lemma_logo_attribute(rest);
            if logo_attribute(attributes) is Some {
                let value = logo_attribute(attributes)->0;
                let a = choose|a: int|
                    #![trigger rest[a]]
                    0 <= a < rest.len() && is_logo(rest[a]) && rest[a].1 == value && forall|b: int|
                        0 <= b < a ==> !is_logo(#[trigger] rest[b]);
                assert(is_logo(attributes[a + 1]) && attributes[a + 1].1 == value);
                assert forall|b: int| 0 <= b < a + 1 implies !is_logo(
                    #[trigger] attributes[b],
                ) by {
                    if b > 0 {
                        assert(rest[b - 1] == attributes[b]);
                    }
                }
            } else {
                assert forall|a: int| 0 <= a < attributes.len() implies !is_logo(
                    #[trigger] attributes[a],
                ) by {
                    if a > 0 {
                        assert(rest[a - 1] == attributes[a]);
                    }
                }
            }
        }
    }
}

spec fn is_matched(events: Seq<EventView>, at: int, executable: Option<Seq<char>>) -> bool {
    executable matches Some(executable) ==> is_looked_for(events, at, executable)
}

proof fn lemma_matched_on(events: Seq<EventView>, at: int, executable: Seq<char>)
    requires
        0 <= at < events.len(),
    ensures
        opens_application(events, at) ==> (is_looked_for(events, at + 1, executable)
            <==> names_executable(attributes_at(events, at), executable)),
        !opens_application(events, at) ==> (is_looked_for(events, at + 1, executable)
            <==> is_looked_for(events, at, executable)),
{
    let attributes = attributes_at(events, at);
    let wanted = ("Executable"@, executable);
    assert(names_executable(attributes, executable) <==> attributes.contains(wanted)) by {
        if names_executable(attributes, executable) {
            let i = choose|i: int|
                0 <= i < attributes.len() && (#[trigger] attributes[i]) == wanted;
            assert(attributes[i] == wanted);
        }
    }
    if is_looked_for(events, at + 1, executable) {
        let j = choose|j: int|
            #![trigger opens_application(events, j)]
            j < at + 1 && opens_application(events, j) && (forall|k: int|
                j < k < at + 1 ==> !#[trigger] opens_application(events, k)) && attributes_at(
                events,
                j,
            ).contains(wanted);
        if opens_application(events, at) {
            assert(j == at);
        } else {
            assert(j < at);
            assert(is_looked_for(events, at, executable));
        }
    }
    if opens_application(events, at) && attributes.contains(wanted) {
        assert(is_looked_for(events, at + 1, executable));
    }
    if !opens_application(events, at) && is_looked_for(events, at, executable) {
        let j = choose|j: int|
            #![trigger opens_application(events, j)]
            j < at && opens_application(events, j) && (forall|k: int|
                j < k < at ==> !#[trigger] opens_application(events, k)) && attributes_at(
                events,
                j,
            ).contains(wanted);
        assert(opens_application(events, j));
        assert forall|k: int| j < k < at + 1 implies !#[trigger] opens_application(events, k) by {}
    }
}

proof fn lemma_logo(events: Seq<EventView>, at: int, executable: Option<Seq<char>>)
    requires
        names_are_plain(events),
        well_nested(events),
        0 <= at <= events.len(),
        forall|k: int| 0 <= k < at ==> !(#[trigger] events[k] is Failure),
    ensures
        match logo_from(
            events,
            at,
            open_names(events, at),
            is_matched(events, at, executable),
            executable,
        ) {
            Some(value) => exists|i: int|
                at <= i && #[trigger] declares(events, i, executable, value) && forall|
                    j: int,
                    v: Seq<char>,
                |
                    at <= j < i ==> !#[trigger] declares(events, j, executable, v),
            None => forall|j: int, v: Seq<char>|
                at <= j ==> !#[trigger] declares(events, j, executable, v),
        },
    decreases events.len() - at,
{
    if at < events.len() {
        let open = open_names(events, at);
        let matched = is_matched(events, at, executable);
        if executable is Some {
            lemma_matched_on(events, at, executable->0);
        }
        if events[at] is Failure {
            assert forall|j: int, v: Seq<char>| at <= j implies !#[trigger] declares(
                events,
                j,
                executable,
                v,
            ) by {
                if j == at {
                    assert(!(events[j] is Start));
                } else if declares(events, j, executable, v) {
                    assert(!(events[at] is Failure));
                }
            }
        } else {
            lemma_logo(events, at + 1, executable);
            let here = events[at] is Start && opens_visual_elements(events, at) && matched
                && logo_attribute(attributes_at(events, at)) is Some;
            lemma_logo_attribute(attributes_at(events, at));
            assert forall|v: Seq<char>| #[trigger] declares(events, at, executable, v) implies here
                && v == logo_attribute(attributes_at(events, at))->0 by {
                let attributes = attributes_at(events, at);
                let a = choose|a: int|
                    #![trigger attributes_at(events, at)[a]]
                    0 <= a < attributes_at(events, at).len() && is_logo(
                        attributes_at(events, at)[a],
                    ) && attributes_at(events, at)[a].1 == v && forall|b: int|
                        0 <= b < a ==> !is_logo(#[trigger] attributes_at(events, at)[b]);
                assert(is_logo(attributes[a]));
                let value = logo_attribute(attributes)->0;
                let c = choose|c: int|
                    #![trigger attributes[c]]
                    0 <= c < attributes.len() && is_logo(attributes[c]) && attributes[c].1 == value
                        && forall|b: int| 0 <= b < c ==> !is_logo(#[trigger] attributes[b]);
                assert(is_logo(attributes[c]));
                assert(a == c);
            }
            if events[at] is Start {
                lemma_opened(events, at);
                lemma_paths();
                if here {
                    assert(!opens_application(events, at));
                    assert(declares(
                        events,
                        at,
                        executable,
                        logo_attribute(attributes_at(events, at))->0,
                    ));
                }
            }
            if !here {
                assert forall|j: int, v: Seq<char>|
                    at <= j && !(at + 1 <= j) implies !#[trigger] declares(
                    events,
                    j,
                    executable,
                    v,
                ) by {
                    assert(j == at);
                }
                let found = logo_from(events, at, open, matched, executable);
                assert(found == logo_from(
                    events,
                    at + 1,
                    open_names(events, at + 1),
                    is_matched(events, at + 1, executable),
                    executable,
                ));
                if found is Some {
                    let i = choose|i: int|
                        at + 1 <= i && #[trigger] declares(events, i, executable, found->0)
                            && forall|j: int, v: Seq<char>|
                            at + 1 <= j < i ==> !#[trigger] declares(events, j, executable, v);
                    assert(declares(events, i, executable, found->0));
                }
            }
        }
    } else {
        assert forall|j: int, v: Seq<char>| at <= j implies !#[trigger] declares(
            events,
            j,
            executable,
            v,
        ) by {}
    }
}

/// An event, and the attributes of an element, by their text.
pub open spec fn event_text(event: ManifestEvent) -> EventView {
    match event {
        ManifestEvent::Start { name, attributes } => EventView::Start {
            name: name@,
            attributes: Seq::new(
                attributes@.len(),
                |a: int| (attributes@[a].name@, attributes@[a].value@),
            ),
        },
        ManifestEvent::End => EventView::End,
        ManifestEvent::Failure => EventView::Failure,
        ManifestEvent::Other => EventView::Other,
    }
}

/// The events of a document, by their text.
pub open spec fn event_texts(events: Seq<ManifestEvent>) -> Seq<EventView> {
    Seq::new(events.len(), |i: int| event_text(events[i]))
}

proof fn lemma_event_texts(events: Seq<ManifestEvent>)
    ensures
        event_texts(events) == event_views(events),
{
    assert forall|i: int| 0 <= i < events.len() implies event_texts(events)[i] == event_views(
        events,
    )[i] by {
        if let ManifestEvent::Start { name, attributes } = events[i] {
            assert(event_text(events[i])->attributes =~= crate::manifest::attribute_views(
                attributes@,
            ));
        }
    }
    assert(event_texts(events) =~= event_views(events));
}

/// The text that is looked for, if there is one.
pub open spec fn wanted_text(executable: Option<&str>) -> Option<Seq<char>> {
    match executable {
        Some(executable) => Some(executable@),
        None => None,
    }
}

/// The logo of an executable is the first that the manifest declares for it: the first of
/// the logos at an element that says how an application looks, where the application
/// opened last names the executable. Without an executable, every application counts.
/// There is none where none is declared before the manifest ends or cannot be read on.
pub proof fn the_first_logo_that_is_declared_counts(
    events: &Vec<ManifestEvent>,
    executable: Option<&str>,
    logo: Option<String>,
)
    requires
        call_ensures(appx_logo_value, (events, executable), logo),
        names_are_plain(event_texts(events@)),
        well_nested(event_texts(events@)),
    ensures
        match logo {
            Some(logo) => exists|i: int|
                #[trigger] declares(event_texts(events@), i, wanted_text(executable), logo@)
                    && forall|j: int, v: Seq<char>|
                    j < i ==> !#[trigger] declares(
                        event_texts(events@),
                        j,
                        wanted_text(executable),
                        v,
                    ),
            None => forall|j: int, v: Seq<char>|
                !#[trigger] declares(event_texts(events@), j, wanted_text(executable), v),
        },
{
    lemma_event_texts(events@);
    let all = event_views(events@);
    let wanted = text_of(executable);
    assert(wanted == wanted_text(executable));
    if wanted is Some {
        assert(!is_looked_for(all, 0, wanted->0));
    }
    lemma_logo(all, 0, wanted);
    assert(open_names(all, 0) =~= Seq::<Seq<char>>::empty());
    assert(is_matched(all, 0, wanted) == (wanted is None));
    assert(declared_logo(all, wanted) == content_of(logo));
    if logo is Some {
        let value = logo->0@;
        let i = choose|i: int|
            0 <= i && #[trigger] declares(all, i, wanted, value) && forall|j: int, v: Seq<char>|
                0 <= j < i ==> !#[trigger] declares(all, j, wanted, v);
        assert(declares(all, i, wanted, value));
        assert forall|j: int, v: Seq<char>| j < i implies !#[trigger] declares(
            all,
            j,
            wanted,
            v,
        ) by {
            if j < 0 {
                assert(!opens_visual_elements(all, j));
            }
        }
    } else {
        assert forall|j: int, v: Seq<char>| !#[trigger] declares(all, j, wanted, v) by {
            if j < 0 {
                assert(!opens_visual_elements(all, j));
            }
        }
    }
}

/// The logo in a document is the one among the events that are found in it.
pub proof fn documents_declare_what_their_events_declare(
    document: &[u8],
    executable: Option<&str>,
    logo: Option<String>,
    events: &Vec<ManifestEvent>,
    expected: Option<String>,
)
    requires
        call_ensures(read_appx_logo_value, (document, executable), logo),
        event_texts(events@) == xml_events(document@),
        call_ensures(appx_logo_value, (events, executable), expected),
    ensures
        logo is Some <==> expected is Some,
        logo is Some ==> logo->0@ == expected->0@,
{
    lemma_event_texts(events@);
}

/// A logo is looked for under its name with a size put in before the extension, the larger
/// ones first.
pub proof fn logos_are_looked_for_by_size(
    logo_path: &str,
    extension: &str,
    names: Vec<String>,
    stem: Seq<char>,
)
    requires
        call_ensures(appx_logo_candidates, (logo_path, extension), names),
        logo_path@ == stem + "."@ + extension@,
    ensures
        names@.len() == 4,
        names@[0]@ == stem + ".targetsize-256."@ + extension@,
        names@[1]@ == stem + ".targetsize-128."@ + extension@,
        names@[2]@ == stem + ".scale-200."@ + extension@,
        names@[3]@ == stem + ".scale-100."@ + extension@,
{
    logo_stem_is_what_precedes_the_extension(stem, extension@);
    let all = texts(names@);
    assert(all == sized_names(stem, extension@));
    assert(all.len() == names@.len());
    assert(forall|i: int| 0 <= i < all.len() ==> #[trigger] all[i] == names@[i]@);
    reveal_strlit(".");
    reveal_strlit("targetsize-256");
    reveal_strlit("targetsize-128");
    reveal_strlit("scale-200");
    reveal_strlit("scale-100");
    reveal_strlit(".targetsize-256.");
    reveal_strlit(".targetsize-128.");
    reveal_strlit(".scale-200.");
    reveal_strlit(".scale-100.");
    assert(all[0] =~= stem + ".targetsize-256."@ + extension@);
    assert(all[1] =~= stem + ".targetsize-128."@ + extension@);
    assert(all[2] =~= stem + ".scale-200."@ + extension@);
    assert(all[3] =~= stem + ".scale-100."@ + extension@);
}

/// The names are those at some places of a list, in the same order, and just at those that
/// are marked.
pub open spec fn are_marked(
    names: Seq<String>,
    list: Seq<String>,
    marks: Seq<bool>,
    places: Seq<int>,
) -> bool {
    &&& places.len() == names.len()
    &&& forall|k: int, m: int|
        0 <= k < m < places.len() ==> #[trigger] places[k] < #[trigger] places[m]
    &&& forall|k: int|
        #![trigger places[k]]
        #![trigger names[k]]
        0 <= k < places.len() ==> 0 <= places[k] < list.len() && marks[places[k]] && names[k]@
            == list[places[k]]@
    &&& forall|i: int| 0 <= i < list.len() && #[trigger] marks[i] ==> places.contains(i)
}

proof fn lemma_present(list: Seq<Seq<char>>, marks: Seq<bool>, n: nat)
    requires
        n <= list.len(),
        list.len() == marks.len(),
    ensures
        ({
            let places = kept_places(n, |i: int| marks[i]);
            present(list.take(n as int), marks.take(n as int)) == Seq::new(
                places.len(),
                |k: int| list[places[k]],
            )
        }),
    decreases n,
{
    let keep = |i: int| marks[i];
    let places = kept_places(n, keep);
    let found = present(list.take(n as int), marks.take(n as int));
    if n > 0 {
        lemma_present(list, marks, (n - 1) as nat);
        assert(list.take(n as int).drop_last() =~= list.take(n - 1));
        assert(marks.take(n as int).drop_last() =~= marks.take(n - 1));
        assert(keep(n - 1) == marks[n - 1]);
    }
    assert(found =~= Seq::new(places.len(), |k: int| list[places[k]]));
}

/// Of the files that a logo may stand in those count that are there, in their order. There
/// is nothing where none is.
pub proof fn logo_files_that_are_there_count(
    candidates: &Vec<String>,
    is_there: &Vec<bool>,
    paths: Option<Vec<String>>,
)
    requires
        call_ensures(resolve_appx_logo_paths, (candidates, is_there), paths),
        candidates@.len() == is_there@.len(),
    ensures
        paths is Some <==> is_there@.contains(true),
        paths is Some ==> exists|places: Seq<int>| #[trigger]
            are_marked(paths->0@, candidates@, is_there@, places),
{
    let list = texts(candidates@);
    let n = list.len();
    let keep = |i: int| is_there@[i];
    lemma_present(list, is_there@, n);
    lemma_kept_places(n, keep);
    assert(list.take(n as int) =~= list);
    assert(is_there@.take(n as int) =~= is_there@);
    let places = kept_places(n, keep);
    let names = present(list, is_there@);
    assert forall|i: int| 0 <= i < n && #[trigger] is_there@[i] implies places.contains(i) by {
        assert(keep(i));
    }
    if is_there@.contains(true) {
        let i = choose|i: int| 0 <= i < n && is_there@[i] == true;
        assert(places.contains(i));
        assert(names.len() > 0);
    }
    if paths is Some {
        assert(texts(paths->0@) == names);
        assert(texts(paths->0@).len() == paths->0@.len());
        assert forall|k: int|
            #![trigger places[k]]
            #![trigger paths->0@[k]]
            0 <= k < places.len() implies 0 <= places[k] < list.len() && is_there@[places[k]]
            && paths->0@[k]@ == candidates@[places[k]]@ by {
            assert(keep(places[k]));
            assert(names[k] == texts(paths->0@)[k]);
            assert(names[k] == list[places[k]]);
        }
        assert(are_marked(paths->0@, candidates@, is_there@, places));
        assert(keep(places[0]));
        assert(is_there@[places[0]]);
    }
}

} // verus!
