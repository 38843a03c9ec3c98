//! Text, the parts of application paths, and where the icon of an application is looked
//! for.
use indexmap::IndexMap;
use vstd::prelude::*;

use crate::collections::text_entries;
use crate::icon_source::{
    browser_of, find_override, first_part_place, get_app_icon, icon_sources, lowered_keys,
    source_views, Browser, IconSource,
};
use crate::text::{
    ascii_lower, ascii_lowered, chars_of, contains_text, content_of, eq_ignore_ascii_case, has_part,
    lowercase, next_separator, parts, parts_from, path_file_name, path_parts, starts_with, text_eq,
    text_starts_with, texts,
};

verus! {

/// The text is made of the part and of what stands before and behind it.
pub open spec fn is_around(
    text: Seq<char>,
    before: Seq<char>,
    part: Seq<char>,
    behind: Seq<char>,
) -> bool {
    text == before + part + behind
}

/// The part stands somewhere in the text.
pub open spec fn holds(text: Seq<char>, part: Seq<char>) -> bool {
    exists|before: Seq<char>, behind: Seq<char>| #[trigger] is_around(text, before, part, behind)
}

/// The text begins with the start.
pub open spec fn begins(text: Seq<char>, start: Seq<char>) -> bool {
    exists|behind: Seq<char>| #[trigger] is_around(text, Seq::empty(), start, behind)
}

proof fn lemma_holds(text: Seq<char>, part: Seq<char>)
    ensures
        has_part(text, part) <==> holds(text, part),
{
    if has_part(text, part) {
        let i = choose|i: int|
            0 <= i <= text.len() - part.len() && #[trigger] text.subrange(i, i + part.len())
                == part;
        let before = text.take(i);
        let behind = text.skip(i + part.len());
        assert(text =~= before + part + behind) by {
            assert forall|k: int| 0 <= k < text.len() implies text[k] == (before + part
                + behind)[k] by {
                if i <= k < i + part.len() {
                    assert(text.subrange(i, i + part.len())[k - i] == part[k - i]);
                }
            }
        }
        assert(is_around(text, before, part, behind));
    }
    if holds(text, part) {
        let (before, behind) = choose|before: Seq<char>, behind: Seq<char>| #[trigger]
            is_around(text, before, part, behind);
        let i = before.len() as int;
        assert(text.subrange(i, i + part.len()) =~= part);
    }
}

proof fn lemma_begins(text: Seq<char>, start: Seq<char>)
    ensures
        starts_with(text, start) <==> begins(text, start),
{
    let nothing = Seq::<char>::empty();
    if starts_with(text, start) {
        let behind = text.skip(start.len() as int);
        assert(text =~= nothing + start + behind) by {
            assert forall|k: int| 0 <= k < text.len() implies text[k] == (nothing + start
                + behind)[k] by {
                if k < start.len() {
                    assert(text.take(start.len() as int)[k] == start[k]);
                }
            }
        }
        assert(is_around(text, nothing, start, behind));
    }
    if begins(text, start) {
        let behind = choose|behind: Seq<char>| #[trigger]
            is_around(text, nothing, start, behind);
        assert(text.take(start.len() as int) =~= start);
    }
}

/// A part is found wherever it stands in a text, and a start where the text begins with
/// it.
pub proof fn parts_of_a_text_are_found(text: &str, part: &str, found: bool, begun: bool)
    requires
        call_ensures(contains_text, (text, part), found),
        call_ensures(text_starts_with, (text, part), begun),
    ensures
        found <==> holds(text@, part@),
        begun <==> begins(text@, part@),
{
    lemma_holds(text@, part@);
    lemma_begins(text@, part@);
}

/// The two characters are the same, or the large and the small form of one of the letters
/// A to Z.
pub open spec fn is_same_letter(one: char, other: char) -> bool {
    ||| one == other
    ||| 'A' <= one <= 'Z' && other as u32 == one as u32 + 32
    ||| 'A' <= other <= 'Z' && one as u32 == other as u32 + 32
}

/// Texts are the same where their characters are, and the same but for the case where each
/// two of their characters are the same letter.
pub proof fn texts_are_compared_by_their_characters(
    one: &str,
    other: &str,
    chars: Vec<char>,
    same: bool,
    alike: bool,
)
    requires
        call_ensures(chars_of, (one,), chars),
        call_ensures(text_eq, (one, other), same),
        call_ensures(eq_ignore_ascii_case, (one, other), alike),
    ensures
        chars@ == one@,
        same <==> one@.len() == other@.len() && forall|i: int|
            0 <= i < one@.len() ==> #[trigger] one@[i] == other@[i],
        alike <==> one@.len() == other@.len() && forall|i: int|
            0 <= i < one@.len() ==> is_same_letter(#[trigger] one@[i], other@[i]),
{
    if one@.len() == other@.len() && (forall|i: int|
        0 <= i < one@.len() ==> #[trigger] one@[i] == other@[i]) {
        assert(one@ =~= other@);
    }
    let a = ascii_lowered(one@);
    let b = ascii_lowered(other@);
    if a == b {
        assert(a.len() == b.len());
        assert forall|i: int| 0 <= i < one@.len() implies is_same_letter(
            #[trigger] one@[i],
            other@[i],
        ) by {
            assert(a[i] == b[i]);
            lemma_same_letter(one@[i], other@[i]);
        }
    }
    if one@.len() == other@.len() && (forall|i: int|
        0 <= i < one@.len() ==> is_same_letter(#[trigger] one@[i], other@[i])) {
        assert forall|i: int| 0 <= i < a.len() implies a[i] == b[i] by {
            lemma_same_letter(one@[i], other@[i]);
        }
        assert(a =~= b);
    }
}

proof fn lemma_same_letter(one: char, other: char)
    ensures
        ascii_lower(one) == ascii_lower(other) <==> is_same_letter(one, other),
{
}

/// The name of a file has no backslash, and is all of its path that stands behind the last
/// one.
pub proof fn file_names_stand_behind_the_last_backslash(path: &str, name: String)
    requires
        call_ensures(path_file_name, (path,), name),
    ensures
        forall|i: int| 0 <= i < name@.len() ==> #[trigger] name@[i] != '\\',
        name@ == path@ || exists|dir: Seq<char>|
            #[trigger] is_around(path@, dir, seq!['\\'], name@),
{
    let at = lemma_name(path@);
    if at > 0 {
        assert(path@ =~= path@.take(at - 1) + seq!['\\'] + name@);
        assert(is_around(path@, path@.take(at - 1), seq!['\\'], name@));
    } else {
        assert(path@.skip(0) =~= path@);
    }
}

proof fn lemma_name(path: Seq<char>) -> (at: int)
    ensures
        0 <= at <= path.len(),
        at > 0 ==> path[at - 1] == '\\',
        forall|j: int| at <= j < path.len() ==> path[j] != '\\',
        crate::text::file_name(path) == path.skip(at),
    decreases path.len(),
{
    if path.len() == 0 || path.last() == '\\' {
        assert(path.skip(path.len() as int) =~= Seq::<char>::empty());
        path.len() as int
    } else {
        let at = lemma_name(path.drop_last());
        assert(path.skip(at) =~= path.drop_last().skip(at).push(path.last()));
        assert forall|j: int| at <= j < path.len() implies path[j] != '\\' by {
            if j < path.len() - 1 {
                assert(path.drop_last()[j] == path[j]);
            }
        }
        at
    }
}

/// Two colons stand at this place.
pub open spec fn separates(path: Seq<char>, at: int) -> bool {
    0 <= at && at + 1 < path.len() && path[at] == ':' && path[at + 1] == ':'
}

proof fn lemma_no_separator(path: Seq<char>, from: int)
    requires
        0 <= from <= path.len(),
        forall|i: int| from <= i ==> !#[trigger] separates(path, i),
    ensures
        next_separator(path, from) == path.len(),
    decreases path.len() - from,
{
    if from + 1 < path.len() {
        assert(!separates(path, from));
        lemma_no_separator(path, from + 1);
    }
}

proof fn lemma_separator(path: Seq<char>, from: int, at: int)
    requires
        0 <= from <= at,
        separates(path, at),
        forall|i: int| from <= i < at ==> !#[trigger] separates(path, i),
    ensures
        next_separator(path, from) == at,
    decreases at - from,
{
    if from < at {
        assert(!separates(path, from));
        lemma_separator(path, from + 1, at);
    }
}

proof fn lemma_separator_behind(path: Seq<char>, from: int, k: int)
    requires
        0 <= from,
        0 <= k,
        from + k <= path.len(),
    ensures
        next_separator(path, from + k) == from + next_separator(path.skip(from), k),
    decreases path.len() - k,
{
    let rest = path.skip(from);
    if from + k + 1 < path.len() && !(path[from + k] == ':' && path[from + k + 1] == ':') {
        lemma_separator_behind(path, from, k + 1);
    }
}

proof fn lemma_separator_bounds(path: Seq<char>, from: int)
    requires
        0 <= from <= path.len(),
    ensures
        from <= next_separator(path, from) <= path.len(),
        next_separator(path, from) < path.len() ==> next_separator(path, from) + 2 <= path.len(),
    decreases path.len() - from,
{
    if from + 1 < path.len() && !(path[from] == ':' && path[from + 1] == ':') {
        lemma_separator_bounds(path, from + 1);
    }
}

proof fn lemma_parts_behind(path: Seq<char>, from: int, k: int)
    requires
        0 <= from,
        0 <= k,
        from + k <= path.len(),
    ensures
        parts_from(path, from + k) == parts_from(path.skip(from), k),
    decreases path.len() - k,
{
    let rest = path.skip(from);
    lemma_separator_behind(path, from, k);
    lemma_separator_bounds(rest, k);
    let end = next_separator(rest, k);
    if end + 2 > rest.len() {
        assert(path.skip(from + k) =~= rest.skip(k));
    } else {
        lemma_parts_behind(path, from, end + 2);
        assert(path.subrange(from + k, from + end) =~= rest.subrange(k, end));
    }
}

/// A path without two colons side by side is one part.
pub proof fn paths_without_a_separator_are_one_part(path: &str, list: Vec<String>)
    requires
        call_ensures(path_parts, (path,), list),
        forall|i: int| !#[trigger] separates(path@, i),
    ensures
        list@.len() == 1,
        list@[0]@ == path@,
{
    lemma_no_separator(path@, 0);
    assert(path@.skip(0) =~= path@);
    assert(texts(list@) == parts(path@));
    assert(texts(list@)[0] == list@[0]@);
    assert(texts(list@).len() == list@.len());
}

/// A path is cut at the first two colons that stand side by side: what stands before them
/// is a part, and the others are those of what stands behind them.
pub proof fn paths_are_cut_at_the_first_separator(
    path: &str,
    list: Vec<String>,
    at: int,
    rest: &str,
    rest_list: Vec<String>,
)
    requires
        call_ensures(path_parts, (path,), list),
        call_ensures(path_parts, (rest,), rest_list),
        separates(path@, at),
        forall|i: int| i < at ==> !#[trigger] separates(path@, i),
        rest@ == path@.skip(at + 2),
    ensures
        list@.len() == rest_list@.len() + 1,
        list@[0]@ == path@.take(at),
        forall|i: int| 0 <= i < rest_list@.len() ==> #[trigger] rest_list@[i]@ == list@[i + 1]@,
{
    lemma_separator(path@, 0, at);
    lemma_parts_behind(path@, at + 2, 0);
    let pieces = parts(path@);
    let rest_pieces = parts(rest@);
    assert(path@.subrange(0, at) =~= path@.take(at));
    assert(pieces == seq![path@.take(at)] + rest_pieces);
    assert(texts(list@) == pieces && texts(rest_list@) == rest_pieces);
    assert(texts(list@).len() == list@.len());
    assert(texts(rest_list@).len() == rest_list@.len());
    assert(texts(list@)[0] == list@[0]@);
    assert forall|i: int| 0 <= i < rest_list@.len() implies #[trigger] rest_list@[i]@ == list@[i
        + 1]@ by {
        assert(texts(rest_list@)[i] == rest_list@[i]@);
        assert(texts(list@)[i + 1] == list@[i + 1]@);
        assert(pieces[i + 1] == rest_pieces[i]);
    }
}

proof fn lemma_first_key(keys: Seq<Seq<char>>, path: Seq<char>)
    ensures
        ({
            let i = first_part_place(keys, path);
            &&& 0 <= i <= keys.len()
            &&& i < keys.len() ==> holds(path, keys[i])
            &&& forall|j: int| 0 <= j < i ==> !holds(path, #[trigger] keys[j])
        }),
    decreases keys.len(),
{
    if keys.len() > 0 {
        lemma_holds(path, keys.first());
        if !has_part(path, keys.first()) {
            let rest = keys.drop_first();
            lemma_first_key(rest, path);
            let i = first_part_place(keys, path);
            assert forall|j: int| 0 <= j < i implies !holds(path, #[trigger] keys[j]) by {
                if j > 0 {
                    assert(rest[j - 1] == keys[j]);
                }
            }
        }
    }
}

/// The entry that counts for a path is the first whose key stands in it.
pub proof fn the_first_key_in_the_path_counts(
    lowered: &Vec<String>,
    path: &str,
    place: Option<usize>,
)
    requires
        call_ensures(find_override, (lowered, path), place),
    ensures
        match place {
            Some(i) => {
                &&& i < lowered@.len()
                &&& holds(path@, lowered@[i as int]@)
                &&& forall|j: int| 0 <= j < i ==> !holds(path@, #[trigger] lowered@[j]@)
            },
            None => forall|j: int|
                0 <= j < lowered@.len() ==> !holds(path@, #[trigger] lowered@[j]@),
        },
{
    let keys = texts(lowered@);
    lemma_first_key(keys, path@);
    assert(keys.len() == lowered@.len());
    assert forall|j: int| 0 <= j < lowered@.len() implies keys[j]
        == #[trigger] lowered@[j]@ by {}
}

/// A browser is told by the name of its executable in the path, Chrome before Edge, and has
/// its profiles and their icons in its own places.
pub proof fn browsers_are_told_by_their_executable(
    exe: &str,
    browser: Option<Browser>,
    known: Browser,
    dir: &'static str,
    file: &'static str,
)
    requires
        call_ensures(browser_of, (exe,), browser),
        call_ensures(Browser::user_data_dir, (known,), dir),
        call_ensures(Browser::icon_file, (known,), file),
    ensures
        browser == Some(Browser::Chrome) <==> holds(exe@, "chrome.exe"@),
        browser == Some(Browser::Edge) <==> !holds(exe@, "chrome.exe"@) && holds(
            exe@,
            "msedge.exe"@,
        ),
        known == Browser::Chrome ==> dir@ == "Google\\Chrome\\User Data"@ && file@
            == "Google Profile.ico"@,
        known == Browser::Edge ==> dir@ == "Microsoft\\Edge\\User Data"@ && file@
            == "Edge Profile.ico"@,
{
    lemma_holds(exe@, "chrome.exe"@);
    lemma_holds(exe@, "msedge.exe"@);
}

/// Where the icon of an application is looked for. First the file that the configuration
/// names. Then what the form of the path suggests: of three parts, the package of that name
/// or the shortcut of a web application; of two, the profile of a browser. Then the logos
/// of the package, for an executable that was installed with one. At last the executable,
/// the window, and the icon for applications without one.
pub proof fn icons_are_looked_for_in_order(
    override_path: Option<String>,
    app_path: &str,
    browser: Option<Browser>,
    pieces: Vec<String>,
    sources: Vec<IconSource>,
)
    requires
        call_ensures(icon_sources, (override_path, app_path, browser), sources),
        call_ensures(path_parts, (app_path,), pieces),
    ensures
        ({
            let first: int = if override_path is Some {
                1
            } else {
                0
            };
            let suggested = pieces@.len() == 3 || (pieces@.len() == 2 && browser is Some);
            let installed = begins(app_path@, "C:\\Program Files\\WindowsApps"@);
            let then: int = if suggested {
                first + 1
            } else {
                first
            };
            let last: int = if installed {
                then + 1
            } else {
                then
            };
            &&& sources@.len() == last + 3
            &&& override_path is Some ==> (sources@[0] matches IconSource::Override(path) && path@
                == override_path->0@)
            &&& pieces@.len() == 3 && pieces@[1]@ == "appx"@ ==> (
            sources@[first] matches IconSource::Package { app_id } && app_id@ == pieces@[2]@)
            &&& pieces@.len() == 3 && pieces@[1]@ != "appx"@ ==> (
            sources@[first] matches IconSource::Shortcut { exe_path, app_type, app_id } && exe_path@
                == pieces@[0]@ && app_type@ == pieces@[1]@ && app_id@ == pieces@[2]@)
            &&& pieces@.len() == 2 && browser is Some ==> (
            sources@[first] matches IconSource::Profile { browser: named, profile } && named
                == browser->0 && profile@ == pieces@[1]@)
            &&& installed ==> sources@[then] is AppxLogo
            &&& sources@[last] matches IconSource::Executable(path) && path@ == pieces@[0]@
            &&& sources@[last + 1] is Window
            &&& sources@[last + 2] is Fallback
        }),
{
    lemma_begins(app_path@, "C:\\Program Files\\WindowsApps"@);
    let views = source_views(sources@);
    let all = texts(pieces@);
    assert(all == parts(app_path@));
    assert(all.len() == pieces@.len());
    assert(forall|i: int| 0 <= i < all.len() ==> #[trigger] all[i] == pieces@[i]@);
    assert(views.len() == sources@.len());
    assert(forall|i: int| 0 <= i < views.len() ==> views[i] == (#[trigger] sources@[i])@);
}

/// Both name the same place to look for an icon.
pub open spec fn is_same_source(one: IconSource, other: IconSource) -> bool {
    match one {
        IconSource::Override(path) => other matches IconSource::Override(other_path) && path@
            == other_path@,
        IconSource::Package { app_id } => other matches IconSource::Package { app_id: other_id }
            && app_id@ == other_id@,
        IconSource::Shortcut { exe_path, app_type, app_id } => other matches IconSource::Shortcut {
            exe_path: other_path,
            app_type: other_type,
            app_id: other_id,
        } && exe_path@ == other_path@ && app_type@ == other_type@ && app_id@ == other_id@,
        IconSource::Profile { browser, profile } => other matches IconSource::Profile {
            browser: other_browser,
            profile: other_profile,
        } && browser == other_browser && profile@ == other_profile@,
        IconSource::AppxLogo => other is AppxLogo,
        IconSource::Executable(path) => other matches IconSource::Executable(other_path) && path@
            == other_path@,
        IconSource::Window => other is Window,
        IconSource::Fallback => other is Fallback,
    }
}

/// The icon of an application is looked for where its own path, the configuration and the
/// browser that it runs in say. Of the configuration the first entry counts whose key
/// stands in the path, the case of the letters aside.
pub proof fn icons_are_looked_for_by_configuration_and_path(
    override_icons: &IndexMap<String, String>,
    app_path: &str,
    sources: Vec<IconSource>,
    pieces: Vec<String>,
    exe: &str,
    browser: Option<Browser>,
    override_path: Option<String>,
    expected: Vec<IconSource>,
)
    requires
        call_ensures(get_app_icon, (override_icons, app_path), sources),
        call_ensures(path_parts, (app_path,), pieces),
        exe@ == lowercase(pieces@[0]@),
        call_ensures(browser_of, (exe,), browser),
        call_ensures(icon_sources, (override_path, app_path, browser), expected),
        match override_path {
            Some(path) => exists|i: int|
                #![trigger text_entries(*override_icons)[i]]
                0 <= i < text_entries(*override_icons).len() && text_entries(*override_icons)[i].1
                    == path@ && holds(
                    lowercase(app_path@),
                    lowercase(text_entries(*override_icons)[i].0),
                ) && forall|j: int|
                    0 <= j < i ==> !holds(
                        lowercase(app_path@),
                        lowercase(#[trigger] text_entries(*override_icons)[j].0),
                    ),
            None => forall|j: int|
                0 <= j < text_entries(*override_icons).len() ==> !holds(
                    lowercase(app_path@),
                    lowercase(#[trigger] text_entries(*override_icons)[j].0),
                ),
        },
    ensures
        sources@.len() == expected@.len(),
        forall|i: int|
            0 <= i < sources@.len() ==> is_same_source(#[trigger] sources@[i], expected@[i]),
{
    let entries = text_entries(*override_icons);
    let keys = lowered_keys(entries);
    let path = lowercase(app_path@);
    lemma_first_key(keys, path);
    assert(parts(app_path@)[0] == pieces@[0]@) by {
        assert(texts(pieces@)[0] == pieces@[0]@);
    }
    assert(keys.len() == entries.len());
    assert(forall|j: int| 0 <= j < keys.len() ==> #[trigger] keys[j] == lowercase(entries[j].0));
    let place = first_part_place(keys, path);
    if override_path is Some {
        let i = choose|i: int|
            #![trigger entries[i]]
            0 <= i < entries.len() && entries[i].1 == override_path->0@ && holds(
                path,
                lowercase(entries[i].0),
            ) && forall|j: int|
                0 <= j < i ==> !holds(path, lowercase(#[trigger] entries[j].0));
        assert(place == i) by {
            if place < i {
                assert(!holds(path, lowercase(entries[place].0)));
            } else if i < place {
                assert(!holds(path, keys[i]));
            }
        }
    } else if place < entries.len() {
        assert(!holds(path, lowercase(entries[place].0)));
    }
    assert(content_of(override_path) == crate::icon_source::override_for(entries, app_path@));
    let one = source_views(sources@);
    let other = source_views(expected@);
    assert(one == other);
    assert(one.len() == sources@.len() && other.len() == expected@.len());
    assert forall|i: int| 0 <= i < sources@.len() implies is_same_source(
        #[trigger] sources@[i],
        expected@[i],
    ) by {
        assert(one[i] == other[i]);
    }
}

} // verus!
