//! Where the icon of an application is looked for, in which order.
use indexmap::IndexMap;
use vstd::prelude::*;

use crate::collections::{text_entries, text_entry};
use crate::text::{
    contains_text, content_of, has_part, lowercase, parts, path_parts, starts_with, text_eq,
    text_starts_with, texts,
};

verus! {

/// A browser that gives each of its profiles an icon.
#[derive(Clone, Copy, Debug, PartialEq, Eq, Structural)]
pub enum Browser {
    Chrome,
    Edge,
}

impl Browser {
    /// The directory of its profiles, below the user's local application data.
    pub fn user_data_dir(self) -> (dir: &'static str)
        ensures
            dir@ == match self {
                Browser::Chrome => "Google\\Chrome\\User Data"@,
                Browser::Edge => "Microsoft\\Edge\\User Data"@,
            },
    {
        match self {
            Browser::Chrome => "Google\\Chrome\\User Data",
            Browser::Edge => "Microsoft\\Edge\\User Data",
        }
    }

    /// The icon file in the directory of a profile.
    pub fn icon_file(self) -> (file: &'static str)
        ensures
            file@ == match self {
                Browser::Chrome => "Google Profile.ico"@,
                Browser::Edge => "Edge Profile.ico"@,
            },
    {
        match self {
            Browser::Chrome => "Google Profile.ico",
            Browser::Edge => "Edge Profile.ico",
        }
    }
}

/// A place to look for an icon.
pub enum IconSource {
    /// A file that the configuration names.
    Override(String),
    /// The logos of an installed package.
    Package { app_id: String },
    /// The shortcut of a web application.
    Shortcut { exe_path: String, app_type: String, app_id: String },
    /// The icon of a browser profile.
    Profile { browser: Browser, profile: String },
    /// The logos of the package that the executable lies in.
    AppxLogo,
    /// The icons of an executable.
    Executable(String),
    /// The icon that the window itself has.
    Window,
    /// The icon for applications without one.
    Fallback,
}

/// The content of an `IconSource`.
pub enum SourceView {
    Override(Seq<char>),
    Package { app_id: Seq<char> },
    Shortcut { exe_path: Seq<char>, app_type: Seq<char>, app_id: Seq<char> },
    Profile { browser: Browser, profile: Seq<char> },
    AppxLogo,
    Executable(Seq<char>),
    Window,
    Fallback,
}

impl View for IconSource {
    type V = SourceView;

    open spec fn view(&self) -> SourceView {
        match self {
            IconSource::Override(path) => SourceView::Override(path@),
            IconSource::Package { app_id } => SourceView::Package { app_id: app_id@ },
            IconSource::Shortcut { exe_path, app_type, app_id } => SourceView::Shortcut {
                exe_path: exe_path@,
                app_type: app_type@,
                app_id: app_id@,
            },
            IconSource::Profile { browser, profile } => SourceView::Profile {
                browser: *browser,
                profile: profile@,
            },
            IconSource::AppxLogo => SourceView::AppxLogo,
            IconSource::Executable(path) => SourceView::Executable(path@),
            IconSource::Window => SourceView::Window,
            IconSource::Fallback => SourceView::Fallback,
        }
    }
}

pub open spec fn source_views(sources: Seq<IconSource>) -> Seq<SourceView> {
    sources.map_values(|s: IconSource| s@)
}

/// The place of the first key that is part of a path; the number of keys where none
/// is.
pub open spec fn first_part_place(keys: Seq<Seq<char>>, path: Seq<char>) -> int
    decreases keys.len(),
{
    if keys.len() == 0 || has_part(path, keys.first()) {
        0
    } else {
        1 + first_part_place(keys.drop_first(), path)
    }
}

/// The browser whose executable a path names, given in small letters.
pub open spec fn browser_in(lowered_exe: Seq<char>) -> Option<Browser> {
    if has_part(lowered_exe, "chrome.exe"@) {
        Some(Browser::Chrome)
    } else if has_part(lowered_exe, "msedge.exe"@) {
        Some(Browser::Edge)
    } else {
        None
    }
}

/// The file that the configuration names.
pub open spec fn override_source(path: Option<Seq<char>>) -> Seq<SourceView> {
    match path {
        Some(path) => seq![SourceView::Override(path)],
        None => Seq::empty(),
    }
}

/// The source for a path of three parts, which names an application that runs in
/// another.
pub open spec fn hosted_source(pieces: Seq<Seq<char>>) -> Seq<SourceView> {
    if pieces.len() != 3 {
        Seq::empty()
    } else if pieces[1] == "appx"@ {
        seq![SourceView::Package { app_id: pieces[2] }]
    } else {
        seq![
            SourceView::Shortcut { exe_path: pieces[0], app_type: pieces[1], app_id: pieces[2] },
        ]
    }
}

/// The source for a path of two parts, which names a browser and a profile.
pub open spec fn profile_source(pieces: Seq<Seq<char>>, browser: Option<Browser>) -> Seq<
    SourceView,
> {
    if pieces.len() != 2 || browser is None {
        Seq::empty()
    } else {
        seq![SourceView::Profile { browser: browser->0, profile: pieces[1] }]
    }
}

/// Everywhere the icon of an application is looked for, in order: the file that the
/// configuration names, what the kind of the application suggests, and at last what
/// every application has.
pub open spec fn all_sources(
    override_path: Option<Seq<char>>,
    app_path: Seq<char>,
    browser: Option<Browser>,
) -> Seq<SourceView> {
    let logo = if starts_with(app_path, "C:\\Program Files\\WindowsApps"@) {
        seq![SourceView::AppxLogo]
    } else {
        Seq::empty()
    };
    override_source(override_path) + hosted_source(parts(app_path)) + profile_source(
        parts(app_path),
        browser,
    ) + logo + seq![
        SourceView::Executable(parts(app_path)[0]),
        SourceView::Window,
        SourceView::Fallback,
    ]
}

proof fn lemma_first_part_place(keys: Seq<Seq<char>>, path: Seq<char>, i: int)
    requires
        0 <= i <= keys.len(),
        forall|j: int| 0 <= j < i ==> !has_part(path, #[trigger] keys[j]),
        i < keys.len() ==> has_part(path, keys[i]),
    ensures
        first_part_place(keys, path) == i,
    decreases keys.len(),
{
    if keys.len() > 0 && i > 0 {
        assert(!has_part(path, keys[0]));
        let rest = keys.drop_first();
        assert forall|j: int| 0 <= j < i - 1 implies !has_part(path, #[trigger] rest[j]) by {
            assert(rest[j] == keys[j + 1]);
        }
        lemma_first_part_place(rest, path, i - 1);
    }
}

/// The place of the first key that is part of a path.
pub fn find_override(lowered_keys: &Vec<String>, lowered_path: &str) -> (place: Option<usize>)
    ensures
        match place {
            Some(i) => i < lowered_keys@.len() && i == first_part_place(
                texts(lowered_keys@),
                lowered_path@,
            ),
            None => first_part_place(texts(lowered_keys@), lowered_path@) == lowered_keys@.len(),
        },
{
    let ghost keys = texts(lowered_keys@);
    let mut i: usize = 0;
    while i < lowered_keys.len()
        invariant
            i <= lowered_keys@.len(),
            keys == texts(lowered_keys@),
            forall|j: int| 0 <= j < i ==> !has_part(lowered_path@, #[trigger] keys[j]),
        decreases lowered_keys@.len() - i,
    {
        assert(keys[i as int] == lowered_keys@[i as int]@);
        if contains_text(lowered_path, lowered_keys[i].as_str()) {
            proof {
                lemma_first_part_place(keys, lowered_path@, i as int);
            }
            return Some(i);
        }
        i += 1;
    }
    proof {
        lemma_first_part_place(keys, lowered_path@, i as int);
    }
    None
}

/// The browser whose executable a path names, given in small letters.
pub fn browser_of(lowered_exe: &str) -> (browser: Option<Browser>)
    ensures
        browser == browser_in(lowered_exe@),
{
    if contains_text(lowered_exe, "chrome.exe") {
        Some(Browser::Chrome)
    } else if contains_text(lowered_exe, "msedge.exe") {
        Some(Browser::Edge)
    } else {
        None
    }
}

fn push_hosted(sources: &mut Vec<IconSource>, pieces: &Vec<String>)
    ensures
        source_views(final(sources)@) == source_views(old(sources)@) + hosted_source(
            texts(pieces@),
        ),
{
    if pieces.len() == 3 {
        assert(texts(pieces@)[1] == pieces@[1]@);
        if text_eq(pieces[1].as_str(), "appx") {
            sources.push(IconSource::Package { app_id: pieces[2].clone() });
        } else {
            sources.push(
                IconSource::Shortcut {
                    exe_path: pieces[0].clone(),
                    app_type: pieces[1].clone(),
                    app_id: pieces[2].clone(),
                },
            );
        }
    }
    assert(source_views(sources@) =~= source_views(old(sources)@) + hosted_source(texts(pieces@)));
}

fn push_profile(sources: &mut Vec<IconSource>, pieces: &Vec<String>, browser: Option<Browser>)
    ensures
        source_views(final(sources)@) == source_views(old(sources)@) + profile_source(
            texts(pieces@),
            browser,
        ),
{
    if pieces.len() == 2 {
        if let Some(browser) = browser {
            sources.push(IconSource::Profile { browser, profile: pieces[1].clone() });
        }
    }
    assert(source_views(sources@) =~= source_views(old(sources)@) + profile_source(
        texts(pieces@),
        browser,
    ));
}

/// Everywhere the icon of an application is looked for, given the file that the
/// configuration names for it and the browser that it runs in.
pub fn icon_sources(
    override_path: Option<String>,
    app_path: &str,
    browser: Option<Browser>,
) -> (sources: Vec<IconSource>)
    ensures
        source_views(sources@) == all_sources(
            content_of(override_path),
            app_path@,
            browser,
        ),
{
    let pieces: Vec<String> = path_parts(app_path);
    let mut sources: Vec<IconSource> = Vec::new();
    let ghost first = override_source(content_of(override_path));
    if let Some(path) = override_path {
        sources.push(IconSource::Override(path));
    }
    assert(source_views(sources@) =~= first);
    push_hosted(&mut sources, &pieces);
    push_profile(&mut sources, &pieces, browser);
    let ghost before = source_views(sources@);
    let ghost logo = if starts_with(app_path@, "C:\\Program Files\\WindowsApps"@) {
        seq![SourceView::AppxLogo]
    } else {
        Seq::empty()
    };
    if text_starts_with(app_path, "C:\\Program Files\\WindowsApps") {
        sources.push(IconSource::AppxLogo);
    }
    assert(source_views(sources@) =~= before + logo);
    assert(parts(app_path@)[0] == pieces@[0]@);
    sources.push(IconSource::Executable(pieces[0].clone()));
    sources.push(IconSource::Window);
    sources.push(IconSource::Fallback);
    assert(source_views(sources@) =~= before + logo + seq![
        SourceView::Executable(parts(app_path@)[0]),
        SourceView::Window,
        SourceView::Fallback,
    ]);
    sources
}

/// The keys of a configuration's icons, in small letters.
pub open spec fn lowered_keys(entries: Seq<(Seq<char>, Seq<char>)>) -> Seq<Seq<char>> {
    entries.map_values(|e: (Seq<char>, Seq<char>)| lowercase(e.0))
}

/// The file that a configuration names for an application.
pub open spec fn override_for(
    entries: Seq<(Seq<char>, Seq<char>)>,
    app_path: Seq<char>,
) -> Option<Seq<char>> {
    let place = first_part_place(lowered_keys(entries), lowercase(app_path));
    if place < entries.len() {
        Some(entries[place].1)
    } else {
        None
    }
}

/// Everywhere the icon of an application is looked for, in order.
pub fn get_app_icon(override_icons: &IndexMap<String, String>, app_path: &str) -> (sources: Vec<
    IconSource,
>)
    ensures
        source_views(sources@) == all_sources(
            override_for(text_entries(*override_icons), app_path@),
            app_path@,
            browser_in(lowercase(parts(app_path@)[0])),
        ),
{
    let ghost entries = text_entries(*override_icons);
    let lowered_path: String = app_path.to_lowercase();
    let mut keys: Vec<String> = Vec::new();
    let mut values: Vec<String> = Vec::new();
    loop
        invariant
            entries == text_entries(*override_icons),
            keys@.len() == values@.len(),
            keys@.len() <= entries.len(),
            texts(keys@) == lowered_keys(entries).take(keys@.len() as int),
            forall|j: int| 0 <= j < values@.len() ==> (#[trigger] values@[j])@ == entries[j].1,
        ensures
            keys@.len() == entries.len(),
        decreases entries.len() - keys@.len(),
    {
        let ghost count = keys@.len() as int;
        match text_entry(override_icons, keys.len()) {
            Some((key, value)) => {
                keys.push(key.to_lowercase());
                values.push(value.clone());
                assert(texts(keys@) =~= lowered_keys(entries).take(count + 1));
            },
            None => {
                break;
            },
        }
    }
    assert(texts(keys@) =~= lowered_keys(entries));
    let override_path: Option<String> = match find_override(&keys, lowered_path.as_str()) {
        Some(i) => Some(values[i].clone()),
        None => None,
    };
    let pieces: Vec<String> = path_parts(app_path);
    assert(parts(app_path@)[0] == pieces@[0]@);
    let browser: Option<Browser> = browser_of(pieces[0].to_lowercase().as_str());
    icon_sources(override_path, app_path, browser)
}

/// The search always ends: the last place is the icon for applications without one,
/// and what the configuration names comes before everything else.
pub proof fn search_starts_with_override_and_ends_with_fallback(
    override_path: Option<Seq<char>>,
    app_path: Seq<char>,
    browser: Option<Browser>,
)
    ensures
        ({
            let sources = all_sources(override_path, app_path, browser);
            &&& 3 <= sources.len() <= 6
            &&& sources.last() == SourceView::Fallback
            &&& override_path matches Some(path) ==> sources.first() == SourceView::Override(path)
        }),
{
}

} // verus!
