//! The panel of applications: what a step or the pointer changes in it, and which icon each
//! application has.
use std::rc::Rc;
use vstd::prelude::*;

use crate::app_icon::AppIcon;
use crate::laws::walks::{follows, lemma_wrap};
use crate::switch_apps::{
    app_views, are_distinct, gathered, group_views, has_app, identity_list, is_ascending, is_fresh,
    lemma_identity_list, lemma_shorter_is_distinct, looked_up_icons_are_those_missing,
    missing_places, process_identities, shown_icons_are_kept, AppGroup, CachedView, GroupView,
    IconCache, SwitchAppsInteractionState, SwitchAppsState,
};

verus! {

/// A step of the keyboard goes one place on among the applications, round the end. It
/// forgets what lies under the pointer, and takes the pointer to be where it is.
pub open spec fn is_step(
    before: SwitchAppsInteractionState,
    count: int,
    reverse: bool,
    pointer_position: (i32, i32),
    after: SwitchAppsInteractionState,
) -> bool {
    &&& after.hovered_index is None
    &&& after.pointer_position == pointer_position
    &&& count == 0 ==> after.keyboard_index == before.keyboard_index
    &&& before.keyboard_index < count ==> after.keyboard_index < count && follows(
        after.keyboard_index as int,
        before.keyboard_index as int,
        count,
        reverse,
    )
    &&& 0 < count <= before.keyboard_index && !reverse ==> after.keyboard_index == 0
    &&& 0 < count <= before.keyboard_index && reverse ==> after.keyboard_index
        == before.keyboard_index - 1
}

pub proof fn lemma_step(
    before: SwitchAppsInteractionState,
    count: int,
    reverse: bool,
    pointer_position: (i32, i32),
)
    requires
        0 <= count <= usize::MAX,
    ensures
        is_step(
            before,
            count,
            reverse,
            pointer_position,
            before.stepped(count, reverse, pointer_position),
        ),
{
    if before.keyboard_index < count {
        lemma_wrap(before.keyboard_index as int, count);
        let after = before.stepped(count, reverse, pointer_position);
        lemma_wrap(after.keyboard_index as int, count);
    }
}

/// A step of the keyboard goes one place on.
pub proof fn the_keyboard_goes_one_place_on<H, B>(
    state: &mut SwitchAppsInteractionState,
    app_count: usize,
    panel: &mut SwitchAppsState<H, B>,
    reverse: bool,
    pointer_position: (i32, i32),
)
    requires
        call_ensures(
            SwitchAppsInteractionState::navigate,
            (state, app_count, reverse, pointer_position),
            (),
        ),
        call_ensures(SwitchAppsState::<H, B>::navigate, (panel, reverse, pointer_position), ()),
    ensures
        is_step(*old(state), app_count as int, reverse, pointer_position, *final(state)),
        is_step(
            old(panel).interaction,
            old(panel).apps@.len() as int,
            reverse,
            pointer_position,
            final(panel).interaction,
        ),
        final(panel).apps@ == old(panel).apps@,
{
    lemma_step(*old(state), app_count as int, reverse, pointer_position);
    assert(old(panel).apps@.len() == old(panel).apps.len());
    lemma_step(
        old(panel).interaction,
        old(panel).apps@.len() as int,
        reverse,
        pointer_position,
    );
}

/// The pointer that has moved is over what it is over; one that has not changes nothing.
/// The place of the keyboard stays.
pub open spec fn is_pointed(
    before: SwitchAppsInteractionState,
    pointer_position: (i32, i32),
    hovered_index: Option<usize>,
    after: SwitchAppsInteractionState,
    changed: bool,
) -> bool {
    &&& after.pointer_position == pointer_position
    &&& after.keyboard_index == before.keyboard_index
    &&& before.pointer_position == pointer_position ==> after.hovered_index == before.hovered_index
    &&& before.pointer_position != pointer_position ==> after.hovered_index == hovered_index
    &&& changed <==> after.hovered_index != before.hovered_index
}

/// The pointer highlights what it moves over.
pub proof fn the_pointer_highlights_what_it_moves_over<H, B>(
    state: &mut SwitchAppsInteractionState,
    panel: &mut SwitchAppsState<H, B>,
    pointer_position: (i32, i32),
    hovered_index: Option<usize>,
    changed: bool,
    panel_changed: bool,
)
    requires
        call_ensures(
            SwitchAppsInteractionState::update_hover,
            (state, pointer_position, hovered_index),
            changed,
        ),
        call_ensures(
            SwitchAppsState::<H, B>::update_hover,
            (panel, pointer_position, hovered_index),
            panel_changed,
        ),
    ensures
        is_pointed(*old(state), pointer_position, hovered_index, *final(state), changed),
        is_pointed(
            old(panel).interaction,
            pointer_position,
            hovered_index,
            final(panel).interaction,
            panel_changed,
        ),
        final(panel).apps@ == old(panel).apps@,
{
}

/// The pointer that has left is over nothing, and is where it was.
pub open spec fn is_left(
    before: SwitchAppsInteractionState,
    after: SwitchAppsInteractionState,
    changed: bool,
) -> bool {
    &&& after.hovered_index is None
    &&& after.keyboard_index == before.keyboard_index
    &&& after.pointer_position == before.pointer_position
    &&& changed <==> before.hovered_index is Some
}

/// The pointer that is taken to be somewhere is over nothing.
pub open spec fn is_reset(
    before: SwitchAppsInteractionState,
    pointer_position: (i32, i32),
    after: SwitchAppsInteractionState,
) -> bool {
    &&& after.hovered_index is None
    &&& after.keyboard_index == before.keyboard_index
    &&& after.pointer_position == pointer_position
}

/// A pointer that leaves, or that is taken to be somewhere, is over nothing.
pub proof fn the_pointer_can_be_over_nothing<H, B>(
    state: &mut SwitchAppsInteractionState,
    changed: bool,
    panel: &mut SwitchAppsState<H, B>,
    panel_changed: bool,
    reset: &mut SwitchAppsInteractionState,
    reset_panel: &mut SwitchAppsState<H, B>,
    pointer_position: (i32, i32),
)
    requires
        call_ensures(SwitchAppsInteractionState::clear_hover, (state,), changed),
        call_ensures(SwitchAppsState::<H, B>::clear_hover, (panel,), panel_changed),
        call_ensures(
            SwitchAppsInteractionState::reset_pointer_position,
            (reset, pointer_position),
            (),
        ),
        call_ensures(
            SwitchAppsState::<H, B>::reset_pointer_position,
            (reset_panel, pointer_position),
            (),
        ),
    ensures
        is_left(*old(state), *final(state), changed),
        is_left(old(panel).interaction, final(panel).interaction, panel_changed),
        final(panel).apps@ == old(panel).apps@,
        is_reset(*old(reset), pointer_position, *final(reset)),
        is_reset(old(reset_panel).interaction, pointer_position, final(reset_panel).interaction),
        final(reset_panel).apps@ == old(reset_panel).apps@,
{
}

/// What lies under the pointer is highlighted, and for want of that what the keyboard is
/// on. At first nothing lies under the pointer.
pub proof fn the_pointer_goes_before_the_keyboard<H, B>(
    state: &SwitchAppsInteractionState,
    panel: &SwitchAppsState<H, B>,
    keyboard: usize,
    hovered: Option<usize>,
    displayed: usize,
    panel_displayed: usize,
    panel_keyboard: usize,
    index: usize,
    pointer_position: (i32, i32),
    fresh: SwitchAppsInteractionState,
)
    requires
        call_ensures(SwitchAppsInteractionState::keyboard_index, (state,), keyboard),
        call_ensures(SwitchAppsInteractionState::hovered_index, (state,), hovered),
        call_ensures(SwitchAppsInteractionState::displayed_index, (state,), displayed),
        call_ensures(SwitchAppsState::<H, B>::displayed_index, (panel,), panel_displayed),
        call_ensures(SwitchAppsState::<H, B>::keyboard_index, (panel,), panel_keyboard),
        call_ensures(SwitchAppsInteractionState::new, (index, pointer_position), fresh),
    ensures
        keyboard == state.keyboard_index,
        hovered == state.hovered_index,
        hovered is Some ==> displayed == hovered->0,
        hovered is None ==> displayed == keyboard,
        panel_keyboard == panel.interaction.keyboard_index,
        panel.interaction.hovered_index is Some ==> panel_displayed
            == panel.interaction.hovered_index->0,
        panel.interaction.hovered_index is None ==> panel_displayed == panel_keyboard,
        fresh.keyboard_index == index,
        fresh.hovered_index is None,
        fresh.pointer_position == pointer_position,
{
}

/// The panel opens one step away from the first application, which is the current one: on
/// the next, or on the last when it is opened backwards. It has nothing to open on without
/// applications.
pub proof fn the_panel_opens_one_step_away<H, B>(
    apps: Vec<(Rc<AppIcon<H, B>>, isize)>,
    reverse: bool,
    pointer_position: (i32, i32),
    panel: Option<SwitchAppsState<H, B>>,
)
    requires
        call_ensures(SwitchAppsState::<H, B>::open, (apps, reverse, pointer_position), panel),
    ensures
        panel is None <==> apps@.len() == 0,
        panel matches Some(panel) ==> {
            &&& panel.apps@ == apps@
            &&& panel.interaction.keyboard_index < apps@.len()
            &&& follows(
                panel.interaction.keyboard_index as int,
                0,
                apps@.len() as int,
                reverse,
            )
            &&& panel.interaction.hovered_index is None
            &&& panel.interaction.pointer_position == pointer_position
        },
{
    if panel is Some {
        let n = apps@.len() as int;
        assert(n == apps.len());
        lemma_wrap(0, n);
        lemma_wrap(panel->0.interaction.keyboard_index as int, n);
    }
}

/// An application is gone to by its window. That is its topmost one, but where this is
/// minimised the last.
pub proof fn applications_are_gone_to_by_a_window<H, B>(
    panel: &SwitchAppsState<H, B>,
    index: usize,
    window: Option<isize>,
    group: &AppGroup,
    group_window: isize,
)
    requires
        call_ensures(SwitchAppsState::<H, B>::window_at, (panel, index), window),
        call_ensures(AppGroup::window, (group,), group_window),
        group.windows@.len() > 0,
    ensures
        index < panel.apps@.len() ==> window == Some(panel.apps@[index as int].1),
        index >= panel.apps@.len() ==> window is None,
        !group.first_is_iconic ==> group_window == group.windows@[0],
        group.first_is_iconic ==> group_window == group.windows@[group.windows@.len() - 1],
{
}

/// An application is identified by when its processes started: each time once, in
/// ascending order. It is not where one of them is not known.
pub proof fn applications_are_identified_by_their_processes(
    times: &Vec<Option<u64>>,
    identities: Option<Vec<u64>>,
)
    requires
        call_ensures(process_identities, (times,), identities),
    ensures
        identities is Some <==> forall|i: int|
            0 <= i < times@.len() ==> (#[trigger] times@[i]) is Some,
        identities is Some ==> {
            &&& forall|i: int, j: int|
                0 <= i < j < identities->0@.len() ==> #[trigger] identities->0@[i]
                    < #[trigger] identities->0@[j]
            &&& forall|time: u64| #[trigger]
                identities->0@.contains(time) <==> times@.contains(Some(time))
        },
{
    if identities is Some {
        let known = times@.map_values(|t: Option<u64>| t->0);
        let list = identities->0@;
        assert(list == identity_list(known));
        lemma_identity_list(known);
        assert(is_ascending(list));
        assert forall|time: u64| #[trigger] list.contains(time) <==> times@.contains(
            Some(time),
        ) by {
            if list.contains(time) {
                assert(known.contains(time));
                let i = choose|i: int| 0 <= i < known.len() && known[i] == time;
                assert(times@[i] is Some);
                assert(times@[i] == Some(time));
            }
            if times@.contains(Some(time)) {
                let i = choose|i: int| 0 <= i < times@.len() && times@[i] == Some(time);
                assert(known[i] == time);
                assert(known.contains(time));
            }
        }
    }
}

/// The application is identified, and in both ways alike.
pub open spec fn is_identified(one: Option<Vec<u64>>, other: Option<Vec<u64>>) -> bool {
    one is Some && other is Some && one->0@ == other->0@
}

/// What an icon was kept under is what it is found under: the same application, with the
/// same processes, all of them known. What is kept under one application makes no
/// difference to another.
pub proof fn kept_icons_are_found_again<H, B>(
    cache: &mut IconCache<H, B>,
    app_path: String,
    icon: Rc<AppIcon<H, B>>,
    identities: Option<Vec<u64>>,
    before: &IconCache<H, B>,
    later: &IconCache<H, B>,
    path: &str,
    now: &Option<Vec<u64>>,
    found_before: Option<Rc<AppIcon<H, B>>>,
    found: Option<Rc<AppIcon<H, B>>>,
)
    requires
        *before == *old(cache),
        call_ensures(IconCache::<H, B>::keep, (cache, app_path, icon, identities), ()),
        *later == *final(cache),
        call_ensures(IconCache::<H, B>::find, (before, path, now), found_before),
        call_ensures(IconCache::<H, B>::find, (later, path, now), found),
    ensures
        path@ == app_path@ ==> (found is Some <==> is_identified(identities, *now)),
        path@ == app_path@ && found is Some ==> *found->0 == *icon,
        path@ != app_path@ ==> (found is Some <==> found_before is Some),
        path@ != app_path@ && found is Some ==> *found->0 == *found_before->0,
        *now is None ==> found is None,
{
}

/// Nothing is found at first, nor after everything was forgotten.
pub proof fn nothing_is_found_where_nothing_was_kept<H, B>(
    fresh: &IconCache<H, B>,
    new: IconCache<H, B>,
    cache: &mut IconCache<H, B>,
    cleared: &IconCache<H, B>,
    path: &str,
    now: &Option<Vec<u64>>,
    found: Option<Rc<AppIcon<H, B>>>,
    found_later: Option<Rc<AppIcon<H, B>>>,
)
    requires
        call_ensures(IconCache::<H, B>::new, (), new),
        *fresh == new,
        call_ensures(IconCache::<H, B>::find, (fresh, path, now), found),
        call_ensures(IconCache::<H, B>::clear, (cache,), ()),
        *cleared == *final(cache),
        call_ensures(IconCache::<H, B>::find, (cleared, path, now), found_later),
    ensures
        found is None,
        found_later is None,
{
}

/// Whether the icons of some applications are found: `finds` and `identities` tell what is
/// found for each of them, and by what.
pub open spec fn are_finds<H, B>(
    cache: IconCache<H, B>,
    groups: Seq<AppGroup>,
    paths: Seq<&str>,
    identities: Seq<Option<Vec<u64>>>,
    finds: Seq<Option<Rc<AppIcon<H, B>>>>,
) -> bool {
    forall|i: int|
        #![trigger groups[i]]
        #![trigger finds[i]]
        0 <= i < groups.len() ==> {
            &&& paths[i]@ == groups[i].app_path@
            &&& call_ensures(process_identities, (&groups[i].start_times,), identities[i])
            &&& call_ensures(
                IconCache::<H, B>::find,
                (&cache, paths[i], &identities[i]),
                finds[i],
            )
        }
}

proof fn lemma_missing_places<H, B>(
    groups: Seq<GroupView>,
    cache: Map<Seq<char>, CachedView<H, B>>,
    n: nat,
)
    requires
        n <= groups.len() <= usize::MAX,
    ensures
        ({
            let places = missing_places(groups.take(n as int), cache);
            &&& forall|k: int, m: int|
                0 <= k < m < places.len() ==> #[trigger] places[k] < #[trigger] places[m]
            &&& forall|k: int|
                0 <= k < places.len() ==> #[trigger] places[k] < n && !is_fresh(
                    cache,
                    groups[places[k] as int].app_path,
                    groups[places[k] as int].identities,
                )
            &&& forall|i: int|
                0 <= i < n && !is_fresh(
                    cache,
                    (#[trigger] groups[i]).app_path,
                    groups[i].identities,
                ) ==> places.contains(i as usize)
        }),
    decreases n,
{
    if n > 0 {
        lemma_missing_places(groups, cache, (n - 1) as nat);
        assert(groups.take(n as int).drop_last() =~= groups.take(n - 1));
        let rest = missing_places(groups.take(n - 1), cache);
        let places = missing_places(groups.take(n as int), cache);
        assert forall|i: int|
            0 <= i < n && !is_fresh(
                cache,
                (#[trigger] groups[i]).app_path,
                groups[i].identities,
            ) implies places.contains(i as usize) by {
            if i < n - 1 {
                assert(rest.contains(i as usize));
                let k = choose|k: int| 0 <= k < rest.len() && rest[k] == i as usize;
                assert(places[k] == i as usize);
            } else {
                assert(places[rest.len() as int] == i as usize);
            }
        }
    }
}

/// The icons that have to be looked up are those that are not found, in their order.
pub proof fn missing_icons_are_those_not_found<H, B>(
    cache: &IconCache<H, B>,
    groups: &Vec<AppGroup>,
    paths: Seq<&str>,
    identities: Seq<Option<Vec<u64>>>,
    finds: Seq<Option<Rc<AppIcon<H, B>>>>,
    places: Vec<usize>,
)
    requires
        are_finds(*cache, groups@, paths, identities, finds),
        call_ensures(IconCache::<H, B>::missing, (cache, groups), places),
    ensures
        forall|k: int, m: int|
            0 <= k < m < places@.len() ==> #[trigger] places@[k] < #[trigger] places@[m],
        forall|k: int|
            0 <= k < places@.len() ==> #[trigger] places@[k] < groups@.len()
                && finds[places@[k] as int] is None,
        forall|i: int|
            0 <= i < groups@.len() && (#[trigger] finds[i]) is None ==> places@.contains(
                i as usize,
            ),
{
    let views = group_views(groups@);
    assert(groups@.len() <= usize::MAX) by {
        assert(groups@.len() == groups.len());
    }
    lemma_missing_places(views, cache@, views.len());
    assert(views.take(views.len() as int) =~= views);
    assert forall|i: int| 0 <= i < groups@.len() implies ((#[trigger] finds[i]) is None
        <==> !is_fresh(cache@, views[i].app_path, views[i].identities)) by {
        assert(views[i] == groups@[i]@);
    }
    assert forall|i: int| 0 <= i < groups@.len() && (#[trigger] finds[i]) is None implies places@
        .contains(i as usize) by {
        assert(!is_fresh(cache@, views[i].app_path, views[i].identities));
    }
    assert forall|k: int| 0 <= k < places@.len() implies #[trigger] places@[k] < groups@.len()
        && finds[places@[k] as int] is None by {
        let i = places@[k] as int;
        assert(finds[i] is None <==> !is_fresh(cache@, views[i].app_path, views[i].identities));
    }
}

proof fn lemma_gathered<H, B>(
    groups: Seq<GroupView>,
    looked_up: Seq<AppIcon<H, B>>,
    cache: Map<Seq<char>, CachedView<H, B>>,
    n: nat,
)
    requires
        n <= groups.len() <= usize::MAX,
        are_distinct(groups),
    ensures
        ({
            let part = groups.take(n as int);
            let shown = gathered(part, looked_up, cache);
            let places = missing_places(part, cache);
            &&& shown.apps.len() == n
            &&& forall|i: int|
                0 <= i < n && is_fresh(cache, (#[trigger] groups[i]).app_path, groups[i].identities)
                    ==> shown.apps[i].0 == cache[groups[i].app_path].icon
            &&& forall|k: int|
                0 <= k < places.len() ==> shown.apps[(#[trigger] places[k]) as int].0
                    == looked_up[k]
        }),
    decreases n,
{
    let part = groups.take(n as int);
    if n > 0 {
        let before = groups.take(n - 1);
        lemma_gathered(groups, looked_up, cache, (n - 1) as nat);
        lemma_missing_places(groups, cache, (n - 1) as nat);
        lemma_missing_places(groups, cache, n);
        assert(part.drop_last() =~= before);
        assert(are_distinct(part)) by {
            assert forall|i: int, j: int| 0 <= i < j < part.len() implies (
            #[trigger] part[i]).app_path != (#[trigger] part[j]).app_path by {
                assert(part[i] == groups[i] && part[j] == groups[j]);
            }
        }
        lemma_shorter_is_distinct(part);
        looked_up_icons_are_those_missing(before, looked_up, cache);
        assert(!has_app(before, part.last().app_path));
        let shown = gathered(part, looked_up, cache);
        let earlier = gathered(before, looked_up, cache);
        let places = missing_places(part, cache);
        let rest = missing_places(before, cache);
        assert(is_fresh(earlier.cache, part.last().app_path, part.last().identities) == is_fresh(
            cache,
            part.last().app_path,
            part.last().identities,
        ));
        assert forall|i: int|
            0 <= i < n && is_fresh(
                cache,
                (#[trigger] groups[i]).app_path,
                groups[i].identities,
            ) implies shown.apps[i].0 == cache[groups[i].app_path].icon by {
            if i < n - 1 {
                assert(shown.apps[i] == earlier.apps[i]);
            }
        }
        assert forall|k: int| 0 <= k < places.len() implies shown.apps[(
        #[trigger] places[k]) as int].0 == looked_up[k] by {
            if k < rest.len() {
                assert(places[k] == rest[k]);
                assert(shown.apps[places[k] as int] == earlier.apps[places[k] as int]);
            }
        }
    }
}

/// The applications of a panel come in the order in which they were found, each with its
/// window. An icon that is found is taken from what was kept; the icons that were looked
/// up go to the applications that miss one, in their order.
pub proof fn each_application_has_its_icon<H, B>(
    cache: &mut IconCache<H, B>,
    before: &IconCache<H, B>,
    groups: &Vec<AppGroup>,
    looked_up: Vec<AppIcon<H, B>>,
    paths: Seq<&str>,
    identities: Seq<Option<Vec<u64>>>,
    finds: Seq<Option<Rc<AppIcon<H, B>>>>,
    places: Vec<usize>,
    windows: Seq<isize>,
    apps: Vec<(Rc<AppIcon<H, B>>, isize)>,
)
    requires
        *before == *old(cache),
        are_finds(*before, groups@, paths, identities, finds),
        call_ensures(IconCache::<H, B>::missing, (before, groups), places),
        call_ensures(IconCache::<H, B>::gather, (cache, groups, looked_up), apps),
        forall|i: int|
            0 <= i < groups@.len() ==> call_ensures(
                AppGroup::window,
                (&groups@[i],),
                #[trigger] windows[i],
            ),
        forall|i: int, j: int|
            0 <= i < j < groups@.len() ==> (#[trigger] groups@[i]).app_path@ != (
            #[trigger] groups@[j]).app_path@,
    ensures
        apps@.len() == groups@.len(),
        forall|i: int| 0 <= i < apps@.len() ==> (#[trigger] apps@[i]).1 == windows[i],
        forall|i: int|
            0 <= i < apps@.len() && finds[i] is Some ==> *(#[trigger] apps@[i]).0 == *finds[i]->0,
        forall|k: int|
            0 <= k < places@.len() ==> *apps@[(#[trigger] places@[k]) as int].0 == looked_up@[k],
{
    let views = group_views(groups@);
    let n = views.len();
    assert(groups@.len() <= usize::MAX) by {
        assert(groups@.len() == groups.len());
    }
    assert(are_distinct(views));
    lemma_gathered(views, looked_up@, before@, n);
    lemma_missing_places(views, before@, n);
    assert(views.take(n as int) =~= views);
    let shown = gathered(views, looked_up@, before@);
    assert(app_views(apps@) == shown.apps);
    assert(app_views(apps@).len() == apps@.len());
    assert(forall|i: int|
        0 <= i < apps@.len() ==> app_views(apps@)[i] == (*(#[trigger] apps@[i]).0, apps@[i].1));
    assert forall|i: int| 0 <= i < apps@.len() implies (#[trigger] apps@[i]).1 == windows[i] by {
        shown_icons_are_kept(views, looked_up@, before@, i);
        assert(views[i] == groups@[i]@);
        assert(call_ensures(AppGroup::window, (&groups@[i],), windows[i]));
    }
    assert forall|i: int| 0 <= i < apps@.len() && finds[i] is Some implies *(#[trigger] apps@[i]).0
        == *finds[i]->0 by {
        assert(views[i] == groups@[i]@);
    }
}

/// The icons that a panel shows are kept: an application whose processes are known finds
/// the icon that it was shown with, and the applications that were not shown find what
/// they found before.
pub proof fn shown_icons_are_found_again<H, B>(
    cache: &mut IconCache<H, B>,
    before: &IconCache<H, B>,
    later: &IconCache<H, B>,
    groups: &Vec<AppGroup>,
    looked_up: Vec<AppIcon<H, B>>,
    apps: Vec<(Rc<AppIcon<H, B>>, isize)>,
    i: int,
    path: &str,
    identities: Option<Vec<u64>>,
    found: Option<Rc<AppIcon<H, B>>>,
    other_path: &str,
    other_identities: &Option<Vec<u64>>,
    other_found_before: Option<Rc<AppIcon<H, B>>>,
    other_found: Option<Rc<AppIcon<H, B>>>,
)
    requires
        *before == *old(cache),
        *later == *final(cache),
        call_ensures(IconCache::<H, B>::gather, (cache, groups, looked_up), apps),
        forall|i: int, j: int|
            0 <= i < j < groups@.len() ==> (#[trigger] groups@[i]).app_path@ != (
            #[trigger] groups@[j]).app_path@,
        0 <= i < groups@.len(),
        path@ == groups@[i].app_path@,
        call_ensures(process_identities, (&groups@[i].start_times,), identities),
        call_ensures(IconCache::<H, B>::find, (later, path, &identities), found),
        forall|j: int|
            0 <= j < groups@.len() ==> (#[trigger] groups@[j]).app_path@ != other_path@,
        call_ensures(
            IconCache::<H, B>::find,
            (before, other_path, other_identities),
            other_found_before,
        ),
        call_ensures(IconCache::<H, B>::find, (later, other_path, other_identities), other_found),
    ensures
        found is Some <==> identities is Some,
        found is Some ==> *found->0 == *apps@[i].0,
        other_found is Some <==> other_found_before is Some,
        other_found is Some ==> *other_found->0 == *other_found_before->0,
{
    let views = group_views(groups@);
    assert(are_distinct(views));
    shown_icons_are_kept(views, looked_up@, before@, i);
    looked_up_icons_are_those_missing(views, looked_up@, before@);
    assert(views[i] == groups@[i]@);
    assert(app_views(apps@)[i] == (*apps@[i].0, apps@[i].1));
    assert(!has_app(views, other_path@)) by {
        if has_app(views, other_path@) {
            let j = choose|j: int|
                0 <= j < views.len() && (#[trigger] views[j]).app_path == other_path@;
            assert(groups@[j].app_path@ == other_path@);
        }
    }
}

/// The applications are gathered one after the other: what is kept for one is there for
/// the next, and each takes the next of the icons that were looked up, if it misses one.
pub proof fn applications_are_gathered_one_after_the_other<H, B>(
    cache: &mut IconCache<H, B>,
    groups: &Vec<AppGroup>,
    looked_up: Vec<AppIcon<H, B>>,
    apps: Vec<(Rc<AppIcon<H, B>>, isize)>,
    next_cache: &mut IconCache<H, B>,
    next_groups: &Vec<AppGroup>,
    next_looked_up: Vec<AppIcon<H, B>>,
    next_apps: Vec<(Rc<AppIcon<H, B>>, isize)>,
    whole_cache: &mut IconCache<H, B>,
    all_groups: &Vec<AppGroup>,
    all_looked_up: Vec<AppIcon<H, B>>,
    all_apps: Vec<(Rc<AppIcon<H, B>>, isize)>,
)
    requires
        call_ensures(IconCache::<H, B>::gather, (cache, groups, looked_up), apps),
        *old(next_cache) == *final(cache),
        call_ensures(
            IconCache::<H, B>::gather,
            (next_cache, next_groups, next_looked_up),
            next_apps,
        ),
        *old(whole_cache) == *old(cache),
        call_ensures(
            IconCache::<H, B>::gather,
            (whole_cache, all_groups, all_looked_up),
            all_apps,
        ),
        next_groups@.len() == 1,
        next_looked_up@.len() > 0,
        all_groups@ == groups@ + next_groups@,
        all_looked_up@ == looked_up@ + next_looked_up@,
        gathered(group_views(groups@), looked_up@, old(cache)@).used == looked_up@.len(),
    ensures
        final(whole_cache)@ == final(next_cache)@,
        all_apps@.len() == apps@.len() + 1,
        next_apps@.len() == 1,
        forall|i: int|
            0 <= i < apps@.len() ==> *(#[trigger] all_apps@[i]).0 == *apps@[i].0 && all_apps@[i].1
                == apps@[i].1,
        *all_apps@[apps@.len() as int].0 == *next_apps@[0].0,
        all_apps@[apps@.len() as int].1 == next_apps@[0].1,
{
    let first = group_views(groups@);
    let second = group_views(next_groups@);
    let all = group_views(all_groups@);
    let group = next_groups@[0]@;
    assert(all =~= first.push(group));
    assert(second =~= seq![group]);
    assert(all.drop_last() =~= first);
    assert(second.drop_last() =~= Seq::empty());
    lemma_more_icons(first, looked_up@, next_looked_up@, old(cache)@);
    let nothing = gathered(Seq::<GroupView>::empty(), next_looked_up@, final(cache)@);
    assert(nothing.used == 0 && nothing.cache == final(cache)@ && nothing.apps.len() == 0);
    assert(all_looked_up@.len() == looked_up@.len() + next_looked_up@.len());
    let one = app_views(apps@);
    let next = app_views(next_apps@);
    let whole = app_views(all_apps@);
    assert(one.len() == apps@.len() && next.len() == next_apps@.len());
    assert(whole.len() == all_apps@.len());
    lemma_gathered_count(first, looked_up@, old(cache)@);
    lemma_gathered_count(first, all_looked_up@, old(cache)@);
    if !is_fresh(final(cache)@, group.app_path, group.identities) {
        assert(all_looked_up@[looked_up@.len() as int] == next_looked_up@[0]);
    }
    assert forall|i: int| 0 <= i < apps@.len() implies *(#[trigger] all_apps@[i]).0 == *apps@[i].0
        && all_apps@[i].1 == apps@[i].1 by {
        assert(whole[i] == one[i]);
    }
    assert(whole[apps@.len() as int] == next[0]);
}

proof fn lemma_gathered_count<H, B>(
    groups: Seq<GroupView>,
    looked_up: Seq<AppIcon<H, B>>,
    cache: Map<Seq<char>, CachedView<H, B>>,
)
    ensures
        gathered(groups, looked_up, cache).apps.len() == groups.len(),
    decreases groups.len(),
{
    if groups.len() > 0 {
        lemma_gathered_count(groups.drop_last(), looked_up, cache);
    }
}

proof fn lemma_more_icons<H, B>(
    groups: Seq<GroupView>,
    looked_up: Seq<AppIcon<H, B>>,
    more: Seq<AppIcon<H, B>>,
    cache: Map<Seq<char>, CachedView<H, B>>,
)
    requires
        gathered(groups, looked_up, cache).used <= looked_up.len(),
    ensures
        gathered(groups, looked_up + more, cache) == gathered(groups, looked_up, cache),
    decreases groups.len(),
{
    if groups.len() > 0 {
        lemma_more_icons(groups.drop_last(), looked_up, more, cache);
    }
}

} // verus!
