//! The panel of applications: what is shown in it, and which one is pointed at.
use std::rc::Rc;
use vstd::hash_map::StringHashMap;
use vstd::prelude::*;

use crate::app_icon::AppIcon;
use crate::fixed_order::stepped_index;

verus! {

/// The application that the keyboard has reached, the one under the pointer, and
/// where the pointer was when that was last told.
pub struct SwitchAppsInteractionState {
    pub keyboard_index: usize,
    pub hovered_index: Option<usize>,
    pub pointer_position: (i32, i32),
}

impl SwitchAppsInteractionState {
    /// The application that is highlighted.
    pub open spec fn displayed(self) -> usize {
        match self.hovered_index {
            Some(index) => index,
            None => self.keyboard_index,
        }
    }

    pub fn new(keyboard_index: usize, pointer_position: (i32, i32)) -> (state: Self)
        ensures
            state == (SwitchAppsInteractionState {
                keyboard_index,
                hovered_index: None,
                pointer_position,
            }),
    {
        SwitchAppsInteractionState { keyboard_index, hovered_index: None, pointer_position }
    }

    pub fn keyboard_index(&self) -> (index: usize)
        ensures
            index == self.keyboard_index,
    {
        self.keyboard_index
    }

    pub fn hovered_index(&self) -> (index: Option<usize>)
        ensures
            index == self.hovered_index,
    {
        self.hovered_index
    }

    pub fn displayed_index(&self) -> (index: usize)
        ensures
            index == self.displayed(),
    {
        match self.hovered_index {
            Some(index) => index,
            None => self.keyboard_index,
        }
    }

    /// The state once the pointer has moved. A pointer that did not move changes
    /// nothing.
    pub open spec fn pointed(
        self,
        pointer_position: (i32, i32),
        hovered_index: Option<usize>,
    ) -> Self {
        if self.pointer_position == pointer_position {
            self
        } else {
            SwitchAppsInteractionState { pointer_position, hovered_index, ..self }
        }
    }

    /// Takes note of where the pointer is and of what lies under it. Tells whether
    /// something else is highlighted by it.
    pub fn update_hover(
        &mut self,
        pointer_position: (i32, i32),
        hovered_index: Option<usize>,
    ) -> (changed: bool)
        ensures
            *final(self) == old(self).pointed(pointer_position, hovered_index),
            changed == (final(self).hovered_index != old(self).hovered_index),
    {
        if self.pointer_position.0 == pointer_position.0 && self.pointer_position.1
            == pointer_position.1 {
            return false;
        }
        self.pointer_position = pointer_position;
        let same: bool = match (self.hovered_index, hovered_index) {
            (Some(before), Some(now)) => before == now,
            (None, None) => true,
            _ => false,
        };
        if same {
            return false;
        }
        self.hovered_index = hovered_index;
        true
    }

    /// Forgets what lies under the pointer. Tells whether there was anything.
    pub fn clear_hover(&mut self) -> (changed: bool)
        ensures
            *final(self) == (SwitchAppsInteractionState { hovered_index: None, ..*old(self) }),
            changed == (old(self).hovered_index is Some),
    {
        if self.hovered_index().is_none() {
            return false;
        }
        self.hovered_index = None;
        true
    }

    /// Takes the pointer to be here, over nothing.
    pub fn reset_pointer_position(&mut self, pointer_position: (i32, i32))
        ensures
            *final(self) == (SwitchAppsInteractionState {
                hovered_index: None,
                pointer_position,
                ..*old(self)
            }),
    {
        self.pointer_position = pointer_position;
        self.hovered_index = None;
    }

    /// The state after a step of the keyboard among `app_count` applications.
    pub open spec fn stepped(
        self,
        app_count: int,
        reverse: bool,
        pointer_position: (i32, i32),
    ) -> Self {
        SwitchAppsInteractionState {
            keyboard_index: if app_count == 0 {
                self.keyboard_index
            } else {
                stepped_index(self.keyboard_index as int, app_count, reverse) as usize
            },
            hovered_index: None,
            pointer_position,
        }
    }

    /// A step of the keyboard to the next or the previous application, which starts
    /// from where the keyboard was and not from what lies under the pointer.
    pub fn navigate(&mut self, app_count: usize, reverse: bool, pointer_position: (i32, i32))
        ensures
            *final(self) == old(self).stepped(app_count as int, reverse, pointer_position),
    {
        self.pointer_position = pointer_position;
        if app_count == 0 {
            self.hovered_index = None;
            return;
        }
        self.keyboard_index = if reverse {
            if self.keyboard_index == 0 {
                app_count - 1
            } else {
                self.keyboard_index - 1
            }
        } else if self.keyboard_index >= app_count - 1 {
            0
        } else {
            self.keyboard_index + 1
        };
        self.hovered_index = None;
    }
}

/// The pointer never moves the keyboard's place: letting go of the modifier goes to
/// the application that the keyboard reached.
pub proof fn pointer_keeps_the_keyboard_place(
    state: SwitchAppsInteractionState,
    position: (i32, i32),
    hovered: Option<usize>,
)
    ensures
        state.pointed(position, hovered).keyboard_index == state.keyboard_index,
        position != state.pointer_position ==> (hovered matches Some(index) ==> state.pointed(
            position,
            hovered,
        ).displayed() == index),
{
}

/// A pointer that has not moved since the keyboard was used highlights nothing.
pub proof fn resting_pointer_highlights_nothing(
    state: SwitchAppsInteractionState,
    app_count: int,
    reverse: bool,
    position: (i32, i32),
    hovered: Option<usize>,
)
    ensures
        ({
            let after = state.stepped(app_count, reverse, position).pointed(position, hovered);
            &&& after == state.stepped(app_count, reverse, position)
            &&& after.displayed() == after.keyboard_index
        }),
{
}

/// Once the pointer has been taken to be somewhere, over nothing, it highlights nothing
/// until it moves; moving over an application highlights that one.
pub proof fn pointer_taken_to_be_here_highlights_once_it_moves(
    state: SwitchAppsInteractionState,
    position: (i32, i32),
    later_position: (i32, i32),
    hovered: Option<usize>,
)
    ensures
        ({
            let reset = SwitchAppsInteractionState {
                hovered_index: None,
                pointer_position: position,
                ..state
            };
            let later = reset.pointed(later_position, hovered);
            &&& reset.displayed() == state.keyboard_index
            &&& later_position == position ==> later == reset
            &&& later_position != position ==> later.hovered_index == hovered
            &&& later.keyboard_index == state.keyboard_index
        }),
{
}

/// A step of the keyboard stays among the applications, and a step the other way
/// undoes it.
pub proof fn navigation_stays_inside_and_can_be_undone(
    state: SwitchAppsInteractionState,
    app_count: int,
    reverse: bool,
    position: (i32, i32),
    other_position: (i32, i32),
)
    requires
        state.keyboard_index < app_count <= usize::MAX,
    ensures
        ({
            let there = state.stepped(app_count, reverse, position);
            let back = there.stepped(app_count, !reverse, other_position);
            &&& there.keyboard_index < app_count
            &&& app_count > 1 ==> there.keyboard_index != state.keyboard_index
            &&& back.keyboard_index == state.keyboard_index
        }),
{
}

/// The list with a number added, in ascending order and without repetition.
pub open spec fn with_identity(list: Seq<u64>, id: u64) -> Seq<u64>
    decreases list.len(),
{
    if list.len() == 0 || list.last() < id {
        list.push(id)
    } else if list.last() == id {
        list
    } else {
        with_identity(list.drop_last(), id).push(list.last())
    }
}

/// Some numbers in ascending order, each once.
pub open spec fn identity_list(ids: Seq<u64>) -> Seq<u64>
    decreases ids.len(),
{
    if ids.len() == 0 {
        Seq::empty()
    } else {
        with_identity(identity_list(ids.drop_last()), ids.last())
    }
}

/// What identifies the processes of some windows: when they started. Nothing where
/// that is not known of every window.
pub open spec fn identities_of(times: Seq<Option<u64>>) -> Option<Seq<u64>> {
    if forall|i: int| 0 <= i < times.len() ==> (#[trigger] times[i]) is Some {
        Some(identity_list(times.map_values(|t: Option<u64>| t->0)))
    } else {
        None
    }
}

pub open spec fn is_ascending(list: Seq<u64>) -> bool {
    forall|i: int, j: int| 0 <= i < j < list.len() ==> #[trigger] list[i] < #[trigger] list[j]
}

proof fn lemma_with_identity(list: Seq<u64>, id: u64)
    requires
        is_ascending(list),
    ensures
        is_ascending(with_identity(list, id)),
        forall|x: u64| #[trigger]
            with_identity(list, id).contains(x) <==> list.contains(x) || x == id,
    decreases list.len(),
{
    let result = with_identity(list, id);
    if list.len() == 0 || list.last() < id {
        assert forall|x: u64| #[trigger] result.contains(x) <==> list.contains(x) || x == id by {
            if list.contains(x) {
                let k = choose|k: int| 0 <= k < list.len() && list[k] == x;
                assert(result[k] == x);
            }
            assert(result[list.len() as int] == id);
        }
    } else if list.last() == id {
        assert(list[list.len() - 1] == id);
    } else {
        let rest = list.drop_last();
        let shorter = with_identity(rest, id);
        lemma_with_identity(rest, id);
        assert forall|i: int| 0 <= i < shorter.len() implies #[trigger] shorter[i]
            < list.last() by {
            assert(shorter.contains(shorter[i]));
            if rest.contains(shorter[i]) {
                let k = choose|k: int| 0 <= k < rest.len() && rest[k] == shorter[i];
                assert(list[k] < list[list.len() - 1]);
            }
        }
        assert forall|x: u64| #[trigger] result.contains(x) <==> list.contains(x) || x == id by {
            if result.contains(x) {
                let k = choose|k: int| 0 <= k < result.len() && result[k] == x;
                if k < shorter.len() {
                    assert(shorter[k] == x);
                    assert(shorter.contains(x));
                    if rest.contains(x) {
                        let m = choose|m: int| 0 <= m < rest.len() && rest[m] == x;
                        assert(list[m] == x);
                    }
                } else {
                    assert(list[list.len() - 1] == x);
                }
            }
            if list.contains(x) {
                let k = choose|k: int| 0 <= k < list.len() && list[k] == x;
                if k < rest.len() {
                    assert(rest[k] == x);
                    assert(shorter.contains(x));
                    let m = choose|m: int| 0 <= m < shorter.len() && shorter[m] == x;
                    assert(result[m] == x);
                } else {
                    assert(result[result.len() - 1] == x);
                }
            }
            if x == id {
                assert(shorter.contains(x));
                let m = choose|m: int| 0 <= m < shorter.len() && shorter[m] == x;
                assert(result[m] == x);
            }
        }
    }
}

pub proof fn lemma_identity_list(ids: Seq<u64>)
    ensures
        is_ascending(identity_list(ids)),
        forall|x: u64| #[trigger] identity_list(ids).contains(x) <==> ids.contains(x),
    decreases ids.len(),
{
    if ids.len() > 0 {
        let rest = ids.drop_last();
        lemma_identity_list(rest);
        lemma_with_identity(identity_list(rest), ids.last());
        assert forall|x: u64| #[trigger] identity_list(ids).contains(x) <==> ids.contains(x) by {
            if rest.contains(x) {
                let k = choose|k: int| 0 <= k < rest.len() && rest[k] == x;
                assert(ids[k] == x);
            }
            if ids.contains(x) {
                let k = choose|k: int| 0 <= k < ids.len() && ids[k] == x;
                if k < rest.len() {
                    assert(rest[k] == x);
                }
            }
            assert(ids[ids.len() - 1] == ids.last());
        }
    }
}

proof fn lemma_ascending_lists_agree(one: Seq<u64>, other: Seq<u64>)
    requires
        is_ascending(one),
        is_ascending(other),
        forall|x: u64| #[trigger] one.contains(x) <==> other.contains(x),
    ensures
        one == other,
    decreases one.len(),
{
    if one.len() == 0 {
        if other.len() > 0 {
            assert(other.contains(other[0]));
            assert(one.contains(other[0]));
        }
        assert(one =~= other);
    } else {
        assert(one.contains(one.last()));
        assert(other.contains(one.last()));
        assert(other.contains(other.last()));
        assert(one.contains(other.last()));
        let k = choose|k: int| 0 <= k < other.len() && other[k] == one.last();
        let m = choose|m: int| 0 <= m < one.len() && one[m] == other.last();
        assert(one.last() == other.last()) by {
            if k < other.len() - 1 {
                assert(other[k] < other[other.len() - 1]);
                if m < one.len() - 1 {
                    assert(one[m] < one[one.len() - 1]);
                }
            }
        }
        let a = one.drop_last();
        let b = other.drop_last();
        assert forall|x: u64| #[trigger] a.contains(x) <==> b.contains(x) by {
            if a.contains(x) {
                let i = choose|i: int| 0 <= i < a.len() && a[i] == x;
                assert(one[i] < one[one.len() - 1]);
                assert(one.contains(x));
                let j = choose|j: int| 0 <= j < other.len() && other[j] == x;
                assert(b[j] == x);
            }
            if b.contains(x) {
                let i = choose|i: int| 0 <= i < b.len() && b[i] == x;
                assert(other[i] < other[other.len() - 1]);
                assert(other.contains(x));
                assert(one.contains(x));
                let j = choose|j: int| 0 <= j < one.len() && one[j] == x;
                assert(a[j] == x);
            }
        }
        lemma_ascending_lists_agree(a, b);
        assert(one =~= a.push(one.last()));
        assert(other =~= b.push(other.last()));
    }
}

/// What identifies an application depends on its processes alone: neither on the
/// order of its windows nor on how many of them each process has.
pub proof fn identity_is_that_of_the_processes(one: Seq<u64>, other: Seq<u64>)
    requires
        forall|x: u64| #[trigger] one.contains(x) <==> other.contains(x),
    ensures
        identity_list(one) == identity_list(other),
{
    lemma_identity_list(one);
    lemma_identity_list(other);
    assert forall|x: u64| #[trigger]
        identity_list(one).contains(x) <==> identity_list(other).contains(x) by {
        assert(one.contains(x) <==> other.contains(x));
    }
    lemma_ascending_lists_agree(identity_list(one), identity_list(other));
}

/// Applications with different processes are told apart.
pub proof fn different_processes_are_told_apart(one: Seq<u64>, other: Seq<u64>, x: u64)
    requires
        one.contains(x),
        !other.contains(x),
    ensures
        identity_list(one) != identity_list(other),
{
    lemma_identity_list(one);
    lemma_identity_list(other);
    assert(identity_list(one).contains(x));
    assert(!identity_list(other).contains(x));
}

proof fn lemma_identity_place(list: Seq<u64>, id: u64, at: int)
    requires
        0 <= at <= list.len(),
        forall|j: int| at <= j < list.len() ==> #[trigger] list[j] > id,
        at > 0 ==> list[at - 1] <= id,
    ensures
        with_identity(list, id) == (if at > 0 && list[at - 1] == id {
            list
        } else {
            list.insert(at, id)
        }),
    decreases list.len(),
{
    if at < list.len() {
        let rest = list.drop_last();
        assert(list.last() == list[list.len() - 1]);
        assert forall|j: int| at <= j < rest.len() implies #[trigger] rest[j] > id by {
            assert(rest[j] == list[j]);
        }
        lemma_identity_place(rest, id, at);
        if at > 0 && list[at - 1] == id {
            assert(rest.push(list.last()) =~= list);
        } else {
            assert(rest.insert(at, id).push(list.last()) =~= list.insert(at, id));
        }
    } else if !(at > 0 && list[at - 1] == id) {
        assert(list.insert(at, id) =~= list.push(id));
    }
}

fn add_identity(list: &mut Vec<u64>, id: u64)
    ensures
        final(list)@ == with_identity(old(list)@, id),
{
    let mut at: usize = list.len();
    while at > 0 && list[at - 1] > id
        invariant
            at <= list@.len(),
            list@ == old(list)@,
            forall|j: int| at <= j < list@.len() ==> #[trigger] list@[j] > id,
        decreases at,
    {
        at -= 1;
    }
    proof {
        lemma_identity_place(list@, id, at as int);
    }
    if at > 0 && list[at - 1] == id {
        return;
    }
    list.insert(at, id);
}

/// The content of a list that may be absent.
pub open spec fn list_of(list: Option<Vec<u64>>) -> Option<Seq<u64>> {
    match list {
        Some(list) => Some(list@),
        None => None,
    }
}

/// What identifies the processes of some windows, by when they started.
pub fn process_identities(times: &Vec<Option<u64>>) -> (identities: Option<Vec<u64>>)
    ensures
        list_of(identities) == identities_of(times@),
{
    let ghost known = times@.map_values(|t: Option<u64>| t->0);
    let mut list: Vec<u64> = Vec::new();
    let mut i: usize = 0;
    assert(known.take(0) =~= Seq::empty());
    while i < times.len()
        invariant
            i <= times@.len(),
            known == times@.map_values(|t: Option<u64>| t->0),
            forall|j: int| 0 <= j < i ==> (#[trigger] times@[j]) is Some,
            list@ == identity_list(known.take(i as int)),
        decreases times@.len() - i,
    {
        match times[i] {
            Some(id) => {
                assert(known.take(i + 1).drop_last() =~= known.take(i as int));
                assert(known[i as int] == id);
                add_identity(&mut list, id);
            },
            None => {
                assert(times@[i as int] is None);
                return None;
            },
        }
        i += 1;
    }
    assert(known.take(i as int) =~= known);
    Some(list)
}

/// An icon that was found before, with what identified the application then.
pub struct CachedAppIcon<H, B> {
    pub icon: Rc<AppIcon<H, B>>,
    pub identities: Option<Vec<u64>>,
}

/// The content of a `CachedAppIcon`.
pub struct CachedView<H, B> {
    pub icon: AppIcon<H, B>,
    pub identities: Option<Seq<u64>>,
}

impl<H, B> View for CachedAppIcon<H, B> {
    type V = CachedView<H, B>;

    open spec fn view(&self) -> CachedView<H, B> {
        CachedView { icon: *self.icon, identities: list_of(self.identities) }
    }
}

/// The icons that were found before, by application.
#[verifier::reject_recursive_types(H)]
#[verifier::reject_recursive_types(B)]
pub struct IconCache<H, B> {
    pub icons: StringHashMap<CachedAppIcon<H, B>>,
}

impl<H, B> View for IconCache<H, B> {
    type V = Map<Seq<char>, CachedView<H, B>>;

    open spec fn view(&self) -> Map<Seq<char>, CachedView<H, B>> {
        self.icons@.map_values(|c: CachedAppIcon<H, B>| c@)
    }
}

/// The icon found before still stands for the application: its processes are known
/// and are the same.
pub open spec fn is_fresh<H, B>(
    cache: Map<Seq<char>, CachedView<H, B>>,
    app_path: Seq<char>,
    identities: Option<Seq<u64>>,
) -> bool {
    identities is Some && cache.contains_key(app_path) && cache[app_path].identities == identities
}

fn same_list(one: &Vec<u64>, other: &Vec<u64>) -> (same: bool)
    ensures
        same == (one@ == other@),
{
    if one.len() != other.len() {
        return false;
    }
    let mut i: usize = 0;
    while i < one.len()
        invariant
            i <= one@.len(),
            one@.len() == other@.len(),
            forall|j: int| 0 <= j < i ==> one@[j] == other@[j],
        decreases one@.len() - i,
    {
        if one[i] != other[i] {
            assert(one@[i as int] != other@[i as int]);
            return false;
        }
        i += 1;
    }
    assert(one@ =~= other@);
    true
}

impl<H, B> IconCache<H, B> {
    /// Every icon can be drawn.
    pub open spec fn wf(self) -> bool {
        forall|path: Seq<char>| self@.contains_key(path) ==> (#[trigger] self@[path]).icon.wf()
    }

    pub fn new() -> (cache: Self)
        ensures
            cache@ == Map::<Seq<char>, CachedView<H, B>>::empty(),
    {
        let cache = IconCache { icons: StringHashMap::new() };
        assert(cache@ =~= Map::<Seq<char>, CachedView<H, B>>::empty());
        cache
    }

    /// The icon of an application, where the one found before still stands for it.
    pub fn find(&self, app_path: &str, identities: &Option<Vec<u64>>) -> (icon: Option<
        Rc<AppIcon<H, B>>,
    >)
        ensures
            match icon {
                Some(icon) => is_fresh(self@, app_path@, list_of(*identities)) && *icon
                    == self@[app_path@].icon,
                None => !is_fresh(self@, app_path@, list_of(*identities)),
            },
    {
        match (self.icons.get(app_path), identities) {
            (Some(cached), Some(now)) => match &cached.identities {
                Some(before) => if same_list(before, now) {
                    Some(Rc::clone(&cached.icon))
                } else {
                    None
                },
                None => None,
            },
            _ => None,
        }
    }

    /// Keeps an icon in place of the one found before.
    pub fn keep(&mut self, app_path: String, icon: Rc<AppIcon<H, B>>, identities: Option<Vec<u64>>)
        ensures
            final(self)@ == old(self)@.insert(
                app_path@,
                CachedView { icon: *icon, identities: list_of(identities) },
            ),
    {
        self.icons.insert(app_path, CachedAppIcon { icon, identities });
        assert(self@ =~= old(self)@.insert(
            app_path@,
            CachedView { icon: *icon, identities: list_of(identities) },
        ));
    }

    /// Forgets every icon.
    pub fn clear(&mut self)
        ensures
            final(self)@ == Map::<Seq<char>, CachedView<H, B>>::empty(),
    {
        self.icons.clear();
        assert(self@ =~= Map::<Seq<char>, CachedView<H, B>>::empty());
    }
}

/// The windows of one application as they were found: topmost first, whether the
/// first one is minimised, and when the process of each started.
pub struct AppGroup {
    pub app_path: String,
    pub windows: Vec<isize>,
    pub first_is_iconic: bool,
    pub start_times: Vec<Option<u64>>,
}

/// The content of an `AppGroup` that counts: the window that stands for the
/// application, and what identifies it.
pub struct GroupView {
    pub app_path: Seq<char>,
    pub window: isize,
    pub identities: Option<Seq<u64>>,
}

impl View for AppGroup {
    type V = GroupView;

    open spec fn view(&self) -> GroupView {
        GroupView {
            app_path: self.app_path@,
            window: if self.first_is_iconic {
                self.windows@.last()
            } else {
                self.windows@.first()
            },
            identities: identities_of(self.start_times@),
        }
    }
}

pub open spec fn group_views(groups: Seq<AppGroup>) -> Seq<GroupView> {
    groups.map_values(|g: AppGroup| g@)
}

impl AppGroup {
    /// The window that stands for the application: the last one where the first is
    /// minimised, else the first.
    pub fn window(&self) -> (window: isize)
        requires
            self.windows@.len() > 0,
        ensures
            window == self@.window,
    {
        if self.first_is_iconic {
            self.windows[self.windows.len() - 1]
        } else {
            self.windows[0]
        }
    }
}

/// The applications of a panel, each with its icon and its window, the icons that are
/// kept then, and how many of the icons that were looked up it took.
pub struct Gathered<H, B> {
    pub apps: Seq<(AppIcon<H, B>, isize)>,
    pub cache: Map<Seq<char>, CachedView<H, B>>,
    pub used: nat,
}

/// What the panel shows of some applications. Each has the icon found before where
/// that still stands for it, else the next of those that were looked up, which is
/// kept.
pub open spec fn gathered<H, B>(
    groups: Seq<GroupView>,
    looked_up: Seq<AppIcon<H, B>>,
    cache: Map<Seq<char>, CachedView<H, B>>,
) -> Gathered<H, B>
    decreases groups.len(),
{
    if groups.len() == 0 {
        Gathered { apps: Seq::empty(), cache, used: 0 }
    } else {
        let before = gathered(groups.drop_last(), looked_up, cache);
        let group = groups.last();
        if is_fresh(before.cache, group.app_path, group.identities) {
            Gathered {
                apps: before.apps.push((before.cache[group.app_path].icon, group.window)),
                cache: before.cache,
                used: before.used,
            }
        } else {
            let icon = looked_up[before.used as int];
            Gathered {
                apps: before.apps.push((icon, group.window)),
                cache: before.cache.insert(
                    group.app_path,
                    CachedView { icon, identities: group.identities },
                ),
                used: before.used + 1,
            }
        }
    }
}

/// The places of the applications whose icon has to be looked up.
pub open spec fn missing_places<H, B>(
    groups: Seq<GroupView>,
    cache: Map<Seq<char>, CachedView<H, B>>,
) -> Seq<usize>
    decreases groups.len(),
{
    if groups.len() == 0 {
        Seq::empty()
    } else {
        let rest = missing_places(groups.drop_last(), cache);
        if is_fresh(cache, groups.last().app_path, groups.last().identities) {
            rest
        } else {
            rest.push((groups.len() - 1) as usize)
        }
    }
}

/// No application is there twice.
pub open spec fn are_distinct(groups: Seq<GroupView>) -> bool {
    forall|i: int, j: int|
        0 <= i < j < groups.len() ==> (#[trigger] groups[i]).app_path != (
        #[trigger] groups[j]).app_path
}

/// The applications of a panel, without the sharing of icons.
pub open spec fn app_views<H, B>(apps: Seq<(Rc<AppIcon<H, B>>, isize)>) -> Seq<
    (AppIcon<H, B>, isize),
> {
    apps.map_values(|a: (Rc<AppIcon<H, B>>, isize)| (*a.0, a.1))
}

/// An application is among some.
pub open spec fn has_app(groups: Seq<GroupView>, app_path: Seq<char>) -> bool {
    exists|i: int| 0 <= i < groups.len() && (#[trigger] groups[i]).app_path == app_path
}

/// Looking up the icons that are missing, and only those, is enough: exactly as many
/// are used. The icons of other applications stay as they were.
pub proof fn looked_up_icons_are_those_missing<H, B>(
    groups: Seq<GroupView>,
    looked_up: Seq<AppIcon<H, B>>,
    cache: Map<Seq<char>, CachedView<H, B>>,
)
    requires
        are_distinct(groups),
    ensures
        gathered(groups, looked_up, cache).apps.len() == groups.len(),
        gathered(groups, looked_up, cache).used == missing_places(groups, cache).len(),
        forall|path: Seq<char>|
            !(#[trigger] has_app(groups, path)) ==> {
                &&& gathered(groups, looked_up, cache).cache.contains_key(path)
                    <==> cache.contains_key(path)
                &&& gathered(groups, looked_up, cache).cache[path] == cache[path]
            },
    decreases groups.len(),
{
    if groups.len() > 0 {
        let rest = groups.drop_last();
        lemma_shorter_is_distinct(groups);
        looked_up_icons_are_those_missing(rest, looked_up, cache);
        assert(!has_app(rest, groups.last().app_path));
        assert forall|path: Seq<char>| !(#[trigger] has_app(groups, path)) implies {
            &&& gathered(groups, looked_up, cache).cache.contains_key(path)
                <==> cache.contains_key(path)
            &&& gathered(groups, looked_up, cache).cache[path] == cache[path]
        } by {
            assert(!has_app(rest, path)) by {
                if has_app(rest, path) {
                    let i = choose|i: int|
                        0 <= i < rest.len() && (#[trigger] rest[i]).app_path == path;
                    assert(groups[i].app_path == path);
                }
            }
            assert(groups[groups.len() - 1].app_path != path);
        }
    }
}

/// Each application in the panel has the icon that is kept for it, and an application
/// whose processes are known and stay the same is not looked up again.
pub proof fn shown_icons_are_kept<H, B>(
    groups: Seq<GroupView>,
    looked_up: Seq<AppIcon<H, B>>,
    cache: Map<Seq<char>, CachedView<H, B>>,
    i: int,
)
    requires
        are_distinct(groups),
        0 <= i < groups.len(),
    ensures
        ({
            let panel = gathered(groups, looked_up, cache);
            &&& panel.apps.len() == groups.len()
            &&& panel.apps[i].1 == groups[i].window
            &&& panel.cache.contains_key(groups[i].app_path)
            &&& panel.cache[groups[i].app_path].icon == panel.apps[i].0
            &&& groups[i].identities is Some ==> is_fresh(
                panel.cache,
                groups[i].app_path,
                groups[i].identities,
            )
        }),
    decreases groups.len(),
{
    let rest = groups.drop_last();
    lemma_shorter_is_distinct(groups);
    looked_up_icons_are_those_missing(groups, looked_up, cache);
    looked_up_icons_are_those_missing(rest, looked_up, cache);
    if i < groups.len() - 1 {
        shown_icons_are_kept(rest, looked_up, cache, i);
        assert(groups[i].app_path != groups[groups.len() - 1].app_path);
    }
}

pub proof fn lemma_shorter_is_distinct(groups: Seq<GroupView>)
    requires
        are_distinct(groups),
        groups.len() > 0,
    ensures
        are_distinct(groups.drop_last()),
        !has_app(groups.drop_last(), groups.last().app_path),
{
    let rest = groups.drop_last();
    assert forall|i: int, j: int| 0 <= i < j < rest.len() implies (#[trigger] rest[i]).app_path != (
    #[trigger] rest[j]).app_path by {
        assert(rest[i] == groups[i] && rest[j] == groups[j]);
    }
    if has_app(rest, groups.last().app_path) {
        let i = choose|i: int|
            0 <= i < rest.len() && (#[trigger] rest[i]).app_path == groups.last().app_path;
        assert(groups[i].app_path == groups[groups.len() - 1].app_path);
    }
}

proof fn lemma_used_grows<H, B>(
    groups: Seq<GroupView>,
    looked_up: Seq<AppIcon<H, B>>,
    cache: Map<Seq<char>, CachedView<H, B>>,
    count: int,
)
    requires
        0 <= count <= groups.len(),
    ensures
        gathered(groups.take(count), looked_up, cache).used <= gathered(
            groups,
            looked_up,
            cache,
        ).used,
    decreases groups.len() - count,
{
    if count < groups.len() {
        lemma_used_grows(groups, looked_up, cache, count + 1);
        assert(groups.take(count + 1).drop_last() =~= groups.take(count));
    } else {
        assert(groups.take(count) =~= groups);
    }
}

impl<H, B> IconCache<H, B> {
    /// The places of the applications whose icon has to be looked up.
    pub fn missing(&self, groups: &Vec<AppGroup>) -> (places: Vec<usize>)
        ensures
            places@ == missing_places(group_views(groups@), self@),
    {
        let ghost all = group_views(groups@);
        let mut places: Vec<usize> = Vec::new();
        let mut i: usize = 0;
        assert(all.take(0) =~= Seq::empty());
        while i < groups.len()
            invariant
                i <= groups@.len(),
                all == group_views(groups@),
                places@ == missing_places(all.take(i as int), self@),
            decreases groups@.len() - i,
        {
            assert(all.take(i + 1).drop_last() =~= all.take(i as int));
            let group: &AppGroup = &groups[i];
            assert(all[i as int] == group@);
            let identities: Option<Vec<u64>> = process_identities(&group.start_times);
            if self.find(group.app_path.as_str(), &identities).is_none() {
                places.push(i);
            }
            i += 1;
        }
        assert(all.take(i as int) =~= all);
        places
    }

    /// The applications of a panel, with the icons that were looked up for those that
    /// miss one.
    pub fn gather(&mut self, groups: &Vec<AppGroup>, looked_up: Vec<AppIcon<H, B>>) -> (apps: Vec<
        (Rc<AppIcon<H, B>>, isize),
    >)
        requires
            forall|i: int| 0 <= i < groups@.len() ==> (#[trigger] groups@[i]).windows@.len() > 0,
            gathered(group_views(groups@), looked_up@, old(self)@).used <= looked_up@.len(),
        ensures
            app_views(apps@) == gathered(group_views(groups@), looked_up@, old(self)@).apps,
            final(self)@ == gathered(group_views(groups@), looked_up@, old(self)@).cache,
    {
        let ghost all = group_views(groups@);
        let ghost icons = looked_up@;
        let ghost start = self@;
        let mut rest: Vec<AppIcon<H, B>> = looked_up;
        let mut apps: Vec<(Rc<AppIcon<H, B>>, isize)> = Vec::new();
        let mut i: usize = 0;
        assert(all.take(0) =~= Seq::empty());
        assert(app_views(apps@) =~= Seq::empty());
        assert(icons.skip(0) =~= icons);
        while i < groups.len()
            invariant
                i <= groups@.len(),
                all == group_views(groups@),
                forall|j: int|
                    0 <= j < groups@.len() ==> (#[trigger] groups@[j]).windows@.len() > 0,
                gathered(all, icons, start).used <= icons.len(),
                app_views(apps@) == gathered(all.take(i as int), icons, start).apps,
                self@ == gathered(all.take(i as int), icons, start).cache,
                gathered(all.take(i as int), icons, start).used <= icons.len(),
                rest@ == icons.skip(gathered(all.take(i as int), icons, start).used as int),
            decreases groups@.len() - i,
        {
            let ghost before = gathered(all.take(i as int), icons, start);
            let ghost shown = app_views(apps@);
            proof {
                assert(all.take(i + 1).drop_last() =~= all.take(i as int));
                lemma_used_grows(all, icons, start, i + 1);
            }
            let group: &AppGroup = &groups[i];
            assert(all[i as int] == group@);
            let window: isize = group.window();
            let identities: Option<Vec<u64>> = process_identities(&group.start_times);
            match self.find(group.app_path.as_str(), &identities) {
                Some(icon) => {
                    apps.push((icon, window));
                    assert(app_views(apps@) =~= shown.push((*icon, window)));
                },
                None => {
                    let icon: Rc<AppIcon<H, B>> = Rc::new(rest.remove(0));
                    assert(*icon == icons[before.used as int]);
                    assert(rest@ =~= icons.skip(before.used as int + 1));
                    self.keep(group.app_path.clone(), Rc::clone(&icon), identities);
                    apps.push((icon, window));
                    assert(app_views(apps@) =~= shown.push((*icon, window)));
                },
            }
            i += 1;
        }
        assert(all.take(i as int) =~= all);
        apps
    }
}

/// The panel while it is open.
pub struct SwitchAppsState<H, B> {
    pub apps: Vec<(Rc<AppIcon<H, B>>, isize)>,
    pub interaction: SwitchAppsInteractionState,
}

/// The application that the keyboard is on when the panel opens: the one after the
/// current application, or the last one when walking backwards.
pub open spec fn opening_index(app_count: int, reverse: bool) -> int {
    if app_count == 1 {
        0
    } else if reverse {
        app_count - 1
    } else {
        1
    }
}

impl<H, B> SwitchAppsState<H, B> {
    /// There is an application to go to, the keyboard is on one, and every icon can be
    /// drawn.
    pub open spec fn wf(self) -> bool {
        &&& self.interaction.keyboard_index < self.apps@.len()
        &&& forall|i: int| 0 <= i < self.apps@.len() ==> (#[trigger] self.apps@[i]).0.wf()
    }

    /// Opens the panel on some applications; with none it stays closed.
    pub fn open(
        apps: Vec<(Rc<AppIcon<H, B>>, isize)>,
        reverse: bool,
        pointer_position: (i32, i32),
    ) -> (state: Option<Self>)
        ensures
            match state {
                Some(state) => {
                    &&& apps@.len() > 0
                    &&& state.apps@ == apps@
                    &&& state.interaction == (SwitchAppsInteractionState {
                        keyboard_index: opening_index(apps@.len() as int, reverse) as usize,
                        hovered_index: None,
                        pointer_position,
                    })
                    &&& state.interaction.keyboard_index < apps@.len()
                },
                None => apps@.len() == 0,
            },
    {
        if apps.len() == 0 {
            return None;
        }
        let index: usize = if apps.len() == 1 {
            0
        } else if reverse {
            apps.len() - 1
        } else {
            1
        };
        Some(
            SwitchAppsState {
                apps,
                interaction: SwitchAppsInteractionState::new(index, pointer_position),
            },
        )
    }

    pub fn displayed_index(&self) -> (index: usize)
        ensures
            index == self.interaction.displayed(),
    {
        self.interaction.displayed_index()
    }

    pub fn keyboard_index(&self) -> (index: usize)
        ensures
            index == self.interaction.keyboard_index,
    {
        self.interaction.keyboard_index()
    }

    pub fn navigate(&mut self, reverse: bool, pointer_position: (i32, i32))
        ensures
            *final(self) == (SwitchAppsState {
                interaction: old(self).interaction.stepped(
                    old(self).apps@.len() as int,
                    reverse,
                    pointer_position,
                ),
                ..*old(self)
            }),
            old(self).wf() ==> final(self).wf(),
    {
        self.interaction.navigate(self.apps.len(), reverse, pointer_position);
    }

    pub fn update_hover(
        &mut self,
        pointer_position: (i32, i32),
        hovered_index: Option<usize>,
    ) -> (changed: bool)
        ensures
            *final(self) == (SwitchAppsState {
                interaction: old(self).interaction.pointed(pointer_position, hovered_index),
                ..*old(self)
            }),
            changed == (final(self).interaction.hovered_index != old(
                self,
            ).interaction.hovered_index),
            old(self).wf() ==> final(self).wf(),
    {
        self.interaction.update_hover(pointer_position, hovered_index)
    }

    pub fn clear_hover(&mut self) -> (changed: bool)
        ensures
            *final(self) == (SwitchAppsState {
                interaction: SwitchAppsInteractionState {
                    hovered_index: None,
                    ..old(self).interaction
                },
                ..*old(self)
            }),
            changed == (old(self).interaction.hovered_index is Some),
            old(self).wf() ==> final(self).wf(),
    {
        self.interaction.clear_hover()
    }

    pub fn reset_pointer_position(&mut self, pointer_position: (i32, i32))
        ensures
            *final(self) == (SwitchAppsState {
                interaction: SwitchAppsInteractionState {
                    hovered_index: None,
                    pointer_position,
                    ..old(self).interaction
                },
                ..*old(self)
            }),
            old(self).wf() ==> final(self).wf(),
    {
        self.interaction.reset_pointer_position(pointer_position);
    }

    /// The window of the application at a place, if there is one.
    pub fn window_at(&self, index: usize) -> (window: Option<isize>)
        ensures
            window == if index < self.apps@.len() {
                Some(self.apps@[index as int].1)
            } else {
                None
            },
    {
        if index < self.apps.len() {
            Some(self.apps[index].1)
        } else {
            None
        }
    }
}

} // verus!
