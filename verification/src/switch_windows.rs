//! Walking through the windows of one application.
use vstd::prelude::*;

use crate::collections::{
    has_window, insert_window, new_window_set, swap_remove_window, swap_removed, window_items,
    windows_of_set,
};
use crate::fixed_order::{
    anchor_place, merged_order, merged_order_has_the_visible_windows, merged_order_of_same_windows,
    normalized_fixed_index, position, reconstruct_fixed_state_windows, stepped_index,
};
use crate::sequences::{
    append_missing, first_position, keep_members, lemma_append_all_missing, lemma_append_missing,
    lemma_append_missing_step, lemma_first_position, lemma_keep_all_members, lemma_keep_members,
    lemma_keep_members_step, lemma_same_members_same_len,
};

verus! {

/// A walk in progress: the application, the window from which the walk started,
/// the place that it has reached, and the list that it walks along.
pub struct WindowCycle {
    pub app_path: String,
    pub id: isize,
    pub index: usize,
    pub windows: Vec<isize>,
}

/// The content of a `WindowCycle`.
pub struct CycleView {
    pub app_path: Seq<char>,
    pub id: isize,
    pub index: int,
    pub windows: Seq<isize>,
}

impl View for WindowCycle {
    type V = CycleView;

    open spec fn view(&self) -> CycleView {
        CycleView {
            app_path: self.app_path@,
            id: self.id,
            index: self.index as int,
            windows: self.windows@,
        }
    }
}

/// The last walk, and whether its modifier key has been let go since.
pub struct SwitchWindowsState {
    pub cache: Option<WindowCycle>,
    pub modifier_released: bool,
}

impl SwitchWindowsState {
    /// The content of the last walk.
    pub open spec fn last(&self) -> Option<CycleView> {
        match self.cache {
            Some(cycle) => Some(cycle@),
            None => None,
        }
    }
}

/// The windows of one application, topmost first.
pub struct WindowGroup {
    pub app_path: String,
    pub windows: Vec<isize>,
}

/// The place of the first group that holds `hwnd`; the number of groups where
/// none does.
pub open spec fn group_place(groups: Seq<WindowGroup>, hwnd: isize) -> int
    decreases groups.len(),
{
    if groups.len() == 0 || groups.first().windows@.contains(hwnd) {
        0
    } else {
        1 + group_place(groups.drop_first(), hwnd)
    }
}

/// What a walk in recency order draws from the windows `ids`: first, along its
/// old list, those that are still there, then what is left of the set.
pub open spec fn drawn(ids: Seq<isize>, old_list: Seq<isize>) -> (Seq<isize>, Seq<isize>)
    decreases old_list.len(),
{
    if old_list.len() == 0 {
        (Seq::empty(), append_missing(Seq::empty(), ids))
    } else {
        let (taken, rest) = drawn(ids, old_list.drop_last());
        let id = old_list.last();
        if rest.contains(id) {
            (taken.push(id), swap_removed(rest, id))
        } else {
            (taken, rest)
        }
    }
}

/// The list along which a held walk in recency order goes on.
pub open spec fn held_list(ids: Seq<isize>, old_list: Seq<isize>) -> Seq<isize> {
    drawn(ids, old_list).0 + drawn(ids, old_list).1
}

/// The next place of a held walk in recency order over `len` windows.
pub open spec fn held_index(index: int, len: int, reverse: bool) -> int {
    if reverse {
        if index == 0 || index >= len {
            len - 1
        } else {
            index - 1
        }
    } else if index >= len - 1 {
        0
    } else {
        index + 1
    }
}

/// The walk after a step in the stable order. `ids` starts at the current window
/// `hwnd`.
pub open spec fn next_fixed_cycle(
    last: Option<CycleView>,
    released: bool,
    path: Seq<char>,
    ids: Seq<isize>,
    hwnd: isize,
    reverse: bool,
) -> Option<CycleView> {
    if ids.len() <= 1 {
        None
    } else if last is Some && last->0.app_path == path && !released {
        let list = merged_order(last->0.windows, ids);
        if list.len() < 2 {
            None
        } else {
            Some(
                CycleView {
                    app_path: path,
                    id: last->0.id,
                    index: stepped_index(
                        anchor_place(hwnd, last->0.index, last->0.windows, list),
                        list.len() as int,
                        reverse,
                    ),
                    windows: list,
                },
            )
        }
    } else {
        Some(
            CycleView {
                app_path: path,
                id: ids[0],
                index: if reverse {
                    ids.len() - 1
                } else {
                    1
                },
                windows: ids,
            },
        )
    }
}

/// The walk after a step in recency order, `ids` being the windows from the
/// topmost down.
pub open spec fn next_recent_cycle(
    last: Option<CycleView>,
    released: bool,
    path: Seq<char>,
    ids: Seq<isize>,
    reverse: bool,
) -> Option<CycleView> {
    if ids.len() <= 1 {
        None
    } else if ids.len() > 2 && last is Some && last->0.app_path == path && !released {
        Some(
            CycleView {
                app_path: path,
                id: last->0.id,
                index: held_index(last->0.index, ids.len() as int, reverse),
                windows: held_list(ids, last->0.windows),
            },
        )
    } else {
        let back = ids.len() > 2 && last is Some && last->0.app_path == path && last->0.id
            != ids[0] && ids.contains(last->0.id);
        Some(
            CycleView {
                app_path: path,
                id: ids[0],
                index: if back {
                    first_position(ids, last->0.id)
                } else {
                    1
                },
                windows: ids,
            },
        )
    }
}

/// The place of the first group that holds `hwnd`.
pub fn find_group(groups: &Vec<WindowGroup>, hwnd: isize) -> (place: Option<usize>)
    ensures
        match place {
            Some(i) => i < groups@.len() && i == group_place(groups@, hwnd),
            None => group_place(groups@, hwnd) == groups@.len(),
        },
        place is Some ==> groups@[place->0 as int].windows@.contains(hwnd),
{
    let mut i: usize = 0;
    assert(groups@.skip(0) =~= groups@);
    while i < groups.len()
        invariant
            i <= groups@.len(),
            group_place(groups@, hwnd) == i + group_place(groups@.skip(i as int), hwnd),
        decreases groups@.len() - i,
    {
        assert(groups@.skip(i as int).drop_first() =~= groups@.skip(i + 1));
        if position(groups[i].windows.as_slice(), hwnd).is_some() {
            return Some(i);
        }
        i += 1;
    }
    None
}

/// The list along which a held walk in recency order goes on.
pub fn held_windows(ids: &Vec<isize>, old_list: &Vec<isize>) -> (list: Vec<isize>)
    ensures
        list@ == held_list(ids@, old_list@),
{
    let mut set = new_window_set();
    let mut i: usize = 0;
    assert(ids@.take(0) =~= Seq::<isize>::empty());
    while i < ids.len()
        invariant
            i <= ids@.len(),
            window_items(set) == append_missing(Seq::empty(), ids@.take(i as int)),
        decreases ids@.len() - i,
    {
        proof {
            lemma_append_missing_step(Seq::empty(), ids@, i as int);
        }
        insert_window(&mut set, ids[i]);
        i += 1;
    }
    assert(ids@.take(i as int) =~= ids@);
    let mut list: Vec<isize> = Vec::new();
    let mut j: usize = 0;
    assert(old_list@.take(0) =~= Seq::<isize>::empty());
    while j < old_list.len()
        invariant
            j <= old_list@.len(),
            (list@, window_items(set)) == drawn(ids@, old_list@.take(j as int)),
        decreases old_list@.len() - j,
    {
        assert(old_list@.take(j + 1).drop_last() =~= old_list@.take(j as int));
        let id: isize = old_list[j];
        if has_window(&set, id) {
            list.push(id);
            swap_remove_window(&mut set, id);
        }
        j += 1;
    }
    assert(old_list@.take(j as int) =~= old_list@);
    let mut rest = windows_of_set(set);
    list.append(&mut rest);
    list
}

fn same_path(last: &Option<WindowCycle>, path: &String) -> (same: bool)
    ensures
        same == (last is Some && last->0.app_path@ == path@),
{
    match last {
        Some(cycle) => cycle.app_path == *path,
        None => false,
    }
}

impl SwitchWindowsState {
    /// One step of a walk in the stable order.
    pub fn step_fixed(
        &self,
        app_path: &String,
        window_ids: &Vec<isize>,
        hwnd: isize,
        reverse: bool,
    ) -> (next: Option<WindowCycle>)
        ensures
            (match next {
                Some(cycle) => Some(cycle@),
                None => None,
            }) == next_fixed_cycle(
                self.last(),
                self.modifier_released,
                app_path@,
                window_ids@,
                hwnd,
                reverse,
            ),
            next is Some ==> next->0.index < next->0.windows@.len(),
    {
        let windows_len: usize = window_ids.len();
        if windows_len <= 1 {
            return None;
        }
        if same_path(&self.cache, app_path) && !self.modifier_released {
            if let Some(cycle) = &self.cache {
                let windows = reconstruct_fixed_state_windows(
                    cycle.windows.as_slice(),
                    window_ids.as_slice(),
                );
                let step = normalized_fixed_index(
                    hwnd,
                    cycle.index,
                    cycle.windows.as_slice(),
                    windows.as_slice(),
                    reverse,
                );
                return match step {
                    Some(index) => {
                        proof {
                            crate::fixed_order::held_cycle_moves_to_another_window(
                                hwnd,
                                cycle.index as int,
                                cycle.windows@,
                                windows@,
                                reverse,
                            );
                        }
                        Some(
                            WindowCycle {
                                app_path: app_path.clone(),
                                id: cycle.id,
                                index,
                                windows,
                            },
                        )
                    },
                    None => None,
                };
            }
        }
        let index: usize = if reverse {
            windows_len - 1
        } else {
            1
        };
        Some(
            WindowCycle {
                app_path: app_path.clone(),
                id: window_ids[0],
                index,
                windows: window_ids.clone(),
            },
        )
    }

    /// One step of a walk in recency order.
    pub fn step_recent(
        &self,
        app_path: &String,
        window_ids: &Vec<isize>,
        reverse: bool,
    ) -> (next: Option<WindowCycle>)
        ensures
            (match next {
                Some(cycle) => Some(cycle@),
                None => None,
            }) == next_recent_cycle(
                self.last(),
                self.modifier_released,
                app_path@,
                window_ids@,
                reverse,
            ),
    {
        let windows_len: usize = window_ids.len();
        if windows_len <= 1 {
            return None;
        }
        let current_id: isize = window_ids[0];
        let mut index: usize = 1;
        if windows_len > 2 && same_path(&self.cache, app_path) {
            if let Some(cycle) = &self.cache {
                if self.modifier_released {
                    if cycle.id != current_id {
                        if let Some(place) = position(window_ids.as_slice(), cycle.id) {
                            index = place;
                        }
                    }
                } else {
                    let windows = held_windows(window_ids, &cycle.windows);
                    let step: usize = if reverse {
                        if cycle.index == 0 || cycle.index >= windows_len {
                            windows_len - 1
                        } else {
                            cycle.index - 1
                        }
                    } else if cycle.index >= windows_len - 1 {
                        0
                    } else {
                        cycle.index + 1
                    };
                    return Some(
                        WindowCycle {
                            app_path: app_path.clone(),
                            id: cycle.id,
                            index: step,
                            windows,
                        },
                    );
                }
            }
        }
        Some(
            WindowCycle {
                app_path: app_path.clone(),
                id: current_id,
                index,
                windows: window_ids.clone(),
            },
        )
    }
}

proof fn lemma_swap_removed(items: Seq<isize>, id: isize)
    requires
        items.no_duplicates(),
        items.contains(id),
    ensures
        swap_removed(items, id).no_duplicates(),
        swap_removed(items, id).len() == items.len() - 1,
        forall|x: isize| #[trigger]
            swap_removed(items, id).contains(x) <==> items.contains(x) && x != id,
{
    let place = items.index_of(id);
    let moved = items.update(place, items.last());
    let left = swap_removed(items, id);
    let end = items.len() - 1;
    assert(items[place] == id);
    assert forall|x: isize| #[trigger] left.contains(x) <==> items.contains(x) && x != id by {
        if left.contains(x) {
            let k = choose|k: int| 0 <= k < left.len() && left[k] == x;
            if k == place {
                assert(items[end] == x && end != place);
            } else {
                assert(items[k] == x);
            }
        }
        if items.contains(x) && x != id {
            let k = choose|k: int| 0 <= k < items.len() && items[k] == x;
            if k == end {
                assert(left[place] == x);
            } else {
                assert(left[k] == x);
            }
        }
    }
    assert forall|i: int, j: int|
        0 <= i < left.len() && 0 <= j < left.len() && i != j implies left[i] != left[j] by {
        let a = if i == place {
            end
        } else {
            i
        };
        let b = if j == place {
            end
        } else {
            j
        };
        assert(left[i] == items[a] && left[j] == items[b] && a != b);
    }
}

pub proof fn lemma_drawn(ids: Seq<isize>, old_list: Seq<isize>)
    ensures
        ({
            let (taken, rest) = drawn(ids, old_list);
            &&& taken.no_duplicates()
            &&& rest.no_duplicates()
            &&& taken.len() + rest.len() == append_missing(Seq::empty(), ids).len()
            &&& forall|x: isize| #[trigger]
                rest.contains(x) <==> ids.contains(x) && !old_list.contains(x)
            &&& forall|x: isize| #[trigger]
                taken.contains(x) <==> ids.contains(x) && old_list.contains(x)
        }),
        old_list.no_duplicates() ==> drawn(ids, old_list).0 == keep_members(old_list, ids),
    decreases old_list.len(),
{
    if old_list.len() == 0 {
        lemma_append_missing(Seq::<isize>::empty(), ids);
        lemma_keep_members(old_list, ids);
        assert(keep_members(old_list, ids) =~= Seq::<isize>::empty());
    } else {
        let init = old_list.drop_last();
        let id = old_list.last();
        lemma_drawn(ids, init);
        let (taken, rest) = drawn(ids, init);
        let (taken_all, rest_all) = drawn(ids, old_list);
        assert(old_list =~= init.push(id));
        assert forall|x: isize| #[trigger] old_list.contains(x) <==> init.contains(x) || x
            == id by {
            if init.contains(x) {
                let k = choose|k: int| 0 <= k < init.len() && init[k] == x;
                assert(old_list[k] == x);
            }
            if x == id {
                assert(old_list[old_list.len() - 1] == x);
            }
        }
        if rest.contains(id) {
            lemma_swap_removed(rest, id);
            assert forall|x: isize| #[trigger] taken_all.contains(x) <==> taken.contains(x) || x
                == id by {
                if taken.contains(x) {
                    let k = choose|k: int| 0 <= k < taken.len() && taken[k] == x;
                    assert(taken_all[k] == x);
                }
                if x == id {
                    assert(taken_all[taken.len() as int] == x);
                }
            }
        } else {
            assert(ids.contains(id) ==> taken.contains(id));
        }
        assert(taken_all.no_duplicates()) by {
            if rest.contains(id) {
                assert(!taken.contains(id));
                assert forall|i: int, j: int|
                    0 <= i < taken_all.len() && 0 <= j < taken_all.len() && i
                        != j implies taken_all[i] != taken_all[j] by {
                    if i < taken.len() {
                        assert(taken.contains(taken[i]));
                    }
                    if j < taken.len() {
                        assert(taken.contains(taken[j]));
                    }
                }
            }
        }
        assert(rest_all.no_duplicates());
        assert forall|x: isize| #[trigger] rest_all.contains(x) <==> ids.contains(x)
            && !old_list.contains(x) by {
            assert(rest.contains(x) <==> ids.contains(x) && !init.contains(x));
        }
        assert forall|x: isize| #[trigger] taken_all.contains(x) <==> ids.contains(x)
            && old_list.contains(x) by {
            assert(taken.contains(x) <==> ids.contains(x) && init.contains(x));
            assert(rest.contains(x) <==> ids.contains(x) && !init.contains(x));
        }
        if old_list.no_duplicates() {
            assert(init.no_duplicates()) by {
                assert forall|i: int, j: int|
                    0 <= i < init.len() && 0 <= j < init.len() && i != j implies init[i]
                    != init[j] by {
                    assert(old_list[i] != old_list[j]);
                }
            }
            assert(!init.contains(id)) by {
                if init.contains(id) {
                    let k = choose|k: int| 0 <= k < init.len() && init[k] == id;
                    assert(old_list[k] == old_list[old_list.len() - 1]);
                }
            }
            lemma_keep_members_step(old_list, ids, old_list.len() - 1);
            assert(old_list.take(old_list.len() as int) =~= old_list);
            assert(old_list.take(old_list.len() - 1) =~= init);
            assert(rest.contains(id) <==> ids.contains(id));
        }
    }
}

/// The list of a held walk in recency order holds exactly the windows that are
/// there, each once.
pub proof fn held_list_has_the_present_windows(ids: Seq<isize>, old_list: Seq<isize>)
    ensures
        held_list(ids, old_list).no_duplicates(),
        forall|x: isize| #[trigger] held_list(ids, old_list).contains(x) <==> ids.contains(x),
        held_list(ids, old_list).len() == append_missing(Seq::empty(), ids).len(),
        ids.no_duplicates() ==> held_list(ids, old_list).len() == ids.len(),
{
    lemma_drawn(ids, old_list);
    let (taken, rest) = drawn(ids, old_list);
    let list = held_list(ids, old_list);
    assert forall|x: isize| #[trigger] list.contains(x) <==> ids.contains(x) by {
        if taken.contains(x) {
            let k = choose|k: int| 0 <= k < taken.len() && taken[k] == x;
            assert(list[k] == x);
        }
        if rest.contains(x) {
            let k = choose|k: int| 0 <= k < rest.len() && rest[k] == x;
            assert(list[taken.len() + k] == x);
        }
        if list.contains(x) {
            let k = choose|k: int| 0 <= k < list.len() && list[k] == x;
            if k < taken.len() {
                assert(taken.contains(x));
            } else {
                assert(rest[k - taken.len()] == x);
                assert(rest.contains(x));
            }
        }
    }
    assert forall|i: int, j: int|
        0 <= i < list.len() && 0 <= j < list.len() && i != j implies list[i] != list[j] by {
        if i < taken.len() && j >= taken.len() {
            assert(taken.contains(list[i]));
            assert(rest[j - taken.len()] == list[j]);
            assert(rest.contains(list[j]));
        }
        if j < taken.len() && i >= taken.len() {
            assert(taken.contains(list[j]));
            assert(rest[i - taken.len()] == list[i]);
            assert(rest.contains(list[i]));
        }
    }
    if ids.no_duplicates() {
        lemma_append_all_missing(Seq::<isize>::empty(), ids);
    }
}

/// A held walk in recency order keeps its list while no window comes or goes.
pub proof fn held_list_is_kept(ids: Seq<isize>, old_list: Seq<isize>)
    requires
        old_list.no_duplicates(),
        forall|x: isize| #[trigger] old_list.contains(x) <==> ids.contains(x),
    ensures
        held_list(ids, old_list) == old_list,
{
    lemma_drawn(ids, old_list);
    let (taken, rest) = drawn(ids, old_list);
    assert forall|i: int| 0 <= i < old_list.len() implies ids.contains(#[trigger] old_list[i]) by {
        assert(old_list.contains(old_list[i]));
    }
    lemma_keep_all_members(old_list, ids);
    assert(rest.len() == 0) by {
        if rest.len() > 0 {
            assert(rest.contains(rest[0]));
        }
    }
    assert(held_list(ids, old_list) =~= old_list);
}

/// While the modifier stays down and no window comes or goes, each step along the
/// stable order moves one place along the same list, starting from the window
/// that the last step brought up.
pub proof fn held_fixed_walk_advances(
    last: CycleView,
    ids: Seq<isize>,
    hwnd: isize,
    reverse: bool,
)
    requires
        ids.len() > 1,
        last.windows.len() > 1,
        last.windows.no_duplicates(),
        forall|x: isize| #[trigger] last.windows.contains(x) <==> ids.contains(x),
        0 <= last.index < last.windows.len(),
        hwnd == last.windows[last.index],
    ensures
        next_fixed_cycle(Some(last), false, last.app_path, ids, hwnd, reverse) == Some(
            CycleView {
                index: stepped_index(last.index, last.windows.len() as int, reverse),
                ..last
            },
        ),
{
    merged_order_of_same_windows(last.windows, ids);
    assert(last.windows.contains(hwnd));
    lemma_first_position(last.windows, hwnd);
    let place = first_position(last.windows, hwnd);
    assert(place == last.index) by {
        if place != last.index {
            assert(last.windows[place] != last.windows[last.index]);
        }
    }
}

/// While the modifier stays down and no window comes or goes, each step in recency
/// order over three or more windows moves one place along the same list.
pub proof fn held_recent_walk_advances(last: CycleView, ids: Seq<isize>, reverse: bool)
    requires
        ids.len() > 2,
        ids.no_duplicates(),
        last.windows.no_duplicates(),
        forall|x: isize| #[trigger] last.windows.contains(x) <==> ids.contains(x),
        0 <= last.index < last.windows.len(),
    ensures
        next_recent_cycle(Some(last), false, last.app_path, ids, reverse) == Some(
            CycleView {
                index: stepped_index(last.index, last.windows.len() as int, reverse),
                ..last
            },
        ),
{
    held_list_is_kept(ids, last.windows);
    held_list_has_the_present_windows(ids, last.windows);
}

/// Every step brings up a window of the group, provided that the group lists no
/// window twice.
pub proof fn steps_stay_in_the_group(
    last: Option<CycleView>,
    released: bool,
    path: Seq<char>,
    ids: Seq<isize>,
    hwnd: isize,
    reverse: bool,
)
    requires
        ids.no_duplicates(),
        last is Some ==> 0 <= last->0.index,
    ensures
        ({
            let fixed = next_fixed_cycle(last, released, path, ids, hwnd, reverse);
            fixed is Some ==> 0 <= fixed->0.index < fixed->0.windows.len() && ids.contains(
                fixed->0.windows[fixed->0.index],
            )
        }),
        ({
            let recent = next_recent_cycle(last, released, path, ids, reverse);
            recent is Some ==> 0 <= recent->0.index < recent->0.windows.len() && ids.contains(
                recent->0.windows[recent->0.index],
            )
        }),
{
    let fixed = next_fixed_cycle(last, released, path, ids, hwnd, reverse);
    if fixed is Some {
        if last is Some && last->0.app_path == path && !released {
            let list = merged_order(last->0.windows, ids);
            merged_order_has_the_visible_windows(last->0.windows, ids);
            crate::fixed_order::held_cycle_moves_to_another_window(
                hwnd,
                last->0.index,
                last->0.windows,
                list,
                reverse,
            );
            assert(list.contains(list[fixed->0.index]));
        } else {
            assert(ids.contains(ids[fixed->0.index]));
        }
    }
    let recent = next_recent_cycle(last, released, path, ids, reverse);
    if recent is Some {
        if last is Some {
            lemma_first_position(ids, last->0.id);
            held_list_has_the_present_windows(ids, last->0.windows);
        }
        assert(recent->0.windows.contains(recent->0.windows[recent->0.index]));
    }
}

/// A walk that begins after the modifier was let go returns to the window from which
/// the last one started, where that window is still there and not in front.
pub proof fn released_walk_returns_to_its_start(last: CycleView, ids: Seq<isize>, reverse: bool)
    requires
        ids.contains(last.id),
        ids[0] != last.id,
    ensures
        ({
            let walk = next_recent_cycle(Some(last), true, last.app_path, ids, reverse);
            &&& walk is Some
            &&& 0 <= walk->0.index < walk->0.windows.len()
            &&& walk->0.windows[walk->0.index] == last.id
        }),
{
    lemma_first_position(ids, last.id);
    let place = first_position(ids, last.id);
    assert(ids[place] == last.id);
}

/// Two walks of one step each, with the modifier let go in between, lead back: `front`
/// is what the first brought up, and stands first in the list of the second.
pub proof fn two_short_walks_lead_back(
    last: Option<CycleView>,
    path: Seq<char>,
    ids: Seq<isize>,
    reverse: bool,
    later_ids: Seq<isize>,
    later_reverse: bool,
)
    requires
        ids.len() > 1,
        ({
            let first = next_recent_cycle(last, true, path, ids, reverse)->0;
            let front = first.windows[first.index];
            &&& front != ids[0]
            &&& later_ids.len() > 0
            &&& later_ids[0] == front
            &&& later_ids.contains(ids[0])
        }),
    ensures
        ({
            let first = next_recent_cycle(last, true, path, ids, reverse)->0;
            let second = next_recent_cycle(Some(first), true, path, later_ids, later_reverse)->0;
            second.windows[second.index] == ids[0]
        }),
{
    let first = next_recent_cycle(last, true, path, ids, reverse)->0;
    released_walk_returns_to_its_start(first, later_ids, later_reverse);
}

/// The walk after some steps forward in recency order with the modifier held, `lists`
/// being the windows as they are listed at each step.
pub open spec fn held_recent_walk(
    start: CycleView,
    lists: spec_fn(nat) -> Seq<isize>,
    steps: nat,
) -> Option<CycleView>
    decreases steps,
{
    if steps == 0 {
        Some(start)
    } else {
        match held_recent_walk(start, lists, (steps - 1) as nat) {
            Some(walk) => next_recent_cycle(
                Some(walk),
                false,
                walk.app_path,
                lists((steps - 1) as nat),
                false,
            ),
            None => None,
        }
    }
}

/// The walk after some steps forward along the stable order with the modifier held. Each
/// step goes on from the window that the last brought to the front.
pub open spec fn held_fixed_walk(
    start: CycleView,
    lists: spec_fn(nat) -> Seq<isize>,
    steps: nat,
) -> Option<CycleView>
    decreases steps,
{
    if steps == 0 {
        Some(start)
    } else {
        match held_fixed_walk(start, lists, (steps - 1) as nat) {
            Some(walk) => next_fixed_cycle(
                Some(walk),
                false,
                walk.app_path,
                lists((steps - 1) as nat),
                walk.windows[walk.index],
                false,
            ),
            None => None,
        }
    }
}

/// No window comes or goes: every list has the windows of the walk, each once.
pub open spec fn windows_stay(start: CycleView, lists: spec_fn(nat) -> Seq<isize>) -> bool {
    forall|k: nat|
        (#[trigger] lists(k)).no_duplicates() && forall|id: isize| #[trigger]
            start.windows.contains(id) <==> lists(k).contains(id)
}

/// While the modifier stays down and no window comes or goes, a walk goes round its
/// list place by place, whatever order the windows are listed in meanwhile. In recency
/// order that takes three windows or more, along the stable order two.
pub proof fn held_walks_go_round(start: CycleView, lists: spec_fn(nat) -> Seq<isize>, steps: nat)
    requires
        start.windows.no_duplicates(),
        0 <= start.index < start.windows.len(),
        windows_stay(start, lists),
    ensures
        ({
            let len = start.windows.len() as int;
            let there = Some(
                CycleView { index: (start.index + steps) % len, ..start },
            );
            &&& len > 2 ==> held_recent_walk(start, lists, steps) == there
            &&& len > 1 ==> held_fixed_walk(start, lists, steps) == there
        }),
    decreases steps,
{
    let len = start.windows.len() as int;
    vstd::arithmetic::div_mod::lemma_mod_bound(start.index + steps, len);
    if steps == 0 {
        vstd::arithmetic::div_mod::lemma_small_mod(start.index as nat, len as nat);
    } else {
        let before = (steps - 1) as nat;
        held_walks_go_round(start, lists, before);
        let place = (start.index + before) % len;
        vstd::arithmetic::div_mod::lemma_mod_bound(start.index + before, len);
        let walk = CycleView { index: place, ..start };
        let list = lists(before);
        assert(stepped_index(place, len, false) == (start.index + steps) % len) by {
            vstd::arithmetic::div_mod::lemma_fundamental_div_mod(start.index + before, len);
            let q = (start.index + before) / len;
            if place == len - 1 {
                assert(start.index + steps == (q + 1) * len + 0) by (nonlinear_arith)
                    requires
                        start.index + steps == len * q + place + 1,
                        place == len - 1,
                ;
                vstd::arithmetic::div_mod::lemma_fundamental_div_mod_converse(
                    start.index + steps,
                    len,
                    q + 1,
                    0,
                );
            } else {
                assert(start.index + steps == q * len + (place + 1)) by (nonlinear_arith)
                    requires
                        start.index + steps == len * q + place + 1,
                ;
                vstd::arithmetic::div_mod::lemma_fundamental_div_mod_converse(
                    start.index + steps,
                    len,
                    q,
                    place + 1,
                );
            }
        }
        assert forall|id: isize| #[trigger] walk.windows.contains(id) <==> list.contains(id) by {
            assert(start.windows.contains(id) <==> lists(before).contains(id));
        }
        lemma_same_members_same_len(walk.windows, list);
        if len > 2 {
            held_recent_walk_advances(walk, list, false);
        }
        if len > 1 {
            held_fixed_walk_advances(walk, list, walk.windows[walk.index], false);
        }
    }
}

/// As many held steps as there are windows bring up each window once: every window
/// comes up at one of them, and no two of them bring up the same.
pub proof fn a_held_round_visits_every_window(start: CycleView)
    requires
        start.windows.no_duplicates(),
        0 <= start.index < start.windows.len(),
    ensures
        ({
            let len = start.windows.len() as int;
            &&& forall|id: isize| #[trigger]
                start.windows.contains(id) ==> exists|k: int|
                    1 <= k <= len && #[trigger] start.windows[(start.index + k) % len] == id
            &&& forall|j: int, k: int|
                1 <= j < k <= len ==> #[trigger] start.windows[(start.index + j) % len]
                    != #[trigger] start.windows[(start.index + k) % len]
        }),
{
    let len = start.windows.len() as int;
    let index = start.index;
    assert forall|id: isize| #[trigger] start.windows.contains(id) implies exists|k: int|
        1 <= k <= len && #[trigger] start.windows[(index + k) % len] == id by {
        let place = choose|i: int| 0 <= i < len && start.windows[i] == id;
        let k = if place > index {
            place - index
        } else {
            place - index + len
        };
        if place > index {
            vstd::arithmetic::div_mod::lemma_small_mod(place as nat, len as nat);
        } else {
            vstd::arithmetic::div_mod::lemma_fundamental_div_mod_converse(
                index + k,
                len,
                1,
                place,
            );
        }
        assert(start.windows[(index + k) % len] == id);
    }
    assert forall|j: int, k: int|
        1 <= j < k <= len implies #[trigger] start.windows[(index + j) % len]
        != #[trigger] start.windows[(index + k) % len] by {
        lemma_wrapped(index, j, len);
        lemma_wrapped(index, k, len);
    }
}

proof fn lemma_wrapped(index: int, k: int, len: int)
    requires
        0 <= index < len,
        1 <= k <= len,
    ensures
        (index + k) % len == if index + k < len {
            index + k
        } else {
            index + k - len
        },
{
    if index + k < len {
        vstd::arithmetic::div_mod::lemma_small_mod((index + k) as nat, len as nat);
    } else {
        vstd::arithmetic::div_mod::lemma_fundamental_div_mod_converse(
            index + k,
            len,
            1,
            index + k - len,
        );
    }
}

} // verus!
