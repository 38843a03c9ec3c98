//! Walks through the windows of one application.
use vstd::prelude::*;

use crate::fixed_order::{
    anchor_place, held_cycle_moves_to_another_window, merge_fixed_order, merged_order,
    merged_order_has_the_visible_windows, next_fixed_index, normalized_fixed_index, position,
    reconstruct_fixed_state_windows, rotate_fixed_order, rotation_is_cyclic,
};
use crate::sequences::{
    append_missing, first_position, keep_members, kept_places, lemma_append_all_missing,
    lemma_append_missing, lemma_first_position, lemma_keep_members, lemma_keep_members_step,
    lemma_kept_places,
};
use crate::switch_windows::{
    drawn, find_group, group_place, held_list_has_the_present_windows, held_windows, lemma_drawn,
    SwitchWindowsState, WindowCycle, WindowGroup,
};

verus! {

/// Some `one` stands before every `other`.
pub open spec fn comes_before<A>(list: Seq<A>, one: A, other: A) -> bool {
    exists|p: int|
        0 <= p < list.len() && #[trigger] list[p] == one && forall|q: int|
            0 <= q < list.len() && #[trigger] list[q] == other ==> p < q
}

/// The place of a window is the first at which it stands.
pub proof fn a_position_is_the_first(ids: &[isize], id: isize, place: Option<usize>)
    requires
        call_ensures(position, (ids, id), place),
    ensures
        match place {
            Some(i) => {
                &&& i < ids@.len()
                &&& ids@[i as int] == id
                &&& forall|j: int| 0 <= j < i ==> ids@[j] != id
            },
            None => forall|j: int| 0 <= j < ids@.len() ==> ids@[j] != id,
        },
{
    lemma_first_position(ids@, id);
    if place is None {
        assert forall|j: int| 0 <= j < ids@.len() implies ids@[j] != id by {
            if ids@[j] == id {
                assert(ids@.contains(id));
            }
        }
    }
}

proof fn lemma_kept_order(order: Seq<isize>, allowed: Seq<isize>, i: int, j: int)
    requires
        0 <= i < j < keep_members(order, allowed).len(),
    ensures
        exists|p: int, q: int|
            0 <= p < q < order.len() && #[trigger] order[p] == keep_members(order, allowed)[i]
                && #[trigger] order[q] == keep_members(order, allowed)[j],
    decreases order.len(),
{
    lemma_keep_members(order, allowed);
    if order.len() == 0 {
        assert(keep_members(order, allowed).len() == 0) by {
            reveal(Seq::filter);
        }
    } else {
        let rest = order.drop_last();
        let end = order.len() - 1;
        lemma_keep_members_step(order, allowed, end as int);
        assert(order.take(end as int) =~= rest);
        assert(order.take(end + 1) =~= order);
        let kept = keep_members(rest, allowed);
        if j < kept.len() {
            lemma_kept_order(rest, allowed, i, j);
            let (p, q) = choose|p: int, q: int|
                0 <= p < q < rest.len() && #[trigger] rest[p] == kept[i] && #[trigger] rest[q]
                    == kept[j];
            assert(order[p] == keep_members(order, allowed)[i]);
            assert(order[q] == keep_members(order, allowed)[j]);
        } else {
            lemma_keep_members(rest, allowed);
            assert(kept.contains(kept[i]));
            assert(rest.contains(kept[i]));
            let p = choose|p: int| 0 <= p < rest.len() && rest[p] == kept[i];
            assert(order[p] == keep_members(order, allowed)[i]);
            assert(order[end as int] == keep_members(order, allowed)[j]);
        }
    }
}

pub proof fn lemma_appended_order<A>(base: Seq<A>, extra: Seq<A>, i: int, j: int)
    requires
        base.len() <= i < j < append_missing(base, extra).len(),
    ensures
        comes_before(extra, append_missing(base, extra)[i], append_missing(base, extra)[j]),
    decreases extra.len(),
{
    let all = append_missing(base, extra);
    if extra.len() > 0 {
        let rest = extra.drop_last();
        let shorter = append_missing(base, rest);
        lemma_append_missing(base, rest);
        if j < shorter.len() {
            lemma_appended_order(base, rest, i, j);
            let p = choose|p: int|
                0 <= p < rest.len() && #[trigger] rest[p] == all[i] && forall|q: int|
                    0 <= q < rest.len() && #[trigger] rest[q] == all[j] ==> p < q;
            assert(extra[p] == all[i]);
            assert forall|q: int| 0 <= q < extra.len() && #[trigger] extra[q] == all[j] implies p
                < q by {
                if q < rest.len() {
                    assert(rest[q] == all[j]);
                }
            }
        } else {
            assert(all[j] == extra.last());
            assert(shorter.contains(shorter[i]));
            lemma_new_is_extra(base, rest, i);
            let p = choose|p: int| 0 <= p < rest.len() && rest[p] == shorter[i];
            assert(extra[p] == all[i]);
            assert forall|q: int| 0 <= q < extra.len() && #[trigger] extra[q] == all[j] implies p
                < q by {
                if q < rest.len() {
                    assert(rest[q] == extra.last());
                    assert(rest.contains(extra.last()));
                    assert(shorter.contains(extra.last()));
                }
            }
        }
    }
}

pub proof fn lemma_new_is_extra<A>(base: Seq<A>, extra: Seq<A>, i: int)
    requires
        base.len() <= i < append_missing(base, extra).len(),
    ensures
        extra.contains(append_missing(base, extra)[i]),
        !base.contains(append_missing(base, extra)[i]),
    decreases extra.len(),
{
    if extra.len() > 0 {
        let rest = extra.drop_last();
        let shorter = append_missing(base, rest);
        lemma_append_missing(base, rest);
        if i < shorter.len() {
            lemma_new_is_extra(base, rest, i);
            let p = choose|p: int| 0 <= p < rest.len() && rest[p] == shorter[i];
            assert(extra[p] == append_missing(base, extra)[i]);
        } else {
            assert(extra[extra.len() - 1] == append_missing(base, extra)[i]);
        }
    }
}

/// `merged` is an order brought up to date with the windows there are: exactly those;
/// first the ones that were in the order, as they stood there, then the new ones, as
/// they are listed.
pub open spec fn is_updated(merged: Seq<isize>, order: Seq<isize>, visible: Seq<isize>) -> bool {
    &&& forall|id: isize| #[trigger] merged.contains(id) <==> visible.contains(id)
    &&& order.no_duplicates() ==> merged.no_duplicates()
    &&& forall|i: int, j: int|
        #![trigger merged[i], merged[j]]
        0 <= i < j < merged.len() ==> {
            &&& order.contains(merged[j]) ==> order.contains(merged[i])
            &&& order.contains(merged[j]) && order.no_duplicates() ==> comes_before(
                order,
                merged[i],
                merged[j],
            )
            &&& !order.contains(merged[i]) ==> comes_before(visible, merged[i], merged[j])
        }
}

pub proof fn lemma_merged(order: Seq<isize>, visible: Seq<isize>)
    ensures
        is_updated(merged_order(order, visible), order, visible),
{
    let merged = merged_order(order, visible);
    let kept = keep_members(order, visible);
    merged_order_has_the_visible_windows(order, visible);
    lemma_keep_members(order, visible);
    lemma_append_missing(kept, visible);
    assert forall|i: int, j: int| #![trigger merged[i], merged[j]]
        0 <= i < j < merged.len() implies {
        &&& order.contains(merged[j]) ==> order.contains(merged[i])
        &&& order.contains(merged[j]) && order.no_duplicates() ==> comes_before(
            order,
            merged[i],
            merged[j],
        )
        &&& !order.contains(merged[i]) ==> comes_before(visible, merged[i], merged[j])
    } by {
        assert(merged.take(kept.len() as int) == kept);
        assert(merged.contains(merged[i]) && merged.contains(merged[j]));
        if i < kept.len() {
            assert(merged.take(kept.len() as int)[i] == merged[i]);
            assert(kept.contains(kept[i]));
            assert(order.contains(merged[i]));
        } else {
            lemma_new_is_extra(kept, visible, i);
            lemma_appended_order(kept, visible, i, j);
            assert(!kept.contains(merged[i]));
        }
        if j < kept.len() {
            assert(merged.take(kept.len() as int)[j] == merged[j]);
            lemma_kept_order(order, visible, i, j);
            let (p, q) = choose|p: int, q: int|
                0 <= p < q < order.len() && #[trigger] order[p] == kept[i] && #[trigger] order[q]
                    == kept[j];
            if order.no_duplicates() {
                assert(order[p] == merged[i]);
                assert forall|r: int| 0 <= r < order.len() && #[trigger] order[r]
                    == merged[j] implies p < r by {
                    assert(order[r] == order[q]);
                }
            }
        } else {
            lemma_new_is_extra(kept, visible, j);
            assert(!kept.contains(merged[j]));
            assert(visible.contains(merged[j]));
            assert(!order.contains(merged[j]));
        }
    }
}

/// A stable order follows the windows: what goes is left out, what stays keeps its
/// place among the others, what comes goes to the end.
pub proof fn merging_updates_the_order(order: &mut Vec<isize>, visible: &[isize])
    requires
        call_ensures(merge_fixed_order, (order, visible), ()),
    ensures
        is_updated(final(order)@, old(order)@, visible@),
{
    lemma_merged(old(order)@, visible@);
}

/// The list of a held walk follows the windows as a stable order does.
pub proof fn a_held_list_follows_the_windows(
    cache_windows: &[isize],
    window_ids: &[isize],
    windows: Vec<isize>,
)
    requires
        call_ensures(reconstruct_fixed_state_windows, (cache_windows, window_ids), windows),
    ensures
        is_updated(windows@, cache_windows@, window_ids@),
{
    lemma_merged(cache_windows@, window_ids@);
}

/// An order is turned round as a wheel is, until the current window is first. Where it
/// lacks that window there is nothing to turn to.
pub proof fn turning_an_order_keeps_the_circle(
    order: &[isize],
    current: isize,
    turned: Option<Vec<isize>>,
)
    requires
        call_ensures(rotate_fixed_order, (order, current), turned),
    ensures
        turned is Some <==> exists|s: int| 0 <= s < order@.len() && order@[s] == current,
        turned matches Some(turned) ==> {
            &&& turned@.len() == order@.len()
            &&& exists|s: int|
                #![trigger order@[s]]
                0 <= s < order@.len() && order@[s] == current && (forall|j: int|
                    0 <= j < s ==> order@[j] != current) && forall|i: int|
                    0 <= i < order@.len() ==> #[trigger] turned@[i] == order@[(s + i) % (
                    order@.len() as int)]
        },
{
    if order@.contains(current) {
        rotation_is_cyclic(order@, current);
        lemma_first_position(order@, current);
        let s = first_position(order@, current);
        assert(order@[s] == current);
    }
}

/// A step goes to the next place of a circle, or to the one before. From a place that
/// the circle has lost, the next is the first one.
pub proof fn a_step_goes_one_place_on(index: usize, len: usize, reverse: bool, next: usize)
    requires
        call_ensures(next_fixed_index, (index, len, reverse), next),
    ensures
        index < len && !reverse ==> next == (index + 1) % (len as int),
        index < len && reverse ==> (next + 1) % (len as int) == index && next < len,
        index >= len && !reverse ==> next == 0,
        index >= len && reverse ==> next == index - 1,
{
    let n = len as int;
    if index < len {
        lemma_wrap(index as int, n);
        lemma_wrap(next as int, n);
    }
}

pub proof fn lemma_wrap(place: int, len: int)
    requires
        0 <= place < len,
    ensures
        (place + 1) % len == if place + 1 == len {
            0
        } else {
            place + 1
        },
{
    if place + 1 < len {
        vstd::arithmetic::div_mod::lemma_small_mod((place + 1) as nat, len as nat);
    } else {
        vstd::arithmetic::div_mod::lemma_mod_self_0(len);
    }
}

/// `one` is next to `other` in a circle of places, in the direction of a walk.
pub open spec fn follows(one: int, other: int, len: int, reverse: bool) -> bool {
    if reverse {
        (one + 1) % len == other
    } else {
        one == (other + 1) % len
    }
}

/// The window stands at this place, and at none before it.
pub open spec fn stands_first(list: Seq<isize>, id: isize, at: int) -> bool {
    list[at] == id && forall|j: int| 0 <= j < at ==> list[j] != id
}

/// A held walk goes on from the current window; for want of it in the list from the one
/// that it showed last; for want of both from its old place.
pub proof fn a_held_step_goes_on_from_where_the_walk_is(
    current: isize,
    cache_index: usize,
    cache_windows: &[isize],
    state_windows: &[isize],
    reverse: bool,
    next: Option<usize>,
)
    requires
        call_ensures(
            normalized_fixed_index,
            (current, cache_index, cache_windows, state_windows, reverse),
            next,
        ),
    ensures
        next is Some <==> state_windows@.len() >= 2,
        next matches Some(next) ==> {
            let list = state_windows@;
            let len = list.len() as int;
            &&& next < len
            &&& exists|from: int|
                #![trigger list[from]]
                0 <= from < len && follows(next as int, from, len, reverse) && {
                    if list.contains(current) {
                        stands_first(list, current, from)
                    } else if cache_index < cache_windows@.len() && list.contains(
                        cache_windows@[cache_index as int],
                    ) {
                        stands_first(list, cache_windows@[cache_index as int], from)
                    } else {
                        from == cache_index as int % len
                    }
                }
        },
{
    let list = state_windows@;
    let len = list.len() as int;
    if len >= 2 {
        held_cycle_moves_to_another_window(
            current,
            cache_index as int,
            cache_windows@,
            list,
            reverse,
        );
        let from = anchor_place(current, cache_index as int, cache_windows@, list);
        lemma_first_position(list, current);
        lemma_first_position(list, cache_windows@[cache_index as int]);
        lemma_wrap(from, len);
        lemma_wrap(next->0 as int, len);
        let shown = cache_windows@[cache_index as int];
        assert(follows(next->0 as int, from, len, reverse));
        if list.contains(current) {
            assert(stands_first(list, current, from));
        } else if cache_index < cache_windows@.len() && list.contains(shown) {
            assert(stands_first(list, shown, from));
        } else {
            let window = list[from];
            assert(from == cache_index as int % len);
        }
    }
}

/// The windows of one group: the first that has the window asked for.
pub proof fn a_window_belongs_to_the_first_group_that_has_it(
    groups: &Vec<WindowGroup>,
    hwnd: isize,
    place: Option<usize>,
)
    requires
        call_ensures(find_group, (groups, hwnd), place),
    ensures
        match place {
            Some(i) => {
                &&& i < groups@.len()
                &&& groups@[i as int].windows@.contains(hwnd)
                &&& forall|j: int| 0 <= j < i ==> !(#[trigger] groups@[j]).windows@.contains(hwnd)
            },
            None => forall|j: int|
                0 <= j < groups@.len() ==> !(#[trigger] groups@[j]).windows@.contains(hwnd),
        },
{
    lemma_group_place(groups@, hwnd);
}

pub proof fn lemma_group_place(groups: Seq<WindowGroup>, hwnd: isize)
    ensures
        0 <= group_place(groups, hwnd) <= groups.len(),
        forall|j: int|
            0 <= j < group_place(groups, hwnd) ==> !(#[trigger] groups[j]).windows@.contains(hwnd),
        group_place(groups, hwnd) < groups.len() ==> groups[group_place(
            groups,
            hwnd,
        )].windows@.contains(hwnd),
    decreases groups.len(),
{
    if groups.len() > 0 && !groups.first().windows@.contains(hwnd) {
        let rest = groups.drop_first();
        lemma_group_place(rest, hwnd);
        assert forall|j: int| 0 <= j < group_place(groups, hwnd) implies !(
        #[trigger] groups[j]).windows@.contains(hwnd) by {
            if j > 0 {
                assert(rest[j - 1] == groups[j]);
            }
        }
    }
}

proof fn lemma_taken_order(ids: Seq<isize>, old_list: Seq<isize>, i: int, j: int)
    requires
        0 <= i < j < drawn(ids, old_list).0.len(),
    ensures
        comes_before(old_list, drawn(ids, old_list).0[i], drawn(ids, old_list).0[j]),
    decreases old_list.len(),
{
    if old_list.len() > 0 {
        let init = old_list.drop_last();
        let (taken, rest) = drawn(ids, init);
        let all = drawn(ids, old_list).0;
        lemma_drawn(ids, init);
        if j < taken.len() {
            lemma_taken_order(ids, init, i, j);
            let p = choose|p: int|
                0 <= p < init.len() && #[trigger] init[p] == all[i] && forall|q: int|
                    0 <= q < init.len() && #[trigger] init[q] == all[j] ==> p < q;
            assert(old_list[p] == all[i]);
            assert forall|q: int| 0 <= q < old_list.len() && #[trigger] old_list[q]
                == all[j] implies p < q by {
                if q < init.len() {
                    assert(init[q] == all[j]);
                }
            }
        } else {
            let id = old_list.last();
            assert(all[j] == id && rest.contains(id));
            assert(taken.contains(taken[i]));
            assert(init.contains(taken[i]));
            let p = choose|p: int| 0 <= p < init.len() && init[p] == taken[i];
            assert(old_list[p] == all[i]);
            assert forall|q: int| 0 <= q < old_list.len() && #[trigger] old_list[q]
                == all[j] implies p < q by {
                if q < init.len() {
                    assert(init[q] == id);
                    assert(init.contains(id));
                }
            }
        }
    }
}

proof fn lemma_rest_places(ids: Seq<isize>, old_list: Seq<isize>, k: int)
    requires
        0 <= k < drawn(ids, old_list).1.len(),
        !old_list.contains(append_missing(Seq::empty(), ids)[k]),
    ensures
        drawn(ids, old_list).1.len() <= append_missing(Seq::empty(), ids).len(),
        drawn(ids, old_list).1[k] == append_missing(Seq::empty(), ids)[k],
    decreases old_list.len(),
{
    let each = append_missing(Seq::empty(), ids);
    lemma_drawn(ids, old_list);
    if old_list.len() > 0 {
        let init = old_list.drop_last();
        let id = old_list.last();
        let rest = drawn(ids, init).1;
        lemma_drawn(ids, init);
        assert(!init.contains(each[k])) by {
            if init.contains(each[k]) {
                let p = choose|p: int| 0 <= p < init.len() && init[p] == each[k];
                assert(old_list[p] == each[k]);
            }
        }
        assert(each[k] != id) by {
            assert(old_list[old_list.len() - 1] == id);
        }
        lemma_rest_places(ids, init, k);
        if rest.contains(id) {
            let place = rest.index_of(id);
            assert(rest[place] == id);
        }
    }
}

/// The list of a held walk in recency order has the windows that are there, each once.
/// First come those that the walk had, in its order, then the new ones. Of these, each
/// stands where it is listed, as far as that place is not beyond the end of them.
pub proof fn a_held_list_keeps_its_order(ids: &Vec<isize>, old_list: &Vec<isize>, list: Vec<isize>)
    requires
        call_ensures(held_windows, (ids, old_list), list),
    ensures
        list@.no_duplicates(),
        forall|id: isize| #[trigger] list@.contains(id) <==> ids@.contains(id),
        forall|i: int, j: int|
            #![trigger list@[i], list@[j]]
            0 <= i < j < list@.len() && old_list@.contains(list@[j]) ==> comes_before(
                old_list@,
                list@[i],
                list@[j],
            ),
        ids@.no_duplicates() ==> {
            &&& list@.len() == ids@.len()
            &&& forall|t: int, k: int|
                #![trigger list@[t], ids@[k]]
                0 <= t && 0 <= k && t + k < list@.len() && !old_list@.contains(ids@[k])
                    && !old_list@.contains(list@[t]) && (forall|s: int|
                    0 <= s < t ==> old_list@.contains(list@[s])) ==> list@[t + k] == ids@[k]
        },
{
    let (taken, rest) = drawn(ids@, old_list@);
    held_list_has_the_present_windows(ids@, old_list@);
    lemma_drawn(ids@, old_list@);
    assert forall|i: int, j: int|
        #![trigger list@[i], list@[j]]
        0 <= i < j < list@.len() && old_list@.contains(list@[j]) implies comes_before(
        old_list@,
        list@[i],
        list@[j],
    ) by {
        if j >= taken.len() {
            assert(rest[j - taken.len()] == list@[j]);
            assert(rest.contains(list@[j]));
        }
        lemma_taken_order(ids@, old_list@, i, j);
    }
    if ids@.no_duplicates() {
        lemma_append_all_missing(Seq::<isize>::empty(), ids@);
        assert(append_missing(Seq::<isize>::empty(), ids@) =~= ids@);
        assert forall|t: int, k: int|
            #![trigger list@[t], ids@[k]]
            0 <= t && 0 <= k && t + k < list@.len() && !old_list@.contains(ids@[k])
                && !old_list@.contains(list@[t]) && (forall|s: int|
                0 <= s < t ==> old_list@.contains(list@[s])) implies list@[t + k] == ids@[k] by {
            assert(t == taken.len()) by {
                if t < taken.len() {
                    assert(taken.contains(taken[t]));
                }
                if t > taken.len() {
                    assert(old_list@.contains(list@[taken.len() as int]));
                    assert(rest[0] == list@[taken.len() as int]);
                    assert(rest.contains(rest[0]));
                }
            }
            lemma_rest_places(ids@, old_list@, k);
        }
    }
}

/// How the list of a held walk grows with what the walk had before: one more window
/// makes no difference where it is gone or was there already. Else it moves behind the
/// others that the walk had, and the last of the new ones takes its place.
pub proof fn a_held_list_takes_one_window_more(
    ids: &Vec<isize>,
    old_list: &Vec<isize>,
    id: isize,
    longer: &Vec<isize>,
    list: Vec<isize>,
    longer_list: Vec<isize>,
)
    requires
        longer@ == old_list@.push(id),
        call_ensures(held_windows, (ids, old_list), list),
        call_ensures(held_windows, (ids, longer), longer_list),
    ensures
        !ids@.contains(id) || old_list@.contains(id) ==> longer_list@ == list@,
        ids@.contains(id) && !old_list@.contains(id) ==> exists|t: int, p: int|
            #![trigger list@.take(t), list@[p]]
            0 <= t <= p < list@.len() && list@[p] == id && (forall|s: int|
                0 <= s < list@.len() ==> (s < t <==> old_list@.contains(#[trigger] list@[s])))
                && longer_list@ == list@.take(t).push(id) + list@.update(
                p,
                list@.last(),
            ).skip(t).drop_last(),
{
    let (taken, rest) = drawn(ids@, old_list@);
    lemma_drawn(ids@, old_list@);
    assert(longer@.drop_last() =~= old_list@);
    if ids@.contains(id) && !old_list@.contains(id) {
        assert(rest.contains(id));
        let t = taken.len() as int;
        let place = rest.index_of(id);
        assert(rest[place] == id);
        let p = t + place;
        assert(list@[p] == id);
        assert forall|s: int| 0 <= s < list@.len() implies (s < t <==> old_list@.contains(
            #[trigger] list@[s],
        )) by {
            if s < t {
                assert(taken.contains(taken[s]));
            } else {
                assert(rest[s - t] == list@[s]);
                assert(rest.contains(list@[s]));
            }
        }
        assert(list@.take(t) =~= taken);
        assert(longer_list@ =~= list@.take(t).push(id) + list@.update(p, list@.last()).skip(
            t,
        ).drop_last());
    } else {
        assert(!rest.contains(id));
    }
}

/// A walk that takes in nothing from before goes along the windows as they are listed,
/// each once.
pub proof fn a_fresh_list_is_the_listed_one(ids: &Vec<isize>, none: &Vec<isize>, list: Vec<isize>)
    requires
        none@.len() == 0,
        call_ensures(held_windows, (ids, none), list),
    ensures
        ids@.no_duplicates() ==> list@ == ids@,
        forall|i: int, j: int|
            #![trigger list@[i], list@[j]]
            0 <= i < j < list@.len() ==> comes_before(ids@, list@[i], list@[j]),
{
    let each = append_missing(Seq::<isize>::empty(), ids@);
    assert(list@ =~= each);
    if ids@.no_duplicates() {
        lemma_append_all_missing(Seq::<isize>::empty(), ids@);
        assert(each =~= ids@);
    }
    assert forall|i: int, j: int| #![trigger list@[i], list@[j]]
        0 <= i < j < list@.len() implies comes_before(ids@, list@[i], list@[j]) by {
        lemma_appended_order(Seq::empty(), ids@, i, j);
    }
}

/// A step needs two windows. With fewer there is nowhere to go.
pub proof fn a_step_needs_two_windows(
    state: &SwitchWindowsState,
    path: &String,
    ids: &Vec<isize>,
    hwnd: isize,
    reverse: bool,
    recent: Option<WindowCycle>,
    fixed: Option<WindowCycle>,
)
    requires
        call_ensures(SwitchWindowsState::step_recent, (state, path, ids, reverse), recent),
        call_ensures(SwitchWindowsState::step_fixed, (state, path, ids, hwnd, reverse), fixed),
    ensures
        recent is Some <==> ids@.len() >= 2,
        ids@.len() < 2 ==> fixed is None,
        recent matches Some(walk) ==> walk.app_path@ == path@,
        fixed matches Some(walk) ==> walk.app_path@ == path@,
{
}

/// A walk goes on from the last one: of the same application, whose modifier has not
/// been let go.
pub open spec fn is_held(state: SwitchWindowsState, path: Seq<char>) -> bool {
    state.cache matches Some(last) && last.app_path@ == path && !state.modifier_released
}

/// A walk in recency order that neither goes on from the last nor returns to where it
/// started brings up the second window of the list, whatever went before. Two windows
/// always change places.
pub proof fn a_new_walk_brings_up_the_second_window(
    state: &SwitchWindowsState,
    path: &String,
    ids: &Vec<isize>,
    reverse: bool,
    next: Option<WindowCycle>,
)
    requires
        call_ensures(SwitchWindowsState::step_recent, (state, path, ids, reverse), next),
        ids@.len() >= 2,
        match state.cache {
            Some(last) => {
                ||| last.app_path@ != path@
                ||| state.modifier_released && (last.id == ids@[0] || !ids@.contains(last.id))
                ||| ids@.len() == 2
            },
            None => true,
        },
    ensures
        next matches Some(walk) && {
            &&& walk.windows@ == ids@
            &&& walk.id == ids@[0]
            &&& walk.index == 1
            &&& walk.windows@[walk.index as int] == ids@[1]
        },
{
}

/// Among three windows or more, a walk that begins after the modifier was let go returns
/// to the window from which the last walk through the same application started.
pub proof fn a_later_walk_returns_to_the_start_of_the_last(
    state: &SwitchWindowsState,
    path: &String,
    ids: &Vec<isize>,
    reverse: bool,
    next: Option<WindowCycle>,
)
    requires
        call_ensures(SwitchWindowsState::step_recent, (state, path, ids, reverse), next),
        ids@.len() > 2,
        state.modifier_released,
        state.cache matches Some(last) && last.app_path@ == path@ && last.id != ids@[0]
            && ids@.contains(last.id),
    ensures
        next matches Some(walk) && {
            &&& walk.windows@ == ids@
            &&& walk.id == ids@[0]
            &&& 0 < walk.index < ids@.len()
            &&& ids@[walk.index as int] == state.cache->0.id
            &&& forall|j: int| 0 <= j < walk.index ==> ids@[j] != state.cache->0.id
        },
{
    lemma_first_position(ids@, state.cache->0.id);
}

/// Among three windows or more, a walk whose modifier is still down goes one place on in
/// its list, and still knows where it started. From a place that the list has lost it
/// starts over at the end that it comes from.
pub proof fn a_held_recent_walk_goes_one_place_on(
    state: &SwitchWindowsState,
    path: &String,
    ids: &Vec<isize>,
    reverse: bool,
    next: Option<WindowCycle>,
    list: Vec<isize>,
)
    requires
        call_ensures(SwitchWindowsState::step_recent, (state, path, ids, reverse), next),
        ids@.len() > 2,
        is_held(*state, path@),
        call_ensures(held_windows, (ids, &state.cache->0.windows), list),
    ensures
        next matches Some(walk) && {
            let last = state.cache->0;
            let len = ids@.len() as int;
            &&& walk.id == last.id
            &&& walk.windows@ == list@
            &&& walk.index < len
            &&& last.index < len ==> follows(walk.index as int, last.index as int, len, reverse)
            &&& last.index >= len && !reverse ==> walk.index == 0
            &&& last.index >= len && reverse ==> walk.index == len - 1
        },
{
    let last = state.cache->0;
    let len = ids@.len() as int;
    if last.index < len {
        lemma_wrap(last.index as int, len);
        lemma_wrap(next->0.index as int, len);
    }
}

/// A new walk along the stable order, which is listed from the current window on, brings
/// up the window after it, or the last one when it goes backwards.
pub proof fn a_new_stable_walk_brings_up_a_neighbour(
    state: &SwitchWindowsState,
    path: &String,
    ids: &Vec<isize>,
    hwnd: isize,
    reverse: bool,
    next: Option<WindowCycle>,
)
    requires
        call_ensures(SwitchWindowsState::step_fixed, (state, path, ids, hwnd, reverse), next),
        ids@.len() >= 2,
        !is_held(*state, path@),
    ensures
        next matches Some(walk) && {
            &&& walk.windows@ == ids@
            &&& walk.id == ids@[0]
            &&& !reverse ==> walk.index == 1
            &&& reverse ==> walk.index == ids@.len() - 1
        },
{
}

/// A held walk along the stable order goes one place on from the current window, or for
/// want of it from the window that it showed last, in a list that follows the windows.
pub proof fn a_held_stable_walk_goes_one_place_on(
    state: &SwitchWindowsState,
    path: &String,
    ids: &Vec<isize>,
    hwnd: isize,
    reverse: bool,
    next: Option<WindowCycle>,
)
    requires
        call_ensures(SwitchWindowsState::step_fixed, (state, path, ids, hwnd, reverse), next),
        ids@.len() >= 2,
        is_held(*state, path@),
        next is Some,
    ensures
        ({
            let last = state.cache->0;
            let walk = next->0;
            let list = walk.windows@;
            let len = list.len() as int;
            &&& walk.id == last.id
            &&& is_updated(list, last.windows@, ids@)
            &&& walk.index < len
            &&& exists|from: int|
                #![trigger list[from]]
                0 <= from < len && follows(walk.index as int, from, len, reverse) && {
                    if list.contains(hwnd) {
                        stands_first(list, hwnd, from)
                    } else if last.index < last.windows@.len() && list.contains(
                        last.windows@[last.index as int],
                    ) {
                        stands_first(list, last.windows@[last.index as int], from)
                    } else {
                        from == last.index as int % len
                    }
                }
        }),
{
    let last = state.cache->0;
    let list = merged_order(last.windows@, ids@);
    lemma_merged(last.windows@, ids@);
    let len = list.len() as int;
    held_cycle_moves_to_another_window(hwnd, last.index as int, last.windows@, list, reverse);
    let from = anchor_place(hwnd, last.index as int, last.windows@, list);
    lemma_first_position(list, hwnd);
    lemma_first_position(list, last.windows@[last.index as int]);
    lemma_wrap(from, len);
    lemma_wrap(next->0.index as int, len);
    let window = list[from];
    assert(follows(next->0.index as int, from, len, reverse));
}

/// A held walk along the stable order leads somewhere as long as two windows are there.
pub proof fn a_held_stable_walk_is_never_stuck(
    state: &SwitchWindowsState,
    path: &String,
    ids: &Vec<isize>,
    hwnd: isize,
    reverse: bool,
    next: Option<WindowCycle>,
    i: int,
    j: int,
)
    requires
        call_ensures(SwitchWindowsState::step_fixed, (state, path, ids, hwnd, reverse), next),
        is_held(*state, path@),
        0 <= i < ids@.len(),
        0 <= j < ids@.len(),
        ids@[i] != ids@[j],
    ensures
        next is Some,
{
    let last = state.cache->0;
    let list = merged_order(last.windows@, ids@);
    lemma_merged(last.windows@, ids@);
    assert(list.contains(ids@[i]) && list.contains(ids@[j]));
    let p = choose|p: int| 0 <= p < list.len() && list[p] == ids@[i];
    let q = choose|q: int| 0 <= q < list.len() && list[q] == ids@[j];
    assert(p != q);
}

/// `merged` begins with the windows of an order that are still there, each as often and in
/// the order as it stood; `places` tells where. Then come those that the order lacks, once
/// each, as they are listed.
pub open spec fn is_merged_at(
    merged: Seq<isize>,
    order: Seq<isize>,
    visible: Seq<isize>,
    places: Seq<int>,
) -> bool {
    let kept = places.len() as int;
    &&& kept <= merged.len()
    &&& forall|k: int, m: int| 0 <= k < m < kept ==> #[trigger] places[k] < #[trigger] places[m]
    &&& forall|k: int|
        #![trigger places[k]]
        0 <= k < kept ==> 0 <= places[k] < order.len() && visible.contains(order[places[k]])
            && merged[k] == order[places[k]]
    &&& forall|i: int|
        0 <= i < order.len() && visible.contains(#[trigger] order[i]) ==> places.contains(i)
    &&& forall|i: int|
        kept <= i < merged.len() ==> visible.contains(#[trigger] merged[i]) && !order.contains(
            merged[i],
        )
    &&& forall|i: int, j: int|
        #![trigger merged[i], merged[j]]
        kept <= i < j < merged.len() ==> comes_before(visible, merged[i], merged[j])
    &&& forall|id: isize|
        visible.contains(id) && !order.contains(id) ==> #[trigger] merged.contains(id)
}

proof fn lemma_kept_at(order: Seq<isize>, allowed: Seq<isize>, n: nat)
    requires
        n <= order.len(),
    ensures
        ({
            let places = kept_places(n, |i: int| allowed.contains(order[i]));
            keep_members(order.take(n as int), allowed) == Seq::new(
                places.len(),
                |k: int| order[places[k]],
            )
        }),
    decreases n,
{
    let keep = |i: int| allowed.contains(order[i]);
    let places = kept_places(n, keep);
    let kept = keep_members(order.take(n as int), allowed);
    if n > 0 {
        lemma_kept_at(order, allowed, (n - 1) as nat);
        lemma_keep_members_step(order, allowed, n - 1);
        assert(keep(n - 1) == allowed.contains(order[n - 1]));
    } else {
        reveal(Seq::filter);
    }
    assert(kept =~= Seq::new(places.len(), |k: int| order[places[k]]));
}

/// Bringing an order up to date keeps every place of it whose window is still there, and
/// adds the windows that it lacks behind them; so does the list of a held walk.
pub proof fn merging_keeps_every_place(
    order: &mut Vec<isize>,
    visible: &[isize],
    cache_windows: &[isize],
    windows: Vec<isize>,
)
    requires
        call_ensures(merge_fixed_order, (order, visible), ()),
        call_ensures(reconstruct_fixed_state_windows, (cache_windows, visible), windows),
    ensures
        exists|places: Seq<int>| #[trigger]
            is_merged_at(final(order)@, old(order)@, visible@, places),
        exists|places: Seq<int>| #[trigger]
            is_merged_at(windows@, cache_windows@, visible@, places),
{
    lemma_merged_at(old(order)@, visible@);
    lemma_merged_at(cache_windows@, visible@);
}

proof fn lemma_merged_at(order: Seq<isize>, visible: Seq<isize>)
    ensures
        exists|places: Seq<int>| #[trigger]
            is_merged_at(merged_order(order, visible), order, visible, places),
{
    let n = order.len();
    let keep = |i: int| visible.contains(order[i]);
    let places = kept_places(n, keep);
    let kept = keep_members(order, visible);
    let merged = merged_order(order, visible);
    lemma_kept_at(order, visible, n);
    lemma_kept_places(n, keep);
    assert(order.take(n as int) =~= order);
    lemma_append_missing(kept, visible);
    lemma_keep_members(order, visible);
    assert forall|k: int|
        #![trigger places[k]]
        0 <= k < places.len() implies 0 <= places[k] < order.len() && visible.contains(
        order[places[k]],
    ) && merged[k] == order[places[k]] by {
        assert(keep(places[k]));
        assert(merged[k] == kept[k]);
    }
    assert forall|i: int|
        #![trigger order[i]]
        0 <= i < n && visible.contains(order[i]) implies places.contains(i) by {
        assert(keep(i));
    }
    assert forall|i: int|
        places.len() <= i < merged.len() implies visible.contains(#[trigger] merged[i])
        && !order.contains(merged[i]) by {
        lemma_new_is_extra(kept, visible, i);
    }
    assert forall|i: int, j: int|
        #![trigger merged[i], merged[j]]
        places.len() <= i < j < merged.len() implies comes_before(
        visible,
        merged[i],
        merged[j],
    ) by {
        lemma_appended_order(kept, visible, i, j);
    }
    assert(is_merged_at(merged, order, visible, places));
}

/// A held walk along the stable order goes along its own list, brought up to date, to the
/// place that comes next there.
pub proof fn a_held_stable_walk_goes_along_its_own_list(
    state: &SwitchWindowsState,
    path: &String,
    ids: &Vec<isize>,
    hwnd: isize,
    reverse: bool,
    next: Option<WindowCycle>,
    old_list: &[isize],
    listed: &[isize],
    windows: Vec<isize>,
    list: &[isize],
    index: Option<usize>,
)
    requires
        call_ensures(SwitchWindowsState::step_fixed, (state, path, ids, hwnd, reverse), next),
        ids@.len() >= 2,
        is_held(*state, path@),
        old_list@ == state.cache->0.windows@,
        listed@ == ids@,
        call_ensures(reconstruct_fixed_state_windows, (old_list, listed), windows),
        list@ == windows@,
        call_ensures(
            normalized_fixed_index,
            (hwnd, state.cache->0.index, old_list, list, reverse),
            index,
        ),
    ensures
        next is Some <==> index is Some,
        next matches Some(walk) ==> {
            &&& walk.windows@ == windows@
            &&& walk.index == index->0
            &&& walk.id == state.cache->0.id
        },
{
}

} // verus!
