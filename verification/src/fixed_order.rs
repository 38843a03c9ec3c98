//! A stable order of the windows of one application, and the walk along it.
use std::collections::HashSet;
use vstd::prelude::*;

use crate::sequences::{
    append_missing, first_position, is_first_position, keep_members, lemma_append_missing,
    lemma_append_missing_step, lemma_append_nothing_missing, lemma_first_position,
    lemma_keep_all_members,
    lemma_keep_members, lemma_keep_members_step,
};

verus! {

broadcast use vstd::std_specs::hash::group_hash_axioms;

/// `order` without the windows that are gone, then the windows that are new.
pub open spec fn merged_order(order: Seq<isize>, visible: Seq<isize>) -> Seq<isize> {
    append_missing(keep_members(order, visible), visible)
}

/// `order`, read cyclically from place `start` on.
pub open spec fn rotated(order: Seq<isize>, start: int) -> Seq<isize> {
    order.skip(start) + order.take(start)
}

/// The place after `index` in a cycle of `len` places, or before it in reverse.
/// A forward step from beyond the end starts over, a backward one steps back by
/// one.
pub open spec fn stepped_index(index: int, len: int, reverse: bool) -> int {
    if reverse {
        if index == 0 {
            len - 1
        } else {
            index - 1
        }
    } else if index >= len - 1 {
        0
    } else {
        index + 1
    }
}

/// The place from which a held cycle goes on: that of the current window; where
/// the list lacks it, that of the window which the cycle showed last; where the
/// list lacks that one too, the old place wrapped into the list.
pub open spec fn anchor_place(
    current: isize,
    cache_index: int,
    cache_windows: Seq<isize>,
    state_windows: Seq<isize>,
) -> int {
    if state_windows.contains(current) {
        first_position(state_windows, current)
    } else if cache_index < cache_windows.len() && state_windows.contains(
        cache_windows[cache_index],
    ) {
        first_position(state_windows, cache_windows[cache_index])
    } else {
        cache_index % (state_windows.len() as int)
    }
}

/// Whether `id` is among `ids`, and where it stands first.
pub fn position(ids: &[isize], id: isize) -> (place: Option<usize>)
    ensures
        match place {
            Some(i) => ids@.contains(id) && i == first_position(ids@, id),
            None => !ids@.contains(id),
        },
{
    let mut i: usize = 0;
    while i < ids.len()
        invariant
            i <= ids@.len(),
            forall|j: int| 0 <= j < i ==> ids@[j] != id,
        decreases ids@.len() - i,
    {
        if ids[i] == id {
            proof {
                lemma_first_position(ids@, id);
                assert(is_first_position(ids@, id, i as int));
                assert(ids@.contains(id));
            }
            return Some(i);
        }
        i += 1;
    }
    None
}

fn id_set(ids: &[isize]) -> (set: HashSet<isize>)
    ensures
        forall|id: isize| #[trigger] set@.contains(id) <==> ids@.contains(id),
{
    let mut set: HashSet<isize> = HashSet::new();
    let mut i: usize = 0;
    while i < ids.len()
        invariant
            i <= ids@.len(),
            forall|id: isize| #[trigger] set@.contains(id) <==> ids@.take(i as int).contains(id),
        decreases ids@.len() - i,
    {
        let ghost before = ids@.take(i as int);
        let ghost after = ids@.take(i + 1);
        set.insert(ids[i]);
        proof {
            assert(after =~= before.push(ids@[i as int]));
            assert forall|id: isize| #[trigger] set@.contains(id) <==> after.contains(id) by {
                if before.contains(id) {
                    let k = choose|k: int| 0 <= k < before.len() && before[k] == id;
                    assert(after[k] == id);
                }
                if id == ids@[i as int] {
                    assert(after[i as int] == id);
                }
            }
        }
        i += 1;
    }
    assert(ids@.take(i as int) =~= ids@);
    set
}

fn kept_members(ids: &[isize], allowed: &[isize]) -> (kept: Vec<isize>)
    ensures
        kept@ == keep_members(ids@, allowed@),
{
    let allowed_set = id_set(allowed);
    let mut kept: Vec<isize> = Vec::new();
    let mut i: usize = 0;
    proof {
        reveal(Seq::filter);
        assert(kept@ =~= keep_members(ids@.take(0), allowed@));
    }
    while i < ids.len()
        invariant
            i <= ids@.len(),
            forall|id: isize| #[trigger] allowed_set@.contains(id) <==> allowed@.contains(id),
            kept@ == keep_members(ids@.take(i as int), allowed@),
        decreases ids@.len() - i,
    {
        proof {
            lemma_keep_members_step(ids@, allowed@, i as int);
        }
        let id: isize = ids[i];
        if allowed_set.contains(&id) {
            kept.push(id);
        }
        i += 1;
    }
    assert(ids@.take(i as int) =~= ids@);
    kept
}

fn extend_missing(order: &mut Vec<isize>, extra: &[isize])
    ensures
        final(order)@ == append_missing(old(order)@, extra@),
{
    let ghost base = order@;
    let mut i: usize = 0;
    assert(extra@.take(0) =~= Seq::<isize>::empty());
    while i < extra.len()
        invariant
            i <= extra@.len(),
            order@ == append_missing(base, extra@.take(i as int)),
        decreases extra@.len() - i,
    {
        proof {
            lemma_append_missing_step(base, extra@, i as int);
        }
        let id: isize = extra[i];
        if position(order.as_slice(), id).is_none() {
            order.push(id);
        }
        i += 1;
    }
    assert(extra@.take(i as int) =~= extra@);
}

/// Brings a remembered order up to date with the windows that are there now.
pub fn merge_fixed_order(order: &mut Vec<isize>, visible: &[isize])
    ensures
        final(order)@ == merged_order(old(order)@, visible@),
{
    let kept = kept_members(order.as_slice(), visible);
    *order = kept;
    extend_missing(order, visible);
}

/// The order read from the current window on; `None` where it lacks that window.
pub fn rotate_fixed_order(order: &[isize], current: isize) -> (turned: Option<Vec<isize>>)
    ensures
        turned is Some <==> order@.contains(current),
        turned is Some ==> turned->0@ == rotated(order@, first_position(order@, current)),
{
    let start: usize = match position(order, current) {
        Some(start) => start,
        None => return None,
    };
    proof {
        lemma_first_position(order@, current);
    }
    let mut turned: Vec<isize> = Vec::new();
    let mut i: usize = start;
    while i < order.len()
        invariant
            start <= i <= order@.len(),
            turned@ == order@.subrange(start as int, i as int),
        decreases order@.len() - i,
    {
        turned.push(order[i]);
        i += 1;
        assert(turned@ =~= order@.subrange(start as int, i as int));
    }
    let mut j: usize = 0;
    while j < start
        invariant
            start <= order@.len(),
            j <= start,
            turned@ == order@.skip(start as int) + order@.take(j as int),
        decreases start - j,
    {
        turned.push(order[j]);
        j += 1;
        assert(turned@ =~= order@.skip(start as int) + order@.take(j as int));
    }
    Some(turned)
}

/// The list of a held cycle: its own windows that are still there, in its order,
/// then those that appeared since.
pub fn reconstruct_fixed_state_windows(cache_windows: &[isize], window_ids: &[isize]) -> (windows:
    Vec<isize>)
    ensures
        windows@ == merged_order(cache_windows@, window_ids@),
{
    let mut windows = kept_members(cache_windows, window_ids);
    extend_missing(&mut windows, window_ids);
    windows
}

/// One step in a cycle of `len` places.
pub fn next_fixed_index(index: usize, len: usize, reverse: bool) -> (next: usize)
    requires
        len > 0 || (reverse && index > 0),
    ensures
        next == stepped_index(index as int, len as int, reverse),
{
    if reverse {
        if index == 0 {
            len - 1
        } else {
            index - 1
        }
    } else if index >= len - 1 {
        0
    } else {
        index + 1
    }
}

/// Where a held cycle goes next in its updated list; `None` where there is
/// nothing to walk to.
pub fn normalized_fixed_index(
    current: isize,
    cache_index: usize,
    cache_windows: &[isize],
    state_windows: &[isize],
    reverse: bool,
) -> (next: Option<usize>)
    ensures
        next is None <==> state_windows@.len() < 2,
        next is Some ==> next->0 == stepped_index(
            anchor_place(current, cache_index as int, cache_windows@, state_windows@),
            state_windows@.len() as int,
            reverse,
        ),
{
    let len: usize = state_windows.len();
    if len < 2 {
        return None;
    }
    let shown: Option<usize> = if cache_index < cache_windows.len() {
        position(state_windows, cache_windows[cache_index])
    } else {
        None
    };
    let anchor: usize = match position(state_windows, current) {
        Some(place) => place,
        None => match shown {
            Some(place) => place,
            None => cache_index % len,
        },
    };
    Some(next_fixed_index(anchor, len, reverse))
}

/// Merging keeps exactly the visible windows, and repeats none of them if the
/// order repeated none.
pub proof fn merged_order_has_the_visible_windows(order: Seq<isize>, visible: Seq<isize>)
    ensures
        forall|id: isize| #[trigger]
            merged_order(order, visible).contains(id) <==> visible.contains(id),
        order.no_duplicates() ==> merged_order(order, visible).no_duplicates(),
{
    lemma_keep_members(order, visible);
    lemma_append_missing(keep_members(order, visible), visible);
}

/// The windows that were in the order and are still visible come first, and
/// stand among each other as before.
pub proof fn merged_order_keeps_existing_positions(order: Seq<isize>, visible: Seq<isize>)
    ensures
        keep_members(order, visible).len() <= merged_order(order, visible).len(),
        merged_order(order, visible).take(keep_members(order, visible).len() as int)
            == keep_members(order, visible),
{
    lemma_append_missing(keep_members(order, visible), visible);
}

/// Merging the same windows a second time changes nothing.
pub proof fn merging_twice_changes_nothing(order: Seq<isize>, visible: Seq<isize>)
    ensures
        merged_order(merged_order(order, visible), visible) == merged_order(order, visible),
{
    merged_order_has_the_visible_windows(order, visible);
    merged_order_of_same_windows(merged_order(order, visible), visible);
}

/// Where no window came or went, an order stays as it is.
pub proof fn merged_order_of_same_windows(order: Seq<isize>, visible: Seq<isize>)
    requires
        forall|id: isize| #[trigger] order.contains(id) <==> visible.contains(id),
    ensures
        merged_order(order, visible) == order,
{
    assert forall|i: int| 0 <= i < order.len() implies visible.contains(#[trigger] order[i]) by {
        assert(order.contains(order[i]));
    }
    lemma_keep_all_members(order, visible);
    assert forall|i: int| 0 <= i < visible.len() implies order.contains(#[trigger] visible[i]) by {
        assert(visible.contains(visible[i]));
    }
    lemma_append_nothing_missing(order, visible);
}

/// Rotation starts at the current window, keeps every window exactly as often as
/// it was there, and keeps cyclic neighbours.
pub proof fn rotation_is_cyclic(order: Seq<isize>, current: isize)
    requires
        order.contains(current),
    ensures
        ({
            let start = first_position(order, current);
            let turned = rotated(order, start);
            &&& turned.len() == order.len()
            &&& turned[0] == current
            &&& turned.to_multiset() == order.to_multiset()
            &&& forall|i: int|
                0 <= i < order.len() ==> #[trigger] turned[i] == order[(start + i) % (
                order.len() as int)]
        }),
{
    let start = first_position(order, current);
    lemma_first_position(order, current);
    assert(order =~= order.take(start) + order.skip(start));
    vstd::seq_lib::lemma_multiset_commutative(order.take(start), order.skip(start));
    vstd::seq_lib::lemma_multiset_commutative(order.skip(start), order.take(start));
    assert(order.take(start).to_multiset().add(order.skip(start).to_multiset()) =~= order.skip(
        start,
    ).to_multiset().add(order.take(start).to_multiset()));
    assert forall|i: int| 0 <= i < order.len() implies #[trigger] rotated(order, start)[i]
        == order[(start + i) % (order.len() as int)] by {
        let len = order.len() as int;
        if start + i < len {
            vstd::arithmetic::div_mod::lemma_small_mod((start + i) as nat, len as nat);
        } else {
            vstd::arithmetic::div_mod::lemma_fundamental_div_mod_converse(
                start + i,
                len,
                1,
                start + i - len,
            );
        }
    }
}

/// A step stays inside the cycle, and the step the other way undoes it.
pub proof fn steps_stay_inside_and_undo_each_other(index: int, len: int, reverse: bool)
    requires
        0 <= index < len,
    ensures
        0 <= stepped_index(index, len, reverse) < len,
        stepped_index(stepped_index(index, len, reverse), len, !reverse) == index,
{
}

/// A held cycle of two or more windows moves to a place in its list, other than
/// the one it goes on from.
pub proof fn held_cycle_moves_to_another_window(
    current: isize,
    cache_index: int,
    cache_windows: Seq<isize>,
    state_windows: Seq<isize>,
    reverse: bool,
)
    requires
        state_windows.len() >= 2,
        0 <= cache_index,
    ensures
        ({
            let len = state_windows.len() as int;
            let anchor = anchor_place(current, cache_index, cache_windows, state_windows);
            &&& 0 <= anchor < len
            &&& 0 <= stepped_index(anchor, len, reverse) < len
            &&& stepped_index(anchor, len, reverse) != anchor
        }),
{
    vstd::arithmetic::div_mod::lemma_mod_bound(cache_index, state_windows.len() as int);
    lemma_first_position(state_windows, current);
    lemma_first_position(state_windows, cache_windows[cache_index]);
}

/// The place reached by `steps` forward steps from `index`.
pub open spec fn walked_index(index: int, len: int, steps: nat) -> int
    decreases steps,
{
    if steps == 0 {
        index
    } else {
        stepped_index(walked_index(index, len, (steps - 1) as nat), len, false)
    }
}

/// Walking forward visits the places of the cycle in turn, so that as many steps
/// as there are places lead back to the start.
pub proof fn walking_goes_round(index: int, len: int, steps: nat)
    requires
        0 <= index < len,
    ensures
        walked_index(index, len, steps) == (index + steps) % len,
        walked_index(index, len, len as nat) == index,
{
    walk_is_modular(index, len, steps);
    walk_is_modular(index, len, len as nat);
    vstd::arithmetic::div_mod::lemma_fundamental_div_mod_converse(index + len, len, 1, index);
}

proof fn walk_is_modular(index: int, len: int, steps: nat)
    requires
        0 <= index < len,
    ensures
        walked_index(index, len, steps) == (index + steps) % len,
    decreases steps,
{
    if steps == 0 {
        vstd::arithmetic::div_mod::lemma_small_mod(index as nat, len as nat);
    } else {
        walk_is_modular(index, len, (steps - 1) as nat);
        let before = (index + steps - 1) % len;
        let turns = (index + steps - 1) / len;
        vstd::arithmetic::div_mod::lemma_fundamental_div_mod(index + steps - 1, len);
        vstd::arithmetic::div_mod::lemma_mod_bound(index + steps - 1, len);
        if before == len - 1 {
            assert(index + steps == (turns + 1) * len + 0) by (nonlinear_arith)
                requires
                    index + steps - 1 == len * turns + before,
                    before == len - 1,
            ;
            vstd::arithmetic::div_mod::lemma_fundamental_div_mod_converse(
                index + steps,
                len,
                turns + 1,
                0,
            );
        } else {
            assert(index + steps == turns * len + (before + 1)) by (nonlinear_arith)
                requires
                    index + steps - 1 == len * turns + before,
            ;
            vstd::arithmetic::div_mod::lemma_fundamental_div_mod_converse(
                index + steps,
                len,
                turns,
                before + 1,
            );
        }
    }
}

} // verus!
