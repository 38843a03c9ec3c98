//! The keyboard: what a stroke of a key changes, sends and keeps from other programs.
use vstd::prelude::*;

use crate::keyboard::{
    action_of, end_notice, end_notices, ended_walks, first_actor, followed, hotkey_uses_win,
    is_modifier, lemma_first_actor, lemma_press_ends_nothing, mask_needs_key_up_recovery,
    physical_win_state, should_send_win_mask, win_mask_input, HotKeyState, Hotkey, KeyReply,
    KeyStroke, KeyboardListener, MaskStroke, Notice, WinMaskState,
};

verus! {

/// The stroke lets a key go; it presses one otherwise.
pub open spec fn lets_go(stroke: KeyStroke) -> bool {
    stroke.flags & 0x80 != 0
}

/// The user made the stroke, or a program other than the switcher.
pub open spec fn is_foreign(stroke: KeyStroke) -> bool {
    stroke.extra_info != 0x5753_4D4B
}

/// The key is one of the two of a hotkey's modifier.
pub open spec fn has_modifier_key(hotkey: Hotkey, scan_code: u32) -> bool {
    hotkey.modifier@[0] == scan_code || hotkey.modifier@[1] == scan_code
}

/// The key is a modifier of some hotkey.
pub open spec fn is_some_modifier(hotkeys: Seq<HotKeyState>, scan_code: u32) -> bool {
    exists|i: int|
        0 <= i < hotkeys.len() && has_modifier_key(#[trigger] hotkeys[i].hotkey, scan_code)
}

proof fn lemma_modifier_keys(hotkey: Hotkey, scan_code: u32)
    ensures
        hotkey.modifier@.contains(scan_code) <==> has_modifier_key(hotkey, scan_code),
{
    if hotkey.modifier@[0] == scan_code {
        assert(hotkey.modifier@.contains(scan_code));
    }
    if hotkey.modifier@[1] == scan_code {
        assert(hotkey.modifier@.contains(scan_code));
    }
}

proof fn lemma_is_modifier(hotkeys: Seq<HotKeyState>, scan_code: u32)
    ensures
        is_modifier(hotkeys, scan_code) <==> is_some_modifier(hotkeys, scan_code),
{
    if is_modifier(hotkeys, scan_code) {
        let i = choose|i: int|
            0 <= i < hotkeys.len() && (#[trigger] hotkeys[i]).hotkey.modifier@.contains(scan_code);
        lemma_modifier_keys(hotkeys[i].hotkey, scan_code);
        assert(has_modifier_key(hotkeys[i].hotkey, scan_code));
    }
    if is_some_modifier(hotkeys, scan_code) {
        let i = choose|i: int|
            0 <= i < hotkeys.len() && has_modifier_key(#[trigger] hotkeys[i].hotkey, scan_code);
        lemma_modifier_keys(hotkeys[i].hotkey, scan_code);
        assert(hotkeys[i].hotkey.modifier@.contains(scan_code));
    }
}

/// The strokes that the switcher sends itself change nothing, send nothing, and pass.
pub proof fn own_strokes_do_nothing(
    keys: &mut KeyboardListener,
    stroke: KeyStroke,
    control: bool,
    blacklisted: bool,
    reply: KeyReply,
)
    requires
        call_ensures(KeyboardListener::keyboard_proc, (keys, stroke, control, blacklisted), reply),
        !is_foreign(stroke),
    ensures
        final(keys).hotkeys@ == old(keys).hotkeys@,
        final(keys).win_mask == old(keys).win_mask,
        final(keys).is_shift_pressed == old(keys).is_shift_pressed,
        final(keys).is_switching_apps == old(keys).is_switching_apps,
        final(keys).previous_keycode == old(keys).previous_keycode,
        !reply.send_win_mask,
        reply.notices@.len() == 0,
        !reply.consumed,
{
}

/// A hotkey's modifier counts as down from the press of one of its keys until one of
/// them is let go. Other keys make no difference to it, and no stroke changes what the
/// hotkeys are.
pub proof fn modifiers_are_down_while_they_are_held(
    keys: &mut KeyboardListener,
    stroke: KeyStroke,
    control: bool,
    blacklisted: bool,
    reply: KeyReply,
)
    requires
        call_ensures(KeyboardListener::keyboard_proc, (keys, stroke, control, blacklisted), reply),
        is_foreign(stroke),
    ensures
        final(keys).hotkeys@.len() == old(keys).hotkeys@.len(),
        forall|i: int|
            #![trigger final(keys).hotkeys@[i]]
            0 <= i < old(keys).hotkeys@.len() ==> {
                let before = old(keys).hotkeys@[i];
                let after = final(keys).hotkeys@[i];
                &&& after.hotkey == before.hotkey
                &&& has_modifier_key(before.hotkey, stroke.scan_code) ==> (
                after.is_modifier_pressed <==> !lets_go(stroke))
                &&& !has_modifier_key(before.hotkey, stroke.scan_code) ==> (
                after.is_modifier_pressed <==> before.is_modifier_pressed)
            },
{
    assert(final(keys).hotkeys@ == followed(old(keys)@, stroke).hotkeys);
    assert forall|i: int|
        #![trigger final(keys).hotkeys@[i]]
        0 <= i < old(keys).hotkeys@.len() implies {
        let before = old(keys).hotkeys@[i];
        let after = final(keys).hotkeys@[i];
        &&& after.hotkey == before.hotkey
        &&& has_modifier_key(before.hotkey, stroke.scan_code) ==> (after.is_modifier_pressed
            <==> !lets_go(stroke))
        &&& !has_modifier_key(before.hotkey, stroke.scan_code) ==> (after.is_modifier_pressed
            <==> before.is_modifier_pressed)
    } by {
        lemma_modifier_keys(old(keys).hotkeys@[i].hotkey, stroke.scan_code);
    }
}

/// Shift counts as down from the press of either shift key until one is let go.
pub proof fn shift_is_down_while_it_is_held(
    keys: &mut KeyboardListener,
    stroke: KeyStroke,
    control: bool,
    blacklisted: bool,
    reply: KeyReply,
)
    requires
        call_ensures(KeyboardListener::keyboard_proc, (keys, stroke, control, blacklisted), reply),
        is_foreign(stroke),
    ensures
        stroke.scan_code == 42 || stroke.scan_code == 54 ==> (final(keys).is_shift_pressed
            <==> !lets_go(stroke)),
        stroke.scan_code != 42 && stroke.scan_code != 54 ==> final(keys).is_shift_pressed == old(
            keys,
        ).is_shift_pressed,
{
}

/// The hotkey makes something of the press of an ordinary key: of its own key; and
/// the one for applications of escape, and of the arrows while the panel is open.
pub open spec fn acts(
    state: HotKeyState,
    scan_code: u32,
    panel_open: bool,
    blacklisted: bool,
) -> bool {
    &&& state.is_modifier_pressed
    &&& {
        ||| scan_code == state.hotkey.code && state.hotkey.id == 2
        ||| scan_code == state.hotkey.code && state.hotkey.id == 1 && !blacklisted
        ||| scan_code != state.hotkey.code && state.hotkey.id == 2 && scan_code == 0x01
        ||| scan_code != state.hotkey.code && state.hotkey.id == 2 && panel_open && (scan_code
            == 0x48 || scan_code == 0x4b || scan_code == 0x4d || scan_code == 0x50)
    }
}

/// The hotkey at place `i` is the first that makes something of a stroke, which is the
/// press of a key that is no modifier.
pub open spec fn is_actor(
    keys: KeyboardListener,
    stroke: KeyStroke,
    blacklisted: bool,
    i: int,
) -> bool {
    &&& is_foreign(stroke)
    &&& !lets_go(stroke)
    &&& !is_some_modifier(keys.hotkeys@, stroke.scan_code)
    &&& 0 <= i < keys.hotkeys@.len()
    &&& acts(keys.hotkeys@[i], stroke.scan_code, keys.is_switching_apps, blacklisted)
    &&& forall|j: int|
        0 <= j < i ==> !acts(
            #[trigger] keys.hotkeys@[j],
            stroke.scan_code,
            keys.is_switching_apps,
            blacklisted,
        )
}

proof fn lemma_actor_place(
    hotkeys: Seq<HotKeyState>,
    scan_code: u32,
    shift: bool,
    panel_open: bool,
    blacklisted: bool,
    i: int,
)
    requires
        0 <= i <= hotkeys.len(),
        i < hotkeys.len() ==> acts(hotkeys[i], scan_code, panel_open, blacklisted),
        forall|j: int|
            0 <= j < i ==> !acts(#[trigger] hotkeys[j], scan_code, panel_open, blacklisted),
    ensures
        first_actor(hotkeys, scan_code, shift, panel_open, blacklisted) == i,
    decreases hotkeys.len(),
{
    if hotkeys.len() > 0 {
        let first = hotkeys[0];
        assert(action_of(first, scan_code, shift, panel_open, blacklisted) is Some <==> acts(
            first,
            scan_code,
            panel_open,
            blacklisted,
        ));
        if i > 0 {
            let rest = hotkeys.drop_first();
            assert forall|j: int| 0 <= j < i - 1 implies !acts(
                #[trigger] rest[j],
                scan_code,
                panel_open,
                blacklisted,
            ) by {
                assert(rest[j] == hotkeys[j + 1]);
            }
            lemma_actor_place(rest, scan_code, shift, panel_open, blacklisted, i - 1);
        }
    }
}

/// The press of a hotkey's key, with its modifier down, walks on: it goes to the
/// switcher's window alone, as one message that says which walk it is and whether shift
/// turns it round.
pub proof fn the_key_of_a_hotkey_walks_on(
    keys: &mut KeyboardListener,
    stroke: KeyStroke,
    control: bool,
    blacklisted: bool,
    reply: KeyReply,
    i: int,
)
    requires
        call_ensures(KeyboardListener::keyboard_proc, (keys, stroke, control, blacklisted), reply),
        is_actor(*old(keys), stroke, blacklisted, i),
        stroke.scan_code == old(keys).hotkeys@[i].hotkey.code,
    ensures
        reply.consumed,
        reply.notices@.len() == 1,
        reply.notices@[0].lparam == if final(keys).is_shift_pressed {
            1int
        } else {
            0int
        },
        old(keys).hotkeys@[i].hotkey.id == 2 ==> reply.notices@[0].message == 6010
            && reply.notices@[0].switching_apps == Some(true),
        old(keys).hotkeys@[i].hotkey.id == 1 ==> reply.notices@[0].message == 6020
            && reply.notices@[0].switching_apps == Some(false),
        final(keys).previous_keycode == stroke.scan_code,
{
    lemma_is_modifier(old(keys).hotkeys@, stroke.scan_code);
    lemma_actor_place(
        old(keys).hotkeys@,
        stroke.scan_code,
        followed(old(keys)@, stroke).is_shift_pressed,
        old(keys).is_switching_apps,
        blacklisted,
        i,
    );
}

/// With the modifier of the applications down, escape calls the walk off, and an arrow
/// walks on in the open panel: up and left backwards, down and right forwards.
pub proof fn escape_and_arrows_steer_the_panel(
    keys: &mut KeyboardListener,
    stroke: KeyStroke,
    control: bool,
    blacklisted: bool,
    reply: KeyReply,
    i: int,
)
    requires
        call_ensures(KeyboardListener::keyboard_proc, (keys, stroke, control, blacklisted), reply),
        is_actor(*old(keys), stroke, blacklisted, i),
        stroke.scan_code != old(keys).hotkeys@[i].hotkey.code,
    ensures
        reply.consumed,
        !reply.send_win_mask,
        reply.notices@.len() == 1,
        stroke.scan_code == 0x01 ==> {
            &&& reply.notices@[0].message == 6012
            &&& reply.notices@[0].lparam == 0
            &&& reply.notices@[0].switching_apps == Some(false)
            &&& final(keys).previous_keycode == 0x01
        },
        stroke.scan_code != 0x01 ==> {
            &&& reply.notices@[0].message == 6010
            &&& reply.notices@[0].switching_apps == Some(true)
            &&& final(keys).previous_keycode == old(keys).previous_keycode
        },
        stroke.scan_code == 0x48 || stroke.scan_code == 0x4b ==> reply.notices@[0].lparam == 1,
        stroke.scan_code == 0x4d || stroke.scan_code == 0x50 ==> reply.notices@[0].lparam == 0,
{
    lemma_is_modifier(old(keys).hotkeys@, stroke.scan_code);
    lemma_actor_place(
        old(keys).hotkeys@,
        stroke.scan_code,
        followed(old(keys)@, stroke).is_shift_pressed,
        old(keys).is_switching_apps,
        blacklisted,
        i,
    );
}

/// Every other stroke of a key that is no modifier passes on and sends nothing: one that
/// lets a key go, and a press of which no hotkey makes anything. So does every key while
/// no modifier is down.
pub proof fn ordinary_keys_pass(
    keys: &mut KeyboardListener,
    stroke: KeyStroke,
    control: bool,
    blacklisted: bool,
    reply: KeyReply,
)
    requires
        call_ensures(KeyboardListener::keyboard_proc, (keys, stroke, control, blacklisted), reply),
        is_foreign(stroke),
        !is_some_modifier(old(keys).hotkeys@, stroke.scan_code),
        lets_go(stroke) || forall|i: int|
            0 <= i < old(keys).hotkeys@.len() ==> {
                ||| !(#[trigger] old(keys).hotkeys@[i]).is_modifier_pressed
                ||| !acts(
                    old(keys).hotkeys@[i],
                    stroke.scan_code,
                    old(keys).is_switching_apps,
                    blacklisted,
                )
            },
    ensures
        !reply.consumed,
        !reply.send_win_mask,
        reply.notices@.len() == 0,
        final(keys).previous_keycode == old(keys).previous_keycode,
{
    lemma_is_modifier(old(keys).hotkeys@, stroke.scan_code);
    if !lets_go(stroke) {
        assert forall|j: int| 0 <= j < old(keys).hotkeys@.len() implies !acts(
            #[trigger] old(keys).hotkeys@[j],
            stroke.scan_code,
            old(keys).is_switching_apps,
            blacklisted,
        ) by {}
        lemma_actor_place(
            old(keys).hotkeys@,
            stroke.scan_code,
            followed(old(keys)@, stroke).is_shift_pressed,
            old(keys).is_switching_apps,
            blacklisted,
            old(keys).hotkeys@.len() as int,
        );
    }
}

/// Once a modifier has been let go, the key of its hotkey is an ordinary key again: with
/// no other modifier down it passes on and sends nothing.
pub proof fn hotkeys_rest_without_their_modifier(
    keys: &mut KeyboardListener,
    release: KeyStroke,
    control: bool,
    blacklisted: bool,
    reply: KeyReply,
    later_keys: &mut KeyboardListener,
    press: KeyStroke,
    later_control: bool,
    later_blacklisted: bool,
    later_reply: KeyReply,
)
    requires
        call_ensures(KeyboardListener::keyboard_proc, (keys, release, control, blacklisted), reply),
        call_ensures(
            KeyboardListener::keyboard_proc,
            (later_keys, press, later_control, later_blacklisted),
            later_reply,
        ),
        *old(later_keys) == *final(keys),
        is_foreign(release),
        lets_go(release),
        is_foreign(press),
        !is_some_modifier(old(keys).hotkeys@, press.scan_code),
        forall|i: int|
            0 <= i < old(keys).hotkeys@.len() && (#[trigger] old(
                keys,
            ).hotkeys@[i]).is_modifier_pressed ==> has_modifier_key(
                old(keys).hotkeys@[i].hotkey,
                release.scan_code,
            ),
    ensures
        !later_reply.consumed,
        !later_reply.send_win_mask,
        later_reply.notices@.len() == 0,
{
    modifiers_are_down_while_they_are_held(keys, release, control, blacklisted, reply);
    assert forall|i: int| 0 <= i < old(later_keys).hotkeys@.len() implies !(#[trigger] old(
        later_keys,
    ).hotkeys@[i]).is_modifier_pressed by {
        assert(final(keys).hotkeys@[i].hotkey == old(keys).hotkeys@[i].hotkey);
        assert(old(keys).hotkeys@[i].is_modifier_pressed ==> has_modifier_key(
            old(keys).hotkeys@[i].hotkey,
            release.scan_code,
        ));
    }
    assert(!is_some_modifier(old(later_keys).hotkeys@, press.scan_code)) by {
        if is_some_modifier(old(later_keys).hotkeys@, press.scan_code) {
            let i = choose|i: int|
                0 <= i < old(later_keys).hotkeys@.len() && has_modifier_key(
                    #[trigger] old(later_keys).hotkeys@[i].hotkey,
                    press.scan_code,
                );
            assert(final(keys).hotkeys@[i].hotkey == old(keys).hotkeys@[i].hotkey);
            assert(has_modifier_key(old(keys).hotkeys@[i].hotkey, press.scan_code));
        }
    }
    ordinary_keys_pass(later_keys, press, later_control, later_blacklisted, later_reply);
}

/// The walk of a hotkey ends with a stroke: it lets go of its modifier, and its key was
/// the one acted on last.
pub open spec fn ends(keys: KeyboardListener, stroke: KeyStroke, i: int) -> bool {
    &&& 0 <= i < keys.hotkeys@.len()
    &&& lets_go(stroke)
    &&& has_modifier_key(keys.hotkeys@[i].hotkey, stroke.scan_code)
    &&& keys.hotkeys@[i].hotkey.code == keys.previous_keycode
}

proof fn lemma_ended(hotkeys: Seq<HotKeyState>, stroke: KeyStroke, previous: u32, id: u32)
    ensures
        ended_walks(hotkeys, stroke, previous).no_duplicates(),
        ended_walks(hotkeys, stroke, previous).contains(id) <==> exists|i: int|
            #![trigger hotkeys[i]]
            0 <= i < hotkeys.len() && lets_go(stroke) && has_modifier_key(
                hotkeys[i].hotkey,
                stroke.scan_code,
            ) && hotkeys[i].hotkey.code == previous && hotkeys[i].hotkey.id == id,
    decreases hotkeys.len(),
{
    if hotkeys.len() > 0 {
        let rest = hotkeys.drop_last();
        let last = hotkeys.last();
        let before = ended_walks(rest, stroke, previous);
        let all = ended_walks(hotkeys, stroke, previous);
        lemma_ended(rest, stroke, previous, id);
        lemma_ended(rest, stroke, previous, last.hotkey.id);
        lemma_modifier_keys(last.hotkey, stroke.scan_code);
        assert(hotkeys[hotkeys.len() - 1] == last);
        if before.contains(id) {
            let k = choose|k: int| 0 <= k < before.len() && before[k] == id;
            assert(all[k] == id);
            let i = choose|i: int|
                #![trigger rest[i]]
                0 <= i < rest.len() && lets_go(stroke) && has_modifier_key(
                    rest[i].hotkey,
                    stroke.scan_code,
                ) && rest[i].hotkey.code == previous && rest[i].hotkey.id == id;
            assert(hotkeys[i] == rest[i]);
        }
        if all.contains(id) && !before.contains(id) {
            let k = choose|k: int| 0 <= k < all.len() && all[k] == id;
            assert(k == before.len());
        }
        if exists|i: int|
            #![trigger hotkeys[i]]
            0 <= i < hotkeys.len() && lets_go(stroke) && has_modifier_key(
                hotkeys[i].hotkey,
                stroke.scan_code,
            ) && hotkeys[i].hotkey.code == previous && hotkeys[i].hotkey.id == id {
            let i = choose|i: int|
                #![trigger hotkeys[i]]
                0 <= i < hotkeys.len() && lets_go(stroke) && has_modifier_key(
                    hotkeys[i].hotkey,
                    stroke.scan_code,
                ) && hotkeys[i].hotkey.code == previous && hotkeys[i].hotkey.id == id;
            if i < rest.len() {
                assert(rest[i] == hotkeys[i]);
            } else if !before.contains(id) {
                assert(all[before.len() as int] == id);
            }
        }
    }
}

proof fn lemma_notices_of_ids(ids: Seq<u32>, notice: Notice)
    requires
        ids.no_duplicates(),
    ensures
        end_notices(ids).contains(notice) <==> exists|k: int|
            0 <= k < ids.len() && end_notice(#[trigger] ids[k]) == Some(notice),
        end_notices(ids).no_duplicates(),
    decreases ids.len(),
{
    if ids.len() > 0 {
        let rest = ids.drop_last();
        let all = end_notices(ids);
        let before = end_notices(rest);
        assert(rest.no_duplicates());
        lemma_notices_of_ids(rest, notice);
        let last = end_notice(ids.last());
        if last is Some {
            lemma_notices_of_ids(rest, last->0);
            assert(!before.contains(last->0)) by {
                if before.contains(last->0) {
                    let k = choose|k: int|
                        0 <= k < rest.len() && end_notice(#[trigger] rest[k]) == Some(last->0);
                    assert(rest[k] == ids[k] && ids[k] != ids[ids.len() - 1]);
                }
            }
            assert(all[before.len() as int] == last->0);
        }
        if before.contains(notice) {
            let m = choose|m: int| 0 <= m < before.len() && before[m] == notice;
            assert(all[m] == notice);
            let k = choose|k: int|
                0 <= k < rest.len() && end_notice(#[trigger] rest[k]) == Some(notice);
            assert(ids[k] == rest[k]);
        }
        if all.contains(notice) && !before.contains(notice) {
            assert(end_notice(ids[ids.len() - 1]) == Some(notice));
        }
        if exists|k: int| 0 <= k < ids.len() && end_notice(#[trigger] ids[k]) == Some(notice) {
            let k = choose|k: int|
                0 <= k < ids.len() && end_notice(#[trigger] ids[k]) == Some(notice);
            if k < rest.len() {
                assert(rest[k] == ids[k]);
            }
        }
    }
}

/// A modifier key passes on to everybody. Its press sends nothing; letting it go sends,
/// of each of the two walks that it ends, that it has ended, once.
pub proof fn modifier_keys_pass_and_end_walks(
    keys: &mut KeyboardListener,
    stroke: KeyStroke,
    control: bool,
    blacklisted: bool,
    reply: KeyReply,
    notice: Notice,
)
    requires
        call_ensures(KeyboardListener::keyboard_proc, (keys, stroke, control, blacklisted), reply),
        is_foreign(stroke),
        is_some_modifier(old(keys).hotkeys@, stroke.scan_code),
    ensures
        !reply.consumed,
        !reply.send_win_mask,
        final(keys).previous_keycode == old(keys).previous_keycode,
        !lets_go(stroke) ==> reply.notices@.len() == 0,
        reply.notices@.no_duplicates(),
        reply.notices@.contains(notice) <==> {
            ||| notice == (Notice { message: 6011, lparam: 0, switching_apps: Some(false) })
                && exists|i: int|
                #[trigger] ends(*old(keys), stroke, i) && old(keys).hotkeys@[i].hotkey.id == 2
            ||| notice == (Notice { message: 6021, lparam: 0, switching_apps: None })
                && exists|i: int|
                #[trigger] ends(*old(keys), stroke, i) && old(keys).hotkeys@[i].hotkey.id == 1
        },
{
    let hotkeys = old(keys).hotkeys@;
    let previous = old(keys).previous_keycode;
    lemma_is_modifier(hotkeys, stroke.scan_code);
    let ended = ended_walks(hotkeys, stroke, previous);
    lemma_ended(hotkeys, stroke, previous, 1);
    lemma_ended(hotkeys, stroke, previous, 2);
    lemma_notices_of_ids(ended, notice);
    if !lets_go(stroke) {
        lemma_press_ends_nothing(hotkeys, stroke, previous);
    }
    if ended.contains(1) {
        let i = choose|i: int|
            #![trigger hotkeys[i]]
            0 <= i < hotkeys.len() && lets_go(stroke) && has_modifier_key(
                hotkeys[i].hotkey,
                stroke.scan_code,
            ) && hotkeys[i].hotkey.code == previous && hotkeys[i].hotkey.id == 1;
        assert(ends(*old(keys), stroke, i));
        let k = choose|k: int| 0 <= k < ended.len() && ended[k] == 1;
        assert(end_notice(ended[k]) is Some);
    }
    if ended.contains(2) {
        let i = choose|i: int|
            #![trigger hotkeys[i]]
            0 <= i < hotkeys.len() && lets_go(stroke) && has_modifier_key(
                hotkeys[i].hotkey,
                stroke.scan_code,
            ) && hotkeys[i].hotkey.code == previous && hotkeys[i].hotkey.id == 2;
        assert(ends(*old(keys), stroke, i));
        let k = choose|k: int| 0 <= k < ended.len() && ended[k] == 2;
        assert(end_notice(ended[k]) is Some);
    }
    if reply.notices@.contains(notice) {
        let k = choose|k: int|
            0 <= k < ended.len() && end_notice(#[trigger] ended[k]) == Some(notice);
        assert(ended.contains(ended[k]));
    }
    assert forall|i: int| #[trigger] ends(*old(keys), stroke, i) implies ended.contains(
        hotkeys[i].hotkey.id,
    ) by {
        lemma_ended(hotkeys, stroke, previous, hotkeys[i].hotkey.id);
    }
}

/// The stroke is a real one of a Windows key.
pub open spec fn is_real_windows_key(stroke: KeyStroke) -> bool {
    (stroke.scan_code == 91 || stroke.scan_code == 92) && stroke.flags & 0x10 == 0
}

/// Each use of the Windows key is masked once, by the first walk that it starts: the mask
/// goes out unless control is down anyway. A use begins with a real press of the key that
/// was not down, and letting it go ends it.
pub proof fn each_use_of_the_windows_key_is_masked_once(
    keys: &mut KeyboardListener,
    stroke: KeyStroke,
    control: bool,
    blacklisted: bool,
    reply: KeyReply,
)
    requires
        call_ensures(KeyboardListener::keyboard_proc, (keys, stroke, control, blacklisted), reply),
        is_foreign(stroke),
    ensures
        ({
            let masked = old(keys).win_mask.sent && (is_real_windows_key(stroke) ==> !lets_go(
                stroke,
            ) && old(keys).win_mask.physical_win_pressed);
            let walks = exists|i: int|
                #[trigger] is_actor(*old(keys), stroke, blacklisted, i) && stroke.scan_code == old(
                    keys,
                ).hotkeys@[i].hotkey.code && old(keys).hotkeys@[i].hotkey.modifier@[0] == 91
                    && old(keys).hotkeys@[i].hotkey.modifier@[1] == 92;
            &&& reply.send_win_mask <==> walks && !masked && !control
            &&& final(keys).win_mask.sent <==> walks || masked
            &&& final(keys).win_mask.physical_win_pressed == if is_real_windows_key(stroke) {
                !lets_go(stroke)
            } else {
                old(keys).win_mask.physical_win_pressed
            }
        }),
{
    let hotkeys = old(keys).hotkeys@;
    let shift = followed(old(keys)@, stroke).is_shift_pressed;
    let panel_open = old(keys).is_switching_apps;
    lemma_is_modifier(hotkeys, stroke.scan_code);
    lemma_first_actor(hotkeys, stroke.scan_code, shift, panel_open, blacklisted);
    let actor = first_actor(hotkeys, stroke.scan_code, shift, panel_open, blacklisted);
    lemma_acts_before(hotkeys, stroke.scan_code, shift, panel_open, blacklisted);
    if !is_modifier(hotkeys, stroke.scan_code) && !lets_go(stroke) && actor < hotkeys.len() {
        assert(is_actor(*old(keys), stroke, blacklisted, actor));
    }
    assert forall|i: int| #[trigger] is_actor(*old(keys), stroke, blacklisted, i) implies i
        == actor by {
        lemma_actor_place(hotkeys, stroke.scan_code, shift, panel_open, blacklisted, i);
    }
    if actor < hotkeys.len() {
        let modifier = hotkeys[actor].hotkey.modifier@;
        assert(modifier == seq![91u32, 92u32] <==> modifier[0] == 91 && modifier[1] == 92) by {
            if modifier[0] == 91 && modifier[1] == 92 {
                assert(modifier =~= seq![91u32, 92u32]);
            }
        }
    }
}

proof fn lemma_acts_before(
    hotkeys: Seq<HotKeyState>,
    scan_code: u32,
    shift: bool,
    panel_open: bool,
    blacklisted: bool,
)
    ensures
        ({
            let actor = first_actor(hotkeys, scan_code, shift, panel_open, blacklisted);
            &&& actor < hotkeys.len() ==> acts(
                hotkeys[actor],
                scan_code,
                panel_open,
                blacklisted,
            )
            &&& forall|j: int|
                0 <= j < actor ==> !acts(#[trigger] hotkeys[j], scan_code, panel_open, blacklisted)
        }),
    decreases hotkeys.len(),
{
    if hotkeys.len() > 0 {
        let first = hotkeys[0];
        assert(action_of(first, scan_code, shift, panel_open, blacklisted) is Some <==> acts(
            first,
            scan_code,
            panel_open,
            blacklisted,
        ));
        if action_of(first, scan_code, shift, panel_open, blacklisted) is None {
            let rest = hotkeys.drop_first();
            lemma_first_actor(rest, scan_code, shift, panel_open, blacklisted);
            lemma_acts_before(rest, scan_code, shift, panel_open, blacklisted);
            let actor = first_actor(hotkeys, scan_code, shift, panel_open, blacklisted);
            assert forall|j: int| 0 <= j < actor implies !acts(
                #[trigger] hotkeys[j],
                scan_code,
                panel_open,
                blacklisted,
            ) by {
                if j > 0 {
                    assert(rest[j - 1] == hotkeys[j]);
                }
            }
        }
    }
}

/// The panel counts as open from the delivery of a message that opens it or walks on in
/// it until the delivery of one that closes it. A stroke by itself makes no difference.
pub proof fn the_panel_is_open_as_delivered(
    keys: &mut KeyboardListener,
    stroke: KeyStroke,
    control: bool,
    blacklisted: bool,
    reply: KeyReply,
    later_keys: &mut KeyboardListener,
    notice: Notice,
)
    requires
        call_ensures(KeyboardListener::keyboard_proc, (keys, stroke, control, blacklisted), reply),
        call_ensures(KeyboardListener::delivered, (later_keys, notice), ()),
    ensures
        final(keys).is_switching_apps == old(keys).is_switching_apps,
        notice.switching_apps matches Some(open) ==> final(later_keys).is_switching_apps == open,
        notice.switching_apps is None ==> final(later_keys).is_switching_apps == old(
            later_keys,
        ).is_switching_apps,
        final(later_keys).hotkeys@ == old(later_keys).hotkeys@,
        final(later_keys).previous_keycode == old(later_keys).previous_keycode,
        final(later_keys).is_shift_pressed == old(later_keys).is_shift_pressed,
        final(later_keys).win_mask == old(later_keys).win_mask,
{
}

/// At first no modifier is down, nothing is masked, and no key has been acted on.
pub proof fn the_keyboard_starts_at_rest(hotkeys: &[&Hotkey], keys: KeyboardListener)
    requires
        call_ensures(KeyboardListener::init, (hotkeys,), keys),
    ensures
        keys.hotkeys@.len() == hotkeys@.len(),
        forall|i: int|
            0 <= i < hotkeys@.len() ==> (#[trigger] keys.hotkeys@[i]).hotkey == *hotkeys@[i]
                && !keys.hotkeys@[i].is_modifier_pressed,
        !keys.is_shift_pressed && !keys.is_switching_apps,
        keys.previous_keycode == 0,
        !keys.win_mask.sent && !keys.win_mask.physical_win_pressed,
{
}

/// A claim is granted once: the next one only after a reset, or after a real stroke of
/// the Windows key that is not the repetition of a press. A claim for another modifier
/// is never granted, and takes nothing.
pub proof fn claims_are_granted_once(
    mask: &mut WinMaskState,
    uses_win: bool,
    granted: bool,
    again: &mut WinMaskState,
    granted_again: bool,
)
    requires
        call_ensures(WinMaskState::claim, (mask, uses_win), granted),
        call_ensures(WinMaskState::claim, (again, true), granted_again),
        *old(again) == *final(mask),
    ensures
        granted <==> uses_win && !old(mask).sent,
        granted ==> !granted_again,
        !uses_win ==> !granted && *final(mask) == *old(mask),
        uses_win ==> !granted_again,
        !granted_again && !uses_win ==> old(mask).sent,
        final(mask).physical_win_pressed == old(mask).physical_win_pressed,
{
}

/// What lets a claim be granted again.
pub proof fn claims_are_renewed(
    reset: &mut WinMaskState,
    initialized: &mut WinMaskState,
    observed: &mut WinMaskState,
    is_pressed: bool,
    claimed: &mut WinMaskState,
    granted: bool,
    fresh: WinMaskState,
)
    requires
        call_ensures(WinMaskState::reset, (reset,), ()),
        call_ensures(WinMaskState::initialize, (initialized,), ()),
        call_ensures(WinMaskState::observe_physical_win, (observed, is_pressed), ()),
        call_ensures(WinMaskState::claim, (claimed, true), granted),
        call_ensures(WinMaskState::new, (), fresh),
    ensures
        *old(claimed) == fresh ==> granted,
        !fresh.physical_win_pressed,
        *old(claimed) == *final(reset) ==> granted,
        *old(claimed) == *final(initialized) ==> granted,
        final(reset).physical_win_pressed == old(reset).physical_win_pressed,
        !final(initialized).physical_win_pressed,
        final(observed).physical_win_pressed == is_pressed,
        *old(claimed) == *final(observed) && !(is_pressed && old(observed).physical_win_pressed)
            ==> granted,
        is_pressed && old(observed).physical_win_pressed ==> *final(observed) == *old(observed),
{
}

/// The Windows key is a modifier by both of its keys, left and right. A claim by a hotkey
/// that has it sends the mask, once, unless control is down.
pub proof fn the_mask_is_for_the_windows_key(
    hotkey: &Hotkey,
    win: bool,
    mask: &mut WinMaskState,
    control: bool,
    send: bool,
)
    requires
        call_ensures(hotkey_uses_win, (hotkey,), win),
        call_ensures(should_send_win_mask, (mask, hotkey, control), send),
    ensures
        win <==> hotkey.modifier@[0] == 91 && hotkey.modifier@[1] == 92,
        send <==> win && !old(mask).sent && !control,
        final(mask).sent <==> win || old(mask).sent,
{
    if hotkey.modifier@[0] == 91 && hotkey.modifier@[1] == 92 {
        assert(hotkey.modifier@ =~= seq![91u32, 92u32]);
    }
}

/// A real stroke of a Windows key is one that no program sent, and tells whether the key
/// is down.
pub proof fn real_windows_strokes_are_told(scan_code: u32, flags: u32, state: Option<bool>)
    requires
        call_ensures(physical_win_state, (scan_code, flags), state),
    ensures
        state is Some <==> (scan_code == 91 || scan_code == 92) && flags & 0x10 == 0,
        state matches Some(pressed) ==> (pressed <==> flags & 0x80 == 0),
{
}

/// The mask is a stroke of control, down and up, that the switcher knows as its own.
/// Where only the first half went out, the second has to follow.
pub proof fn the_mask_is_a_stroke_of_control(strokes: Vec<MaskStroke>, sent: u32, needed: bool)
    requires
        call_ensures(win_mask_input, (), strokes),
        call_ensures(mask_needs_key_up_recovery, (sent,), needed),
    ensures
        strokes@.len() == 2,
        !strokes@[0].key_up && strokes@[1].key_up,
        forall|i: int|
            0 <= i < 2 ==> (#[trigger] strokes@[i]).virtual_key == 0x11 && strokes@[i].extra_info
                == 0x5753_4D4B,
        needed <==> sent == 1,
{
}

proof fn lemma_ended_order(
    keys: KeyboardListener,
    hotkeys: Seq<HotKeyState>,
    stroke: KeyStroke,
    i: int,
    j: int,
)
    requires
        hotkeys.len() <= keys.hotkeys@.len(),
        hotkeys == keys.hotkeys@.take(hotkeys.len() as int),
        0 <= i < j < ended_walks(hotkeys, stroke, keys.previous_keycode).len(),
    ensures
        exists|p: int| #[trigger]
            ends(keys, stroke, p) && p < hotkeys.len() && hotkeys[p].hotkey.id == ended_walks(
                hotkeys,
                stroke,
                keys.previous_keycode,
            )[i] && forall|q: int| #[trigger]
                ends(keys, stroke, q) && q < hotkeys.len() && hotkeys[q].hotkey.id == ended_walks(
                    hotkeys,
                    stroke,
                    keys.previous_keycode,
                )[j] ==> p < q,
    decreases hotkeys.len(),
{
    let previous = keys.previous_keycode;
    let all = ended_walks(hotkeys, stroke, previous);
    if hotkeys.len() > 0 {
        let rest = hotkeys.drop_last();
        let before = ended_walks(rest, stroke, previous);
        let last = hotkeys.len() - 1;
        assert(rest =~= keys.hotkeys@.take(rest.len() as int));
        lemma_modifier_keys(hotkeys.last().hotkey, stroke.scan_code);
        if j < before.len() {
            lemma_ended_order(keys, rest, stroke, i, j);
            let p = choose|p: int| #[trigger]
                ends(keys, stroke, p) && p < rest.len() && rest[p].hotkey.id == before[i]
                    && forall|q: int| #[trigger]
                    ends(keys, stroke, q) && q < rest.len() && rest[q].hotkey.id == before[j]
                        ==> p < q;
            assert(hotkeys[p] == rest[p]);
            assert forall|q: int| #[trigger]
                ends(keys, stroke, q) && q < hotkeys.len() && hotkeys[q].hotkey.id
                    == all[j] implies p < q by {
                if q < rest.len() {
                    assert(rest[q] == hotkeys[q]);
                }
            }
        } else {
            assert(j == before.len());
            assert(all[j] == hotkeys.last().hotkey.id);
            assert(!before.contains(all[j]));
            lemma_ended(rest, stroke, previous, all[i]);
            lemma_ended(rest, stroke, previous, all[j]);
            assert(before.contains(before[i]));
            let p = choose|p: int|
                #![trigger rest[p]]
                0 <= p < rest.len() && lets_go(stroke) && has_modifier_key(
                    rest[p].hotkey,
                    stroke.scan_code,
                ) && rest[p].hotkey.code == previous && rest[p].hotkey.id == all[i];
            assert(hotkeys[p] == rest[p]);
            assert(keys.hotkeys@[p] == rest[p]);
            assert(ends(keys, stroke, p));
            assert forall|q: int| #[trigger]
                ends(keys, stroke, q) && q < hotkeys.len() && hotkeys[q].hotkey.id
                    == all[j] implies p < q by {
                assert(keys.hotkeys@[q] == hotkeys[q]);
                if q < rest.len() {
                    assert(rest[q] == hotkeys[q]);
                }
            }
        }
    }
}

proof fn lemma_notice_places(ids: Seq<u32>, k: int, m: int) -> (places: (int, int))
    requires
        0 <= k < m < end_notices(ids).len(),
    ensures
        0 <= places.0 < places.1 < ids.len(),
        end_notice(ids[places.0]) == Some(end_notices(ids)[k]),
        end_notice(ids[places.1]) == Some(end_notices(ids)[m]),
    decreases ids.len(),
{
    let rest = ids.drop_last();
    let before = end_notices(rest);
    if m < before.len() {
        let places = lemma_notice_places(rest, k, m);
        assert(rest[places.0] == ids[places.0] && rest[places.1] == ids[places.1]);
        places
    } else {
        let first = lemma_notice_place(rest, k);
        assert(rest[first] == ids[first]);
        (first, ids.len() - 1)
    }
}

proof fn lemma_notice_place(ids: Seq<u32>, k: int) -> (place: int)
    requires
        0 <= k < end_notices(ids).len(),
    ensures
        0 <= place < ids.len(),
        end_notice(ids[place]) == Some(end_notices(ids)[k]),
    decreases ids.len(),
{
    let rest = ids.drop_last();
    if k < end_notices(rest).len() {
        let place = lemma_notice_place(rest, k);
        assert(rest[place] == ids[place]);
        place
    } else {
        ids.len() - 1
    }
}

/// The number of the message that tells the end of a hotkey's walk.
pub open spec fn tells_end_of(notice: Notice, id: u32) -> bool {
    id == 2 && notice.message == 6011 || id == 1 && notice.message == 6021
}

/// Walks that end together are told in the order of their hotkeys.
pub proof fn walks_end_in_the_order_of_their_hotkeys(
    keys: &mut KeyboardListener,
    stroke: KeyStroke,
    control: bool,
    blacklisted: bool,
    reply: KeyReply,
    k: int,
    m: int,
)
    requires
        call_ensures(KeyboardListener::keyboard_proc, (keys, stroke, control, blacklisted), reply),
        is_foreign(stroke),
        is_some_modifier(old(keys).hotkeys@, stroke.scan_code),
        0 <= k < m < reply.notices@.len(),
    ensures
        exists|p: int| #[trigger]
            ends(*old(keys), stroke, p) && tells_end_of(
                reply.notices@[k],
                old(keys).hotkeys@[p].hotkey.id,
            ) && forall|q: int| #[trigger]
                ends(*old(keys), stroke, q) && tells_end_of(
                    reply.notices@[m],
                    old(keys).hotkeys@[q].hotkey.id,
                ) ==> p < q,
{
    let hotkeys = old(keys).hotkeys@;
    let previous = old(keys).previous_keycode;
    let ended = ended_walks(hotkeys, stroke, previous);
    lemma_is_modifier(hotkeys, stroke.scan_code);
    assert(reply.notices@ == end_notices(ended));
    let (i, j) = lemma_notice_places(ended, k, m);
    assert(hotkeys =~= old(keys).hotkeys@.take(hotkeys.len() as int));
    lemma_ended_order(*old(keys), hotkeys, stroke, i, j);
    let p = choose|p: int| #[trigger]
        ends(*old(keys), stroke, p) && p < hotkeys.len() && hotkeys[p].hotkey.id == ended[i]
            && forall|q: int| #[trigger]
            ends(*old(keys), stroke, q) && q < hotkeys.len() && hotkeys[q].hotkey.id == ended[j]
                ==> p < q;
    assert(tells_end_of(reply.notices@[k], hotkeys[p].hotkey.id));
    assert forall|q: int| #[trigger]
        ends(*old(keys), stroke, q) && tells_end_of(
            reply.notices@[m],
            hotkeys[q].hotkey.id,
        ) implies p < q by {
        assert(hotkeys[q].hotkey.id == ended[j]);
    }
}

} // verus!
