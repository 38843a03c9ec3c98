//! The keyboard: which keys open, walk and close the switcher.
use vstd::prelude::*;

use crate::collections::{hotkey_items, hotkeys_of_set, insert_hotkey, new_hotkey_set};
use crate::messages::{
    decodes_to, Message, WM_USER_SWITCH_APPS, WM_USER_SWITCH_APPS_CANCEL, WM_USER_SWITCH_APPS_DONE,
    WM_USER_SWITCH_WINDOWS, WM_USER_SWITCH_WINDOWS_DONE,
};

verus! {

/// Marks the key strokes that the switcher itself sends.
pub const WIN_MASK_INPUT_TAG: usize = 0x5753_4D4B;

pub const SWITCH_WINDOWS_HOTKEY_ID: u32 = 1;

pub const SWITCH_APPS_HOTKEY_ID: u32 = 2;

pub const SCANCODE_LWIN: u32 = 91;

pub const SCANCODE_RWIN: u32 = 92;

pub const SCANCODE_LSHIFT: u32 = 42;

pub const SCANCODE_RSHIFT: u32 = 54;

pub const SCANCODE_ESCAPE: u32 = 0x01;

pub const SCANCODE_UP: u32 = 0x48;

pub const SCANCODE_LEFT: u32 = 0x4b;

pub const SCANCODE_RIGHT: u32 = 0x4d;

pub const SCANCODE_DOWN: u32 = 0x50;

/// Set in the flags of a stroke that some program sent.
pub const LLKHF_INJECTED: u32 = 0x10;

/// Set in the flags of a stroke that lets a key go.
pub const LLKHF_UP: u32 = 0x80;

/// The virtual key that masks the Windows key.
pub const VK_CONTROL: u16 = 17;

/// A combination of a modifier, which has a left and a right key, and another key.
pub struct Hotkey {
    pub id: u32,
    pub name: String,
    pub modifier: [u32; 2],
    pub code: u32,
}

/// A hotkey, and whether its modifier is down.
pub struct HotKeyState {
    pub hotkey: Hotkey,
    pub is_modifier_pressed: bool,
}

/// Whether the present use of the Windows key has been masked, so that letting it
/// go will not open the start menu.
pub struct WinMaskState {
    pub sent: bool,
    pub physical_win_pressed: bool,
}

impl WinMaskState {
    pub fn new() -> (state: Self)
        ensures
            !state.sent,
            !state.physical_win_pressed,
    {
        WinMaskState { sent: false, physical_win_pressed: false }
    }

    /// Claims the mask for the present use of the Windows key: granted once.
    pub fn claim(&mut self, uses_win: bool) -> (granted: bool)
        ensures
            granted == (uses_win && !old(self).sent),
            final(self).sent == (old(self).sent || uses_win),
            final(self).physical_win_pressed == old(self).physical_win_pressed,
    {
        if uses_win {
            let granted: bool = !self.sent;
            self.sent = true;
            granted
        } else {
            false
        }
    }

    /// Lets the mask be claimed again.
    pub fn reset(&mut self)
        ensures
            !final(self).sent,
            final(self).physical_win_pressed == old(self).physical_win_pressed,
    {
        self.sent = false;
    }

    pub fn initialize(&mut self)
        ensures
            !final(self).sent,
            !final(self).physical_win_pressed,
    {
        self.physical_win_pressed = false;
        self.reset();
    }

    /// Takes note of a real stroke of a Windows key. A press that only repeats
    /// keeps the claim; any other stroke ends it.
    pub fn observe_physical_win(&mut self, is_pressed: bool)
        ensures
            *final(self) == after_physical_win(*old(self), is_pressed),
    {
        if is_pressed {
            let was_pressed: bool = self.physical_win_pressed;
            self.physical_win_pressed = true;
            if !was_pressed {
                self.reset();
            }
        } else {
            self.physical_win_pressed = false;
            self.reset();
        }
    }
}

pub open spec fn after_physical_win(state: WinMaskState, is_pressed: bool) -> WinMaskState {
    WinMaskState {
        sent: is_pressed && state.physical_win_pressed && state.sent,
        physical_win_pressed: is_pressed,
    }
}

/// One stroke of a key, as the system reports it.
#[derive(Clone, Copy)]
pub struct KeyStroke {
    pub scan_code: u32,
    pub flags: u32,
    pub extra_info: usize,
}

/// A message for the switcher's window, and what its delivery says about the
/// panel of applications.
#[derive(Clone, Copy, PartialEq, Eq, Debug)]
pub struct Notice {
    pub message: u32,
    pub lparam: isize,
    pub switching_apps: Option<bool>,
}

/// What is to be done about a stroke.
pub struct KeyReply {
    /// Send the strokes that mask the Windows key.
    pub send_win_mask: bool,
    /// Send these messages, in this order.
    pub notices: Vec<Notice>,
    /// Keep the stroke from everybody else.
    pub consumed: bool,
}

/// What a stroke of an ordinary key does.
pub enum KeyAction {
    /// The key of a hotkey.
    Walk { id: u32, reverse: bool },
    /// An arrow key in the panel.
    Arrow { reverse: bool },
    /// Escape in the panel.
    Cancel,
}

pub open spec fn is_pressed(flags: u32) -> bool {
    flags & LLKHF_UP == 0
}

pub open spec fn uses_win(hotkey: Hotkey) -> bool {
    hotkey.modifier@ == seq![SCANCODE_LWIN, SCANCODE_RWIN]
}

/// Whether a stroke is a real one of a Windows key, and then whether down.
pub open spec fn physical_win(scan_code: u32, flags: u32) -> Option<bool> {
    if (scan_code == SCANCODE_LWIN || scan_code == SCANCODE_RWIN) && flags & LLKHF_INJECTED == 0 {
        Some(is_pressed(flags))
    } else {
        None
    }
}

pub open spec fn is_arrow(scan_code: u32) -> bool {
    scan_code == SCANCODE_UP || scan_code == SCANCODE_LEFT || scan_code == SCANCODE_RIGHT
        || scan_code == SCANCODE_DOWN
}

/// A hotkey after a stroke: a stroke of its modifier sets or clears its state.
pub open spec fn after_stroke(state: HotKeyState, stroke: KeyStroke) -> HotKeyState {
    if state.hotkey.modifier@.contains(stroke.scan_code) {
        HotKeyState { hotkey: state.hotkey, is_modifier_pressed: is_pressed(stroke.flags) }
    } else {
        state
    }
}

/// Whether the key is the modifier of some hotkey.
pub open spec fn is_modifier(hotkeys: Seq<HotKeyState>, scan_code: u32) -> bool {
    exists|i: int|
        0 <= i < hotkeys.len() && (#[trigger] hotkeys[i]).hotkey.modifier@.contains(scan_code)
}

/// The hotkeys, by number, whose walk ends with this stroke: it lets their
/// modifier go, and their key was the one acted on last.
pub open spec fn ended_walks(
    hotkeys: Seq<HotKeyState>,
    stroke: KeyStroke,
    previous_keycode: u32,
) -> Seq<u32>
    decreases hotkeys.len(),
{
    if hotkeys.len() == 0 {
        Seq::empty()
    } else {
        let before = ended_walks(hotkeys.drop_last(), stroke, previous_keycode);
        let hotkey = hotkeys.last().hotkey;
        if hotkey.modifier@.contains(stroke.scan_code) && !is_pressed(stroke.flags)
            && previous_keycode == hotkey.code && !before.contains(hotkey.id) {
            before.push(hotkey.id)
        } else {
            before
        }
    }
}

/// What one hotkey makes of the press of an ordinary key.
pub open spec fn action_of(
    state: HotKeyState,
    scan_code: u32,
    shift: bool,
    switching_apps: bool,
    blacklisted: bool,
) -> Option<KeyAction> {
    let id = state.hotkey.id;
    if !state.is_modifier_pressed {
        None
    } else if scan_code == state.hotkey.code {
        if id == SWITCH_APPS_HOTKEY_ID || (id == SWITCH_WINDOWS_HOTKEY_ID && !blacklisted) {
            Some(KeyAction::Walk { id, reverse: shift })
        } else {
            None
        }
    } else if id != SWITCH_APPS_HOTKEY_ID {
        None
    } else if scan_code == SCANCODE_ESCAPE {
        Some(KeyAction::Cancel)
    } else if is_arrow(scan_code) && switching_apps {
        Some(KeyAction::Arrow { reverse: scan_code == SCANCODE_UP || scan_code == SCANCODE_LEFT })
    } else {
        None
    }
}

/// The first hotkey that makes something of the press of an ordinary key.
pub open spec fn first_actor(
    hotkeys: Seq<HotKeyState>,
    scan_code: u32,
    shift: bool,
    switching_apps: bool,
    blacklisted: bool,
) -> int
    decreases hotkeys.len(),
{
    if hotkeys.len() == 0 || action_of(
        hotkeys.first(),
        scan_code,
        shift,
        switching_apps,
        blacklisted,
    ) is Some {
        0
    } else {
        1 + first_actor(hotkeys.drop_first(), scan_code, shift, switching_apps, blacklisted)
    }
}

/// The message for a walk that ended.
pub open spec fn end_notice(id: u32) -> Option<Notice> {
    if id == SWITCH_APPS_HOTKEY_ID {
        Some(
            Notice { message: WM_USER_SWITCH_APPS_DONE, lparam: 0, switching_apps: Some(false) },
        )
    } else if id == SWITCH_WINDOWS_HOTKEY_ID {
        Some(Notice { message: WM_USER_SWITCH_WINDOWS_DONE, lparam: 0, switching_apps: None })
    } else {
        None
    }
}

/// The messages for the walks that ended.
pub open spec fn end_notices(ids: Seq<u32>) -> Seq<Notice>
    decreases ids.len(),
{
    if ids.len() == 0 {
        Seq::empty()
    } else {
        match end_notice(ids.last()) {
            Some(notice) => end_notices(ids.drop_last()).push(notice),
            None => end_notices(ids.drop_last()),
        }
    }
}

/// The message for an action.
pub open spec fn action_notice(action: KeyAction) -> Notice {
    match action {
        KeyAction::Walk { id, reverse } => if id == SWITCH_APPS_HOTKEY_ID {
            Notice {
                message: WM_USER_SWITCH_APPS,
                lparam: if reverse {
                    1
                } else {
                    0
                },
                switching_apps: Some(true),
            }
        } else {
            Notice {
                message: WM_USER_SWITCH_WINDOWS,
                lparam: if reverse {
                    1
                } else {
                    0
                },
                switching_apps: Some(false),
            }
        },
        KeyAction::Arrow { reverse } => Notice {
            message: WM_USER_SWITCH_APPS,
            lparam: if reverse {
                1
            } else {
                0
            },
            switching_apps: Some(true),
        },
        KeyAction::Cancel => Notice {
            message: WM_USER_SWITCH_APPS_CANCEL,
            lparam: 0,
            switching_apps: Some(false),
        },
    }
}

/// The state of the keyboard.
pub struct KeyboardListener {
    pub hotkeys: Vec<HotKeyState>,
    pub win_mask: WinMaskState,
    pub is_shift_pressed: bool,
    pub is_switching_apps: bool,
    pub previous_keycode: u32,
}

/// The content of a `KeyboardListener`.
pub struct KeyboardView {
    pub hotkeys: Seq<HotKeyState>,
    pub win_mask: WinMaskState,
    pub is_shift_pressed: bool,
    pub is_switching_apps: bool,
    pub previous_keycode: u32,
}

/// The content of a `KeyReply`.
pub struct ReplyView {
    pub send_win_mask: bool,
    pub notices: Seq<Notice>,
    pub consumed: bool,
}

impl View for KeyboardListener {
    type V = KeyboardView;

    open spec fn view(&self) -> KeyboardView {
        KeyboardView {
            hotkeys: self.hotkeys@,
            win_mask: self.win_mask,
            is_shift_pressed: self.is_shift_pressed,
            is_switching_apps: self.is_switching_apps,
            previous_keycode: self.previous_keycode,
        }
    }
}

impl View for KeyReply {
    type V = ReplyView;

    open spec fn view(&self) -> ReplyView {
        ReplyView {
            send_win_mask: self.send_win_mask,
            notices: self.notices@,
            consumed: self.consumed,
        }
    }
}

/// The keyboard after what every stroke of the user does: the Windows keys, the
/// shift keys and the modifiers are followed.
pub open spec fn followed(before: KeyboardView, stroke: KeyStroke) -> KeyboardView {
    KeyboardView {
        hotkeys: before.hotkeys.map_values(|state: HotKeyState| after_stroke(state, stroke)),
        win_mask: match physical_win(stroke.scan_code, stroke.flags) {
            Some(pressed) => after_physical_win(before.win_mask, pressed),
            None => before.win_mask,
        },
        is_shift_pressed: if stroke.scan_code == SCANCODE_LSHIFT || stroke.scan_code
            == SCANCODE_RSHIFT {
            is_pressed(stroke.flags)
        } else {
            before.is_shift_pressed
        },
        ..before
    }
}

/// What a stroke does to the keyboard's state, and what is to be done about it.
/// `control_is_pressed` tells whether a control key is down, `blacklisted` whether
/// the foreground window is exempt from the window walk.
pub open spec fn stroke_outcome(
    before: KeyboardView,
    stroke: KeyStroke,
    control_is_pressed: bool,
    blacklisted: bool,
) -> (KeyboardView, ReplyView) {
    let nothing = ReplyView { send_win_mask: false, notices: Seq::empty(), consumed: false };
    let after = followed(before, stroke);
    let actor = first_actor(
        before.hotkeys,
        stroke.scan_code,
        after.is_shift_pressed,
        before.is_switching_apps,
        blacklisted,
    );
    if stroke.extra_info == WIN_MASK_INPUT_TAG {
        (before, nothing)
    } else if is_modifier(before.hotkeys, stroke.scan_code) {
        let ended = ended_walks(before.hotkeys, stroke, before.previous_keycode);
        (after, ReplyView { notices: end_notices(ended), ..nothing })
    } else if !is_pressed(stroke.flags) || actor >= before.hotkeys.len() {
        (after, nothing)
    } else {
        let hotkey = before.hotkeys[actor].hotkey;
        let action = action_of(
            before.hotkeys[actor],
            stroke.scan_code,
            after.is_shift_pressed,
            before.is_switching_apps,
            blacklisted,
        )->0;
        let claimed = action is Walk && uses_win(hotkey);
        (
            KeyboardView {
                previous_keycode: if action is Arrow {
                    before.previous_keycode
                } else {
                    stroke.scan_code
                },
                win_mask: WinMaskState {
                    sent: after.win_mask.sent || claimed,
                    ..after.win_mask
                },
                ..after
            },
            ReplyView {
                send_win_mask: claimed && !after.win_mask.sent && !control_is_pressed,
                notices: seq![action_notice(action)],
                consumed: true,
            },
        )
    }
}

/// Whether the modifier of a hotkey is the Windows key.
pub fn hotkey_uses_win(hotkey: &Hotkey) -> (win: bool)
    ensures
        win == uses_win(*hotkey),
{
    let win: bool = hotkey.modifier[0] == SCANCODE_LWIN && hotkey.modifier[1] == SCANCODE_RWIN;
    proof {
        if win {
            assert(hotkey.modifier@ =~= seq![SCANCODE_LWIN, SCANCODE_RWIN]);
        }
    }
    win
}

/// Claims the mask for a hotkey; it is sent unless control is down already.
pub fn should_send_win_mask(
    state: &mut WinMaskState,
    hotkey: &Hotkey,
    control_is_pressed: bool,
) -> (send: bool)
    ensures
        send == (uses_win(*hotkey) && !old(state).sent && !control_is_pressed),
        final(state).sent == (old(state).sent || uses_win(*hotkey)),
        final(state).physical_win_pressed == old(state).physical_win_pressed,
{
    let granted: bool = state.claim(hotkey_uses_win(hotkey));
    granted && !control_is_pressed
}

/// Whether a stroke is a real one of a Windows key, and then whether down.
pub fn physical_win_state(scan_code: u32, flags: u32) -> (state: Option<bool>)
    ensures
        state == physical_win(scan_code, flags),
{
    if !(scan_code == SCANCODE_LWIN || scan_code == SCANCODE_RWIN) || flags & LLKHF_INJECTED != 0 {
        return None;
    }
    Some(flags & LLKHF_UP == 0)
}

/// Whether of the two strokes of the mask only the first went out, so that control
/// has still to be let go.
pub fn mask_needs_key_up_recovery(sent: u32) -> (needed: bool)
    ensures
        needed == (sent == 1),
{
    sent == 1
}

/// One stroke that the switcher sends.
#[derive(Clone, Copy, PartialEq, Eq, Debug)]
pub struct MaskStroke {
    pub virtual_key: u16,
    pub key_up: bool,
    pub extra_info: usize,
}

/// The strokes that mask the Windows key: control down, control up.
pub fn win_mask_input() -> (strokes: Vec<MaskStroke>)
    ensures
        strokes@ == seq![
            MaskStroke {
                virtual_key: VK_CONTROL,
                key_up: false,
                extra_info: WIN_MASK_INPUT_TAG,
            },
            MaskStroke { virtual_key: VK_CONTROL, key_up: true, extra_info: WIN_MASK_INPUT_TAG },
        ],
{
    let mut strokes: Vec<MaskStroke> = Vec::new();
    strokes.push(
        MaskStroke { virtual_key: VK_CONTROL, key_up: false, extra_info: WIN_MASK_INPUT_TAG },
    );
    strokes.push(
        MaskStroke { virtual_key: VK_CONTROL, key_up: true, extra_info: WIN_MASK_INPUT_TAG },
    );
    assert(strokes@ =~= seq![
        MaskStroke { virtual_key: VK_CONTROL, key_up: false, extra_info: WIN_MASK_INPUT_TAG },
        MaskStroke { virtual_key: VK_CONTROL, key_up: true, extra_info: WIN_MASK_INPUT_TAG },
    ]);
    strokes
}

fn has_modifier(hotkey: &Hotkey, scan_code: u32) -> (found: bool)
    ensures
        found == hotkey.modifier@.contains(scan_code),
{
    let found: bool = hotkey.modifier[0] == scan_code || hotkey.modifier[1] == scan_code;
    proof {
        if hotkey.modifier@[0] == scan_code {
            assert(hotkey.modifier@.contains(scan_code));
        }
        if hotkey.modifier@[1] == scan_code {
            assert(hotkey.modifier@.contains(scan_code));
        }
    }
    found
}

fn key_action(
    state: &HotKeyState,
    scan_code: u32,
    shift: bool,
    switching_apps: bool,
    blacklisted: bool,
) -> (action: Option<KeyAction>)
    ensures
        action == action_of(*state, scan_code, shift, switching_apps, blacklisted),
{
    let id: u32 = state.hotkey.id;
    if !state.is_modifier_pressed {
        None
    } else if scan_code == state.hotkey.code {
        if id == SWITCH_APPS_HOTKEY_ID || (id == SWITCH_WINDOWS_HOTKEY_ID && !blacklisted) {
            Some(KeyAction::Walk { id, reverse: shift })
        } else {
            None
        }
    } else if id != SWITCH_APPS_HOTKEY_ID {
        None
    } else if scan_code == SCANCODE_ESCAPE {
        Some(KeyAction::Cancel)
    } else if (scan_code == SCANCODE_UP || scan_code == SCANCODE_LEFT || scan_code
        == SCANCODE_RIGHT || scan_code == SCANCODE_DOWN) && switching_apps {
        Some(KeyAction::Arrow { reverse: scan_code == SCANCODE_UP || scan_code == SCANCODE_LEFT })
    } else {
        None
    }
}

fn notice_of(action: &KeyAction) -> (notice: Notice)
    ensures
        notice == action_notice(*action),
{
    match action {
        KeyAction::Walk { id, reverse } => {
            let lparam: isize = if *reverse {
                1
            } else {
                0
            };
            if *id == SWITCH_APPS_HOTKEY_ID {
                Notice { message: WM_USER_SWITCH_APPS, lparam, switching_apps: Some(true) }
            } else {
                Notice { message: WM_USER_SWITCH_WINDOWS, lparam, switching_apps: Some(false) }
            }
        },
        KeyAction::Arrow { reverse } => {
            let lparam: isize = if *reverse {
                1
            } else {
                0
            };
            Notice { message: WM_USER_SWITCH_APPS, lparam, switching_apps: Some(true) }
        },
        KeyAction::Cancel => Notice {
            message: WM_USER_SWITCH_APPS_CANCEL,
            lparam: 0,
            switching_apps: Some(false),
        },
    }
}

fn notices_of_ended(ids: &Vec<u32>) -> (notices: Vec<Notice>)
    ensures
        notices@ == end_notices(ids@),
{
    let mut notices: Vec<Notice> = Vec::new();
    let mut i: usize = 0;
    assert(ids@.take(0) =~= Seq::<u32>::empty());
    while i < ids.len()
        invariant
            i <= ids@.len(),
            notices@ == end_notices(ids@.take(i as int)),
        decreases ids@.len() - i,
    {
        assert(ids@.take(i + 1).drop_last() =~= ids@.take(i as int));
        let id: u32 = ids[i];
        if id == SWITCH_APPS_HOTKEY_ID {
            notices.push(
                Notice {
                    message: WM_USER_SWITCH_APPS_DONE,
                    lparam: 0,
                    switching_apps: Some(false),
                },
            );
        } else if id == SWITCH_WINDOWS_HOTKEY_ID {
            notices.push(
                Notice { message: WM_USER_SWITCH_WINDOWS_DONE, lparam: 0, switching_apps: None },
            );
        }
        i += 1;
    }
    assert(ids@.take(i as int) =~= ids@);
    notices
}

impl KeyboardListener {
    /// Starts with no modifier down and no walk in progress.
    pub fn init(hotkeys: &[&Hotkey]) -> (listener: Self)
        ensures
            listener.hotkeys@ == Seq::new(
                hotkeys@.len(),
                |i: int| HotKeyState { hotkey: *hotkeys@[i], is_modifier_pressed: false },
            ),
            listener.win_mask == (WinMaskState { sent: false, physical_win_pressed: false }),
            !listener.is_shift_pressed,
            !listener.is_switching_apps,
            listener.previous_keycode == 0,
    {
        let mut states: Vec<HotKeyState> = Vec::new();
        let mut i: usize = 0;
        while i < hotkeys.len()
            invariant
                i <= hotkeys@.len(),
                states@ =~= Seq::new(
                    i as nat,
                    |j: int| HotKeyState { hotkey: *hotkeys@[j], is_modifier_pressed: false },
                ),
            decreases hotkeys@.len() - i,
        {
            let hotkey: &Hotkey = hotkeys[i];
            states.push(
                HotKeyState {
                    hotkey: Hotkey {
                        id: hotkey.id,
                        name: hotkey.name.clone(),
                        modifier: hotkey.modifier,
                        code: hotkey.code,
                    },
                    is_modifier_pressed: false,
                },
            );
            i += 1;
        }
        let mut win_mask = WinMaskState::new();
        win_mask.initialize();
        KeyboardListener {
            hotkeys: states,
            win_mask,
            is_shift_pressed: false,
            is_switching_apps: false,
            previous_keycode: 0,
        }
    }

    /// Follows one stroke, and says what is to be done about it.
    pub fn keyboard_proc(
        &mut self,
        stroke: KeyStroke,
        control_is_pressed: bool,
        blacklisted: bool,
    ) -> (reply: KeyReply)
        ensures
            (final(self)@, reply@) == stroke_outcome(
                old(self)@,
                stroke,
                control_is_pressed,
                blacklisted,
            ),
    {
        let mut reply = KeyReply { send_win_mask: false, notices: Vec::new(), consumed: false };
        if stroke.extra_info == WIN_MASK_INPUT_TAG {
            return reply;
        }
        let ghost before = self@;
        let scan_code: u32 = stroke.scan_code;
        let pressed: bool = stroke.flags & LLKHF_UP == 0;
        if let Some(win_pressed) = physical_win_state(scan_code, stroke.flags) {
            self.win_mask.observe_physical_win(win_pressed);
        }
        if scan_code == SCANCODE_LSHIFT || scan_code == SCANCODE_RSHIFT {
            self.is_shift_pressed = pressed;
        }
        let mut is_modifier_key: bool = false;
        let mut done = new_hotkey_set();
        let mut i: usize = 0;
        let ghost after = followed(before, stroke);
        assert(before.hotkeys.take(0) =~= Seq::<HotKeyState>::empty());
        while i < self.hotkeys.len()
            invariant
                i <= self.hotkeys@.len(),
                self.hotkeys@.len() == before.hotkeys.len(),
                pressed == is_pressed(stroke.flags),
                scan_code == stroke.scan_code,
                after == followed(before, stroke),
                self.win_mask == after.win_mask,
                self.is_shift_pressed == after.is_shift_pressed,
                self.is_switching_apps == before.is_switching_apps,
                self.previous_keycode == before.previous_keycode,
                forall|j: int| 0 <= j < i ==> self.hotkeys@[j] == after.hotkeys[j],
                forall|j: int|
                    i <= j < self.hotkeys@.len() ==> self.hotkeys@[j] == before.hotkeys[j],
                is_modifier_key == is_modifier(before.hotkeys.take(i as int), scan_code),
                hotkey_items(done) == ended_walks(
                    before.hotkeys.take(i as int),
                    stroke,
                    before.previous_keycode,
                ),
            decreases self.hotkeys@.len() - i,
        {
            let ghost shorter = before.hotkeys.take(i as int);
            let ghost longer = before.hotkeys.take(i + 1);
            assert(longer.drop_last() =~= shorter);
            assert(forall|j: int| 0 <= j < i ==> shorter[j] == longer[j]);
            let own: bool = has_modifier(&self.hotkeys[i].hotkey, scan_code);
            assert(is_modifier(longer, scan_code) == (is_modifier(shorter, scan_code) || own)) by {
                if own {
                    assert(longer[i as int].hotkey.modifier@.contains(scan_code));
                }
                if is_modifier(shorter, scan_code) {
                    let k = choose|k: int|
                        0 <= k < shorter.len() && (#[trigger] shorter[k]).hotkey.modifier@.contains(
                            scan_code,
                        );
                    assert(longer[k].hotkey.modifier@.contains(scan_code));
                }
                if is_modifier(longer, scan_code) && !own {
                    let k = choose|k: int|
                        0 <= k < longer.len() && (#[trigger] longer[k]).hotkey.modifier@.contains(
                            scan_code,
                        );
                    assert(shorter[k].hotkey.modifier@.contains(scan_code));
                }
            }
            if own {
                is_modifier_key = true;
                self.hotkeys[i].is_modifier_pressed = pressed;
                if !pressed && self.previous_keycode == self.hotkeys[i].hotkey.code {
                    insert_hotkey(&mut done, self.hotkeys[i].hotkey.id);
                }
            }
            i += 1;
        }
        assert(before.hotkeys.take(i as int) =~= before.hotkeys);
        assert(self.hotkeys@ =~= after.hotkeys);
        if is_modifier_key {
            let ids = hotkeys_of_set(done);
            reply.notices = notices_of_ended(&ids);
            return reply;
        }
        assert(after.hotkeys =~= before.hotkeys) by {
            assert forall|j: int| 0 <= j < before.hotkeys.len() implies after.hotkeys[j]
                == before.hotkeys[j] by {
                assert(!before.hotkeys[j].hotkey.modifier@.contains(scan_code));
            }
        }
        if !pressed {
            return reply;
        }
        let shift: bool = self.is_shift_pressed;
        let switching: bool = self.is_switching_apps;
        let mut k: usize = 0;
        assert(before.hotkeys.skip(0) =~= before.hotkeys);
        while k < self.hotkeys.len()
            invariant
                k <= self.hotkeys@.len(),
                self.hotkeys@ == before.hotkeys,
                before == old(self)@,
                pressed,
                pressed == is_pressed(stroke.flags),
                scan_code == stroke.scan_code,
                stroke.extra_info != WIN_MASK_INPUT_TAG,
                !is_modifier(before.hotkeys, scan_code),
                after == followed(before, stroke),
                self@ == after,
                after.hotkeys == before.hotkeys,
                shift == after.is_shift_pressed,
                switching == before.is_switching_apps,
                reply@ == (ReplyView {
                    send_win_mask: false,
                    notices: Seq::empty(),
                    consumed: false,
                }),
                first_actor(before.hotkeys, scan_code, shift, switching, blacklisted) == k
                    + first_actor(
                    before.hotkeys.skip(k as int),
                    scan_code,
                    shift,
                    switching,
                    blacklisted,
                ),
            decreases self.hotkeys@.len() - k,
        {
            assert(before.hotkeys.skip(k as int).drop_first() =~= before.hotkeys.skip(k + 1));
            if let Some(action) = key_action(
                &self.hotkeys[k],
                scan_code,
                shift,
                switching,
                blacklisted,
            ) {
                if let KeyAction::Walk { .. } = action {
                    reply.send_win_mask = should_send_win_mask(
                        &mut self.win_mask,
                        &self.hotkeys[k].hotkey,
                        control_is_pressed,
                    );
                }
                if let KeyAction::Arrow { .. } = action {
                } else {
                    self.previous_keycode = scan_code;
                }
                reply.notices.push(notice_of(&action));
                reply.consumed = true;
                assert(reply.notices@ =~= seq![action_notice(action)]);
                return reply;
            }
            k += 1;
        }
        reply
    }

    /// Takes note that a message has been delivered.
    pub fn delivered(&mut self, notice: Notice)
        ensures
            final(self)@ == (KeyboardView {
                is_switching_apps: match notice.switching_apps {
                    Some(switching) => switching,
                    None => old(self)@.is_switching_apps,
                },
                ..old(self)@
            }),
    {
        if let Some(switching) = notice.switching_apps {
            self.is_switching_apps = switching;
        }
    }
}

/// The strokes that the switcher sends itself change nothing and go on to everybody
/// else.
pub proof fn own_strokes_pass(
    before: KeyboardView,
    stroke: KeyStroke,
    control_is_pressed: bool,
    blacklisted: bool,
)
    requires
        stroke.extra_info == WIN_MASK_INPUT_TAG,
    ensures
        ({
            let (after, reply) = stroke_outcome(before, stroke, control_is_pressed, blacklisted);
            &&& after == before
            &&& !reply.send_win_mask
            &&& reply.notices.len() == 0
            &&& !reply.consumed
        }),
{
}

/// Once claimed, the mask is not sent again before a real stroke of a Windows key;
/// and it is never sent without being claimed.
pub proof fn mask_is_sent_once(
    before: KeyboardView,
    stroke: KeyStroke,
    control_is_pressed: bool,
    blacklisted: bool,
)
    ensures
        ({
            let (after, reply) = stroke_outcome(before, stroke, control_is_pressed, blacklisted);
            &&& before.win_mask.sent && physical_win(stroke.scan_code, stroke.flags) is None
                ==> !reply.send_win_mask && after.win_mask.sent
            &&& reply.send_win_mask ==> after.win_mask.sent && reply.consumed
                && !control_is_pressed
        }),
{
}

/// A fresh press of a Windows key, and any release of one, let the mask be claimed
/// again, unless the same stroke claims it.
pub proof fn windows_key_renews_the_mask(before: KeyboardView, stroke: KeyStroke)
    requires
        physical_win(stroke.scan_code, stroke.flags) is Some,
        !before.win_mask.physical_win_pressed || !is_pressed(stroke.flags),
    ensures
        !followed(before, stroke).win_mask.sent,
        followed(before, stroke).win_mask.physical_win_pressed == is_pressed(stroke.flags),
{
}

/// A modifier key is never kept from the other programs and starts nothing; it can
/// only end walks, and only when it is let go.
pub proof fn modifiers_only_end_walks(
    before: KeyboardView,
    stroke: KeyStroke,
    control_is_pressed: bool,
    blacklisted: bool,
)
    requires
        is_modifier(before.hotkeys, stroke.scan_code),
    ensures
        ({
            let (_, reply) = stroke_outcome(before, stroke, control_is_pressed, blacklisted);
            &&& !reply.consumed
            &&& !reply.send_win_mask
            &&& is_pressed(stroke.flags) ==> reply.notices.len() == 0
            &&& forall|i: int|
                0 <= i < reply.notices.len() ==> (#[trigger] reply.notices[i]).message
                    == WM_USER_SWITCH_APPS_DONE || reply.notices[i].message
                    == WM_USER_SWITCH_WINDOWS_DONE
        }),
{
    let ended = ended_walks(before.hotkeys, stroke, before.previous_keycode);
    lemma_end_notices(ended);
    if is_pressed(stroke.flags) {
        lemma_press_ends_nothing(before.hotkeys, stroke, before.previous_keycode);
    }
}

proof fn lemma_end_notices(ids: Seq<u32>)
    ensures
        forall|i: int|
            0 <= i < end_notices(ids).len() ==> (#[trigger] end_notices(ids)[i]).message
                == WM_USER_SWITCH_APPS_DONE || end_notices(ids)[i].message
                == WM_USER_SWITCH_WINDOWS_DONE,
    decreases ids.len(),
{
    if ids.len() > 0 {
        lemma_end_notices(ids.drop_last());
    }
}

pub proof fn lemma_press_ends_nothing(
    hotkeys: Seq<HotKeyState>,
    stroke: KeyStroke,
    previous_keycode: u32,
)
    requires
        is_pressed(stroke.flags),
    ensures
        ended_walks(hotkeys, stroke, previous_keycode).len() == 0,
    decreases hotkeys.len(),
{
    if hotkeys.len() > 0 {
        lemma_press_ends_nothing(hotkeys.drop_last(), stroke, previous_keycode);
    }
}

/// A stroke that is kept from the other programs goes to the switcher's window as one
/// message. It is the press of a key that is no modifier, while the modifier of some
/// hotkey is down.
pub proof fn consumed_strokes_send_one_message(
    before: KeyboardView,
    stroke: KeyStroke,
    control_is_pressed: bool,
    blacklisted: bool,
)
    ensures
        ({
            let (_, reply) = stroke_outcome(before, stroke, control_is_pressed, blacklisted);
            reply.consumed ==> reply.notices.len() == 1 && is_pressed(stroke.flags)
                && !is_modifier(before.hotkeys, stroke.scan_code) && exists|i: int|
                0 <= i < before.hotkeys.len() && (#[trigger] before.hotkeys[i]).is_modifier_pressed
        }),
{
    let shift = followed(before, stroke).is_shift_pressed;
    lemma_first_actor(
        before.hotkeys,
        stroke.scan_code,
        shift,
        before.is_switching_apps,
        blacklisted,
    );
}

pub proof fn lemma_first_actor(
    hotkeys: Seq<HotKeyState>,
    scan_code: u32,
    shift: bool,
    switching_apps: bool,
    blacklisted: bool,
)
    ensures
        ({
            let actor = first_actor(hotkeys, scan_code, shift, switching_apps, blacklisted);
            &&& 0 <= actor <= hotkeys.len()
            &&& actor < hotkeys.len() ==> action_of(
                hotkeys[actor],
                scan_code,
                shift,
                switching_apps,
                blacklisted,
            ) is Some
        }),
    decreases hotkeys.len(),
{
    if hotkeys.len() > 0 && action_of(
        hotkeys.first(),
        scan_code,
        shift,
        switching_apps,
        blacklisted,
    ) is None {
        lemma_first_actor(hotkeys.drop_first(), scan_code, shift, switching_apps, blacklisted);
    }
}

proof fn lemma_ended_walks(
    hotkeys: Seq<HotKeyState>,
    stroke: KeyStroke,
    previous_keycode: u32,
    i: int,
)
    requires
        0 <= i < hotkeys.len(),
        hotkeys[i].hotkey.modifier@.contains(stroke.scan_code),
        !is_pressed(stroke.flags),
        previous_keycode == hotkeys[i].hotkey.code,
    ensures
        ended_walks(hotkeys, stroke, previous_keycode).contains(hotkeys[i].hotkey.id),
    decreases hotkeys.len(),
{
    let before = ended_walks(hotkeys.drop_last(), stroke, previous_keycode);
    let all = ended_walks(hotkeys, stroke, previous_keycode);
    let id = hotkeys[i].hotkey.id;
    if i < hotkeys.len() - 1 {
        lemma_ended_walks(hotkeys.drop_last(), stroke, previous_keycode, i);
        let k = choose|k: int| 0 <= k < before.len() && before[k] == id;
        assert(all[k] == id);
    } else if !before.contains(id) {
        assert(all[before.len() as int] == id);
    }
}

proof fn lemma_end_notice(ids: Seq<u32>, id: u32)
    requires
        ids.contains(id),
        end_notice(id) is Some,
    ensures
        end_notices(ids).contains(end_notice(id)->0),
    decreases ids.len(),
{
    let k = choose|k: int| 0 <= k < ids.len() && ids[k] == id;
    let rest = end_notices(ids.drop_last());
    let all = end_notices(ids);
    if k < ids.len() - 1 {
        assert(ids.drop_last()[k] == id);
        lemma_end_notice(ids.drop_last(), id);
        let m = choose|m: int| 0 <= m < rest.len() && rest[m] == end_notice(id)->0;
        assert(all[m] == end_notice(id)->0);
    } else {
        assert(all[rest.len() as int] == end_notice(id)->0);
    }
}

/// The hotkey that a stroke starts or carries on a walk with.
pub open spec fn walks_with(
    before: KeyboardView,
    stroke: KeyStroke,
    blacklisted: bool,
    i: int,
) -> bool {
    &&& stroke.extra_info != WIN_MASK_INPUT_TAG
    &&& is_pressed(stroke.flags)
    &&& !is_modifier(before.hotkeys, stroke.scan_code)
    &&& i < before.hotkeys.len()
    &&& i == first_actor(
        before.hotkeys,
        stroke.scan_code,
        followed(before, stroke).is_shift_pressed,
        before.is_switching_apps,
        blacklisted,
    )
    &&& stroke.scan_code == before.hotkeys[i].hotkey.code
}

/// Letting go of the modifier after the key of a hotkey ends the walk: the message that
/// it has ended goes out.
pub proof fn letting_go_ends_the_walk(
    before: KeyboardView,
    stroke: KeyStroke,
    control_is_pressed: bool,
    blacklisted: bool,
    i: int,
    release: KeyStroke,
    control_is_pressed_then: bool,
    blacklisted_then: bool,
)
    requires
        walks_with(before, stroke, blacklisted, i),
        before.hotkeys[i].hotkey.modifier@.contains(release.scan_code),
        !is_pressed(release.flags),
        release.extra_info != WIN_MASK_INPUT_TAG,
    ensures
        ({
            let between = stroke_outcome(before, stroke, control_is_pressed, blacklisted).0;
            let (_, reply) = stroke_outcome(
                between,
                release,
                control_is_pressed_then,
                blacklisted_then,
            );
            let id = before.hotkeys[i].hotkey.id;
            &&& id == SWITCH_APPS_HOTKEY_ID || id == SWITCH_WINDOWS_HOTKEY_ID
            &&& reply.notices.contains(end_notice(id)->0)
            &&& !reply.consumed
        }),
{
    let after = followed(before, stroke);
    lemma_first_actor(
        before.hotkeys,
        stroke.scan_code,
        after.is_shift_pressed,
        before.is_switching_apps,
        blacklisted,
    );
    let between = stroke_outcome(before, stroke, control_is_pressed, blacklisted).0;
    assert(between.hotkeys[i].hotkey == before.hotkeys[i].hotkey);
    assert(between.previous_keycode == stroke.scan_code);
    assert(is_modifier(between.hotkeys, release.scan_code));
    lemma_ended_walks(between.hotkeys, release, between.previous_keycode, i);
    let ended = ended_walks(between.hotkeys, release, between.previous_keycode);
    lemma_end_notice(ended, before.hotkeys[i].hotkey.id);
}

proof fn lemma_other_key_ends_nothing(
    hotkeys: Seq<HotKeyState>,
    stroke: KeyStroke,
    previous_keycode: u32,
)
    requires
        forall|i: int|
            0 <= i < hotkeys.len() ==> (#[trigger] hotkeys[i]).hotkey.code != previous_keycode,
    ensures
        ended_walks(hotkeys, stroke, previous_keycode).len() == 0,
    decreases hotkeys.len(),
{
    if hotkeys.len() > 0 {
        let rest = hotkeys.drop_last();
        assert forall|i: int| 0 <= i < rest.len() implies (#[trigger] rest[i]).hotkey.code
            != previous_keycode by {
            assert(rest[i] == hotkeys[i]);
        }
        lemma_other_key_ends_nothing(rest, stroke, previous_keycode);
        assert(hotkeys.last() == hotkeys[hotkeys.len() - 1]);
    }
}

/// A walk that was called off is over: letting go of the modifier sends nothing more,
/// as long as no hotkey is made with escape.
pub proof fn walks_called_off_are_over(
    before: KeyboardView,
    stroke: KeyStroke,
    control_is_pressed: bool,
    blacklisted: bool,
    release: KeyStroke,
    control_is_pressed_then: bool,
    blacklisted_then: bool,
)
    requires
        stroke.scan_code == SCANCODE_ESCAPE,
        stroke_outcome(before, stroke, control_is_pressed, blacklisted).1.consumed,
        forall|i: int|
            0 <= i < before.hotkeys.len() ==> (#[trigger] before.hotkeys[i]).hotkey.code
                != SCANCODE_ESCAPE,
        is_modifier(before.hotkeys, release.scan_code),
    ensures
        ({
            let (between, reply) = stroke_outcome(before, stroke, control_is_pressed, blacklisted);
            let later = stroke_outcome(
                between,
                release,
                control_is_pressed_then,
                blacklisted_then,
            ).1;
            &&& reply.notices == seq![action_notice(KeyAction::Cancel)]
            &&& later.notices.len() == 0
        }),
{
    let after = followed(before, stroke);
    lemma_first_actor(
        before.hotkeys,
        stroke.scan_code,
        after.is_shift_pressed,
        before.is_switching_apps,
        blacklisted,
    );
    let between = stroke_outcome(before, stroke, control_is_pressed, blacklisted).0;
    assert forall|i: int| 0 <= i < between.hotkeys.len() implies (
    #[trigger] between.hotkeys[i]).hotkey.code != between.previous_keycode by {
        assert(between.hotkeys[i].hotkey == before.hotkeys[i].hotkey);
    }
    let k = choose|k: int|
        0 <= k < before.hotkeys.len() && (#[trigger] before.hotkeys[k]).hotkey.modifier@.contains(
            release.scan_code,
        );
    assert(between.hotkeys[k].hotkey == before.hotkeys[k].hotkey);
    assert(is_modifier(between.hotkeys, release.scan_code));
    lemma_other_key_ends_nothing(between.hotkeys, release, between.previous_keycode);
}

/// The switcher's window understands the messages that the keyboard sends it.
pub proof fn keyboard_messages_are_understood(action: KeyAction, id: u32, taskbar_created: u32)
    ensures
        decodes_to(
            action_notice(action).message,
            0,
            action_notice(action).lparam,
            taskbar_created,
            match action {
                KeyAction::Walk { id, reverse } => if id == SWITCH_APPS_HOTKEY_ID {
                    Message::SwitchApps { reverse }
                } else {
                    Message::SwitchWindows { reverse }
                },
                KeyAction::Arrow { reverse } => Message::SwitchApps { reverse },
                KeyAction::Cancel => Message::SwitchAppsCancel,
            },
        ),
        end_notice(id) matches Some(notice) ==> decodes_to(
            notice.message,
            0,
            notice.lparam,
            taskbar_created,
            if id == SWITCH_APPS_HOTKEY_ID {
                Message::SwitchAppsDone
            } else {
                Message::SwitchWindowsDone
            },
        ),
{
}

} // verus!
