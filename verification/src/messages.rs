//! The messages of the switcher's window.
use vstd::prelude::*;

verus! {

pub const WM_USER_TRAYICON: u32 = 6000;

pub const WM_USER_REGISTER_TRAYICON: u32 = 6001;

pub const WM_USER_SWITCH_APPS: u32 = 6010;

pub const WM_USER_SWITCH_APPS_DONE: u32 = 6011;

pub const WM_USER_SWITCH_APPS_CANCEL: u32 = 6012;

pub const WM_USER_SWITCH_WINDOWS: u32 = 6020;

pub const WM_USER_SWITCH_WINDOWS_DONE: u32 = 6021;

pub const IDM_EXIT: u32 = 1;

pub const IDM_STARTUP: u32 = 2;

pub const IDM_CONFIGURE: u32 = 3;

/// Asks which part of the window lies under the pointer.
pub const WM_NCHITTEST: u32 = 132;

/// Asks for the background to be erased.
pub const WM_ERASEBKGND: u32 = 20;

/// A choice in a menu.
pub const WM_COMMAND: u32 = 273;

pub const WM_MOUSEMOVE: u32 = 512;

pub const WM_LBUTTONUP: u32 = 514;

pub const WM_RBUTTONUP: u32 = 517;

pub const WM_MOUSELEAVE: u32 = 675;

/// The answer to `WM_NCHITTEST` for the client area.
pub const HTCLIENT: isize = 1;

/// What a window message asks for.
#[derive(Clone, Copy, PartialEq, Eq, Debug)]
pub enum Message {
    /// Something happened on the tray icon; `menu` where it asks for the menu.
    TrayIcon { menu: bool },
    /// Open the panel of applications, or walk on in it.
    SwitchApps { reverse: bool },
    /// The modifier of the application walk was let go.
    SwitchAppsDone,
    /// The application walk was called off.
    SwitchAppsCancel,
    /// Walk through the windows of one application.
    SwitchWindows { reverse: bool },
    /// The modifier of the window walk was let go.
    SwitchWindowsDone,
    /// The whole window counts as client area.
    HitTest,
    /// A click at a client position.
    Click { position: (i32, i32) },
    /// The pointer moved to a client position.
    PointerMoved { position: (i32, i32) },
    /// The pointer left the window.
    PointerLeft,
    /// Leave the program.
    Exit,
    /// Turn starting with the session on or off.
    ToggleStartup,
    /// Edit the configuration.
    Configure,
    /// Nothing is erased: the panel paints all of itself.
    EraseBackground,
    /// Register the tray icon; `taskbar_created` where a new taskbar came up.
    RegisterTrayIcon { taskbar_created: bool },
    /// Not for the switcher.
    Other,
}

/// A 16-bit word read as a signed number.
pub open spec fn signed_word(word: int) -> int {
    if word < 0x8000 {
        word
    } else {
        word - 0x1_0000
    }
}

/// The client position that a mouse message packs into its `lparam`: x in the
/// lowest 16-bit word, y in the next, both signed.
pub open spec fn packed_position(lparam: isize) -> (int, int) {
    (
        signed_word(lparam as int % 0x1_0000),
        signed_word((lparam as int / 0x1_0000) % 0x1_0000),
    )
}

/// Whether a position holds the two coordinates.
pub open spec fn is_position(position: (i32, i32), point: (int, int)) -> bool {
    position.0 == point.0 && position.1 == point.1
}

/// What a menu choice asks for: `wparam` holds the chosen item in its lowest
/// 16-bit word and where the choice was made in the next, zero for a menu.
pub open spec fn command_message(wparam: usize) -> Message {
    let kind = (wparam as int / 0x1_0000) % 0x1_0000;
    let id = wparam as int % 0x1_0000;
    if kind != 0 {
        Message::Other
    } else if id == IDM_EXIT {
        Message::Exit
    } else if id == IDM_STARTUP {
        Message::ToggleStartup
    } else if id == IDM_CONFIGURE {
        Message::Configure
    } else {
        Message::Other
    }
}

/// `message` is what a window message asks for. `taskbar_created` is the number
/// under which a new taskbar announces itself.
pub open spec fn decodes_to(
    msg: u32,
    wparam: usize,
    lparam: isize,
    taskbar_created: u32,
    message: Message,
) -> bool {
    if msg == WM_USER_TRAYICON {
        let keycode = lparam as int % 0x1_0000_0000;
        message == Message::TrayIcon { menu: keycode == WM_LBUTTONUP || keycode == WM_RBUTTONUP }
    } else if msg == WM_USER_SWITCH_APPS {
        message == Message::SwitchApps { reverse: lparam == 1 }
    } else if msg == WM_USER_SWITCH_APPS_DONE {
        message == Message::SwitchAppsDone
    } else if msg == WM_USER_SWITCH_APPS_CANCEL {
        message == Message::SwitchAppsCancel
    } else if msg == WM_USER_SWITCH_WINDOWS {
        message == Message::SwitchWindows { reverse: lparam == 1 }
    } else if msg == WM_USER_SWITCH_WINDOWS_DONE {
        message == Message::SwitchWindowsDone
    } else if msg == WM_NCHITTEST {
        message == Message::HitTest
    } else if msg == WM_LBUTTONUP {
        message matches Message::Click { position } && is_position(
            position,
            packed_position(lparam),
        )
    } else if msg == WM_MOUSEMOVE {
        message matches Message::PointerMoved { position } && is_position(
            position,
            packed_position(lparam),
        )
    } else if msg == WM_MOUSELEAVE {
        message == Message::PointerLeft
    } else if msg == WM_COMMAND {
        message == command_message(wparam)
    } else if msg == WM_ERASEBKGND {
        message == Message::EraseBackground
    } else if msg == WM_USER_REGISTER_TRAYICON || msg == taskbar_created {
        message == Message::RegisterTrayIcon { taskbar_created: msg == taskbar_created }
    } else {
        message == Message::Other
    }
}

/// The client position that a mouse message packs into its `lparam`.
pub fn client_pointer_position(lparam: isize) -> (position: (i32, i32))
    ensures
        is_position(position, packed_position(lparam)),
{
    let packed: u32 = lparam as u32;
    let x: i32 = packed as u16 as i16 as i32;
    let y: i32 = (packed >> 16) as u16 as i16 as i32;
    proof {
        lemma_low_bits(lparam);
        assert(packed as u16 as i16 as i32 == if packed % 0x1_0000 < 0x8000 {
            (packed % 0x1_0000) as int
        } else {
            (packed % 0x1_0000) - 0x1_0000
        }) by (bit_vector);
        assert((packed >> 16) as u16 as i16 as i32 == if packed / 0x1_0000 < 0x8000 {
            (packed / 0x1_0000) as int
        } else {
            (packed / 0x1_0000) - 0x1_0000
        }) by (bit_vector);
    }
    (x, y)
}

fn decode_command(wparam: usize) -> (message: Message)
    ensures
        message == command_message(wparam),
{
    let value: u32 = wparam as u32;
    let kind: u16 = ((value >> 16) & 0xffff) as u16;
    let id: u32 = value & 0xffff;
    proof {
        lemma_command_words(wparam);
    }
    if kind == 0 {
        if id == IDM_EXIT {
            Message::Exit
        } else if id == IDM_STARTUP {
            Message::ToggleStartup
        } else if id == IDM_CONFIGURE {
            Message::Configure
        } else {
            Message::Other
        }
    } else {
        Message::Other
    }
}

/// What a window message asks for. `taskbar_created` is the number under which a
/// new taskbar announces itself.
pub fn decode_message(msg: u32, wparam: usize, lparam: isize, taskbar_created: u32) -> (message:
    Message)
    ensures
        decodes_to(msg, wparam, lparam, taskbar_created, message),
{
    if msg == WM_USER_TRAYICON {
        proof {
            lemma_low_bits(lparam);
        }
        let keycode: u32 = lparam as u32;
        Message::TrayIcon { menu: keycode == WM_LBUTTONUP || keycode == WM_RBUTTONUP }
    } else if msg == WM_USER_SWITCH_APPS {
        Message::SwitchApps { reverse: lparam == 1 }
    } else if msg == WM_USER_SWITCH_APPS_DONE {
        Message::SwitchAppsDone
    } else if msg == WM_USER_SWITCH_APPS_CANCEL {
        Message::SwitchAppsCancel
    } else if msg == WM_USER_SWITCH_WINDOWS {
        Message::SwitchWindows { reverse: lparam == 1 }
    } else if msg == WM_USER_SWITCH_WINDOWS_DONE {
        Message::SwitchWindowsDone
    } else if msg == WM_NCHITTEST {
        Message::HitTest
    } else if msg == WM_LBUTTONUP {
        Message::Click { position: client_pointer_position(lparam) }
    } else if msg == WM_MOUSEMOVE {
        Message::PointerMoved { position: client_pointer_position(lparam) }
    } else if msg == WM_MOUSELEAVE {
        Message::PointerLeft
    } else if msg == WM_COMMAND {
        decode_command(wparam)
    } else if msg == WM_ERASEBKGND {
        Message::EraseBackground
    } else if msg == WM_USER_REGISTER_TRAYICON || msg == taskbar_created {
        Message::RegisterTrayIcon { taskbar_created: msg == taskbar_created }
    } else {
        Message::Other
    }
}

/// The answer that ends a message without the system's own handling of it.
pub fn reply(message: Message) -> (answer: Option<isize>)
    ensures
        answer == (match message {
            Message::TrayIcon { .. } => Some(0isize),
            Message::HitTest => Some(HTCLIENT),
            Message::EraseBackground => Some(0isize),
            _ => None,
        }),
{
    match message {
        Message::TrayIcon { .. } => Some(0),
        Message::HitTest => Some(HTCLIENT),
        Message::EraseBackground => Some(0),
        _ => None,
    }
}

proof fn lemma_command_words(wparam: usize)
    ensures
        (((wparam as u32 >> 16) & 0xffff) as u16) as int == (wparam as int / 0x1_0000) % 0x1_0000,
        (wparam as u32 & 0xffff) as int == wparam as int % 0x1_0000,
{
    let wide = wparam as u64;
    let low = wparam as u32;
    assert(wparam as u32 == wide as u32) by (bit_vector)
        requires
            wide == wparam as u64,
    ;
    let high: int = (wide >> 32) as int;
    assert(wide == (wide >> 32) * 0x1_0000_0000 + (wide as u32)) by (bit_vector);
    assert(((low >> 16) & 0xffff) as u16 as u32 == low / 0x1_0000) by (bit_vector);
    assert(low & 0xffff == low % 0x1_0000) by (bit_vector);
    assert(wide as int == high * 0x1_0000_0000 + low);
    assert((wide as int / 0x1_0000) == high * 0x1_0000 + low as int / 0x1_0000);
}

proof fn lemma_low_bits(lparam: isize)
    ensures
        (lparam as u32) as int == lparam as int % 0x1_0000_0000,
        (lparam as u32) as int % 0x1_0000 == lparam as int % 0x1_0000,
        (lparam as u32) as int / 0x1_0000 == (lparam as int / 0x1_0000) % 0x1_0000,
{
    let wide = lparam as i64;
    let low = lparam as u32;
    assert(lparam as u32 == wide as u32) by (bit_vector)
        requires
            wide == lparam as i64,
    ;
    let high: int = (wide >> 32) as int;
    assert(wide == (wide >> 32) * 0x1_0000_0000 + (wide as u32)) by (bit_vector);
    vstd::arithmetic::div_mod::lemma_fundamental_div_mod_converse(
        wide as int,
        0x1_0000_0000,
        high,
        low as int,
    );
}

} // verus!
