//! The messages of the switcher's window: what each number asks for, and how positions
//! and menu choices come out of the words they are packed in.
use vstd::prelude::*;

use crate::messages::{client_pointer_position, decode_message, reply, Message};

verus! {

/// The 16-bit words of a number, from the lowest on.
pub open spec fn word(n: int, place: nat) -> int {
    if place == 0 {
        n % 0x1_0000
    } else {
        (n / 0x1_0000) % 0x1_0000
    }
}

/// A position comes out as it was packed: each coordinate that fits a signed 16-bit word,
/// on the negative side too, x in the lowest word and y in the next.
pub proof fn positions_come_out_as_packed(lparam: isize, position: (i32, i32), x: int, y: int)
    requires
        call_ensures(client_pointer_position, (lparam,), position),
        -0x8000 <= x < 0x8000,
        -0x8000 <= y < 0x8000,
        word(lparam as int, 0) == x % 0x1_0000,
        word(lparam as int, 1) == y % 0x1_0000,
    ensures
        position.0 == x,
        position.1 == y,
{
}

/// Whatever is packed, the coordinates that come out fit signed 16-bit words and are the
/// packed words, but for a multiple of what a word holds.
pub proof fn positions_are_signed_words(lparam: isize, position: (i32, i32))
    requires
        call_ensures(client_pointer_position, (lparam,), position),
    ensures
        -0x8000 <= position.0 < 0x8000,
        -0x8000 <= position.1 < 0x8000,
        position.0 as int % 0x1_0000 == word(lparam as int, 0),
        position.1 as int % 0x1_0000 == word(lparam as int, 1),
{
}

/// A click and a move of the pointer are told with the place where they were made, and
/// nothing else is told as one.
pub proof fn clicks_and_moves_are_told_with_their_place(
    msg: u32,
    wparam: usize,
    lparam: isize,
    taskbar_created: u32,
    message: Message,
    x: i32,
    y: i32,
)
    requires
        call_ensures(decode_message, (msg, wparam, lparam, taskbar_created), message),
        -0x8000 <= x < 0x8000,
        -0x8000 <= y < 0x8000,
        word(lparam as int, 0) == x as int % 0x1_0000,
        word(lparam as int, 1) == y as int % 0x1_0000,
    ensures
        msg == 514 <==> message is Click,
        msg == 514 ==> message == (Message::Click { position: (x, y) }),
        msg == 512 <==> message is PointerMoved,
        msg == 512 ==> message == (Message::PointerMoved { position: (x, y) }),
        msg == 675 <==> message is PointerLeft,
        msg == 132 <==> message is HitTest,
        msg == 20 <==> message is EraseBackground,
{
}

/// The messages by which the keyboard walks, ends and calls off, each by its number. A
/// walk goes backwards where one is packed with it.
pub proof fn walks_are_asked_for_by_number(
    msg: u32,
    wparam: usize,
    lparam: isize,
    taskbar_created: u32,
    message: Message,
)
    requires
        call_ensures(decode_message, (msg, wparam, lparam, taskbar_created), message),
    ensures
        msg == 6010 <==> message is SwitchApps,
        message matches Message::SwitchApps { reverse } ==> (reverse <==> lparam == 1),
        msg == 6011 <==> message is SwitchAppsDone,
        msg == 6012 <==> message is SwitchAppsCancel,
        msg == 6020 <==> message is SwitchWindows,
        message matches Message::SwitchWindows { reverse } ==> (reverse <==> lparam == 1),
        msg == 6021 <==> message is SwitchWindowsDone,
{
}

/// The tray icon has its menu opened by a button that is let go on it, the left or the
/// right one.
pub proof fn buttons_open_the_menu(
    msg: u32,
    wparam: usize,
    lparam: isize,
    taskbar_created: u32,
    message: Message,
)
    requires
        call_ensures(decode_message, (msg, wparam, lparam, taskbar_created), message),
    ensures
        msg == 6000 <==> message is TrayIcon,
        message matches Message::TrayIcon { menu } ==> (menu <==> {
            ||| word(lparam as int, 0) == 514 && word(lparam as int, 1) == 0
            ||| word(lparam as int, 0) == 517 && word(lparam as int, 1) == 0
        }),
{
    let low = lparam as int % 0x1_0000_0000;
    let high = lparam as int / 0x1_0000_0000;
    assert(lparam as int == high * 0x1_0000_0000 + low);
    assert(lparam as int / 0x1_0000 == high * 0x1_0000 + low / 0x1_0000);
    assert(word(lparam as int, 1) == low / 0x1_0000);
    assert(word(lparam as int, 0) == low % 0x1_0000);
}

/// A choice in a menu names its item in the lowest word, and is told from what else comes
/// under the same number by a zero in the next. Three items are known; every other choice
/// is not for the switcher.
pub proof fn choices_are_told_by_their_item(
    msg: u32,
    wparam: usize,
    lparam: isize,
    taskbar_created: u32,
    message: Message,
)
    requires
        call_ensures(decode_message, (msg, wparam, lparam, taskbar_created), message),
    ensures
        message is Exit <==> msg == 273 && word(wparam as int, 1) == 0 && word(wparam as int, 0)
            == 1,
        message is ToggleStartup <==> msg == 273 && word(wparam as int, 1) == 0 && word(
            wparam as int,
            0,
        ) == 2,
        message is Configure <==> msg == 273 && word(wparam as int, 1) == 0 && word(
            wparam as int,
            0,
        ) == 3,
        msg == 273 && !(message is Exit || message is ToggleStartup || message is Configure)
            ==> message is Other,
{
}

/// The number of a message that the switcher knows whatever the taskbar's own is.
pub open spec fn is_known(msg: u32) -> bool {
    ||| msg == 20
    ||| msg == 132
    ||| msg == 273
    ||| msg == 512
    ||| msg == 514
    ||| msg == 675
    ||| msg == 6000
    ||| msg == 6010
    ||| msg == 6011
    ||| msg == 6012
    ||| msg == 6020
    ||| msg == 6021
}

/// The tray icon is registered on request, and whenever a taskbar comes up, which has a
/// number of its own. What has no meaning of its own is not for the switcher.
pub proof fn the_tray_icon_is_registered_again(
    msg: u32,
    wparam: usize,
    lparam: isize,
    taskbar_created: u32,
    message: Message,
)
    requires
        call_ensures(decode_message, (msg, wparam, lparam, taskbar_created), message),
    ensures
        message is RegisterTrayIcon <==> !is_known(msg) && (msg == 6001 || msg == taskbar_created),
        message matches Message::RegisterTrayIcon { taskbar_created: created } ==> (created <==> msg
            == taskbar_created),
        !is_known(msg) && msg != 6001 && msg != taskbar_created ==> message is Other,
{
}

/// The switcher answers three messages itself: the one of the tray icon and the one about
/// the background with nothing, and the question what lies under the pointer with the
/// client area. The system answers the others.
pub proof fn three_messages_are_answered(message: Message, answer: Option<isize>)
    requires
        call_ensures(reply, (message,), answer),
    ensures
        answer is Some <==> message is TrayIcon || message is HitTest || message is EraseBackground,
        message is HitTest ==> answer->0 == 1,
        message is TrayIcon || message is EraseBackground ==> answer->0 == 0,
{
}

} // verus!
