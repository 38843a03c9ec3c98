use window_switcher::messages::{decode_message, reply, Message, HTCLIENT};

const TASKBAR: u32 = 0xc123;

fn decode(msg: u32, wparam: usize, lparam: isize) -> Message {
    decode_message(msg, wparam, lparam, TASKBAR)
}

#[test]
fn messages_are_told_apart() {
    assert_eq!(decode(6000, 0, 514), Message::TrayIcon { menu: true });
    assert_eq!(decode(6000, 0, 517), Message::TrayIcon { menu: true });
    assert_eq!(decode(6000, 0, 512), Message::TrayIcon { menu: false });
    assert_eq!(
        decode(6001, 0, 0),
        Message::RegisterTrayIcon { taskbar_created: false }
    );
    assert_eq!(
        decode(TASKBAR, 0, 0),
        Message::RegisterTrayIcon { taskbar_created: true }
    );
    assert_eq!(decode(6010, 0, 1), Message::SwitchApps { reverse: true });
    assert_eq!(decode(6010, 0, 2), Message::SwitchApps { reverse: false });
    assert_eq!(decode(6011, 0, 0), Message::SwitchAppsDone);
    assert_eq!(decode(6012, 0, 0), Message::SwitchAppsCancel);
    assert_eq!(decode(6020, 0, 1), Message::SwitchWindows { reverse: true });
    assert_eq!(decode(6021, 0, 0), Message::SwitchWindowsDone);
    assert_eq!(decode(132, 0, 0), Message::HitTest);
    assert_eq!(decode(20, 0, 0), Message::EraseBackground);
    assert_eq!(decode(675, 0, 0), Message::PointerLeft);
    assert_eq!(decode(1, 0, 0), Message::Other);
}

#[test]
fn positions_are_signed() {
    assert_eq!(
        decode(514, 0, 0x0002_ffff),
        Message::Click { position: (-1, 2) }
    );
    assert_eq!(
        decode(512, 0, -1),
        Message::PointerMoved { position: (-1, -1) }
    );
}

#[test]
fn only_menu_choices_count() {
    assert_eq!(decode(273, 1, 0), Message::Exit);
    assert_eq!(decode(273, 2, 0), Message::ToggleStartup);
    assert_eq!(decode(273, 3, 0), Message::Configure);
    assert_eq!(decode(273, 4, 0), Message::Other);
    assert_eq!(decode(273, 0x1_0001, 0), Message::Other);
}

#[test]
fn some_messages_are_answered() {
    assert_eq!(reply(Message::TrayIcon { menu: true }), Some(0));
    assert_eq!(reply(Message::HitTest), Some(HTCLIENT));
    assert_eq!(reply(Message::EraseBackground), Some(0));
    assert_eq!(reply(Message::SwitchAppsDone), None);
    assert_eq!(reply(Message::Other), None);
}
