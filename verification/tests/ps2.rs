use rucore::ps2::keyboard::{self, Init, KeyEvent, Layer, Reply};
use rucore::ps2::keycodes::{lookup_base, lookup_e0, KeyCode};
use rucore::ps2::mouse::{self, MouseEvent};
use rucore::ps2::{init, EnumWaitState, PS2Dev, PortReply};

const QUIET: Reply = Reply { send: None, event: None };

fn ready() -> keyboard::Dev {
    let (send, mut dev) = keyboard::Dev::new(keyboard::Type::MF2);
    assert_eq!(send, Some(0xF0));
    assert_eq!(dev.recv_byte(0xFA), Reply { send: Some(0x00), event: None });
    assert_eq!(dev.recv_byte(0xFA), QUIET);
    assert_eq!(dev.recv_byte(2), QUIET);
    assert_eq!(dev.state, keyboard::State::Idle(Layer::Base, false));
    dev
}

#[test]
fn scancodes() {
    assert_eq!(lookup_base(0x1C), KeyCode::A);
    assert_eq!(lookup_base(0x15), KeyCode::Q);
    assert_eq!(lookup_base(0x29), KeyCode::Space);
    assert_eq!(lookup_base(0x5A), KeyCode::Return);
    assert_eq!(lookup_base(0x76), KeyCode::Esc);
    assert_eq!(lookup_base(0x83), KeyCode::F7);
    assert_eq!(lookup_base(0x01), KeyCode::F9);
    assert_eq!(lookup_base(0x00), KeyCode::NoKey);
    assert_eq!(lookup_base(0x87), KeyCode::NoKey);
    assert_eq!(lookup_base(0x88), KeyCode::NoKey);
    assert_eq!(lookup_base(0xff), KeyCode::NoKey);
    assert_eq!(lookup_e0(0x11), KeyCode::RightAlt);
    assert_eq!(lookup_e0(0x75), KeyCode::UpArrow);
    assert_eq!(lookup_e0(0x7D), KeyCode::PgUp);
    assert_eq!(lookup_e0(0x1C), KeyCode::NoKey);
    assert_eq!(lookup_e0(0x80), KeyCode::NoKey);
}

#[test]
fn keyboard_with_emulation_is_disabled() {
    let (send, mut dev) = keyboard::Dev::new(keyboard::Type::MF2Emul);
    assert_eq!(send, None);
    assert_eq!(dev.state, keyboard::State::Init(Init::Disabled));
    for byte in [0x1C, 0xFA, 0x02, 0xF0] {
        assert_eq!(dev.recv_byte(byte), QUIET);
        assert_eq!(dev.state, keyboard::State::Init(Init::Disabled));
    }
}

#[test]
fn keyboard_wants_scancode_set_2() {
    for set in [1u8, 3, 0x41] {
        let (_, mut dev) = keyboard::Dev::new(keyboard::Type::MF2);
        dev.recv_byte(0xFA);
        assert_eq!(dev.recv_byte(set), QUIET);
        assert_eq!(dev.state, keyboard::State::Init(Init::Disabled));
    }
    let mut leds = keyboard::Dev { ty: keyboard::Type::MF2, state: keyboard::State::Init(Init::SetLeds(5)) };
    assert_eq!(leds.recv_byte(0xFA), Reply { send: Some(5), event: None });
    assert_eq!(leds.state, keyboard::State::Idle(Layer::Base, false));
}

#[test]
fn keys_are_pressed_and_released() {
    let mut dev = ready();
    assert_eq!(dev.recv_byte(0x1C).event, Some(KeyEvent::Press(KeyCode::A)));
    assert_eq!(dev.recv_byte(0xF0), QUIET);
    assert_eq!(dev.state, keyboard::State::Idle(Layer::Base, true));
    assert_eq!(dev.recv_byte(0x1C).event, Some(KeyEvent::Release(KeyCode::A)));
    assert_eq!(dev.state, keyboard::State::Idle(Layer::Base, false));
    // Extended key: right control.
    assert_eq!(dev.recv_byte(0xE0), QUIET);
    assert_eq!(dev.recv_byte(0x14).event, Some(KeyEvent::Press(KeyCode::RightCtrl)));
    assert_eq!(dev.recv_byte(0x14).event, Some(KeyEvent::Press(KeyCode::LeftCtrl)));
    assert_eq!(dev.recv_byte(0xE0), QUIET);
    assert_eq!(dev.recv_byte(0xF0), QUIET);
    assert_eq!(dev.recv_byte(0x14).event, Some(KeyEvent::Release(KeyCode::RightCtrl)));
    // A scancode without a key, and one behind the prefix E1.
    assert_eq!(dev.recv_byte(0x02), QUIET);
    assert_eq!(dev.recv_byte(0xE1), QUIET);
    assert_eq!(dev.recv_byte(0x1C), QUIET);
    assert_eq!(dev.state, keyboard::State::Idle(Layer::Base, false));
    // What the keyboard says about itself is passed over, and keeps the
    // prefix.
    assert_eq!(dev.recv_byte(0xF0), QUIET);
    for byte in [0x00, 0xFF, 0xAA, 0xFC, 0xFD, 0xEE, 0xFA, 0xFE] {
        assert_eq!(dev.recv_byte(byte), QUIET);
    }
    assert_eq!(dev.recv_byte(0x29).event, Some(KeyEvent::Release(KeyCode::Space)));
}

#[test]
fn signed_nine_bit_numbers() {
    assert_eq!(mouse::Dev::get_signed_9(false, false, 0), 0);
    assert_eq!(mouse::Dev::get_signed_9(false, false, 255), 255);
    assert_eq!(mouse::Dev::get_signed_9(false, true, 255), -1);
    assert_eq!(mouse::Dev::get_signed_9(false, true, 0), -256);
    assert_eq!(mouse::Dev::get_signed_9(false, true, 0x80), -128);
    assert_eq!(mouse::Dev::get_signed_9(true, false, 17), 256);
    assert_eq!(mouse::Dev::get_signed_9(true, true, 17), -256);
}

#[test]
fn mouse_packets() {
    let (send, mut dev) = mouse::Dev::new(mouse::Type::Std);
    assert_eq!(send, Some(0xF4));
    assert_eq!(dev.state, mouse::State::Expect(0));
    // The acknowledgement.
    assert_eq!(dev.recv_byte(0xFA), (None, None));
    assert_eq!(dev.state, mouse::State::Idle);
    // A byte without bit 3 is no start of a packet.
    assert_eq!(dev.recv_byte(0x01), (None, None));
    assert_eq!(dev.state, mouse::State::Idle);
    // Left button down, 5 to the right, 3 down.
    assert_eq!(dev.recv_byte(0x29), (None, None));
    assert_eq!(dev.recv_byte(5), (None, None));
    assert_eq!(
        dev.recv_byte(0xFD),
        (None, Some(MouseEvent { buttons: 1, changed: 1, dx: 5, dy: -3 }))
    );
    assert_eq!(dev.btns, 1);
    assert_eq!(dev.state, mouse::State::Idle);
    // Left button still down, right button down, no movement.
    dev.recv_byte(0x0B);
    dev.recv_byte(0);
    assert_eq!(dev.recv_byte(0).1, Some(MouseEvent { buttons: 3, changed: 2, dx: 0, dy: 0 }));
    // All buttons up, overflow in both directions.
    dev.recv_byte(0xC8);
    dev.recv_byte(1);
    assert_eq!(dev.recv_byte(1).1, Some(MouseEvent { buttons: 0, changed: 3, dx: 256, dy: 256 }));
    let mut waiting = mouse::Dev { ty: mouse::Type::Std, state: mouse::State::Expect(2), btns: 0 };
    waiting.recv_byte(0);
    assert_eq!(waiting.state, mouse::State::Expect(1));
}

#[test]
fn devices_are_identified() {
    let mut dev = PS2Dev::Absent;
    let quiet = PortReply { send: None, key: None, mouse: None };
    assert_eq!(dev.recv_byte(0xFA), quiet);
    assert_eq!(dev.recv_byte(0x12), quiet);
    assert_eq!(dev, PS2Dev::Absent);
    assert_eq!(dev.recv_byte(0xAA).send, Some(0xF5));
    assert_eq!(dev, PS2Dev::Enumerating(EnumWaitState::DSAck));
    assert_eq!(dev.recv_byte(0x00), quiet);
    assert_eq!(dev.recv_byte(0xFA).send, Some(0xF2));
    assert_eq!(dev.recv_byte(0xFA), quiet);
    assert_eq!(dev, PS2Dev::Enumerating(EnumWaitState::IdentB1));
    assert_eq!(dev.recv_byte(0xAB), quiet);
    assert_eq!(dev, PS2Dev::Enumerating(EnumWaitState::IdentB2(0xAB)));
    assert_eq!(dev.recv_byte(0x83).send, Some(0xF0));
    assert!(matches!(dev, PS2Dev::Keyboard(k) if k.ty == keyboard::Type::MF2));
    // From now on the bytes go to the keyboard driver.
    assert_eq!(dev.recv_byte(0xFA).send, Some(0x00));
    dev.recv_byte(2);
    assert_eq!(dev.recv_byte(0x1C).key, Some(KeyEvent::Press(KeyCode::A)));
}

#[test]
fn mice_and_unknown_devices() {
    for (byte, ty) in [(0x00, mouse::Type::Std), (0x03, mouse::Type::Scroll), (0x04, mouse::Type::QuintBtn)] {
        let mut dev = PS2Dev::Enumerating(EnumWaitState::IdentB1);
        assert_eq!(dev.recv_byte(byte).send, Some(0xF4));
        assert!(matches!(dev, PS2Dev::Mouse(m) if m.ty == ty));
    }
    for byte in [0x41, 0xC1] {
        let mut dev = PS2Dev::Enumerating(EnumWaitState::IdentB2(0xAB));
        assert_eq!(dev.recv_byte(byte).send, None);
        assert!(matches!(dev, PS2Dev::Keyboard(k) if k.ty == keyboard::Type::MF2Emul));
    }
    let mut dev = PS2Dev::Enumerating(EnumWaitState::IdentB2(0xAB));
    dev.recv_byte(0x84);
    assert_eq!(dev, PS2Dev::Unknown);
    let mut dev = PS2Dev::Enumerating(EnumWaitState::DSAck);
    dev.recv_byte(0x01);
    assert_eq!(dev, PS2Dev::Unknown);
    let mut dev = PS2Dev::Enumerating(EnumWaitState::IdentAck);
    dev.recv_byte(0x00);
    assert_eq!(dev, PS2Dev::Unknown);
    let mut dev = PS2Dev::Enumerating(EnumWaitState::IdentB1);
    dev.recv_byte(0x05);
    assert_eq!(dev, PS2Dev::Unknown);
    assert_eq!(dev.recv_byte(0xAA), PortReply { send: None, key: None, mouse: None });
    assert_eq!(dev, PS2Dev::Unknown);
}

#[test]
fn ports_start_with_keyboard_and_mouse() {
    let (mut first, mut second) = init();
    assert!(matches!(first, PS2Dev::Keyboard(k) if k.state == keyboard::State::Init(Init::ReqScancodeSetAck)));
    assert!(matches!(second, PS2Dev::Mouse(m) if m.state == mouse::State::Expect(0)));
    assert_eq!(first.recv_byte(0xFA).send, Some(0));
    second.recv_byte(0xFA);
    second.recv_byte(0x08);
    second.recv_byte(0xFF);
    assert_eq!(
        second.recv_byte(0x02).mouse,
        Some(MouseEvent { buttons: 0, changed: 0, dx: 255, dy: 2 })
    );
}
