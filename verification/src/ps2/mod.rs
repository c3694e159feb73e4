//! PS/2 devices: what is plugged into a port is found out from the bytes
//! that it sends, and the bytes are then handed to the driver of the
//! device.

use vstd::prelude::*;

pub mod i8042;
pub mod keyboard;
pub mod keycodes;
pub mod mouse;

verus! {

/// The steps of finding out what a device is.
#[derive(Debug, Clone, Copy, PartialEq, Eq, Structural)]
pub enum EnumWaitState {
    DSAck,
    IdentAck,
    IdentB1,
    IdentB2(u8),
}

/// What is plugged into a port.
#[derive(Debug, Clone, Copy, PartialEq, Eq, Structural)]
pub enum PS2Dev {
    /// Nothing that is known of.
    Absent,
    /// Something that could not be identified.
    Unknown,
    /// Something that is being identified.
    Enumerating(EnumWaitState),
    Keyboard(keyboard::Dev),
    Mouse(mouse::Dev),
}

/// What a port makes of a byte: a byte to send back to the device, and what
/// the device reported.
#[derive(Debug, Clone, Copy, PartialEq, Eq, Structural)]
pub struct PortReply {
    pub send: Option<u8>,
    pub key: Option<keyboard::KeyEvent>,
    pub mouse: Option<mouse::MouseEvent>,
}

/// The reply that only sends `send`.
pub open spec fn send_only(send: Option<u8>) -> PortReply {
    PortReply { send, key: None, mouse: None }
}

/// The mouse driver of the kind `ty` as it is after `new`.
pub open spec fn fresh_mouse(ty: mouse::Type) -> PS2Dev {
    PS2Dev::Mouse(mouse::Dev { ty, state: mouse::State::Expect(0), btns: 0 })
}

/// The keyboard driver of the kind `ty` as it is after `new`.
pub open spec fn fresh_keyboard(ty: keyboard::Type) -> PS2Dev {
    PS2Dev::Keyboard(
        keyboard::Dev {
            ty,
            state: keyboard::State::Init(
                if ty == keyboard::Type::MF2 {
                    keyboard::Init::ReqScancodeSetAck
                } else {
                    keyboard::Init::Disabled
                },
            ),
        },
    )
}

/// What follows from the byte `byte` while a device is found out about:
/// the device as it is afterwards, and the byte to send to it.
///
/// A device that reports that its self-test passed (`0xAA`) is told to stop
/// scanning (`0xF5`) and then asked to identify itself (`0xF2`). The bytes
/// with which it answers say what it is: `0x00`, `0x03` and `0x04` are
/// mice, `0xAB` followed by `0x83`, `0x41` or `0xC1` is a keyboard.
pub open spec fn identify(dev: PS2Dev, byte: u8) -> (PS2Dev, Option<u8>) {
    match dev {
        PS2Dev::Absent => if byte == 0xAA {
            (PS2Dev::Enumerating(EnumWaitState::DSAck), Some(0xF5u8))
        } else {
            (dev, None)
        },
        PS2Dev::Unknown => (dev, None),
        PS2Dev::Enumerating(EnumWaitState::DSAck) => if byte == 0xFA {
            (PS2Dev::Enumerating(EnumWaitState::IdentAck), Some(0xF2u8))
        } else if byte == 0x00 {
            (dev, None)
        } else {
            (PS2Dev::Unknown, None)
        },
        PS2Dev::Enumerating(EnumWaitState::IdentAck) => if byte == 0xFA {
            (PS2Dev::Enumerating(EnumWaitState::IdentB1), None)
        } else {
            (PS2Dev::Unknown, None)
        },
        PS2Dev::Enumerating(EnumWaitState::IdentB1) => if byte == 0x00 {
            (fresh_mouse(mouse::Type::Std), Some(0xF4u8))
        } else if byte == 0x03 {
            (fresh_mouse(mouse::Type::Scroll), Some(0xF4u8))
        } else if byte == 0x04 {
            (fresh_mouse(mouse::Type::QuintBtn), Some(0xF4u8))
        } else if byte == 0xAB {
            (PS2Dev::Enumerating(EnumWaitState::IdentB2(byte)), None)
        } else {
            (PS2Dev::Unknown, None)
        },
        PS2Dev::Enumerating(EnumWaitState::IdentB2(b1)) => if b1 == 0xAB && byte == 0x83 {
            (fresh_keyboard(keyboard::Type::MF2), Some(0xF0u8))
        } else if b1 == 0xAB && (byte == 0x41 || byte == 0xC1) {
            (fresh_keyboard(keyboard::Type::MF2Emul), None)
        } else {
            (PS2Dev::Unknown, None)
        },
        PS2Dev::Keyboard(_) => (dev, None),
        PS2Dev::Mouse(_) => (dev, None),
    }
}

/// What follows from the byte `byte` at a port with the device `dev`: the
/// device as it is afterwards, the byte to send to it, and what it
/// reported. A device that is known hands the byte to its driver; for any
/// other the byte is part of finding out what it is.
pub open spec fn port_step(dev: PS2Dev, byte: u8) -> (PS2Dev, PortReply) {
    match dev {
        PS2Dev::Keyboard(k) => (
            PS2Dev::Keyboard(keyboard::Dev { ty: k.ty, state: keyboard::step(k.state, byte).0 }),
            PortReply {
                send: keyboard::step(k.state, byte).1.send,
                key: keyboard::step(k.state, byte).1.event,
                mouse: None,
            },
        ),
        PS2Dev::Mouse(m) => (
            PS2Dev::Mouse(mouse::step(m, byte).0),
            PortReply { send: None, key: None, mouse: mouse::step(m, byte).1 },
        ),
        _ => (identify(dev, byte).0, send_only(identify(dev, byte).1)),
    }
}

impl PS2Dev {
    /// A mouse of the kind `ty`, and the byte to send to it.
    pub fn new_mouse(ty: mouse::Type) -> (result: (Option<u8>, Option<PS2Dev>))
        ensures
            result.0 == Some(0xF4u8),
            result.1 == Some(fresh_mouse(ty)),
    {
        let (byte, dev) = mouse::Dev::new(ty);
        (byte, Some(PS2Dev::Mouse(dev)))
    }

    /// A keyboard of the kind `ty`, and the byte to send to it.
    pub fn new_keyboard(ty: keyboard::Type) -> (result: (Option<u8>, Option<PS2Dev>))
        ensures
            result.0 == if ty == keyboard::Type::MF2 {
                Some(0xF0u8)
            } else {
                None
            },
            result.1 == Some(fresh_keyboard(ty)),
    {
        let (byte, dev) = keyboard::Dev::new(ty);
        (byte, Some(PS2Dev::Keyboard(dev)))
    }

    /// Handle a received byte, and optionally return a byte to be sent to
    /// the device.
    ///
    /// While the device is not known the byte is taken as part of its
    /// answers to being identified. Once it is known the byte goes to its
    /// driver, and what the driver makes of it is handed back.
    pub fn recv_byte(&mut self, byte: u8) -> (reply: PortReply)
        requires
            *old(self) matches PS2Dev::Mouse(m) ==> (m.state is WaitByte3 ==> m.ty
                == mouse::Type::Std),
        ensures
            (*final(self), reply) == port_step(*old(self), byte),
    {
        let quiet = PortReply { send: None, key: None, mouse: None };
        let (rv, new_state): (PortReply, Option<PS2Dev>) = match *self {
            PS2Dev::Absent => if byte == 0xFA {
                (quiet, None)
            } else if byte == 0xAA {
                // Send 0xF5 "Disable Scanning" and wait for ACK
                (
                    PortReply { send: Some(0xF5), key: None, mouse: None },
                    Some(PS2Dev::Enumerating(EnumWaitState::DSAck)),
                )
            } else {
                (quiet, None)
            },
            PS2Dev::Unknown => (quiet, None),
            PS2Dev::Enumerating(state) => match state {
                EnumWaitState::DSAck => if byte == 0xFA {
                    // Send 0xF2 "Identify"
                    (
                        PortReply { send: Some(0xF2), key: None, mouse: None },
                        Some(PS2Dev::Enumerating(EnumWaitState::IdentAck)),
                    )
                } else if byte == 0x00 {
                    // Ignore spurious NUL byte
                    (quiet, None)
                } else {
                    (quiet, Some(PS2Dev::Unknown))
                },
                EnumWaitState::IdentAck => if byte == 0xFA {
                    (quiet, Some(PS2Dev::Enumerating(EnumWaitState::IdentB1)))
                } else {
                    (quiet, Some(PS2Dev::Unknown))
                },
                EnumWaitState::IdentB1 => if byte == 0x00 {
                    let res = Self::new_mouse(mouse::Type::Std);
                    (PortReply { send: res.0, key: None, mouse: None }, res.1)
                } else if byte == 0x03 {
                    let res = Self::new_mouse(mouse::Type::Scroll);
                    (PortReply { send: res.0, key: None, mouse: None }, res.1)
                } else if byte == 0x04 {
                    let res = Self::new_mouse(mouse::Type::QuintBtn);
                    (PortReply { send: res.0, key: None, mouse: None }, res.1)
                } else if byte == 0xAB {
                    (quiet, Some(PS2Dev::Enumerating(EnumWaitState::IdentB2(byte))))
                } else {
                    (quiet, Some(PS2Dev::Unknown))
                },
                EnumWaitState::IdentB2(b1) => if b1 == 0xAB && byte == 0x83 {
                    let res = Self::new_keyboard(keyboard::Type::MF2);
                    (PortReply { send: res.0, key: None, mouse: None }, res.1)
                } else if b1 == 0xAB && (byte == 0x41 || byte == 0xC1) {
                    let res = Self::new_keyboard(keyboard::Type::MF2Emul);
                    (PortReply { send: res.0, key: None, mouse: None }, res.1)
                } else {
                    (quiet, Some(PS2Dev::Unknown))
                },
            },
            PS2Dev::Keyboard(dev) => {
                let mut dev = dev;
                let reply = dev.recv_byte(byte);
                (
                    PortReply { send: reply.send, key: reply.event, mouse: None },
                    Some(PS2Dev::Keyboard(dev)),
                )
            },
            PS2Dev::Mouse(dev) => {
                let mut dev = dev;
                let (send, event) = dev.recv_byte(byte);
                (PortReply { send, key: None, mouse: event }, Some(PS2Dev::Mouse(dev)))
            },
        };
        if let Some(ns) = new_state {
            *self = ns;
        }
        rv
    }
}

/// The devices with which the two ports start: a keyboard of the kind MF2
/// at the first and a standard mouse at the second.
pub fn init() -> (devices: (PS2Dev, PS2Dev))
    ensures
        devices.0 == fresh_keyboard(keyboard::Type::MF2),
        devices.1 == fresh_mouse(mouse::Type::Std),
{
    let keyboard = PS2Dev::new_keyboard(keyboard::Type::MF2).1.unwrap();
    let mouse = PS2Dev::new_mouse(mouse::Type::Std).1.unwrap();
    (keyboard, mouse)
}

/// A device that passes its self-test, acknowledges twice and then
/// identifies itself with `0xAB 0x83` is a keyboard of the kind MF2, and is
/// asked for its scancode set.
pub proof fn lemma_keyboard_is_identified()
    ensures
        ({
            let a = identify(PS2Dev::Absent, 0xAA);
            let b = identify(a.0, 0xFA);
            let c = identify(b.0, 0xFA);
            let d = identify(c.0, 0xAB);
            let e = identify(d.0, 0x83);
            &&& a.1 == Some(0xF5u8)
            &&& b.1 == Some(0xF2u8)
            &&& c.1.is_none()
            &&& d.1.is_none()
            &&& e == (fresh_keyboard(keyboard::Type::MF2), Some(0xF0u8))
        }),
{
}

/// A device that passes its self-test, acknowledges twice and then
/// identifies itself with `0x00` is a standard mouse, and is told to start
/// scanning.
pub proof fn lemma_mouse_is_identified()
    ensures
        ({
            let a = identify(PS2Dev::Absent, 0xAA);
            let b = identify(a.0, 0xFA);
            let c = identify(b.0, 0xFA);
            let d = identify(c.0, 0x00);
            d == (fresh_mouse(mouse::Type::Std), Some(0xF4u8))
        }),
{
}

/// A device that could not be identified is left alone for good.
pub proof fn lemma_unknown_stays_unknown(byte: u8)
    ensures
        identify(PS2Dev::Unknown, byte) == (PS2Dev::Unknown, None::<u8>),
{
}

} // verus!
