//! The driver of a PS/2 keyboard: a state machine that is fed the bytes
//! that the keyboard sends.

use vstd::prelude::*;
use crate::ps2::keycodes::{lookup_base, lookup_e0, sc2_base, sc2_e0, KeyCode};

verus! {

/// The kind of keyboard.
#[derive(Debug, Clone, Copy, PartialEq, Eq, Structural)]
pub enum Type {
    MF2,
    MF2Emul,
}

/// The prefix that came before the scancode that is waited for.
#[derive(Debug, Clone, Copy, PartialEq, Eq, Structural)]
pub enum Layer {
    Base,
    E0,
    E1,
}

/// The steps of setting the keyboard up.
#[derive(Debug, Clone, Copy, PartialEq, Eq, Structural)]
pub enum Init {
    Disabled,
    ReqScancodeSetAck,
    ReqScancodeSetRsp,
    SetLeds(u8),
}

/// The state of the driver: setting up, or ready for scancodes, with the
/// prefix that came last and whether a release was announced.
#[derive(Debug, Clone, Copy, PartialEq, Eq, Structural)]
pub enum State {
    Init(Init),
    Idle(Layer, bool),
}

/// What a key did.
#[derive(Debug, Clone, Copy, PartialEq, Eq, Structural)]
pub enum KeyEvent {
    Press(KeyCode),
    Release(KeyCode),
}

/// What the driver makes of a byte: a byte to send back to the keyboard,
/// and what a key did.
#[derive(Debug, Clone, Copy, PartialEq, Eq, Structural)]
pub struct Reply {
    pub send: Option<u8>,
    pub event: Option<KeyEvent>,
}

/// The driver of one keyboard.
#[derive(Debug, Clone, Copy, PartialEq, Eq, Structural)]
pub struct Dev {
    pub ty: Type,
    pub state: State,
}

/// The key that the scancode `code` stands for behind the prefix `layer`.
pub open spec fn key_of(layer: Layer, code: u8) -> KeyCode {
    match layer {
        Layer::Base => sc2_base(code),
        Layer::E0 => sc2_e0(code),
        Layer::E1 => KeyCode::NoKey,
    }
}

/// The state and the reply that follow from the state `state` and the byte
/// `byte`.
///
/// While the keyboard is set up, the driver asks for the scancode set and
/// goes on only with set 2. Once ready, it takes notes of the prefixes
/// `0xE0` and `0xE1` and of the release prefix `0xF0`, leaves the bytes
/// with which the keyboard reports on itself alone, and turns every other
/// byte into the press or the release of the key that it stands for.
pub open spec fn step(state: State, byte: u8) -> (State, Reply) {
    let quiet = Reply { send: None, event: None };
    match state {
        State::Init(Init::Disabled) => (state, quiet),
        State::Init(Init::ReqScancodeSetAck) => (
            State::Init(Init::ReqScancodeSetRsp),
            Reply { send: Some(0x00), event: None },
        ),
        State::Init(Init::ReqScancodeSetRsp) => if byte == 2 {
            (State::Idle(Layer::Base, false), quiet)
        } else if byte == 0xFA {
            (state, quiet)
        } else {
            (State::Init(Init::Disabled), quiet)
        },
        State::Init(Init::SetLeds(v)) => (
            State::Idle(Layer::Base, false),
            Reply { send: Some(v), event: None },
        ),
        State::Idle(layer, release) => if byte == 0x00 || byte == 0xFF || byte == 0xAA || byte
            == 0xFC || byte == 0xFD || byte == 0xEE || byte == 0xFA || byte == 0xFE {
            (state, quiet)
        } else if byte == 0xE0 {
            (State::Idle(Layer::E0, false), quiet)
        } else if byte == 0xE1 {
            (State::Idle(Layer::E1, false), quiet)
        } else if byte == 0xF0 {
            (State::Idle(layer, true), quiet)
        } else {
            let key = key_of(layer, byte);
            (
                State::Idle(Layer::Base, false),
                Reply {
                    send: None,
                    event: if key == KeyCode::NoKey {
                        None
                    } else if release {
                        Some(KeyEvent::Release(key))
                    } else {
                        Some(KeyEvent::Press(key))
                    },
                },
            )
        },
    }
}

impl Dev {
    /// Create a new keyboard driver instance.
    ///
    /// Returns a byte to send to the device: a keyboard of the kind MF2 is
    /// asked for its scancode set, one with emulation is left disabled.
    pub fn new(ty: Type) -> (result: (Option<u8>, Dev))
        ensures
            result.1.ty == ty,
            ty == Type::MF2 ==> result.0 == Some(0xF0u8) && result.1.state == State::Init(
                Init::ReqScancodeSetAck,
            ),
            ty == Type::MF2Emul ==> result.0.is_none() && result.1.state == State::Init(
                Init::Disabled,
            ),
    {
        match ty {
            Type::MF2Emul => {
                (None, Dev { ty: ty, state: State::Init(Init::Disabled) })
            },
            Type::MF2 => {
                // 1. Request scancode set
                (Some(0xF0), Dev { ty: ty, state: State::Init(Init::ReqScancodeSetAck) })
            },
        }
    }

    /// Handle a received byte.
    ///
    /// Returns a response byte and what a key did.
    pub fn recv_byte(&mut self, byte: u8) -> (reply: Reply)
        ensures
            final(self).ty == old(self).ty,
            (final(self).state, reply) == step(old(self).state, byte),
    {
        let quiet = Reply { send: None, event: None };
        match self.state {
            // Non-active states (mostly initialisation)
            State::Init(s) => match s {
                Init::Disabled => quiet,
                Init::ReqScancodeSetAck => {
                    self.state = State::Init(Init::ReqScancodeSetRsp);
                    Reply { send: Some(0x00), event: None }
                },
                Init::ReqScancodeSetRsp => {
                    if byte == 2 {
                        // Scancode set 2 (most common)
                        self.state = State::Idle(Layer::Base, false);
                    } else if byte == 0xFA {
                        // A second acknowledgement
                    } else {
                        // Sets 1 and 3 are not supported
                        self.state = State::Init(Init::Disabled);
                    }
                    quiet
                },
                Init::SetLeds(v) => {
                    self.state = State::Idle(Layer::Base, false);
                    Reply { send: Some(v), event: None }
                },
            },
            // Idle and ready to process keystrokes
            State::Idle(layer, release) => {
                if byte == 0x00 || byte == 0xFF || byte == 0xAA || byte == 0xFC || byte == 0xFD
                    || byte == 0xEE || byte == 0xFA || byte == 0xFE {
                    // Error, self-test result, echo, acknowledgement, resend
                    quiet
                } else if byte == 0xE0 {
                    // Extended scancodes
                    self.state = State::Idle(Layer::E0, false);
                    quiet
                } else if byte == 0xE1 {
                    self.state = State::Idle(Layer::E1, false);
                    quiet
                } else if byte == 0xF0 {
                    // Released key flag
                    self.state = State::Idle(layer, true);
                    quiet
                } else {
                    let key = match layer {
                        Layer::Base => lookup_base(byte),
                        Layer::E0 => lookup_e0(byte),
                        Layer::E1 => KeyCode::NoKey,
                    };
                    let event = if key == KeyCode::NoKey {
                        None
                    } else if release {
                        Some(KeyEvent::Release(key))
                    } else {
                        Some(KeyEvent::Press(key))
                    };
                    self.state = State::Idle(Layer::Base, false);
                    Reply { send: None, event }
                }
            },
        }
    }
}

/// A keyboard that is disabled stays so and says nothing, whatever it is
/// sent.
pub proof fn lemma_disabled_stays_disabled(byte: u8)
    ensures
        step(State::Init(Init::Disabled), byte) == (
            State::Init(Init::Disabled),
            Reply { send: None, event: None },
        ),
{
}

/// A keyboard of the kind MF2 that acknowledges the request and answers
/// with scancode set 2 becomes ready.
pub proof fn lemma_setup_with_set_2(ack: u8)
    ensures
        step(step(State::Init(Init::ReqScancodeSetAck), ack).0, 2).0 == State::Idle(
            Layer::Base,
            false,
        ),
        step(State::Init(Init::ReqScancodeSetAck), ack).1.send == Some(0x00u8),
{
}

/// The release prefix and the prefix `0xE0` hold for one scancode only:
/// after a scancode the driver waits for one without prefix, whose key is
/// pressed.
pub proof fn lemma_prefixes_hold_for_one_key(layer: Layer, release: bool, code: u8)
    requires
        step(State::Idle(layer, release), code).1.event.is_some(),
    ensures
        step(State::Idle(layer, release), code).0 == State::Idle(Layer::Base, false),
        step(State::Idle(layer, release), code).1.event == Some(
            if release {
                KeyEvent::Release(key_of(layer, code))
            } else {
                KeyEvent::Press(key_of(layer, code))
            },
        ),
        step(State::Idle(layer, release), code).1.send.is_none(),
{
}

/// A key that is pressed and let go: the scancode alone reports the press,
/// the scancode behind the release prefix reports the release.
pub proof fn lemma_press_and_release(code: u8)
    requires
        sc2_base(code) != KeyCode::NoKey,
        code != 0xE0 && code != 0xE1 && code != 0xF0,
        code != 0x00 && code != 0xFF && code != 0xAA && code != 0xFC && code != 0xFD && code != 0xEE
            && code != 0xFA && code != 0xFE,
    ensures
        step(State::Idle(Layer::Base, false), code).1.event == Some(
            KeyEvent::Press(sc2_base(code)),
        ),
        step(step(State::Idle(Layer::Base, false), 0xF0).0, code).1.event == Some(
            KeyEvent::Release(sc2_base(code)),
        ),
{
}

} // verus!
