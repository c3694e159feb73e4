//! The driver of a PS/2 mouse: a state machine that is fed the bytes that
//! the mouse sends.

use vstd::prelude::*;

verus! {

/// The kind of mouse.
#[derive(Debug, Clone, Copy, PartialEq, Eq, Structural)]
pub enum Type {
    Std,
    Scroll,
    /// 5 buttons
    QuintBtn,
}

/// The state of the driver: how many bytes of setting up are still to
/// come, or which bytes of a packet have come already.
#[derive(Debug, Clone, Copy, PartialEq, Eq, Structural)]
pub enum State {
    Expect(usize),
    Idle,
    WaitByte2(u8),
    WaitByte3(u8, u8),
}

/// What a packet of the mouse says: the buttons that are down, one bit for
/// each, the buttons whose state changed, and how far the mouse moved.
#[derive(Debug, Clone, Copy, PartialEq, Eq, Structural)]
pub struct MouseEvent {
    pub buttons: u8,
    pub changed: u8,
    pub dx: i16,
    pub dy: i16,
}

/// The driver of one mouse.
#[derive(Debug, Clone, Copy, PartialEq, Eq, Structural)]
pub struct Dev {
    pub ty: Type,
    pub state: State,
    pub btns: u8,
}

/// The movement that a packet gives by the nine-bit number with the sign
/// `sign` and the lower eight bits `val`; where the packet says that the
/// number has overflowed, the movement is the largest one in its direction.
pub open spec fn signed_9(overflow: bool, sign: bool, val: u8) -> int {
    if sign {
        if overflow {
            -256
        } else {
            val - 0x100
        }
    } else {
        if overflow {
            256
        } else {
            val as int
        }
    }
}

/// The event that the packet of the three bytes `b1`, `b2` and `b3` gives
/// when the buttons `btns` were down before.
pub open spec fn packet_event(btns: u8, b1: u8, b2: u8, b3: u8) -> MouseEvent {
    MouseEvent {
        buttons: b1 & 0b111,
        changed: (b1 & 0b111) ^ btns,
        dx: signed_9(((b1 >> 6) & 1) != 0, ((b1 >> 4) & 1) != 0, b2) as i16,
        dy: signed_9(((b1 >> 7) & 1) != 0, ((b1 >> 5) & 1) != 0, b3) as i16,
    }
}

/// The state that follows from the state `state` and the byte `byte`.
pub open spec fn next_state(state: State, byte: u8) -> State {
    match state {
        State::Expect(extra) => if extra == 0 {
            State::Idle
        } else {
            State::Expect((extra - 1) as usize)
        },
        State::Idle => if byte & 0x08 != 0 {
            State::WaitByte2(byte)
        } else {
            State::Idle
        },
        State::WaitByte2(b1) => State::WaitByte3(b1, byte),
        State::WaitByte3(_, _) => State::Idle,
    }
}

/// The driver and the event that follow from the driver `dev` and the byte
/// `byte`: the third byte of a packet gives the event of the packet and
/// leaves the buttons as the packet says.
pub open spec fn step(dev: Dev, byte: u8) -> (Dev, Option<MouseEvent>) {
    match dev.state {
        State::WaitByte3(b1, b2) => (
            Dev { ty: dev.ty, state: State::Idle, btns: b1 & 0b111 },
            Some(packet_event(dev.btns, b1, b2, byte)),
        ),
        _ => (Dev { ty: dev.ty, state: next_state(dev.state, byte), btns: dev.btns }, None),
    }
}

impl Dev {
    /// A new mouse driver. Returns the byte to send to the device, which
    /// enables scanning, and the driver, which waits for the
    /// acknowledgement.
    pub fn new(ty: Type) -> (result: (Option<u8>, Dev))
        ensures
            result.0 == Some(0xF4u8),
            result.1 == (Dev { ty: ty, state: State::Expect(0), btns: 0 }),
    {
        // Enable scanning
        (Some(0xF4), Dev { ty: ty, state: State::Expect(0), btns: 0x00 })
    }

    /// Handle a received byte. The third byte of a packet gives an event.
    /// Nothing is ever sent back.
    ///
    /// Packets are read as those of a standard mouse; a driver of another
    /// kind must not be fed a third byte.
    pub fn recv_byte(&mut self, byte: u8) -> (result: (Option<u8>, Option<MouseEvent>))
        requires
            old(self).state is WaitByte3 ==> old(self).ty == Type::Std,
        ensures
            result.0.is_none(),
            (*final(self), result.1) == step(*old(self), byte),
    {
        let (event, ns) = match self.state {
            State::Expect(extra) => if extra == 0 {
                (None, State::Idle)
            } else {
                (None, State::Expect(extra - 1))
            },
            State::Idle => if byte & 0x08 != 0 {
                (None, State::WaitByte2(byte))
            } else {
                (None, State::Idle)
            },
            State::WaitByte2(b1) => (None, State::WaitByte3(b1, byte)),
            State::WaitByte3(b1, b2) => {
                let newbtns = b1 & 0b111;
                let dx = Self::get_signed_9(((b1 >> 6) & 1) != 0, ((b1 >> 4) & 1) != 0, b2);
                let dy = Self::get_signed_9(((b1 >> 7) & 1) != 0, ((b1 >> 5) & 1) != 0, byte);
                let changed = newbtns ^ self.btns;
                self.btns = newbtns;
                (Some(MouseEvent { buttons: newbtns, changed, dx, dy }), State::Idle)
            },
        };
        self.state = ns;
        (None, event)
    }

    /// The movement that a packet gives by a nine-bit number.
    pub fn get_signed_9(overflow: bool, sign: bool, val: u8) -> (movement: i16)
        ensures
            movement == signed_9(overflow, sign, val),
            -256 <= movement <= 256,
    {
        if sign {
            if overflow {
                -256
            } else {
                val as i16 - 0x100
            }
        } else {
            if overflow {
                256
            } else {
                val as i16
            }
        }
    }
}

/// A packet starts with a byte whose bit 3 is set; two more bytes complete
/// it, and the driver is ready for the next packet. Any other byte is
/// passed over.
pub proof fn lemma_packets_take_three_bytes(b1: u8, b2: u8, b3: u8)
    ensures
        b1 & 0x08 != 0 ==> next_state(next_state(next_state(State::Idle, b1), b2), b3)
            == State::Idle && next_state(next_state(State::Idle, b1), b2) == State::WaitByte3(b1, b2),
        b1 & 0x08 == 0 ==> next_state(State::Idle, b1) == State::Idle,
{
}

/// A button counts as changed exactly if it is down now and was not
/// before, or the other way round.
pub proof fn lemma_changed_buttons(btns: u8, b1: u8, b2: u8, b3: u8, button: u8)
    requires
        button < 3,
        btns & !0b111u8 == 0,
    ensures
        (packet_event(btns, b1, b2, b3).changed & (1u8 << button) != 0) == ((packet_event(
            btns,
            b1,
            b2,
            b3,
        ).buttons & (1u8 << button) != 0) != (btns & (1u8 << button) != 0)),
{
    assert(button < 3 ==> ((((b1 & 0b111) ^ btns) & (1u8 << button) != 0) == (((b1 & 0b111) & (1u8
        << button) != 0) != (btns & (1u8 << button) != 0)))) by (bit_vector);
}

} // verus!
