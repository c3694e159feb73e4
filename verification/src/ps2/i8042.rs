//! The 8042 controller of the PS/2 ports: the decisions of its set-up and
//! what is written to it.

use vstd::prelude::*;
use crate::ps2::PS2Dev;

verus! {

/// The number of times that the controller is asked whether it can take a
/// byte before the wait is given up.
pub const MAX_SPINS_OUT: usize = 1000;

/// The number of times that the controller is asked whether it has a byte
/// before the wait is given up.
pub const MAX_SPINS_IN: usize = 100000;

/// The bits of the configuration of the controller.
pub const PORT1_INTERRUPT: u8 = 0x01;

pub const PORT2_INTERRUPT: u8 = 0x02;

pub const PORT2_CLOCK_OFF: u8 = 0x20;

pub const PORT1_TRANSLATION: u8 = 0x40;

/// What the controller answers to a self-test that passed.
pub const SELF_TEST_PASSED: u8 = 0x55;

/// One byte that is to be written to the controller: a command, or data.
#[derive(Debug, Clone, Copy, PartialEq, Eq, Structural)]
pub enum ControllerWrite {
    Command(u8),
    Data(u8),
}

/// A port of the controller with what is plugged into it.
pub struct Port {
    pub is_second: bool,
    pub dev: PS2Dev,
}

impl Port {
    /// A port with nothing known to be plugged in.
    pub fn new(is_second: bool) -> (port: Port)
        ensures
            port.is_second == is_second,
            port.dev == PS2Dev::Absent,
    {
        Port { is_second: is_second, dev: PS2Dev::Absent }
    }

    /// What is written to the controller to send `b` to the device of the
    /// port: the byte as data, behind the command `0xD4` where the port is
    /// the second one.
    pub fn send_byte(&self, b: u8) -> (writes: Vec<ControllerWrite>)
        ensures
            writes@ == if self.is_second {
                seq![ControllerWrite::Command(0xD4), ControllerWrite::Data(b)]
            } else {
                seq![ControllerWrite::Data(b)]
            },
    {
        let mut writes: Vec<ControllerWrite> = Vec::new();
        if self.is_second {
            writes.push(ControllerWrite::Command(0xD4));
        }
        writes.push(ControllerWrite::Data(b));
        assert(writes@ =~= if self.is_second {
            seq![ControllerWrite::Command(0xD4), ControllerWrite::Data(b)]
        } else {
            seq![ControllerWrite::Data(b)]
        });
        writes
    }

    /// Hands the byte `byte`, which the controller read from the port, to
    /// the device and hands back what is written to the controller in
    /// answer.
    pub fn handle_irq(&mut self, byte: u8) -> (result: (Vec<ControllerWrite>, crate::ps2::PortReply))
        requires
            old(self).dev matches PS2Dev::Mouse(m) ==> (m.state is WaitByte3 ==> m.ty
                == crate::ps2::mouse::Type::Std),
        ensures
            final(self).is_second == old(self).is_second,
            (final(self).dev, result.1) == crate::ps2::port_step(old(self).dev, byte),
            result.0@ == match result.1.send {
                Some(b) => if old(self).is_second {
                    seq![ControllerWrite::Command(0xD4), ControllerWrite::Data(b)]
                } else {
                    seq![ControllerWrite::Data(b)]
                },
                None => Seq::<ControllerWrite>::empty(),
            },
    {
        let reply = self.dev.recv_byte(byte);
        let writes = match reply.send {
            Some(b) => self.send_byte(b),
            None => Vec::new(),
        };
        (writes, reply)
    }
}

/// The controller.
pub struct Ctrlr8042 {}

/// What the set-up found out about the ports.
#[derive(Debug, Clone, Copy, PartialEq, Eq, Structural)]
pub struct Ports {
    pub port1_works: bool,
    pub port2_works: bool,
}

impl Ctrlr8042 {
    /// true if write is possible
    pub fn poll_out(status: u8) -> (ready: bool)
        ensures
            ready == (status & 2 == 0),
    {
        status & 2 == 0
    }

    /// true if read is possible
    pub fn poll_in(status: u8) -> (ready: bool)
        ensures
            ready == (status & 1 != 0),
    {
        status & 1 != 0
    }

    /// Whether the wait for the controller to take a byte goes on after it
    /// was asked `spin_count` times in vain.
    pub fn wait_out(spin_count: usize) -> (result: Result<(), ()>)
        ensures
            result is Ok <==> spin_count < MAX_SPINS_OUT,
    {
        if spin_count >= MAX_SPINS_OUT {
            return Err(());
        }
        Ok(())
    }

    /// Whether the wait for a byte of the controller goes on after it was
    /// asked `spin_count` times in vain.
    pub fn wait_in(spin_count: usize) -> (result: Result<(), ()>)
        ensures
            result is Ok <==> spin_count < MAX_SPINS_IN,
    {
        if spin_count >= MAX_SPINS_IN {
            return Err(());
        }
        Ok(())
    }

    /// What is written first to set the controller up: both ports are
    /// turned off.
    pub fn disable_ports() -> (writes: Vec<ControllerWrite>)
        ensures
            writes@ == seq![ControllerWrite::Command(0xAD), ControllerWrite::Command(0xA7)],
    {
        let mut writes: Vec<ControllerWrite> = Vec::new();
        // Disable primary channel
        writes.push(ControllerWrite::Command(0xAD));
        // Disable secondary channel (ignored if none)
        writes.push(ControllerWrite::Command(0xA7));
        writes
    }

    /// The configuration with which the controller is set up, made from
    /// the one that it has: the interrupts of both ports and the
    /// translation of the first port are turned off. The second result says
    /// whether the controller can have a second port: the clock of that
    /// port is off.
    pub fn setup_config(config: u8) -> (result: (u8, bool))
        ensures
            result.0 == config & !(PORT1_INTERRUPT | PORT2_INTERRUPT | PORT1_TRANSLATION),
            result.1 == (config & PORT2_CLOCK_OFF != 0),
    {
        // - Clear 0: Port1 Enable, 1: Port2 Enable, 6: Port1 Translation
        let cleared = config & !((1 << 0) | (1 << 1) | (1 << 6));
        let can_have_second_port = config & (1 << 5) != 0;
        assert(((1u8 << 0) | (1u8 << 1) | (1u8 << 6)) == (0x01u8 | 0x02u8 | 0x40u8) && (1u8 << 5)
            == 0x20u8) by (bit_vector);
        (cleared, can_have_second_port)
    }

    /// Whether the controller passed its self-test.
    pub fn self_test_passed(response: u8) -> (passed: bool)
        ensures
            passed == (response == SELF_TEST_PASSED),
    {
        response == 0x55
    }

    /// Whether the second port is there: its clock came on when the port
    /// was turned on.
    pub fn has_second_port(can_have_second_port: bool, config: u8) -> (has: bool)
        ensures
            has == (can_have_second_port && config & PORT2_CLOCK_OFF == 0),
    {
        assert((1u8 << 5) == 0x20u8) by (bit_vector);
        if can_have_second_port {
            // If bit is still set, then the second channel is absent
            config & (1 << 5) == 0
        } else {
            false
        }
    }

    /// Whether a port passed its test.
    pub fn port_works(response: u8) -> (works: bool)
        ensures
            works == (response == 0x00),
    {
        response == 0x00
    }

    /// The configuration with which the ports that work are turned on: the
    /// interrupt of every port that works is enabled.
    pub fn enable_config(config: u8, ports: Ports) -> (enabled: u8)
        ensures
            enabled == config | (if ports.port1_works {
                PORT1_INTERRUPT
            } else {
                0
            }) | (if ports.port2_works {
                PORT2_INTERRUPT
            } else {
                0
            }),
    {
        let first = if ports.port1_works {
            PORT1_INTERRUPT
        } else {
            0
        };
        let second = if ports.port2_works {
            PORT2_INTERRUPT
        } else {
            0
        };
        config | first | second
    }

    /// What is written last to set the controller up: the configuration
    /// `config`, and for every port that works the command that turns it on
    /// and a reset for its device.
    pub fn enable_ports(config: u8, ports: Ports) -> (writes: Vec<ControllerWrite>)
        ensures
            writes@ == seq![ControllerWrite::Command(0x60), ControllerWrite::Data(config)] + (
            if ports.port1_works {
                seq![ControllerWrite::Command(0xAE), ControllerWrite::Data(0xFF)]
            } else {
                Seq::<ControllerWrite>::empty()
            }) + (if ports.port2_works {
                seq![
                    ControllerWrite::Command(0xA8),
                    ControllerWrite::Command(0xD4),
                    ControllerWrite::Data(0xFF),
                ]
            } else {
                Seq::<ControllerWrite>::empty()
            }),
    {
        let mut writes: Vec<ControllerWrite> = Vec::new();
        writes.push(ControllerWrite::Command(0x60));
        writes.push(ControllerWrite::Data(config));
        let ghost start = writes@;
        if ports.port1_works {
            writes.push(ControllerWrite::Command(0xAE));
            writes.push(ControllerWrite::Data(0xFF));
        }
        let ghost middle = writes@;
        assert(middle =~= start + (if ports.port1_works {
            seq![ControllerWrite::Command(0xAE), ControllerWrite::Data(0xFF)]
        } else {
            Seq::<ControllerWrite>::empty()
        }));
        if ports.port2_works {
            writes.push(ControllerWrite::Command(0xA8));
            writes.push(ControllerWrite::Command(0xD4));
            writes.push(ControllerWrite::Data(0xFF));
        }
        assert(writes@ =~= middle + (if ports.port2_works {
            seq![
                ControllerWrite::Command(0xA8),
                ControllerWrite::Command(0xD4),
                ControllerWrite::Data(0xFF),
            ]
        } else {
            Seq::<ControllerWrite>::empty()
        }));
        writes
    }
}

/// Whether the machine has the controller, by what ACPI says: `fadt` holds
/// the revision of the table of fixed features and its flags of the boot
/// architecture, where the table is there. A table of a revision above 1
/// says in bit 1 of the flags whether the controller is there; else the
/// controller is taken to be there.
pub fn init(fadt: Option<(u8, u16)>) -> (enabled: bool)
    ensures
        enabled == match fadt {
            Some((revision, flags)) => revision <= 1 || flags & 2 != 0,
            None => true,
        },
{
    match fadt {
        Some((revision, boot_architecture_flags)) => {
            if revision > 1 {
                boot_architecture_flags & 2 != 0
            } else {
                true
            }
        },
        None => true,
    }
}

} // verus!
