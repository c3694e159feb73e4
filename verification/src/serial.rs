//! The serial ports: what is written to which register to set a port up
//! and to send a byte.

use vstd::prelude::*;
use crate::mylib::once::Once;
use crate::consts::{IRQ_COM1, IRQ_COM2};
use crate::interrupts::irq::{enable_irq, IrqController};

verus! {

/// The base of the registers of the first serial port.
pub const COM1_BASE: u16 = 0x3F8;

/// The base of the registers of the second serial port.
pub const COM2_BASE: u16 = 0x2F8;

/// Interrupt enable flags.
pub const RECEIVED: u8 = 0x01;

pub const SENT: u8 = 0x02;

pub const ERRORED: u8 = 0x04;

pub const STATUS_CHANGE: u8 = 0x08;

/// Line status flags.
pub const INPUT_FULL: u8 = 0x01;

pub const OUTPUT_EMPTY: u8 = 0x20;

/// The byte that moves the cursor of the terminal one place back.
pub const BACKSPACE: u8 = 8;

/// The byte that the delete key sends.
pub const DELETE: u8 = 0x7F;

/// One byte that is to be written to a port.
#[derive(Debug, Clone, Copy, PartialEq, Eq, Structural)]
pub struct PortWrite {
    pub port: u16,
    pub value: u8,
}

/// A serial port, by the numbers of its registers.
#[derive(Debug, Clone, Copy, PartialEq, Eq, Structural)]
pub struct SerialPort {
    /// Data register, read to receive, write to send
    pub data: u16,
    /// Interrupt enable
    pub int_en: u16,
    /// FIFO control
    pub fifo_ctrl: u16,
    /// Line control
    pub line_ctrl: u16,
    /// Modem control
    pub modem_ctrl: u16,
    /// Line status
    pub line_sts: u16,
    /// Modem status
    pub modem_sts: u16,
}

/// The bytes that go to the data register, in this order, to send `data`: a
/// backspace and a delete wipe the last character out by going back,
/// writing a blank and going back again; every other byte is sent as it
/// is.
pub open spec fn sent_for(data: u8) -> Seq<u8> {
    if data == BACKSPACE || data == DELETE {
        seq![BACKSPACE, 0x20u8, BACKSPACE]
    } else {
        seq![data]
    }
}

/// The bytes that go to the data register to send the bytes `text`.
pub open spec fn sent_for_all(text: Seq<u8>) -> Seq<u8>
    decreases text.len(),
{
    if text.len() == 0 {
        Seq::empty()
    } else {
        sent_for_all(text.drop_last()) + sent_for(text.last())
    }
}

impl SerialPort {
    /// The port whose registers start at `base`.
    pub fn new(base: u16) -> (port: SerialPort)
        requires
            base <= 0xfff9,
        ensures
            port == (SerialPort {
                data: base,
                int_en: (base + 1) as u16,
                fifo_ctrl: (base + 2) as u16,
                line_ctrl: (base + 3) as u16,
                modem_ctrl: (base + 4) as u16,
                line_sts: (base + 5) as u16,
                modem_sts: (base + 6) as u16,
            }),
    {
        SerialPort {
            data: base,
            int_en: base + 1,
            fifo_ctrl: base + 2,
            line_ctrl: base + 3,
            modem_ctrl: base + 4,
            line_sts: base + 5,
            modem_sts: base + 6,
        }
    }

    /// What is written to set the port up: interrupts off, the divisor of
    /// the baud rate set to 3, eight bits without parity and one stop bit,
    /// the queues on and cleared, the modem lines set, and the interrupt
    /// for received data on.
    pub fn init(&self) -> (writes: Vec<PortWrite>)
        ensures
            writes@ == init_writes(*self),
    {
        let mut writes: Vec<PortWrite> = Vec::new();
        writes.push(PortWrite { port: self.int_en, value: 0x00 });
        writes.push(PortWrite { port: self.line_ctrl, value: 0x80 });
        writes.push(PortWrite { port: self.data, value: 0x03 });
        writes.push(PortWrite { port: self.int_en, value: 0x00 });
        writes.push(PortWrite { port: self.line_ctrl, value: 0x03 });
        writes.push(PortWrite { port: self.fifo_ctrl, value: 0xC7 });
        writes.push(PortWrite { port: self.modem_ctrl, value: 0x0B });
        writes.push(PortWrite { port: self.int_en, value: 0x01 });
        assert(writes@ =~= seq![
            PortWrite { port: self.int_en, value: 0x00 },
            PortWrite { port: self.line_ctrl, value: 0x80 },
            PortWrite { port: self.data, value: 0x03 },
            PortWrite { port: self.int_en, value: 0x00 },
            PortWrite { port: self.line_ctrl, value: 0x03 },
            PortWrite { port: self.fifo_ctrl, value: 0xC7 },
            PortWrite { port: self.modem_ctrl, value: 0x0B },
            PortWrite { port: self.int_en, value: 0x01 },
        ]);
        writes
    }

    /// Whether the line status `status` says that a byte has come in and
    /// waits in the data register.
    pub fn receive(&self, status: u8) -> (waiting: bool)
        ensures
            waiting == (status & INPUT_FULL != 0),
    {
        proof {
            lemma_line_status(status);
        }
        status & INPUT_FULL == INPUT_FULL
    }

    /// Whether the line status `status` says that the port can take the
    /// next byte.
    pub fn wait(&self, status: u8) -> (ready: bool)
        ensures
            ready == (status & OUTPUT_EMPTY != 0),
    {
        proof {
            lemma_line_status(status);
        }
        status & OUTPUT_EMPTY == OUTPUT_EMPTY
    }

    /// The bytes that are written to the data register, each once the port
    /// can take it, to send `data`.
    pub fn send(&self, data: u8) -> (bytes: Vec<u8>)
        ensures
            bytes@ == sent_for(data),
    {
        let mut bytes: Vec<u8> = Vec::new();
        if data == BACKSPACE || data == DELETE {
            bytes.push(BACKSPACE);
            bytes.push(0x20);
            bytes.push(BACKSPACE);
            assert(bytes@ =~= sent_for(data));
        } else {
            bytes.push(data);
            assert(bytes@ =~= sent_for(data));
        }
        bytes
    }

    /// The bytes that are written to the data register to send the bytes
    /// of `text`, one after the other.
    pub fn write_str(&self, text: &[u8]) -> (bytes: Vec<u8>)
        ensures
            bytes@ == sent_for_all(text@),
    {
        let mut bytes: Vec<u8> = Vec::new();
        let mut i: usize = 0;
        while i < text.len()
            invariant
                i <= text@.len(),
                bytes@ == sent_for_all(text@.take(i as int)),
            decreases text@.len() - i,
        {
            let mut sent = self.send(text[i]);
            proof {
                assert(text@.take(i + 1).drop_last() =~= text@.take(i as int));
                assert(text@.take(i + 1).last() == text@[i as int]);
            }
            bytes.append(&mut sent);
            i += 1;
        }
        proof {
            assert(text@.take(text@.len() as int) =~= text@);
        }
        bytes
    }
}

/// What is written to set the port `port` up, in this order.
pub open spec fn init_writes(port: SerialPort) -> Seq<PortWrite> {
    seq![
        PortWrite { port: port.int_en, value: 0x00 },
        PortWrite { port: port.line_ctrl, value: 0x80 },
        PortWrite { port: port.data, value: 0x03 },
        PortWrite { port: port.int_en, value: 0x00 },
        PortWrite { port: port.line_ctrl, value: 0x03 },
        PortWrite { port: port.fifo_ctrl, value: 0xC7 },
        PortWrite { port: port.modem_ctrl, value: 0x0B },
        PortWrite { port: port.int_en, value: 0x01 },
    ]
}

/// The registers of the port that starts at `base`.
pub open spec fn port_at(base: u16) -> SerialPort {
    SerialPort {
        data: base,
        int_en: (base + 1) as u16,
        fifo_ctrl: (base + 2) as u16,
        line_ctrl: (base + 3) as u16,
        modem_ctrl: (base + 4) as u16,
        line_sts: (base + 5) as u16,
        modem_sts: (base + 6) as u16,
    }
}

/// What setting the serial ports up comes to: the two ports, what is
/// written to their registers, in this order, and the controllers at which
/// their interrupt requests are enabled.
pub struct SetUp {
    pub com1: SerialPort,
    pub com2: SerialPort,
    pub writes: Vec<PortWrite>,
    pub irqs: Vec<IrqController>,
}

/// Sets the two serial ports of the machine up, at their usual places: the
/// first port is set up, then the second, and the interrupt requests 4 and
/// 3 are enabled, at the I/O APIC where the kernel uses it and else at the
/// legacy controller. The set-up is made once, which `once` records.
pub fn init(use_apic: bool, once: &mut Once) -> (setup: SetUp)
    requires
        !old(once).called(),
    ensures
        final(once).called(),
        setup.com1 == port_at(0x3F8),
        setup.com2 == port_at(0x2F8),
        setup.writes@ == init_writes(port_at(0x3F8)) + init_writes(port_at(0x2F8)),
        setup.irqs@ == if use_apic {
            seq![IrqController::IoApic { irq: 4, cpu: 0 }, IrqController::IoApic { irq: 3, cpu: 0 }]
        } else {
            seq![IrqController::Pic { irq: 4 }, IrqController::Pic { irq: 3 }]
        },
{
    once.call();
    let com1 = SerialPort::new(COM1_BASE);
    let com2 = SerialPort::new(COM2_BASE);
    let mut writes = com1.init();
    let mut second = com2.init();
    let ghost first = writes@;
    writes.append(&mut second);
    let mut irqs: Vec<IrqController> = Vec::new();
    irqs.push(enable_irq(IRQ_COM1, use_apic));
    irqs.push(enable_irq(IRQ_COM2, use_apic));
    proof {
        assert(first =~= init_writes(com1));
        assert(irqs@ =~= if use_apic {
            seq![IrqController::IoApic { irq: 4, cpu: 0 }, IrqController::IoApic { irq: 3, cpu: 0 }]
        } else {
            seq![IrqController::Pic { irq: 4 }, IrqController::Pic { irq: 3 }]
        });
    }
    SetUp { com1, com2, writes, irqs }
}

/// The tests of the line status look at one bit each.
pub proof fn lemma_line_status(status: u8)
    ensures
        (status & INPUT_FULL == INPUT_FULL) == (status & INPUT_FULL != 0),
        (status & OUTPUT_EMPTY == OUTPUT_EMPTY) == (status & OUTPUT_EMPTY != 0),
{
    assert(((status & 0x01 == 0x01) == (status & 0x01 != 0)) && ((status & 0x20 == 0x20) == (status
        & 0x20 != 0))) by (bit_vector);
}

} // verus!
