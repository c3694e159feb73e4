//! The keys of a keyboard, and the scancodes that stand for them.

use vstd::prelude::*;

verus! {

/// A key. `NoKey` stands for a scancode that no key is known for.
#[derive(Debug, Clone, Copy, PartialEq, Eq, Structural)]
pub enum KeyCode {
    NoKey,
    F9,
    F5,
    F3,
    F1,
    F2,
    F12,
    F10,
    F8,
    F6,
    F4,
    Tab,
    GraveTilde,
    LeftAlt,
    LeftShift,
    LeftCtrl,
    Q,
    Kb1,
    Z,
    S,
    A,
    W,
    Kb2,
    C,
    X,
    D,
    E,
    Kb4,
    Kb3,
    Space,
    V,
    F,
    T,
    R,
    Kb5,
    N,
    B,
    H,
    G,
    Y,
    Kb6,
    M,
    J,
    U,
    Kb7,
    Kb8,
    Comma,
    K,
    I,
    O,
    Kb0,
    Kb9,
    Period,
    Slash,
    L,
    Semicolon,
    P,
    Minus,
    Quote,
    SquareOpen,
    Equals,
    Caps,
    RightShift,
    Return,
    SquareClose,
    Backslash,
    Backsp,
    Kp1,
    Kp4,
    Kp7,
    Kp0,
    KpPeriod,
    Kp2,
    Kp5,
    Kp6,
    Kp8,
    Esc,
    Numlock,
    F11,
    KpPlus,
    Kp3,
    KpMinus,
    KpStar,
    Kp9,
    ScrollLock,
    F7,
    RightAlt,
    RightCtrl,
    LeftGui,
    RightGui,
    Application,
    KpSlash,
    KpEnter,
    End,
    LeftArrow,
    Home,
    Insert,
    Delete,
    DownArrow,
    RightArrow,
    UpArrow,
    PgDn,
    PgUp,
}

/// The key that the scancode `code` of set 2 stands for when no prefix
/// came before it.
pub open spec fn sc2_base(code: u8) -> KeyCode {
    match code {
        0x01 => KeyCode::F9,
        0x03 => KeyCode::F5,
        0x04 => KeyCode::F3,
        0x05 => KeyCode::F1,
        0x06 => KeyCode::F2,
        0x07 => KeyCode::F12,
        0x09 => KeyCode::F10,
        0x0a => KeyCode::F8,
        0x0b => KeyCode::F6,
        0x0c => KeyCode::F4,
        0x0d => KeyCode::Tab,
        0x0e => KeyCode::GraveTilde,
        0x11 => KeyCode::LeftAlt,
        0x12 => KeyCode::LeftShift,
        0x14 => KeyCode::LeftCtrl,
        0x15 => KeyCode::Q,
        0x16 => KeyCode::Kb1,
        0x1a => KeyCode::Z,
        0x1b => KeyCode::S,
        0x1c => KeyCode::A,
        0x1d => KeyCode::W,
        0x1e => KeyCode::Kb2,
        0x21 => KeyCode::C,
        0x22 => KeyCode::X,
        0x23 => KeyCode::D,
        0x24 => KeyCode::E,
        0x25 => KeyCode::Kb4,
        0x26 => KeyCode::Kb3,
        0x29 => KeyCode::Space,
        0x2a => KeyCode::V,
        0x2b => KeyCode::F,
        0x2c => KeyCode::T,
        0x2d => KeyCode::R,
        0x2e => KeyCode::Kb5,
        0x31 => KeyCode::N,
        0x32 => KeyCode::B,
        0x33 => KeyCode::H,
        0x34 => KeyCode::G,
        0x35 => KeyCode::Y,
        0x36 => KeyCode::Kb6,
        0x3a => KeyCode::M,
        0x3b => KeyCode::J,
        0x3c => KeyCode::U,
        0x3d => KeyCode::Kb7,
        0x3e => KeyCode::Kb8,
        0x41 => KeyCode::Comma,
        0x42 => KeyCode::K,
        0x43 => KeyCode::I,
        0x44 => KeyCode::O,
        0x45 => KeyCode::Kb0,
        0x46 => KeyCode::Kb9,
        0x49 => KeyCode::Period,
        0x4a => KeyCode::Slash,
        0x4b => KeyCode::L,
        0x4c => KeyCode::Semicolon,
        0x4d => KeyCode::P,
        0x4e => KeyCode::Minus,
        0x52 => KeyCode::Quote,
        0x54 => KeyCode::SquareOpen,
        0x55 => KeyCode::Equals,
        0x58 => KeyCode::Caps,
        0x59 => KeyCode::RightShift,
        0x5a => KeyCode::Return,
        0x5b => KeyCode::SquareClose,
        0x5d => KeyCode::Backslash,
        0x66 => KeyCode::Backsp,
        0x69 => KeyCode::Kp1,
        0x6b => KeyCode::Kp4,
        0x6c => KeyCode::Kp7,
        0x70 => KeyCode::Kp0,
        0x71 => KeyCode::KpPeriod,
        0x72 => KeyCode::Kp2,
        0x73 => KeyCode::Kp5,
        0x74 => KeyCode::Kp6,
        0x75 => KeyCode::Kp8,
        0x76 => KeyCode::Esc,
        0x77 => KeyCode::Numlock,
        0x78 => KeyCode::F11,
        0x79 => KeyCode::KpPlus,
        0x7a => KeyCode::Kp3,
        0x7b => KeyCode::KpMinus,
        0x7c => KeyCode::KpStar,
        0x7d => KeyCode::Kp9,
        0x7e => KeyCode::ScrollLock,
        0x83 => KeyCode::F7,
        _ => KeyCode::NoKey,
    }
}

/// The key that the scancode `code` of set 2 stands for behind the prefix
/// `0xE0`.
pub open spec fn sc2_e0(code: u8) -> KeyCode {
    match code {
        0x11 => KeyCode::RightAlt,
        0x14 => KeyCode::RightCtrl,
        0x1f => KeyCode::LeftGui,
        0x27 => KeyCode::RightGui,
        0x2f => KeyCode::Application,
        0x4a => KeyCode::KpSlash,
        0x5a => KeyCode::KpEnter,
        0x69 => KeyCode::End,
        0x6b => KeyCode::LeftArrow,
        0x6c => KeyCode::Home,
        0x70 => KeyCode::Insert,
        0x71 => KeyCode::Delete,
        0x72 => KeyCode::DownArrow,
        0x74 => KeyCode::RightArrow,
        0x75 => KeyCode::UpArrow,
        0x7a => KeyCode::PgDn,
        0x7d => KeyCode::PgUp,
        _ => KeyCode::NoKey,
    }
}

/// The key that the scancode `code` of set 2 stands for when no prefix
/// came before it.
pub fn lookup_base(code: u8) -> (key: KeyCode)
    ensures
        key == sc2_base(code),
{
    match code {
        0x01 => KeyCode::F9,
        0x03 => KeyCode::F5,
        0x04 => KeyCode::F3,
        0x05 => KeyCode::F1,
        0x06 => KeyCode::F2,
        0x07 => KeyCode::F12,
        0x09 => KeyCode::F10,
        0x0a => KeyCode::F8,
        0x0b => KeyCode::F6,
        0x0c => KeyCode::F4,
        0x0d => KeyCode::Tab,
        0x0e => KeyCode::GraveTilde,
        0x11 => KeyCode::LeftAlt,
        0x12 => KeyCode::LeftShift,
        0x14 => KeyCode::LeftCtrl,
        0x15 => KeyCode::Q,
        0x16 => KeyCode::Kb1,
        0x1a => KeyCode::Z,
        0x1b => KeyCode::S,
        0x1c => KeyCode::A,
        0x1d => KeyCode::W,
        0x1e => KeyCode::Kb2,
        0x21 => KeyCode::C,
        0x22 => KeyCode::X,
        0x23 => KeyCode::D,
        0x24 => KeyCode::E,
        0x25 => KeyCode::Kb4,
        0x26 => KeyCode::Kb3,
        0x29 => KeyCode::Space,
        0x2a => KeyCode::V,
        0x2b => KeyCode::F,
        0x2c => KeyCode::T,
        0x2d => KeyCode::R,
        0x2e => KeyCode::Kb5,
        0x31 => KeyCode::N,
        0x32 => KeyCode::B,
        0x33 => KeyCode::H,
        0x34 => KeyCode::G,
        0x35 => KeyCode::Y,
        0x36 => KeyCode::Kb6,
        0x3a => KeyCode::M,
        0x3b => KeyCode::J,
        0x3c => KeyCode::U,
        0x3d => KeyCode::Kb7,
        0x3e => KeyCode::Kb8,
        0x41 => KeyCode::Comma,
        0x42 => KeyCode::K,
        0x43 => KeyCode::I,
        0x44 => KeyCode::O,
        0x45 => KeyCode::Kb0,
        0x46 => KeyCode::Kb9,
        0x49 => KeyCode::Period,
        0x4a => KeyCode::Slash,
        0x4b => KeyCode::L,
        0x4c => KeyCode::Semicolon,
        0x4d => KeyCode::P,
        0x4e => KeyCode::Minus,
        0x52 => KeyCode::Quote,
        0x54 => KeyCode::SquareOpen,
        0x55 => KeyCode::Equals,
        0x58 => KeyCode::Caps,
        0x59 => KeyCode::RightShift,
        0x5a => KeyCode::Return,
        0x5b => KeyCode::SquareClose,
        0x5d => KeyCode::Backslash,
        0x66 => KeyCode::Backsp,
        0x69 => KeyCode::Kp1,
        0x6b => KeyCode::Kp4,
        0x6c => KeyCode::Kp7,
        0x70 => KeyCode::Kp0,
        0x71 => KeyCode::KpPeriod,
        0x72 => KeyCode::Kp2,
        0x73 => KeyCode::Kp5,
        0x74 => KeyCode::Kp6,
        0x75 => KeyCode::Kp8,
        0x76 => KeyCode::Esc,
        0x77 => KeyCode::Numlock,
        0x78 => KeyCode::F11,
        0x79 => KeyCode::KpPlus,
        0x7a => KeyCode::Kp3,
        0x7b => KeyCode::KpMinus,
        0x7c => KeyCode::KpStar,
        0x7d => KeyCode::Kp9,
        0x7e => KeyCode::ScrollLock,
        0x83 => KeyCode::F7,
        _ => KeyCode::NoKey,
    }
}

/// The key that the scancode `code` of set 2 stands for behind the prefix
/// `0xE0`.
pub fn lookup_e0(code: u8) -> (key: KeyCode)
    ensures
        key == sc2_e0(code),
{
    match code {
        0x11 => KeyCode::RightAlt,
        0x14 => KeyCode::RightCtrl,
        0x1f => KeyCode::LeftGui,
        0x27 => KeyCode::RightGui,
        0x2f => KeyCode::Application,
        0x4a => KeyCode::KpSlash,
        0x5a => KeyCode::KpEnter,
        0x69 => KeyCode::End,
        0x6b => KeyCode::LeftArrow,
        0x6c => KeyCode::Home,
        0x70 => KeyCode::Insert,
        0x71 => KeyCode::Delete,
        0x72 => KeyCode::DownArrow,
        0x74 => KeyCode::RightArrow,
        0x75 => KeyCode::UpArrow,
        0x7a => KeyCode::PgDn,
        0x7d => KeyCode::PgUp,
        _ => KeyCode::NoKey,
    }
}

} // verus!
