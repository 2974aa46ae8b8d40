//! The keys of a keyboard and the scan codes that stand for them.

use vstd::prelude::*;

verus! {

/// A key that a binding can name. `Unknown` stands for every scan code without a key of its own.
#[derive(Debug, Clone, Copy, PartialEq, Eq, Structural)]
pub enum Key {
    Unknown,
    Escape,
    Num1,
    Num2,
    Num3,
    Num4,
    Num5,
    Num6,
    Num7,
    Num8,
    Num9,
    Num0,
    Minus,
    Equals,
    Backspace,
    Tab,
    Q,
    W,
    E,
    R,
    T,
    Y,
    U,
    I,
    O,
    P,
    LeftBracket,
    RightBracket,
    Return,
    LControl,
    A,
    S,
    D,
    F,
    G,
    H,
    J,
    K,
    L,
    Semicolon,
    Apostrophe,
    BackQuote,
    LShift,
    Backslash,
    Z,
    X,
    C,
    V,
    B,
    N,
    M,
    Comma,
    Period,
    Slash,
    Multiply,
    Space,
    CapsLock,
    F1,
    F2,
    F3,
    F4,
    F5,
    F6,
    F7,
    F8,
    F9,
    F10,
    Numlock,
    ScrollLock,
    Numpad7,
    Numpad8,
    Numpad9,
    Subtract,
    Numpad4,
    Numpad5,
    Numpad6,
    Add,
    Numpad1,
    Numpad2,
    Numpad3,
    Numpad0,
    Decimal,
    F11,
    F12,
    F13,
    F14,
    F15,
    NumpadEnter,
    RControl,
    Divide,
    PrintScr,
    Home,
    UpArrow,
    PageUp,
    LeftArrow,
    RightArrow,
    End,
    DownArrow,
    PageDown,
    Insert,
    Delete,
    LWin,
    RWin,
    Apps,
}

/// The key that a scan code stands for: the table of known codes, `Unknown` for all others.
pub open spec fn key_for_code(code: u16) -> Key {
    match code {
        1 => Key::Escape,
        2 => Key::Num1,
        3 => Key::Num2,
        4 => Key::Num3,
        5 => Key::Num4,
        6 => Key::Num5,
        7 => Key::Num6,
        8 => Key::Num7,
        9 => Key::Num8,
        10 => Key::Num9,
        11 => Key::Num0,
        12 => Key::Minus,
        13 => Key::Equals,
        14 => Key::Backspace,
        15 => Key::Tab,
        16 => Key::Q,
        17 => Key::W,
        18 => Key::E,
        19 => Key::R,
        20 => Key::T,
        21 => Key::Y,
        22 => Key::U,
        23 => Key::I,
        24 => Key::O,
        25 => Key::P,
        26 => Key::LeftBracket,
        27 => Key::RightBracket,
        28 => Key::Return,
        29 => Key::LControl,
        30 => Key::A,
        31 => Key::S,
        32 => Key::D,
        33 => Key::F,
        34 => Key::G,
        35 => Key::H,
        36 => Key::J,
        37 => Key::K,
        38 => Key::L,
        39 => Key::Semicolon,
        40 => Key::Apostrophe,
        41 => Key::BackQuote,
        42 => Key::LShift,
        43 => Key::Backslash,
        44 => Key::Z,
        45 => Key::X,
        46 => Key::C,
        47 => Key::V,
        48 => Key::B,
        49 => Key::N,
        50 => Key::M,
        51 => Key::Comma,
        52 => Key::Period,
        53 => Key::Slash,
        55 => Key::Multiply,
        57 => Key::Space,
        58 => Key::CapsLock,
        59 => Key::F1,
        60 => Key::F2,
        61 => Key::F3,
        62 => Key::F4,
        63 => Key::F5,
        64 => Key::F6,
        65 => Key::F7,
        66 => Key::F8,
        67 => Key::F9,
        68 => Key::F10,
        69 => Key::Numlock,
        70 => Key::ScrollLock,
        71 => Key::Numpad7,
        72 => Key::Numpad8,
        73 => Key::Numpad9,
        74 => Key::Subtract,
        75 => Key::Numpad4,
        76 => Key::Numpad5,
        77 => Key::Numpad6,
        78 => Key::Add,
        79 => Key::Numpad1,
        80 => Key::Numpad2,
        81 => Key::Numpad3,
        82 => Key::Numpad0,
        83 => Key::Decimal,
        87 => Key::F11,
        88 => Key::F12,
        100 => Key::F13,
        101 => Key::F14,
        102 => Key::F15,
        156 => Key::NumpadEnter,
        157 => Key::RControl,
        181 => Key::Divide,
        183 => Key::PrintScr,
        199 => Key::Home,
        200 => Key::UpArrow,
        201 => Key::PageUp,
        203 => Key::LeftArrow,
        205 => Key::RightArrow,
        207 => Key::End,
        208 => Key::DownArrow,
        209 => Key::PageDown,
        210 => Key::Insert,
        211 => Key::Delete,
        219 => Key::LWin,
        220 => Key::RWin,
        221 => Key::Apps,
        _ => Key::Unknown,
    }
}

/// Whether `code` is one of the two placeholders that key files write where no key is bound.
pub open spec fn is_placeholder(code: u16) -> bool {
    code == 0 || code == 0xFFFF
}

/// Resolves a scan code to its key. Every code resolves; one without a key gives `Unknown`.
pub fn parse_key_code(number: u16) -> (key: Key)
    ensures
        key == key_for_code(number),
{
    match number {
        1 => Key::Escape,
        2 => Key::Num1,
        3 => Key::Num2,
        4 => Key::Num3,
        5 => Key::Num4,
        6 => Key::Num5,
        7 => Key::Num6,
        8 => Key::Num7,
        9 => Key::Num8,
        10 => Key::Num9,
        11 => Key::Num0,
        12 => Key::Minus,
        13 => Key::Equals,
        14 => Key::Backspace,
        15 => Key::Tab,
        16 => Key::Q,
        17 => Key::W,
        18 => Key::E,
        19 => Key::R,
        20 => Key::T,
        21 => Key::Y,
        22 => Key::U,
        23 => Key::I,
        24 => Key::O,
        25 => Key::P,
        26 => Key::LeftBracket,
        27 => Key::RightBracket,
        28 => Key::Return,
        29 => Key::LControl,
        30 => Key::A,
        31 => Key::S,
        32 => Key::D,
        33 => Key::F,
        34 => Key::G,
        35 => Key::H,
        36 => Key::J,
        37 => Key::K,
        38 => Key::L,
        39 => Key::Semicolon,
        40 => Key::Apostrophe,
        41 => Key::BackQuote,
        42 => Key::LShift,
        43 => Key::Backslash,
        44 => Key::Z,
        45 => Key::X,
        46 => Key::C,
        47 => Key::V,
        48 => Key::B,
        49 => Key::N,
        50 => Key::M,
        51 => Key::Comma,
        52 => Key::Period,
        53 => Key::Slash,
        55 => Key::Multiply,
        57 => Key::Space,
        58 => Key::CapsLock,
        59 => Key::F1,
        60 => Key::F2,
        61 => Key::F3,
        62 => Key::F4,
        63 => Key::F5,
        64 => Key::F6,
        65 => Key::F7,
        66 => Key::F8,
        67 => Key::F9,
        68 => Key::F10,
        69 => Key::Numlock,
        70 => Key::ScrollLock,
        71 => Key::Numpad7,
        72 => Key::Numpad8,
        73 => Key::Numpad9,
        74 => Key::Subtract,
        75 => Key::Numpad4,
        76 => Key::Numpad5,
        77 => Key::Numpad6,
        78 => Key::Add,
        79 => Key::Numpad1,
        80 => Key::Numpad2,
        81 => Key::Numpad3,
        82 => Key::Numpad0,
        83 => Key::Decimal,
        87 => Key::F11,
        88 => Key::F12,
        100 => Key::F13,
        101 => Key::F14,
        102 => Key::F15,
        156 => Key::NumpadEnter,
        157 => Key::RControl,
        181 => Key::Divide,
        183 => Key::PrintScr,
        199 => Key::Home,
        200 => Key::UpArrow,
        201 => Key::PageUp,
        203 => Key::LeftArrow,
        205 => Key::RightArrow,
        207 => Key::End,
        208 => Key::DownArrow,
        209 => Key::PageDown,
        210 => Key::Insert,
        211 => Key::Delete,
        219 => Key::LWin,
        220 => Key::RWin,
        221 => Key::Apps,
        _ => Key::Unknown,
    }
}

/// Tells the placeholder codes, which key files use on purpose, from codes that
/// are merely not in the table. Both resolve to `Unknown`.
pub fn is_placeholder_code(number: u16) -> (placeholder: bool)
    ensures
        placeholder == is_placeholder(number),
        placeholder ==> key_for_code(number) == Key::Unknown,
{
    number == 0 || number == 0xFFFF
}

/// No key has two scan codes: codes that resolve to the same known key are equal.
pub proof fn lemma_key_has_one_code(a: u16, b: u16)
    requires
        key_for_code(a) == key_for_code(b),
        key_for_code(a) != Key::Unknown,
    ensures
        a == b,
{
}

/// The placeholder codes resolve to `Unknown`.
pub proof fn lemma_placeholders_unknown(code: u16)
    requires
        is_placeholder(code),
    ensures
        key_for_code(code) == Key::Unknown,
{
}

} // verus!
