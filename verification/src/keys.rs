use vstd::prelude::*;

verus! {
/// A key as the launcher's window reports it.
#[derive(Clone, Copy, PartialEq, Eq, Structural, Hash, Debug)]
pub enum Key {
    ArrowDown,
    ArrowLeft,
    ArrowRight,
    ArrowUp,
    Escape,
    Tab,
    Backspace,
    Enter,
    Space,
    Insert,
    Delete,
    Home,
    End,
    PageUp,
    PageDown,
    Copy,
    Cut,
    Paste,
    Colon,
    Comma,
    Backslash,
    Slash,
    Pipe,
    Questionmark,
    Exclamationmark,
    OpenBracket,
    CloseBracket,
    OpenCurlyBracket,
    CloseCurlyBracket,
    Backtick,
    Minus,
    Period,
    Plus,
    Equals,
    Semicolon,
    Quote,
    Num0,
    Num1,
    Num2,
    Num3,
    Num4,
    Num5,
    Num6,
    Num7,
    Num8,
    Num9,
    A,
    B,
    C,
    D,
    E,
    F,
    G,
    H,
    I,
    J,
    K,
    L,
    M,
    N,
    O,
    P,
    Q,
    R,
    S,
    T,
    U,
    V,
    W,
    X,
    Y,
    Z,
    F1,
    F2,
    F3,
    F4,
    F5,
    F6,
    F7,
    F8,
    F9,
    F10,
    F11,
    F12,
    F13,
    F14,
    F15,
    F16,
    F17,
    F18,
    F19,
    F20,
    F21,
    F22,
    F23,
    F24,
    F25,
    F26,
    F27,
    F28,
    F29,
    F30,
    F31,
    F32,
    F33,
    F34,
    F35,
    BrowserBack,
    BrowserForward,
    BrowserRefresh,
    BrowserSearch,
    BrowserHome,
    BrowserFavorites,
    BrowserStop,
    MediaPlayPause,
    MediaTrackNext,
    MediaTrackPrevious,
    MediaStop,
    AudioVolumeMute,
    AudioVolumeDown,
    AudioVolumeUp,
    LaunchMail,
    LaunchApp1,
    LaunchApp2,
    ShiftLeft,
    ShiftRight,
    ControlLeft,
    ControlRight,
    AltLeft,
    AltRight,
    SuperLeft,
    SuperRight,
    IntlBackslash,
    CapsLock,
    NumLock,
    ScrollLock,
    PrintScreen,
    Pause,
    Menu,
    /// The laptop `Fn` key.
    Fn,
    Eject,
    Help,
    Power,
    Sleep,
    Clear,
}

/// Linux key codes (include/uapi/linux/input-event-codes.h), the codes
/// gamescope's virtual keyboard takes.
pub const KEY_ESC: u16 = 1;
pub const KEY_1: u16 = 2;
pub const KEY_2: u16 = 3;
pub const KEY_3: u16 = 4;
pub const KEY_4: u16 = 5;
pub const KEY_5: u16 = 6;
pub const KEY_6: u16 = 7;
pub const KEY_7: u16 = 8;
pub const KEY_8: u16 = 9;
pub const KEY_9: u16 = 10;
pub const KEY_0: u16 = 11;
pub const KEY_MINUS: u16 = 12;
pub const KEY_EQUAL: u16 = 13;
pub const KEY_BACKSPACE: u16 = 14;
pub const KEY_TAB: u16 = 15;
pub const KEY_Q: u16 = 16;
pub const KEY_W: u16 = 17;
pub const KEY_E: u16 = 18;
pub const KEY_R: u16 = 19;
pub const KEY_T: u16 = 20;
pub const KEY_Y: u16 = 21;
pub const KEY_U: u16 = 22;
pub const KEY_I: u16 = 23;
pub const KEY_O: u16 = 24;
pub const KEY_P: u16 = 25;
pub const KEY_LEFTBRACE: u16 = 26;
pub const KEY_RIGHTBRACE: u16 = 27;
pub const KEY_ENTER: u16 = 28;
pub const KEY_LEFTCTRL: u16 = 29;
pub const KEY_A: u16 = 30;
pub const KEY_S: u16 = 31;
pub const KEY_D: u16 = 32;
pub const KEY_F: u16 = 33;
pub const KEY_G: u16 = 34;
pub const KEY_H: u16 = 35;
pub const KEY_J: u16 = 36;
pub const KEY_K: u16 = 37;
pub const KEY_L: u16 = 38;
pub const KEY_SEMICOLON: u16 = 39;
pub const KEY_APOSTROPHE: u16 = 40;
pub const KEY_GRAVE: u16 = 41;
pub const KEY_LEFTSHIFT: u16 = 42;
pub const KEY_BACKSLASH: u16 = 43;
pub const KEY_Z: u16 = 44;
pub const KEY_X: u16 = 45;
pub const KEY_C: u16 = 46;
pub const KEY_V: u16 = 47;
pub const KEY_B: u16 = 48;
pub const KEY_N: u16 = 49;
pub const KEY_M: u16 = 50;
pub const KEY_COMMA: u16 = 51;
pub const KEY_DOT: u16 = 52;
pub const KEY_SLASH: u16 = 53;
pub const KEY_RIGHTSHIFT: u16 = 54;
pub const KEY_LEFTALT: u16 = 56;
pub const KEY_SPACE: u16 = 57;
pub const KEY_F1: u16 = 59;
pub const KEY_F2: u16 = 60;
pub const KEY_F3: u16 = 61;
pub const KEY_F4: u16 = 62;
pub const KEY_F5: u16 = 63;
pub const KEY_F6: u16 = 64;
pub const KEY_F7: u16 = 65;
pub const KEY_F8: u16 = 66;
pub const KEY_F9: u16 = 67;
pub const KEY_F10: u16 = 68;
pub const KEY_102ND: u16 = 86;
pub const KEY_F11: u16 = 87;
pub const KEY_F12: u16 = 88;
pub const KEY_RIGHTCTRL: u16 = 97;
pub const KEY_RIGHTALT: u16 = 100;
pub const KEY_HOME: u16 = 102;
pub const KEY_UP: u16 = 103;
pub const KEY_PAGEUP: u16 = 104;
pub const KEY_LEFT: u16 = 105;
pub const KEY_RIGHT: u16 = 106;
pub const KEY_END: u16 = 107;
pub const KEY_DOWN: u16 = 108;
pub const KEY_PAGEDOWN: u16 = 109;
pub const KEY_INSERT: u16 = 110;
pub const KEY_DELETE: u16 = 111;
pub const KEY_LEFTMETA: u16 = 125;
pub const KEY_RIGHTMETA: u16 = 126;
pub const KEY_F13: u16 = 183;
pub const KEY_F14: u16 = 184;
pub const KEY_F15: u16 = 185;
pub const KEY_F16: u16 = 186;
pub const KEY_F17: u16 = 187;
pub const KEY_F18: u16 = 188;
pub const KEY_F19: u16 = 189;
pub const KEY_F20: u16 = 190;
pub const KEY_F21: u16 = 191;
pub const KEY_F22: u16 = 192;
pub const KEY_F23: u16 = 193;
pub const KEY_F24: u16 = 194;

/// The key a shifted or command key is typed with: the window reports
/// `!` for the `1` key, `+` for `=`, and so on.
pub open spec fn unshifted(k: Key) -> Key {
    match k {
        Key::Exclamationmark => Key::Num1,
        Key::Plus => Key::Equals,
        Key::Pipe => Key::Backslash,
        Key::OpenCurlyBracket => Key::OpenBracket,
        Key::CloseCurlyBracket => Key::CloseBracket,
        Key::Colon => Key::Semicolon,
        Key::Questionmark => Key::Slash,
        Key::Copy => Key::C,
        Key::Paste => Key::P,
        Key::Cut => Key::X,
        other => other,
    }
}

/// The Linux input event code of an unshifted key, for keys that have one.
pub open spec fn base_code(k: Key) -> Option<u32> {
    match k {
        Key::Escape => Some(1),
        Key::Num1 => Some(2),
        Key::Num2 => Some(3),
        Key::Num3 => Some(4),
        Key::Num4 => Some(5),
        Key::Num5 => Some(6),
        Key::Num6 => Some(7),
        Key::Num7 => Some(8),
        Key::Num8 => Some(9),
        Key::Num9 => Some(10),
        Key::Num0 => Some(11),
        Key::Minus => Some(12),
        Key::Equals => Some(13),
        Key::Backspace => Some(14),
        Key::Tab => Some(15),
        Key::Q => Some(16),
        Key::W => Some(17),
        Key::E => Some(18),
        Key::R => Some(19),
        Key::T => Some(20),
        Key::Y => Some(21),
        Key::U => Some(22),
        Key::I => Some(23),
        Key::O => Some(24),
        Key::P => Some(25),
        Key::OpenBracket => Some(26),
        Key::CloseBracket => Some(27),
        Key::Enter => Some(28),
        Key::ControlLeft => Some(29),
        Key::A => Some(30),
        Key::S => Some(31),
        Key::D => Some(32),
        Key::F => Some(33),
        Key::G => Some(34),
        Key::H => Some(35),
        Key::J => Some(36),
        Key::K => Some(37),
        Key::L => Some(38),
        Key::Semicolon => Some(39),
        Key::Quote => Some(40),
        Key::Backtick => Some(41),
        Key::ShiftLeft => Some(42),
        Key::Backslash => Some(43),
        Key::Z => Some(44),
        Key::X => Some(45),
        Key::C => Some(46),
        Key::V => Some(47),
        Key::B => Some(48),
        Key::N => Some(49),
        Key::M => Some(50),
        Key::Comma => Some(51),
        Key::Period => Some(52),
        Key::Slash => Some(53),
        Key::ShiftRight => Some(54),
        Key::AltLeft => Some(56),
        Key::Space => Some(57),
        Key::F1 => Some(59),
        Key::F2 => Some(60),
        Key::F3 => Some(61),
        Key::F4 => Some(62),
        Key::F5 => Some(63),
        Key::F6 => Some(64),
        Key::F7 => Some(65),
        Key::F8 => Some(66),
        Key::F9 => Some(67),
        Key::F10 => Some(68),
        Key::IntlBackslash => Some(86),
        Key::F11 => Some(87),
        Key::F12 => Some(88),
        Key::ControlRight => Some(97),
        Key::AltRight => Some(100),
        Key::Home => Some(102),
        Key::ArrowUp => Some(103),
        Key::PageUp => Some(104),
        Key::ArrowLeft => Some(105),
        Key::ArrowRight => Some(106),
        Key::End => Some(107),
        Key::ArrowDown => Some(108),
        Key::PageDown => Some(109),
        Key::Insert => Some(110),
        Key::Delete => Some(111),
        Key::SuperLeft => Some(125),
        Key::SuperRight => Some(126),
        Key::F13 => Some(183),
        Key::F14 => Some(184),
        Key::F15 => Some(185),
        Key::F16 => Some(186),
        Key::F17 => Some(187),
        Key::F18 => Some(188),
        Key::F19 => Some(189),
        Key::F20 => Some(190),
        Key::F21 => Some(191),
        Key::F22 => Some(192),
        Key::F23 => Some(193),
        Key::F24 => Some(194),
        _ => None,
    }
}

/// The Linux input event code a key is sent to gamescope as.
pub open spec fn key_code(k: Key) -> Option<u32> {
    base_code(unshifted(k))
}

fn unshift(k: Key) -> (res: Key)
    ensures
        res == unshifted(k),
{
    match k {
        Key::Exclamationmark => Key::Num1,
        Key::Plus => Key::Equals,
        Key::Pipe => Key::Backslash,
        Key::OpenCurlyBracket => Key::OpenBracket,
        Key::CloseCurlyBracket => Key::CloseBracket,
        Key::Colon => Key::Semicolon,
        Key::Questionmark => Key::Slash,
        Key::Copy => Key::C,
        Key::Paste => Key::P,
        Key::Cut => Key::X,
        other => other,
    }
}

/// Translates a key to the Linux input event code gamescope expects, as the
/// key's unshifted form; keys without a code give `None`.
pub fn egui_key_to_xkb(input_key: Key) -> (res: Option<u32>)
    ensures
        res == key_code(input_key),
{
    match unshift(input_key) {
        Key::Escape => Some(1),
        Key::Num1 => Some(2),
        Key::Num2 => Some(3),
        Key::Num3 => Some(4),
        Key::Num4 => Some(5),
        Key::Num5 => Some(6),
        Key::Num6 => Some(7),
        Key::Num7 => Some(8),
        Key::Num8 => Some(9),
        Key::Num9 => Some(10),
        Key::Num0 => Some(11),
        Key::Minus => Some(12),
        Key::Equals => Some(13),
        Key::Backspace => Some(14),
        Key::Tab => Some(15),
        Key::Q => Some(16),
        Key::W => Some(17),
        Key::E => Some(18),
        Key::R => Some(19),
        Key::T => Some(20),
        Key::Y => Some(21),
        Key::U => Some(22),
        Key::I => Some(23),
        Key::O => Some(24),
        Key::P => Some(25),
        Key::OpenBracket => Some(26),
        Key::CloseBracket => Some(27),
        Key::Enter => Some(28),
        Key::ControlLeft => Some(29),
        Key::A => Some(30),
        Key::S => Some(31),
        Key::D => Some(32),
        Key::F => Some(33),
        Key::G => Some(34),
        Key::H => Some(35),
        Key::J => Some(36),
        Key::K => Some(37),
        Key::L => Some(38),
        Key::Semicolon => Some(39),
        Key::Quote => Some(40),
        Key::Backtick => Some(41),
        Key::ShiftLeft => Some(42),
        Key::Backslash => Some(43),
        Key::Z => Some(44),
        Key::X => Some(45),
        Key::C => Some(46),
        Key::V => Some(47),
        Key::B => Some(48),
        Key::N => Some(49),
        Key::M => Some(50),
        Key::Comma => Some(51),
        Key::Period => Some(52),
        Key::Slash => Some(53),
        Key::ShiftRight => Some(54),
        Key::AltLeft => Some(56),
        Key::Space => Some(57),
        Key::F1 => Some(59),
        Key::F2 => Some(60),
        Key::F3 => Some(61),
        Key::F4 => Some(62),
        Key::F5 => Some(63),
        Key::F6 => Some(64),
        Key::F7 => Some(65),
        Key::F8 => Some(66),
        Key::F9 => Some(67),
        Key::F10 => Some(68),
        Key::IntlBackslash => Some(86),
        Key::F11 => Some(87),
        Key::F12 => Some(88),
        Key::ControlRight => Some(97),
        Key::AltRight => Some(100),
        Key::Home => Some(102),
        Key::ArrowUp => Some(103),
        Key::PageUp => Some(104),
        Key::ArrowLeft => Some(105),
        Key::ArrowRight => Some(106),
        Key::End => Some(107),
        Key::ArrowDown => Some(108),
        Key::PageDown => Some(109),
        Key::Insert => Some(110),
        Key::Delete => Some(111),
        Key::SuperLeft => Some(125),
        Key::SuperRight => Some(126),
        Key::F13 => Some(183),
        Key::F14 => Some(184),
        Key::F15 => Some(185),
        Key::F16 => Some(186),
        Key::F17 => Some(187),
        Key::F18 => Some(188),
        Key::F19 => Some(189),
        Key::F20 => Some(190),
        Key::F21 => Some(191),
        Key::F22 => Some(192),
        Key::F23 => Some(193),
        Key::F24 => Some(194),
        _ => None,
    }
}

/// Every key with a code is sent as the Linux key code of the same name,
/// and every other key is sent as nothing.
pub proof fn lemma_codes_are_linux_key_codes(k: Key)
    ensures
        key_code(Key::Escape) == Some(KEY_ESC as u32),
        key_code(Key::Num1) == Some(KEY_1 as u32),
        key_code(Key::Num2) == Some(KEY_2 as u32),
        key_code(Key::Num3) == Some(KEY_3 as u32),
        key_code(Key::Num4) == Some(KEY_4 as u32),
        key_code(Key::Num5) == Some(KEY_5 as u32),
        key_code(Key::Num6) == Some(KEY_6 as u32),
        key_code(Key::Num7) == Some(KEY_7 as u32),
        key_code(Key::Num8) == Some(KEY_8 as u32),
        key_code(Key::Num9) == Some(KEY_9 as u32),
        key_code(Key::Num0) == Some(KEY_0 as u32),
        key_code(Key::Minus) == Some(KEY_MINUS as u32),
        key_code(Key::Equals) == Some(KEY_EQUAL as u32),
        key_code(Key::Backspace) == Some(KEY_BACKSPACE as u32),
        key_code(Key::Tab) == Some(KEY_TAB as u32),
        key_code(Key::Q) == Some(KEY_Q as u32),
        key_code(Key::W) == Some(KEY_W as u32),
        key_code(Key::E) == Some(KEY_E as u32),
        key_code(Key::R) == Some(KEY_R as u32),
        key_code(Key::T) == Some(KEY_T as u32),
        key_code(Key::Y) == Some(KEY_Y as u32),
        key_code(Key::U) == Some(KEY_U as u32),
        key_code(Key::I) == Some(KEY_I as u32),
        key_code(Key::O) == Some(KEY_O as u32),
        key_code(Key::P) == Some(KEY_P as u32),
        key_code(Key::OpenBracket) == Some(KEY_LEFTBRACE as u32),
        key_code(Key::CloseBracket) == Some(KEY_RIGHTBRACE as u32),
        key_code(Key::Enter) == Some(KEY_ENTER as u32),
        key_code(Key::ControlLeft) == Some(KEY_LEFTCTRL as u32),
        key_code(Key::A) == Some(KEY_A as u32),
        key_code(Key::S) == Some(KEY_S as u32),
        key_code(Key::D) == Some(KEY_D as u32),
        key_code(Key::F) == Some(KEY_F as u32),
        key_code(Key::G) == Some(KEY_G as u32),
        key_code(Key::H) == Some(KEY_H as u32),
        key_code(Key::J) == Some(KEY_J as u32),
        key_code(Key::K) == Some(KEY_K as u32),
        key_code(Key::L) == Some(KEY_L as u32),
        key_code(Key::Semicolon) == Some(KEY_SEMICOLON as u32),
        key_code(Key::Quote) == Some(KEY_APOSTROPHE as u32),
        key_code(Key::Backtick) == Some(KEY_GRAVE as u32),
        key_code(Key::ShiftLeft) == Some(KEY_LEFTSHIFT as u32),
        key_code(Key::Backslash) == Some(KEY_BACKSLASH as u32),
        key_code(Key::Z) == Some(KEY_Z as u32),
        key_code(Key::X) == Some(KEY_X as u32),
        key_code(Key::C) == Some(KEY_C as u32),
        key_code(Key::V) == Some(KEY_V as u32),
        key_code(Key::B) == Some(KEY_B as u32),
        key_code(Key::N) == Some(KEY_N as u32),
        key_code(Key::M) == Some(KEY_M as u32),
        key_code(Key::Comma) == Some(KEY_COMMA as u32),
        key_code(Key::Period) == Some(KEY_DOT as u32),
        key_code(Key::Slash) == Some(KEY_SLASH as u32),
        key_code(Key::ShiftRight) == Some(KEY_RIGHTSHIFT as u32),
        key_code(Key::AltLeft) == Some(KEY_LEFTALT as u32),
        key_code(Key::Space) == Some(KEY_SPACE as u32),
        key_code(Key::F1) == Some(KEY_F1 as u32),
        key_code(Key::F2) == Some(KEY_F2 as u32),
        key_code(Key::F3) == Some(KEY_F3 as u32),
        key_code(Key::F4) == Some(KEY_F4 as u32),
        key_code(Key::F5) == Some(KEY_F5 as u32),
        key_code(Key::F6) == Some(KEY_F6 as u32),
        key_code(Key::F7) == Some(KEY_F7 as u32),
        key_code(Key::F8) == Some(KEY_F8 as u32),
        key_code(Key::F9) == Some(KEY_F9 as u32),
        key_code(Key::F10) == Some(KEY_F10 as u32),
        key_code(Key::IntlBackslash) == Some(KEY_102ND as u32),
        key_code(Key::F11) == Some(KEY_F11 as u32),
        key_code(Key::F12) == Some(KEY_F12 as u32),
        key_code(Key::ControlRight) == Some(KEY_RIGHTCTRL as u32),
        key_code(Key::AltRight) == Some(KEY_RIGHTALT as u32),
        key_code(Key::Home) == Some(KEY_HOME as u32),
        key_code(Key::ArrowUp) == Some(KEY_UP as u32),
        key_code(Key::PageUp) == Some(KEY_PAGEUP as u32),
        key_code(Key::ArrowLeft) == Some(KEY_LEFT as u32),
        key_code(Key::ArrowRight) == Some(KEY_RIGHT as u32),
        key_code(Key::End) == Some(KEY_END as u32),
        key_code(Key::ArrowDown) == Some(KEY_DOWN as u32),
        key_code(Key::PageDown) == Some(KEY_PAGEDOWN as u32),
        key_code(Key::Insert) == Some(KEY_INSERT as u32),
        key_code(Key::Delete) == Some(KEY_DELETE as u32),
        key_code(Key::SuperLeft) == Some(KEY_LEFTMETA as u32),
        key_code(Key::SuperRight) == Some(KEY_RIGHTMETA as u32),
        key_code(Key::F13) == Some(KEY_F13 as u32),
        key_code(Key::F14) == Some(KEY_F14 as u32),
        key_code(Key::F15) == Some(KEY_F15 as u32),
        key_code(Key::F16) == Some(KEY_F16 as u32),
        key_code(Key::F17) == Some(KEY_F17 as u32),
        key_code(Key::F18) == Some(KEY_F18 as u32),
        key_code(Key::F19) == Some(KEY_F19 as u32),
        key_code(Key::F20) == Some(KEY_F20 as u32),
        key_code(Key::F21) == Some(KEY_F21 as u32),
        key_code(Key::F22) == Some(KEY_F22 as u32),
        key_code(Key::F23) == Some(KEY_F23 as u32),
        key_code(Key::F24) == Some(KEY_F24 as u32),
        (key_code(k) is None) <==> (key_code(unshifted(k)) is None),
        key_code(k) is Some ==> 1 <= key_code(k)->0 <= 194,
{
}

/// Whether the keys of `row` have the codes `start`, `start + 1`, ... in
/// order.
pub open spec fn counts_from(row: Seq<Key>, start: int) -> bool {
    forall|i: int| 0 <= i < row.len() ==> key_code(#[trigger] row[i]) == Some((start + i) as u32)
}

/// Along each row of the keyboard, left to right, the Linux codes count up
/// by one from the code of the row's first key.
#[verifier::rlimit(60)]
#[verifier::spinoff_prover]
pub proof fn lemma_rows_count_up()
    ensures
        counts_from(seq![Key::Num1, Key::Num2, Key::Num3, Key::Num4, Key::Num5, Key::Num6, Key::Num7, Key::Num8, Key::Num9, Key::Num0, Key::Minus, Key::Equals, Key::Backspace], KEY_1 as int),
        counts_from(seq![Key::Tab, Key::Q, Key::W, Key::E, Key::R, Key::T, Key::Y, Key::U, Key::I, Key::O, Key::P, Key::OpenBracket, Key::CloseBracket, Key::Enter], KEY_TAB as int),
        counts_from(seq![Key::A, Key::S, Key::D, Key::F, Key::G, Key::H, Key::J, Key::K, Key::L, Key::Semicolon, Key::Quote, Key::Backtick], KEY_A as int),
        counts_from(seq![Key::Z, Key::X, Key::C, Key::V, Key::B, Key::N, Key::M, Key::Comma, Key::Period, Key::Slash], KEY_Z as int),
        counts_from(seq![Key::F1, Key::F2, Key::F3, Key::F4, Key::F5, Key::F6, Key::F7, Key::F8, Key::F9, Key::F10], KEY_F1 as int),
        counts_from(seq![Key::F13, Key::F14, Key::F15, Key::F16, Key::F17, Key::F18, Key::F19, Key::F20, Key::F21, Key::F22, Key::F23, Key::F24], KEY_F13 as int),
{
    let row = seq![Key::Num1, Key::Num2, Key::Num3, Key::Num4, Key::Num5, Key::Num6, Key::Num7, Key::Num8, Key::Num9, Key::Num0, Key::Minus, Key::Equals, Key::Backspace];
    assert forall|i: int| 0 <= i < row.len() implies key_code(#[trigger] row[i]) == Some((KEY_1 as int + i) as u32) by {
        if i == 0 {} else if i == 1 {} else if i == 2 {} else if i == 3 {} else if i == 4 {} else if i == 5 {} else if i == 6 {} else if i == 7 {} else if i == 8 {} else if i == 9 {} else if i == 10 {} else if i == 11 {} else if i == 12 {}
    }
    let row = seq![Key::Tab, Key::Q, Key::W, Key::E, Key::R, Key::T, Key::Y, Key::U, Key::I, Key::O, Key::P, Key::OpenBracket, Key::CloseBracket, Key::Enter];
    assert forall|i: int| 0 <= i < row.len() implies key_code(#[trigger] row[i]) == Some((KEY_TAB as int + i) as u32) by {
        if i == 0 {} else if i == 1 {} else if i == 2 {} else if i == 3 {} else if i == 4 {} else if i == 5 {} else if i == 6 {} else if i == 7 {} else if i == 8 {} else if i == 9 {} else if i == 10 {} else if i == 11 {} else if i == 12 {} else if i == 13 {}
    }
    let row = seq![Key::A, Key::S, Key::D, Key::F, Key::G, Key::H, Key::J, Key::K, Key::L, Key::Semicolon, Key::Quote, Key::Backtick];
    assert forall|i: int| 0 <= i < row.len() implies key_code(#[trigger] row[i]) == Some((KEY_A as int + i) as u32) by {
        if i == 0 {} else if i == 1 {} else if i == 2 {} else if i == 3 {} else if i == 4 {} else if i == 5 {} else if i == 6 {} else if i == 7 {} else if i == 8 {} else if i == 9 {} else if i == 10 {} else if i == 11 {}
    }
    let row = seq![Key::Z, Key::X, Key::C, Key::V, Key::B, Key::N, Key::M, Key::Comma, Key::Period, Key::Slash];
    assert forall|i: int| 0 <= i < row.len() implies key_code(#[trigger] row[i]) == Some((KEY_Z as int + i) as u32) by {
        if i == 0 {} else if i == 1 {} else if i == 2 {} else if i == 3 {} else if i == 4 {} else if i == 5 {} else if i == 6 {} else if i == 7 {} else if i == 8 {} else if i == 9 {}
    }
    let row = seq![Key::F1, Key::F2, Key::F3, Key::F4, Key::F5, Key::F6, Key::F7, Key::F8, Key::F9, Key::F10];
    assert forall|i: int| 0 <= i < row.len() implies key_code(#[trigger] row[i]) == Some((KEY_F1 as int + i) as u32) by {
        if i == 0 {} else if i == 1 {} else if i == 2 {} else if i == 3 {} else if i == 4 {} else if i == 5 {} else if i == 6 {} else if i == 7 {} else if i == 8 {} else if i == 9 {}
    }
    let row = seq![Key::F13, Key::F14, Key::F15, Key::F16, Key::F17, Key::F18, Key::F19, Key::F20, Key::F21, Key::F22, Key::F23, Key::F24];
    assert forall|i: int| 0 <= i < row.len() implies key_code(#[trigger] row[i]) == Some((KEY_F13 as int + i) as u32) by {
        if i == 0 {} else if i == 1 {} else if i == 2 {} else if i == 3 {} else if i == 4 {} else if i == 5 {} else if i == 6 {} else if i == 7 {} else if i == 8 {} else if i == 9 {} else if i == 10 {} else if i == 11 {}
    }
}

/// Pressing one key sends its Linux code as pressed, and letting it go sends
/// it as released.
pub proof fn lemma_single_key_events(k: Key)
    requires
        key_code(k) is Some,
    ensures
        key_events(seq![k], Seq::empty()) == seq![(key_code(k)->0, true)],
        key_events(Seq::empty(), seq![k]) == seq![(key_code(k)->0, false)],
{
    let e = Seq::<Key>::empty();
    assert(seq![k].drop_last() =~= e);
    assert(seq![k].last() == k);
    assert(!e.contains(k));
    assert(changes(e, e, true) =~= Seq::<(u32, bool)>::empty());
    assert(changes(e, e, false) =~= Seq::<(u32, bool)>::empty());
    assert(changes(e, seq![k], true) =~= Seq::<(u32, bool)>::empty());
    assert(changes(e, seq![k], false) =~= Seq::<(u32, bool)>::empty());
    assert(changes(seq![k], e, true) =~= seq![(key_code(k)->0, true)]);
    assert(changes(seq![k], e, false) =~= seq![(key_code(k)->0, false)]);
    assert(key_events(seq![k], Seq::empty()) =~= seq![(key_code(k)->0, true)]);
    assert(key_events(Seq::empty(), seq![k]) =~= seq![(key_code(k)->0, false)]);
}

/// A shifted key is sent as the key it is typed with, and unshifting twice
/// changes nothing.
pub proof fn lemma_unshifted_code(k: Key)
    ensures
        key_code(k) == key_code(unshifted(k)),
        unshifted(unshifted(k)) == unshifted(k),
{
}

/// Two keys with the same code are typed with the same key.
#[verifier::rlimit(100)]
pub proof fn lemma_code_identifies_key(k1: Key, k2: Key)
    requires
        key_code(k1) is Some,
        key_code(k1) == key_code(k2),
    ensures
        unshifted(k1) == unshifted(k2),
{
}

/// The key events for the keys of `a` that are not in `b`, in `a`'s order,
/// each sent as pressed when `down` holds and released otherwise.
pub open spec fn changes(a: Seq<Key>, b: Seq<Key>, down: bool) -> Seq<(u32, bool)>
    decreases a.len(),
{
    if a.len() == 0 {
        Seq::empty()
    } else {
        changes(a.drop_last(), b, down) + if !b.contains(a.last()) && key_code(a.last()) is Some {
            seq![(key_code(a.last())->0, down)]
        } else {
            Seq::empty()
        }
    }
}

/// The events that bring gamescope from the keys held in `last` to those
/// held in `current`: presses of the new keys, then releases of the keys let
/// go, for keys that have a code.
pub open spec fn key_events(current: Seq<Key>, last: Seq<Key>) -> Seq<(u32, bool)> {
    changes(current, last, true) + changes(last, current, false)
}

fn contains_key(v: &Vec<Key>, k: Key) -> (res: bool)
    ensures
        res == v@.contains(k),
{
    let mut i: usize = 0;
    while i < v.len()
        invariant
            i <= v@.len(),
            forall|m: int| 0 <= m < i ==> v@[m] != k,
        decreases v.len() - i,
    {
        if v[i] == k {
            return true;
        }
        i += 1;
    }
    false
}

fn push_changes(out: &mut Vec<(u32, bool)>, a: &Vec<Key>, b: &Vec<Key>, down: bool)
    ensures
        final(out)@ == old(out)@ + changes(a@, b@, down),
{
    let ghost start = out@;
    let mut i: usize = 0;
    proof {
        assert(a@.take(0) =~= Seq::<Key>::empty());
        assert(out@ =~= start + changes(a@.take(0), b@, down));
    }
    while i < a.len()
        invariant
            i <= a@.len(),
            out@ == start + changes(a@.take(i as int), b@, down),
        decreases a.len() - i,
    {
        proof {
            assert(a@.take(i + 1).drop_last() =~= a@.take(i as int));
            assert(a@.take(i + 1).last() == a@[i as int]);
        }
        let k = a[i];
        if !contains_key(b, k) {
            if let Some(code) = egui_key_to_xkb(k) {
                out.push((code, down));
            }
        }
        proof {
            assert(out@ =~= start + changes(a@.take(i + 1), b@, down));
        }
        i += 1;
    }
    proof {
        assert(a@.take(i as int) =~= a@);
    }
}

/// The key events to send when the held keys change from `last` to
/// `current`.
pub fn update_keys_down(current: &Vec<Key>, last: &Vec<Key>) -> (events: Vec<(u32, bool)>)
    ensures
        events@ == key_events(current@, last@),
{
    let mut events: Vec<(u32, bool)> = Vec::new();
    push_changes(&mut events, current, last, true);
    push_changes(&mut events, last, current, false);
    proof {
        assert(events@ =~= key_events(current@, last@));
    }
    events
}

/// Unchanged keys send nothing.
pub proof fn lemma_same_keys_no_events(keys: Seq<Key>)
    ensures
        key_events(keys, keys).len() == 0,
{
    lemma_changes_subset(keys, keys, true);
    lemma_changes_subset(keys, keys, false);
}

proof fn lemma_changes_subset(a: Seq<Key>, b: Seq<Key>, down: bool)
    requires
        forall|k: Key| a.contains(k) ==> b.contains(k),
    ensures
        changes(a, b, down).len() == 0,
    decreases a.len(),
{
    if a.len() > 0 {
        assert(a.contains(a.last()));
        assert forall|k: Key| a.drop_last().contains(k) implies b.contains(k) by {
            let i = choose|i: int| 0 <= i < a.drop_last().len() && a.drop_last()[i] == k;
            assert(a[i] == k);
        }
        lemma_changes_subset(a.drop_last(), b, down);
    }
}

/// The codes gamescope holds down after it was sent `evs`, starting from
/// `held`.
pub open spec fn held_codes(held: Set<u32>, evs: Seq<(u32, bool)>) -> Set<u32>
    decreases evs.len(),
{
    if evs.len() == 0 {
        held
    } else {
        let h = held_codes(held, evs.drop_last());
        if evs.last().1 {
            h.insert(evs.last().0)
        } else {
            h.remove(evs.last().0)
        }
    }
}

/// The codes `code` gives the keys in `keys`, for keys that have one.
pub open spec fn codes_by(keys: Seq<Key>, code: spec_fn(Key) -> Option<u32>) -> Set<u32> {
    Set::new(|c: u32| exists|i: int| 0 <= i < keys.len() && code(keys[i]) == Some(c))
}

/// The codes `code` gives the keys of `a` that are not in `b`.
pub open spec fn codes_not_in_by(a: Seq<Key>, b: Seq<Key>, code: spec_fn(Key) -> Option<u32>) -> Set<u32> {
    Set::new(|c: u32| exists|i: int| 0 <= i < a.len() && !b.contains(a[i]) && code(a[i]) == Some(c))
}

/// The key codes of the keys in `keys`, for keys that have one.
pub open spec fn codes_of(keys: Seq<Key>) -> Set<u32> {
    codes_by(keys, |k: Key| key_code(k))
}

/// The key codes of the keys of `a` that are not in `b`.
pub open spec fn codes_not_in(a: Seq<Key>, b: Seq<Key>) -> Set<u32> {
    codes_not_in_by(a, b, |k: Key| key_code(k))
}

proof fn lemma_held_codes_append(held: Set<u32>, a: Seq<(u32, bool)>, b: Seq<(u32, bool)>)
    ensures
        held_codes(held, a + b) == held_codes(held_codes(held, a), b),
    decreases b.len(),
{
    if b.len() == 0 {
        assert(a + b =~= a);
    } else {
        assert((a + b).drop_last() =~= a + b.drop_last());
        lemma_held_codes_append(held, a, b.drop_last());
    }
}

proof fn lemma_held_codes_changes(held: Set<u32>, a: Seq<Key>, b: Seq<Key>, down: bool)
    ensures
        held_codes(held, changes(a, b, down)) == if down {
            held.union(codes_not_in(a, b))
        } else {
            held.difference(codes_not_in(a, b))
        },
    decreases a.len(),
{
    if a.len() == 0 {
        assert(codes_not_in(a, b) =~= Set::<u32>::empty());
        if down {
            assert(held.union(codes_not_in(a, b)) =~= held);
        } else {
            assert(held.difference(codes_not_in(a, b)) =~= held);
        }
    } else {
        let rest = a.drop_last();
        let k = a.last();
        lemma_held_codes_changes(held, rest, b, down);
        let tail: Seq<(u32, bool)> = if !b.contains(k) && key_code(k) is Some {
            seq![(key_code(k)->0, down)]
        } else {
            Seq::empty()
        };
        lemma_held_codes_append(held, changes(rest, b, down), tail);
        assert forall|c: u32| codes_not_in(a, b).contains(c) <==> (codes_not_in(rest, b).contains(c) || (!b.contains(k)
            && key_code(k) == Some(c))) by {
            if codes_not_in(a, b).contains(c) {
                let i = choose|i: int| 0 <= i < a.len() && !b.contains(a[i]) && key_code(a[i]) == Some(c);
                if i < a.len() - 1 {
                    assert(rest[i] == a[i]);
                }
            }
            if codes_not_in(rest, b).contains(c) {
                let i = choose|i: int| 0 <= i < rest.len() && !b.contains(rest[i]) && key_code(rest[i]) == Some(c);
                assert(a[i] == rest[i]);
            }
            if !b.contains(k) && key_code(k) == Some(c) {
                assert(a[a.len() - 1] == k);
            }
        }
        let h0 = held_codes(held, changes(rest, b, down));
        assert(changes(a, b, down) == changes(rest, b, down) + tail);
        if tail.len() == 0 {
            assert(held_codes(h0, tail) == h0);
        } else {
            assert(tail.drop_last() =~= Seq::<(u32, bool)>::empty());
            assert(held_codes(h0, tail.drop_last()) == h0);
            assert(held_codes(h0, tail) == if down {
                h0.insert(key_code(k)->0)
            } else {
                h0.remove(key_code(k)->0)
            });
        }
        if down {
            assert(held_codes(held, changes(a, b, down)) =~= held.union(codes_not_in(a, b)));
        } else {
            assert(held_codes(held, changes(a, b, down)) =~= held.difference(codes_not_in(a, b)));
        }
    }
}

/// Starting from the codes of `last`, adding those of new keys and taking
/// those of released keys gives the codes of `current`, when no two of the
/// keys share a code.
proof fn lemma_code_sets(current: Seq<Key>, last: Seq<Key>, code: spec_fn(Key) -> Option<u32>)
    requires
        forall|k1: Key, k2: Key| (current + last).contains(k1) && (current + last).contains(k2) && code(k1) is Some
            && code(k1) == code(k2) ==> k1 == k2,
    ensures
        codes_by(last, code).union(codes_not_in_by(current, last, code)).difference(codes_not_in_by(last, current, code))
            == codes_by(current, code),
{
    let res = codes_by(last, code).union(codes_not_in_by(current, last, code)).difference(
        codes_not_in_by(last, current, code),
    );
    assert forall|c: u32| res.contains(c) <==> codes_by(current, code).contains(c) by {
        if codes_by(current, code).contains(c) {
            let i = choose|i: int| 0 <= i < current.len() && code(current[i]) == Some(c);
            let k = current[i];
            assert((current + last)[i] == k);
            if last.contains(k) {
                let j = choose|j: int| 0 <= j < last.len() && last[j] == k;
                assert(codes_by(last, code).contains(c));
            } else {
                assert(codes_not_in_by(current, last, code).contains(c));
            }
            if codes_not_in_by(last, current, code).contains(c) {
                let j = choose|j: int| 0 <= j < last.len() && !current.contains(last[j]) && code(last[j]) == Some(c);
                assert((current + last)[current.len() + j] == last[j]);
                assert((current + last).contains(last[j]));
                assert((current + last).contains(k));
                assert(last[j] == k);
                assert(current.contains(k));
            }
        }
        if res.contains(c) {
            if codes_not_in_by(current, last, code).contains(c) {
                let i = choose|i: int| 0 <= i < current.len() && !last.contains(current[i]) && code(current[i]) == Some(c);
                assert(codes_by(current, code).contains(c));
            } else {
                let j = choose|j: int| 0 <= j < last.len() && code(last[j]) == Some(c);
                if !current.contains(last[j]) {
                    assert(codes_not_in_by(last, current, code).contains(c));
                }
                let i = choose|i: int| 0 <= i < current.len() && current[i] == last[j];
                assert(codes_by(current, code).contains(c));
            }
        }
    }
    assert(res =~= codes_by(current, code));
}

/// Sending the key events brings gamescope from the keys held in `last` to
/// those held in `current`, when no two of these keys share a code.
pub proof fn lemma_key_events_reach_current(current: Seq<Key>, last: Seq<Key>)
    requires
        forall|k1: Key, k2: Key| (current + last).contains(k1) && (current + last).contains(k2) && key_code(k1) is Some
            && key_code(k1) == key_code(k2) ==> k1 == k2,
    ensures
        held_codes(codes_of(last), key_events(current, last)) == codes_of(current),
{
    let p = changes(current, last, true);
    let r = changes(last, current, false);
    lemma_held_codes_append(codes_of(last), p, r);
    lemma_held_codes_changes(codes_of(last), current, last, true);
    lemma_held_codes_changes(codes_of(last).union(codes_not_in(current, last)), last, current, false);
    lemma_code_sets(current, last, |k: Key| key_code(k));
}

/// How the pointer moved relative to an instance's tile since the last
/// frame.
#[derive(Clone, Copy, PartialEq, Eq, Structural, Debug)]
pub enum PointerStep {
    /// It came in: the pointer is placed and the held keys are sent.
    Enter,
    /// It left: every held key is released.
    Leave,
    /// It moved within the tile: the motion and the held keys are sent.
    Move,
    /// It stays outside: nothing is sent.
    Outside,
}

pub fn pointer_step(was_inside: bool, is_inside: bool) -> (s: PointerStep)
    ensures
        s == if !was_inside && is_inside {
            PointerStep::Enter
        } else if was_inside && !is_inside {
            PointerStep::Leave
        } else if was_inside && is_inside {
            PointerStep::Move
        } else {
            PointerStep::Outside
        },
{
    if !was_inside && is_inside {
        PointerStep::Enter
    } else if was_inside && !is_inside {
        PointerStep::Leave
    } else if was_inside && is_inside {
        PointerStep::Move
    } else {
        PointerStep::Outside
    }
}

/// The keys whose state gamescope gets for a pointer step, or `None` when no
/// key update is sent.
pub fn keys_for_step(step: PointerStep, current: Vec<Key>) -> (res: Option<Vec<Key>>)
    ensures
        match step {
            PointerStep::Enter | PointerStep::Move => res matches Some(k) && k@ == current@,
            PointerStep::Leave => res matches Some(k) && k@.len() == 0,
            PointerStep::Outside => res is None,
        },
{
    match step {
        PointerStep::Enter | PointerStep::Move => Some(current),
        PointerStep::Leave => Some(Vec::new()),
        PointerStep::Outside => None,
    }
}

/// A mouse button.
#[derive(Clone, Copy, PartialEq, Eq, Structural, Debug)]
pub enum PointerButton {
    Primary,
    Secondary,
    Middle,
}

/// The Linux input event code of a mouse button.
pub fn pointer_button_code(b: PointerButton) -> (code: u32)
    ensures
        code == match b {
            PointerButton::Primary => 0x110u32,
            PointerButton::Secondary => 0x111u32,
            PointerButton::Middle => 0x112u32,
        },
{
    match b {
        PointerButton::Primary => 0x110,
        PointerButton::Secondary => 0x111,
        PointerButton::Middle => 0x112,
    }
}

} // verus!
