//! Export of a layout as a firmware keymap: one named key action per slot.

use vstd::prelude::*;
use crate::layout::Behavior;
use crate::layout::Layout;
use crate::layout::LayoutView;
use crate::text::push_char;

verus! {

/// The characters that the keymap has a key code for, and the empty slot.
#[derive(Debug, Clone, Copy, PartialEq, Eq, Structural)]
pub enum KeyCode {
    Null,
    A,
    B,
    C,
    D,
    E,
    F,
    G,
    H,
    I,
    J,
    K,
    L,
    M,
    N,
    O,
    P,
    Q,
    R,
    S,
    T,
    U,
    V,
    W,
    X,
    Y,
    Z,
    N1,
    N2,
    N3,
    N4,
    N5,
    N6,
    N7,
    N8,
    N9,
    N0,
    Enter,
    Tab,
    Space,
    Minus,
    Equal,
    LeftBracket,
    RightBracket,
    Backslash,
    Semicolon,
    Quote,
    Grave,
    Comma,
    Dot,
    Slash,
    Tilde,
    Exclaim,
    At,
    Hash,
    Dollar,
    Percent,
    Circumflex,
    Ampersand,
    Asterisk,
    LeftParen,
    RightParen,
    Underscore,
    Plus,
    LeftBrace,
    RightBrace,
    Pipe,
    Colon,
    DoubleQuote,
    LessThan,
    MoreThan,
    Question,
}

/// Whether the keymap has a key code for the character with code `n`: for 0, which
/// stands for the empty slot, and for every character of the alphabet but the capital
/// letters.
pub open spec fn supported(n: u8) -> bool {
    n == 0 || n == 9 || n == 10 || (0x20 <= n <= 0x7e && !(0x41 <= n <= 0x5a))
}

impl KeyCode {
    /// The character code that the key code stands for.
    pub open spec fn code_spec(self) -> u8 {
        match self {
            KeyCode::Null => 0,
            KeyCode::A => 97,
            KeyCode::B => 98,
            KeyCode::C => 99,
            KeyCode::D => 100,
            KeyCode::E => 101,
            KeyCode::F => 102,
            KeyCode::G => 103,
            KeyCode::H => 104,
            KeyCode::I => 105,
            KeyCode::J => 106,
            KeyCode::K => 107,
            KeyCode::L => 108,
            KeyCode::M => 109,
            KeyCode::N => 110,
            KeyCode::O => 111,
            KeyCode::P => 112,
            KeyCode::Q => 113,
            KeyCode::R => 114,
            KeyCode::S => 115,
            KeyCode::T => 116,
            KeyCode::U => 117,
            KeyCode::V => 118,
            KeyCode::W => 119,
            KeyCode::X => 120,
            KeyCode::Y => 121,
            KeyCode::Z => 122,
            KeyCode::N1 => 49,
            KeyCode::N2 => 50,
            KeyCode::N3 => 51,
            KeyCode::N4 => 52,
            KeyCode::N5 => 53,
            KeyCode::N6 => 54,
            KeyCode::N7 => 55,
            KeyCode::N8 => 56,
            KeyCode::N9 => 57,
            KeyCode::N0 => 48,
            KeyCode::Enter => 10,
            KeyCode::Tab => 9,
            KeyCode::Space => 32,
            KeyCode::Minus => 45,
            KeyCode::Equal => 61,
            KeyCode::LeftBracket => 91,
            KeyCode::RightBracket => 93,
            KeyCode::Backslash => 92,
            KeyCode::Semicolon => 59,
            KeyCode::Quote => 39,
            KeyCode::Grave => 96,
            KeyCode::Comma => 44,
            KeyCode::Dot => 46,
            KeyCode::Slash => 47,
            KeyCode::Tilde => 126,
            KeyCode::Exclaim => 33,
            KeyCode::At => 64,
            KeyCode::Hash => 35,
            KeyCode::Dollar => 36,
            KeyCode::Percent => 37,
            KeyCode::Circumflex => 94,
            KeyCode::Ampersand => 38,
            KeyCode::Asterisk => 42,
            KeyCode::LeftParen => 40,
            KeyCode::RightParen => 41,
            KeyCode::Underscore => 95,
            KeyCode::Plus => 43,
            KeyCode::LeftBrace => 123,
            KeyCode::RightBrace => 125,
            KeyCode::Pipe => 124,
            KeyCode::Colon => 58,
            KeyCode::DoubleQuote => 34,
            KeyCode::LessThan => 60,
            KeyCode::MoreThan => 62,
            KeyCode::Question => 63,
        }
    }

    /// The key code of the character with code `n`, if there is one.
    pub open spec fn from_code(n: u8) -> Option<KeyCode> {
        match n {
            0 => Some(KeyCode::Null),
            9 => Some(KeyCode::Tab),
            10 => Some(KeyCode::Enter),
            32 => Some(KeyCode::Space),
            33 => Some(KeyCode::Exclaim),
            34 => Some(KeyCode::DoubleQuote),
            35 => Some(KeyCode::Hash),
            36 => Some(KeyCode::Dollar),
            37 => Some(KeyCode::Percent),
            38 => Some(KeyCode::Ampersand),
            39 => Some(KeyCode::Quote),
            40 => Some(KeyCode::LeftParen),
            41 => Some(KeyCode::RightParen),
            42 => Some(KeyCode::Asterisk),
            43 => Some(KeyCode::Plus),
            44 => Some(KeyCode::Comma),
            45 => Some(KeyCode::Minus),
            46 => Some(KeyCode::Dot),
            47 => Some(KeyCode::Slash),
            48 => Some(KeyCode::N0),
            49 => Some(KeyCode::N1),
            50 => Some(KeyCode::N2),
            51 => Some(KeyCode::N3),
            52 => Some(KeyCode::N4),
            53 => Some(KeyCode::N5),
            54 => Some(KeyCode::N6),
            55 => Some(KeyCode::N7),
            56 => Some(KeyCode::N8),
            57 => Some(KeyCode::N9),
            58 => Some(KeyCode::Colon),
            59 => Some(KeyCode::Semicolon),
            60 => Some(KeyCode::LessThan),
            61 => Some(KeyCode::Equal),
            62 => Some(KeyCode::MoreThan),
            63 => Some(KeyCode::Question),
            64 => Some(KeyCode::At),
            91 => Some(KeyCode::LeftBracket),
            92 => Some(KeyCode::Backslash),
            93 => Some(KeyCode::RightBracket),
            94 => Some(KeyCode::Circumflex),
            95 => Some(KeyCode::Underscore),
            96 => Some(KeyCode::Grave),
            97 => Some(KeyCode::A),
            98 => Some(KeyCode::B),
            99 => Some(KeyCode::C),
            100 => Some(KeyCode::D),
            101 => Some(KeyCode::E),
            102 => Some(KeyCode::F),
            103 => Some(KeyCode::G),
            104 => Some(KeyCode::H),
            105 => Some(KeyCode::I),
            106 => Some(KeyCode::J),
            107 => Some(KeyCode::K),
            108 => Some(KeyCode::L),
            109 => Some(KeyCode::M),
            110 => Some(KeyCode::N),
            111 => Some(KeyCode::O),
            112 => Some(KeyCode::P),
            113 => Some(KeyCode::Q),
            114 => Some(KeyCode::R),
            115 => Some(KeyCode::S),
            116 => Some(KeyCode::T),
            117 => Some(KeyCode::U),
            118 => Some(KeyCode::V),
            119 => Some(KeyCode::W),
            120 => Some(KeyCode::X),
            121 => Some(KeyCode::Y),
            122 => Some(KeyCode::Z),
            123 => Some(KeyCode::LeftBrace),
            124 => Some(KeyCode::Pipe),
            125 => Some(KeyCode::RightBrace),
            126 => Some(KeyCode::Tilde),
            _ => None,
        }
    }

    /// The name of the key code in the keymap.
    pub open spec fn name(self) -> Seq<char> {
        match self {
            KeyCode::Null => "_______"@,
            KeyCode::A => "KC_A"@,
            KeyCode::B => "KC_B"@,
            KeyCode::C => "KC_C"@,
            KeyCode::D => "KC_D"@,
            KeyCode::E => "KC_E"@,
            KeyCode::F => "KC_F"@,
            KeyCode::G => "KC_G"@,
            KeyCode::H => "KC_H"@,
            KeyCode::I => "KC_I"@,
            KeyCode::J => "KC_J"@,
            KeyCode::K => "KC_K"@,
            KeyCode::L => "KC_L"@,
            KeyCode::M => "KC_M"@,
            KeyCode::N => "KC_N"@,
            KeyCode::O => "KC_O"@,
            KeyCode::P => "KC_P"@,
            KeyCode::Q => "KC_Q"@,
            KeyCode::R => "KC_R"@,
            KeyCode::S => "KC_S"@,
            KeyCode::T => "KC_T"@,
            KeyCode::U => "KC_U"@,
            KeyCode::V => "KC_V"@,
            KeyCode::W => "KC_W"@,
            KeyCode::X => "KC_X"@,
            KeyCode::Y => "KC_Y"@,
            KeyCode::Z => "KC_Z"@,
            KeyCode::N1 => "KC_1"@,
            KeyCode::N2 => "KC_2"@,
            KeyCode::N3 => "KC_3"@,
            KeyCode::N4 => "KC_4"@,
            KeyCode::N5 => "KC_5"@,
            KeyCode::N6 => "KC_6"@,
            KeyCode::N7 => "KC_7"@,
            KeyCode::N8 => "KC_8"@,
            KeyCode::N9 => "KC_9"@,
            KeyCode::N0 => "KC_0"@,
            KeyCode::Enter => "KC_ENT"@,
            KeyCode::Tab => "KC_TAB"@,
            KeyCode::Space => "KC_SPC"@,
            KeyCode::Minus => "KC_MINS"@,
            KeyCode::Equal => "KC_EQL"@,
            KeyCode::LeftBracket => "KC_LBRC"@,
            KeyCode::RightBracket => "KC_RBRC"@,
            KeyCode::Backslash => "KC_BSLS"@,
            KeyCode::Semicolon => "KC_SCLN"@,
            KeyCode::Quote => "KC_QUOT"@,
            KeyCode::Grave => "KC_GRV"@,
            KeyCode::Comma => "KC_COMM"@,
            KeyCode::Dot => "KC_DOT"@,
            KeyCode::Slash => "KC_SLSH"@,
            KeyCode::Tilde => "KC_TILD"@,
            KeyCode::Exclaim => "KC_EXLM"@,
            KeyCode::At => "KC_AT"@,
            KeyCode::Hash => "KC_HASH"@,
            KeyCode::Dollar => "KC_DLR"@,
            KeyCode::Percent => "KC_PERC"@,
            KeyCode::Circumflex => "KC_CIRC"@,
            KeyCode::Ampersand => "KC_AMPR"@,
            KeyCode::Asterisk => "KC_ASTR"@,
            KeyCode::LeftParen => "KC_LPRN"@,
            KeyCode::RightParen => "KC_RPRN"@,
            KeyCode::Underscore => "KC_UNDS"@,
            KeyCode::Plus => "KC_PLUS"@,
            KeyCode::LeftBrace => "KC_LCBR"@,
            KeyCode::RightBrace => "KC_RCBR"@,
            KeyCode::Pipe => "KC_PIPE"@,
            KeyCode::Colon => "KC_COLN"@,
            KeyCode::DoubleQuote => "KC_DQUO"@,
            KeyCode::LessThan => "KC_LT"@,
            KeyCode::MoreThan => "KC_GT"@,
            KeyCode::Question => "KC_QUES"@,
        }
    }

    /// The character code that the key code stands for.
    #[verifier::when_used_as_spec(code_spec)]
    pub fn code(self) -> (r: u8)
        ensures
            r == self.code_spec(),
    {
        match self {
            KeyCode::Null => 0,
            KeyCode::A => 97,
            KeyCode::B => 98,
            KeyCode::C => 99,
            KeyCode::D => 100,
            KeyCode::E => 101,
            KeyCode::F => 102,
            KeyCode::G => 103,
            KeyCode::H => 104,
            KeyCode::I => 105,
            KeyCode::J => 106,
            KeyCode::K => 107,
            KeyCode::L => 108,
            KeyCode::M => 109,
            KeyCode::N => 110,
            KeyCode::O => 111,
            KeyCode::P => 112,
            KeyCode::Q => 113,
            KeyCode::R => 114,
            KeyCode::S => 115,
            KeyCode::T => 116,
            KeyCode::U => 117,
            KeyCode::V => 118,
            KeyCode::W => 119,
            KeyCode::X => 120,
            KeyCode::Y => 121,
            KeyCode::Z => 122,
            KeyCode::N1 => 49,
            KeyCode::N2 => 50,
            KeyCode::N3 => 51,
            KeyCode::N4 => 52,
            KeyCode::N5 => 53,
            KeyCode::N6 => 54,
            KeyCode::N7 => 55,
            KeyCode::N8 => 56,
            KeyCode::N9 => 57,
            KeyCode::N0 => 48,
            KeyCode::Enter => 10,
            KeyCode::Tab => 9,
            KeyCode::Space => 32,
            KeyCode::Minus => 45,
            KeyCode::Equal => 61,
            KeyCode::LeftBracket => 91,
            KeyCode::RightBracket => 93,
            KeyCode::Backslash => 92,
            KeyCode::Semicolon => 59,
            KeyCode::Quote => 39,
            KeyCode::Grave => 96,
            KeyCode::Comma => 44,
            KeyCode::Dot => 46,
            KeyCode::Slash => 47,
            KeyCode::Tilde => 126,
            KeyCode::Exclaim => 33,
            KeyCode::At => 64,
            KeyCode::Hash => 35,
            KeyCode::Dollar => 36,
            KeyCode::Percent => 37,
            KeyCode::Circumflex => 94,
            KeyCode::Ampersand => 38,
            KeyCode::Asterisk => 42,
            KeyCode::LeftParen => 40,
            KeyCode::RightParen => 41,
            KeyCode::Underscore => 95,
            KeyCode::Plus => 43,
            KeyCode::LeftBrace => 123,
            KeyCode::RightBrace => 125,
            KeyCode::Pipe => 124,
            KeyCode::Colon => 58,
            KeyCode::DoubleQuote => 34,
            KeyCode::LessThan => 60,
            KeyCode::MoreThan => 62,
            KeyCode::Question => 63,
        }
    }

    /// The key code of the character with code `number`, if there is one.
    pub fn try_from_primitive(number: u8) -> (r: Option<KeyCode>)
        ensures
            r == Self::from_code(number),
            r is Some <==> supported(number),
            r matches Some(k) ==> k.code_spec() == number,
    {
        match number {
            0 => Some(KeyCode::Null),
            9 => Some(KeyCode::Tab),
            10 => Some(KeyCode::Enter),
            32 => Some(KeyCode::Space),
            33 => Some(KeyCode::Exclaim),
            34 => Some(KeyCode::DoubleQuote),
            35 => Some(KeyCode::Hash),
            36 => Some(KeyCode::Dollar),
            37 => Some(KeyCode::Percent),
            38 => Some(KeyCode::Ampersand),
            39 => Some(KeyCode::Quote),
            40 => Some(KeyCode::LeftParen),
            41 => Some(KeyCode::RightParen),
            42 => Some(KeyCode::Asterisk),
            43 => Some(KeyCode::Plus),
            44 => Some(KeyCode::Comma),
            45 => Some(KeyCode::Minus),
            46 => Some(KeyCode::Dot),
            47 => Some(KeyCode::Slash),
            48 => Some(KeyCode::N0),
            49 => Some(KeyCode::N1),
            50 => Some(KeyCode::N2),
            51 => Some(KeyCode::N3),
            52 => Some(KeyCode::N4),
            53 => Some(KeyCode::N5),
            54 => Some(KeyCode::N6),
            55 => Some(KeyCode::N7),
            56 => Some(KeyCode::N8),
            57 => Some(KeyCode::N9),
            58 => Some(KeyCode::Colon),
            59 => Some(KeyCode::Semicolon),
            60 => Some(KeyCode::LessThan),
            61 => Some(KeyCode::Equal),
            62 => Some(KeyCode::MoreThan),
            63 => Some(KeyCode::Question),
            64 => Some(KeyCode::At),
            91 => Some(KeyCode::LeftBracket),
            92 => Some(KeyCode::Backslash),
            93 => Some(KeyCode::RightBracket),
            94 => Some(KeyCode::Circumflex),
            95 => Some(KeyCode::Underscore),
            96 => Some(KeyCode::Grave),
            97 => Some(KeyCode::A),
            98 => Some(KeyCode::B),
            99 => Some(KeyCode::C),
            100 => Some(KeyCode::D),
            101 => Some(KeyCode::E),
            102 => Some(KeyCode::F),
            103 => Some(KeyCode::G),
            104 => Some(KeyCode::H),
            105 => Some(KeyCode::I),
            106 => Some(KeyCode::J),
            107 => Some(KeyCode::K),
            108 => Some(KeyCode::L),
            109 => Some(KeyCode::M),
            110 => Some(KeyCode::N),
            111 => Some(KeyCode::O),
            112 => Some(KeyCode::P),
            113 => Some(KeyCode::Q),
            114 => Some(KeyCode::R),
            115 => Some(KeyCode::S),
            116 => Some(KeyCode::T),
            117 => Some(KeyCode::U),
            118 => Some(KeyCode::V),
            119 => Some(KeyCode::W),
            120 => Some(KeyCode::X),
            121 => Some(KeyCode::Y),
            122 => Some(KeyCode::Z),
            123 => Some(KeyCode::LeftBrace),
            124 => Some(KeyCode::Pipe),
            125 => Some(KeyCode::RightBrace),
            126 => Some(KeyCode::Tilde),
            _ => None,
        }
    }

    /// The name of the key code in the keymap.
    pub fn as_str(&self) -> (r: &'static str)
        ensures
            r@ == self.name(),
    {
        match self {
            KeyCode::Null => "_______",
            KeyCode::A => "KC_A",
            KeyCode::B => "KC_B",
            KeyCode::C => "KC_C",
            KeyCode::D => "KC_D",
            KeyCode::E => "KC_E",
            KeyCode::F => "KC_F",
            KeyCode::G => "KC_G",
            KeyCode::H => "KC_H",
            KeyCode::I => "KC_I",
            KeyCode::J => "KC_J",
            KeyCode::K => "KC_K",
            KeyCode::L => "KC_L",
            KeyCode::M => "KC_M",
            KeyCode::N => "KC_N",
            KeyCode::O => "KC_O",
            KeyCode::P => "KC_P",
            KeyCode::Q => "KC_Q",
            KeyCode::R => "KC_R",
            KeyCode::S => "KC_S",
            KeyCode::T => "KC_T",
            KeyCode::U => "KC_U",
            KeyCode::V => "KC_V",
            KeyCode::W => "KC_W",
            KeyCode::X => "KC_X",
            KeyCode::Y => "KC_Y",
            KeyCode::Z => "KC_Z",
            KeyCode::N1 => "KC_1",
            KeyCode::N2 => "KC_2",
            KeyCode::N3 => "KC_3",
            KeyCode::N4 => "KC_4",
            KeyCode::N5 => "KC_5",
            KeyCode::N6 => "KC_6",
            KeyCode::N7 => "KC_7",
            KeyCode::N8 => "KC_8",
            KeyCode::N9 => "KC_9",
            KeyCode::N0 => "KC_0",
            KeyCode::Enter => "KC_ENT",
            KeyCode::Tab => "KC_TAB",
            KeyCode::Space => "KC_SPC",
            KeyCode::Minus => "KC_MINS",
            KeyCode::Equal => "KC_EQL",
            KeyCode::LeftBracket => "KC_LBRC",
            KeyCode::RightBracket => "KC_RBRC",
            KeyCode::Backslash => "KC_BSLS",
            KeyCode::Semicolon => "KC_SCLN",
            KeyCode::Quote => "KC_QUOT",
            KeyCode::Grave => "KC_GRV",
            KeyCode::Comma => "KC_COMM",
            KeyCode::Dot => "KC_DOT",
            KeyCode::Slash => "KC_SLSH",
            KeyCode::Tilde => "KC_TILD",
            KeyCode::Exclaim => "KC_EXLM",
            KeyCode::At => "KC_AT",
            KeyCode::Hash => "KC_HASH",
            KeyCode::Dollar => "KC_DLR",
            KeyCode::Percent => "KC_PERC",
            KeyCode::Circumflex => "KC_CIRC",
            KeyCode::Ampersand => "KC_AMPR",
            KeyCode::Asterisk => "KC_ASTR",
            KeyCode::LeftParen => "KC_LPRN",
            KeyCode::RightParen => "KC_RPRN",
            KeyCode::Underscore => "KC_UNDS",
            KeyCode::Plus => "KC_PLUS",
            KeyCode::LeftBrace => "KC_LCBR",
            KeyCode::RightBrace => "KC_RCBR",
            KeyCode::Pipe => "KC_PIPE",
            KeyCode::Colon => "KC_COLN",
            KeyCode::DoubleQuote => "KC_DQUO",
            KeyCode::LessThan => "KC_LT",
            KeyCode::MoreThan => "KC_GT",
            KeyCode::Question => "KC_QUES",
        }
    }
}

/// Every key code is the key code of its own character.
pub proof fn lemma_code_round_trip(k: KeyCode)
    ensures
        supported(k.code_spec()),
        KeyCode::from_code(k.code_spec()) == Some(k),
{
}

/// The character of the decimal digit `d`.
pub open spec fn digit_char(d: int) -> char {
    ((0x30 + d) as u8) as char
}

/// The decimal numeral of `n`.
pub open spec fn decimal(n: nat) -> Seq<char>
    decreases n,
{
    if n < 10 {
        seq![digit_char(n as int)]
    } else {
        decimal(n / 10).push(digit_char((n % 10) as int))
    }
}

/// The decimal numeral of `n`.
pub fn decimal_text(n: u8) -> (r: String)
    ensures
        r@ == decimal(n as nat),
{
    let mut text = String::new();
    if n >= 100 {
        push_char(&mut text, (0x30 + n / 100) as char);
    }
    if n >= 10 {
        push_char(&mut text, (0x30 + (n / 10) % 10) as char);
    }
    push_char(&mut text, (0x30 + n % 10) as char);
    proof {
        reveal_with_fuel(decimal, 3);
        assert(text@ =~= decimal(n as nat));
    }
    text
}

/// What a slot does in the keymap.
#[derive(Debug, Clone, Copy, PartialEq, Eq, Structural)]
pub enum QmkKey {
    /// Tapped or held, it produces the character.
    Direct(KeyCode),
    /// Tapped, it produces the character; held, it shifts.
    ModTapShift(KeyCode),
    /// Tapped, it produces the character; held, it activates the layer.
    ModTapLayer(KeyCode, u8),
}

impl QmkKey {
    /// The key action as the keymap writes it.
    pub open spec fn text(self) -> Seq<char> {
        match self {
            QmkKey::Direct(k) => k.name(),
            QmkKey::ModTapShift(k) => "LSFT_T("@ + k.name() + ")"@,
            QmkKey::ModTapLayer(k, l) => "LT("@ + decimal(l as nat) + ","@ + k.name() + ")"@,
        }
    }

    /// The key action as the keymap writes it.
    pub fn to_string(&self) -> (r: String)
        ensures
            r@ == self.text(),
    {
        match self {
            QmkKey::Direct(k) => k.as_str().to_owned(),
            QmkKey::ModTapShift(k) => {
                let mut text = "LSFT_T(".to_owned();
                text.append(k.as_str());
                text.append(")");
                text
            },
            QmkKey::ModTapLayer(k, l) => {
                let mut text = "LT(".to_owned();
                let number = decimal_text(*l);
                text.append(number.as_str());
                text.append(",");
                text.append(k.as_str());
                text.append(")");
                text
            },
        }
    }
}

/// The key action of a slot: its tap character, and on the base layer its hold
/// behaviour.
pub open spec fn action(code: KeyCode, hold: Option<Behavior>) -> QmkKey {
    match hold {
        None => QmkKey::Direct(code),
        Some(Behavior::Shift) => QmkKey::ModTapShift(code),
        Some(Behavior::Layer(l)) => QmkKey::ModTapLayer(code, l),
    }
}

/// The character code that a slot is exported under: 0 for an empty slot.
pub open spec fn slot_code(key: Option<u8>) -> u8 {
    match key {
        Some(k) => k,
        None => 0,
    }
}

/// The key actions of one layer.
#[derive(Debug, Clone)]
pub struct QmkLayer {
    pub keys: Vec<QmkKey>,
}

/// Why a layout is not exported.
#[derive(Debug, Clone, Copy, PartialEq, Eq, Structural)]
pub enum ExportError {
    /// The keymap has no key code for the character with this code.
    Unsupported(u8),
}

/// A keymap in the form the firmware's tools read.
#[derive(Debug, Clone)]
pub struct QmkKeymap {
    pub version: u32,
    pub notes: String,
    pub documentation: String,
    pub keyboard: String,
    pub keymap: String,
    pub layout: String,
    pub layers: Vec<QmkLayer>,
    pub author: String,
}

/// Number of slots of layer `l` that are exported: on the base layer as many as have
/// a hold behaviour beside them, on the others all.
pub open spec fn exported_len(lv: LayoutView, l: int) -> int {
    if l == 0 && lv.base_hold.len() < lv.layers[0].len() {
        lv.base_hold.len() as int
    } else {
        lv.layers[l].len() as int
    }
}

/// Whether slot `i` of layer `l` is exported and has no key code.
pub open spec fn is_bad(lv: LayoutView, l: int, i: int) -> bool {
    &&& 0 <= l < lv.layers.len()
    &&& 0 <= i < exported_len(lv, l)
    &&& !supported(slot_code(lv.layers[l][i]))
}

/// Whether slot `(l, i)` comes before slot `(l2, i2)` in the order of export.
pub open spec fn slot_before(l: int, i: int, l2: int, i2: int) -> bool {
    l < l2 || (l == l2 && i < i2)
}

/// The key action exported for slot `i` of layer `l`.
pub open spec fn exported_key(lv: LayoutView, l: int, i: int) -> QmkKey {
    let code = KeyCode::from_code(slot_code(lv.layers[l][i]))->0;
    if l == 0 {
        action(code, lv.base_hold[i])
    } else {
        QmkKey::Direct(code)
    }
}

/// Whether `layers` are the key actions of `lv`.
pub open spec fn exports(lv: LayoutView, layers: Seq<QmkLayer>) -> bool {
    &&& layers.len() == lv.layers.len()
    &&& forall|l: int| 0 <= l < layers.len() ==> (#[trigger] layers[l]).keys@.len() == exported_len(lv, l)
    &&& forall|l: int, i: int|
        0 <= l < layers.len() && 0 <= i < exported_len(lv, l) ==> #[trigger] layers[l].keys@[i] == exported_key(
            lv,
            l,
            i,
        )
}

/// The key actions of the slots of a layer other than the base layer, or the code of
/// the first character that has no key code.
fn export_plain(keys: &[Option<u8>]) -> (r: Result<Vec<QmkKey>, u8>)
    ensures
        match r {
            Ok(out) => out@.len() == keys@.len() && (forall|i: int|
                0 <= i < keys@.len() ==> supported(slot_code(#[trigger] keys@[i]))) && forall|i: int|
                0 <= i < keys@.len() ==> #[trigger] out@[i] == QmkKey::Direct(
                    KeyCode::from_code(slot_code(keys@[i]))->0,
                ),
            Err(n) => exists|i: int|
                0 <= i < keys@.len() && n == slot_code(#[trigger] keys@[i]) && !supported(n) && forall|j: int|
                    0 <= j < i ==> supported(slot_code(keys@[j])),
        },
{
    let mut out: Vec<QmkKey> = Vec::with_capacity(keys.len());
    let mut i: usize = 0;
    while i < keys.len()
        invariant
            i <= keys@.len(),
            out@.len() == i,
            forall|j: int| 0 <= j < i ==> supported(slot_code(#[trigger] keys@[j])),
            forall|j: int|
                0 <= j < i ==> #[trigger] out@[j] == QmkKey::Direct(KeyCode::from_code(slot_code(keys@[j]))->0),
        decreases keys@.len() - i,
    {
        let number: u8 = match keys[i] {
            Some(k) => k,
            None => 0,
        };
        match KeyCode::try_from_primitive(number) {
            Some(code) => {
                out.push(QmkKey::Direct(code));
            },
            None => {
                assert(number == slot_code(keys@[i as int]));
                return Err(number);
            },
        }
        i += 1;
    }
    Ok(out)
}

/// The key actions of the slots of the base layer that have a hold behaviour beside
/// them, or the code of the first character that has no key code.
fn export_base(keys: &[Option<u8>], hold: &[Option<Behavior>]) -> (r: Result<Vec<QmkKey>, u8>)
    ensures
        match r {
            Ok(out) => out@.len() == (if hold@.len() < keys@.len() { hold@.len() } else { keys@.len() })
                && (forall|i: int| 0 <= i < out@.len() ==> supported(slot_code(#[trigger] keys@[i])))
                && forall|i: int|
                0 <= i < out@.len() ==> #[trigger] out@[i] == action(
                    KeyCode::from_code(slot_code(keys@[i]))->0,
                    hold@[i],
                ),
            Err(n) => exists|i: int|
                0 <= i < keys@.len() && i < hold@.len() && n == slot_code(#[trigger] keys@[i]) && !supported(n)
                    && forall|j: int| 0 <= j < i ==> supported(slot_code(keys@[j])),
        },
{
    let n = if hold.len() < keys.len() { hold.len() } else { keys.len() };
    let mut out: Vec<QmkKey> = Vec::with_capacity(n);
    let mut i: usize = 0;
    while i < n
        invariant
            i <= n,
            n == (if hold@.len() < keys@.len() { hold@.len() } else { keys@.len() }),
            out@.len() == i,
            forall|j: int| 0 <= j < i ==> supported(slot_code(#[trigger] keys@[j])),
            forall|j: int|
                0 <= j < i ==> #[trigger] out@[j] == action(KeyCode::from_code(slot_code(keys@[j]))->0, hold@[j]),
        decreases n - i,
    {
        let number: u8 = match keys[i] {
            Some(k) => k,
            None => 0,
        };
        match KeyCode::try_from_primitive(number) {
            Some(code) => {
                let key = match hold[i] {
                    None => QmkKey::Direct(code),
                    Some(Behavior::Shift) => QmkKey::ModTapShift(code),
                    Some(Behavior::Layer(layer)) => QmkKey::ModTapLayer(code, layer),
                };
                out.push(key);
            },
            None => {
                assert(number == slot_code(keys@[i as int]));
                return Err(number);
            },
        }
        i += 1;
    }
    Ok(out)
}

impl QmkKeymap {
    /// The keymap of `value`: the base layer with its hold behaviours, the other layers
    /// as plain keys. It fails at the first slot, layer by layer, whose character has
    /// no key code.
    pub fn from_layout(value: Layout) -> (r: Result<Self, ExportError>)
        ensures
            match r {
                Ok(map) => {
                    &&& forall|l: int, i: int| !is_bad(value@, l, i)
                    &&& exports(value@, map.layers@)
                    &&& map.version == 1
                    &&& map.notes@ == ""@
                    &&& map.documentation@ == ""@
                    &&& map.keyboard@ == "ferris/sweep"@
                    &&& map.keymap@ == "optimized"@
                    &&& map.layout@ == "LAYOUT_split_3x5_2"@
                    &&& map.author@ == "JsonJ__"@
                },
                Err(ExportError::Unsupported(n)) => exists|l: int, i: int|
                    {
                        &&& #[trigger] is_bad(value@, l, i)
                        &&& n == slot_code(value@.layers[l][i])
                        &&& forall|l2: int, i2: int| slot_before(l2, i2, l, i) ==> !is_bad(value@, l2, i2)
                    },
            },
    {
        let ghost lv = value@;
        let layout_layers = value.layers();
        let mut layers: Vec<QmkLayer> = Vec::with_capacity(layout_layers.len());
        let mut l: usize = 0;
        while l < layout_layers.len()
            invariant
                l <= layout_layers@.len(),
                lv == value@,
                crate::layout::layer_views(layout_layers@) == lv.layers,
                layers@.len() == l,
                forall|k: int, i: int| 0 <= k < l ==> !is_bad(lv, k, i),
                forall|k: int| 0 <= k < l ==> (#[trigger] layers@[k]).keys@.len() == exported_len(lv, k),
                forall|k: int, i: int|
                    0 <= k < l && 0 <= i < exported_len(lv, k) ==> #[trigger] layers@[k].keys@[i] == exported_key(
                        lv,
                        k,
                        i,
                    ),
            decreases layout_layers@.len() - l,
        {
            let keys = layout_layers[l].keys();
            assert(keys@ == lv.layers[l as int]);
            let exported = if l == 0 {
                export_base(keys, value.base_hold())
            } else {
                export_plain(keys)
            };
            match exported {
                Ok(actions) => {
                    let ghost before = layers@;
                    layers.push(QmkLayer { keys: actions });
                    proof {
                        assert forall|k: int, i: int|
                            0 <= k < l + 1 && 0 <= i < exported_len(lv, k) implies #[trigger] layers@[k].keys@[i]
                            == exported_key(lv, k, i) by {
                            if k < l {
                                assert(layers@[k] == before[k]);
                            }
                        }
                        assert forall|k: int, i: int| 0 <= k < l + 1 implies !is_bad(lv, k, i) by {
                            if k == l && 0 <= i < exported_len(lv, k) {
                                assert(supported(slot_code(keys@[i])));
                            }
                        }
                        assert forall|k: int| 0 <= k < l + 1 implies (#[trigger] layers@[k]).keys@.len()
                            == exported_len(lv, k) by {
                            if k < l {
                                assert(layers@[k] == before[k]);
                            }
                        }
                    }
                },
                Err(n) => {
                    proof {
                        let i = if l == 0 {
                            choose|i: int|
                                0 <= i < keys@.len() && i < lv.base_hold.len() && n == slot_code(
                                    #[trigger] keys@[i],
                                ) && !supported(n) && forall|j: int| 0 <= j < i ==> supported(slot_code(keys@[j]))
                        } else {
                            choose|i: int|
                                0 <= i < keys@.len() && n == slot_code(#[trigger] keys@[i]) && !supported(n)
                                    && forall|j: int| 0 <= j < i ==> supported(slot_code(keys@[j]))
                        };
                        assert(is_bad(lv, l as int, i));
                        assert forall|l2: int, i2: int| slot_before(l2, i2, l as int, i) implies !is_bad(
                            lv,
                            l2,
                            i2,
                        ) by {
                            if l2 == l && 0 <= i2 < i {
                                assert(supported(slot_code(keys@[i2])));
                            }
                        }
                    }
                    return Err(ExportError::Unsupported(n));
                },
            }
            l += 1;
        }
        Ok(
            QmkKeymap {
                version: 1,
                notes: "".to_owned(),
                documentation: "".to_owned(),
                keyboard: "ferris/sweep".to_owned(),
                keymap: "optimized".to_owned(),
                layout: "LAYOUT_split_3x5_2".to_owned(),
                layers,
                author: "JsonJ__".to_owned(),
            },
        )
    }
}

} // verus!
