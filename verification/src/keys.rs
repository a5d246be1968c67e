//! Keyboard identity: physical keys, modifiers, and the logical text a key produced.
//!
//! A key needs two identities. Send only the physical key and text entry is destroyed on
//! a mismatched layout; send only the character and shortcuts are. Both travel
//! ([`PhysicalKey`] and [`LogicalText`]), and the receiver chooses per event by its
//! [`LayoutPolicy`].
use crate::wire::{utf8_text, Reader, Writer};
use crate::{text, wire, Error};
use vstd::prelude::*;
use vstd::string::*;
use vstd::utf8::*;

verus! {

/// A physical key, identified by its USB HID usage on the Keyboard/Keypad page.
#[derive(Clone, Copy, PartialEq, Eq, PartialOrd, Ord, Hash, Debug, Structural)]
pub struct PhysicalKey(pub u16);

impl PhysicalKey {
    /// A key the sender could not map to a HID usage code.
    #[must_use]
    #[verifier::allow_in_spec]
    pub fn unknown() -> PhysicalKey
        returns
            PhysicalKey(0),
    {
        PhysicalKey(0)
    }

    /// Set on usages of the Consumer page: volume, media and brightness keys.
    pub const CONSUMER_FLAG: u16 = 0x8000;

    // Letters are named by their US engraving purely as a mnemonic; the value is the
    // physical position.
    #[must_use]
    #[verifier::allow_in_spec]
    pub fn a() -> PhysicalKey
        returns
            PhysicalKey(0x04),
    {
        PhysicalKey(0x04)
    }

    #[must_use]
    #[verifier::allow_in_spec]
    pub fn b() -> PhysicalKey
        returns
            PhysicalKey(0x05),
    {
        PhysicalKey(0x05)
    }

    #[must_use]
    #[verifier::allow_in_spec]
    pub fn c() -> PhysicalKey
        returns
            PhysicalKey(0x06),
    {
        PhysicalKey(0x06)
    }

    #[must_use]
    #[verifier::allow_in_spec]
    pub fn v() -> PhysicalKey
        returns
            PhysicalKey(0x19),
    {
        PhysicalKey(0x19)
    }

    #[must_use]
    #[verifier::allow_in_spec]
    pub fn x() -> PhysicalKey
        returns
            PhysicalKey(0x1B),
    {
        PhysicalKey(0x1B)
    }

    #[must_use]
    #[verifier::allow_in_spec]
    pub fn y() -> PhysicalKey
        returns
            PhysicalKey(0x1C),
    {
        PhysicalKey(0x1C)
    }

    #[must_use]
    #[verifier::allow_in_spec]
    pub fn z() -> PhysicalKey
        returns
            PhysicalKey(0x1D),
    {
        PhysicalKey(0x1D)
    }

    #[must_use]
    #[verifier::allow_in_spec]
    pub fn enter() -> PhysicalKey
        returns
            PhysicalKey(0x28),
    {
        PhysicalKey(0x28)
    }

    #[must_use]
    #[verifier::allow_in_spec]
    pub fn escape() -> PhysicalKey
        returns
            PhysicalKey(0x29),
    {
        PhysicalKey(0x29)
    }

    #[must_use]
    #[verifier::allow_in_spec]
    pub fn backspace() -> PhysicalKey
        returns
            PhysicalKey(0x2A),
    {
        PhysicalKey(0x2A)
    }

    #[must_use]
    #[verifier::allow_in_spec]
    pub fn tab() -> PhysicalKey
        returns
            PhysicalKey(0x2B),
    {
        PhysicalKey(0x2B)
    }

    #[must_use]
    #[verifier::allow_in_spec]
    pub fn space() -> PhysicalKey
        returns
            PhysicalKey(0x2C),
    {
        PhysicalKey(0x2C)
    }

    #[must_use]
    #[verifier::allow_in_spec]
    pub fn caps_lock() -> PhysicalKey
        returns
            PhysicalKey(0x39),
    {
        PhysicalKey(0x39)
    }

    #[must_use]
    #[verifier::allow_in_spec]
    pub fn right_arrow() -> PhysicalKey
        returns
            PhysicalKey(0x4F),
    {
        PhysicalKey(0x4F)
    }

    #[must_use]
    #[verifier::allow_in_spec]
    pub fn left_arrow() -> PhysicalKey
        returns
            PhysicalKey(0x50),
    {
        PhysicalKey(0x50)
    }

    #[must_use]
    #[verifier::allow_in_spec]
    pub fn down_arrow() -> PhysicalKey
        returns
            PhysicalKey(0x51),
    {
        PhysicalKey(0x51)
    }

    #[must_use]
    #[verifier::allow_in_spec]
    pub fn up_arrow() -> PhysicalKey
        returns
            PhysicalKey(0x52),
    {
        PhysicalKey(0x52)
    }

    #[must_use]
    #[verifier::allow_in_spec]
    pub fn left_ctrl() -> PhysicalKey
        returns
            PhysicalKey(0xE0),
    {
        PhysicalKey(0xE0)
    }

    #[must_use]
    #[verifier::allow_in_spec]
    pub fn left_shift() -> PhysicalKey
        returns
            PhysicalKey(0xE1),
    {
        PhysicalKey(0xE1)
    }

    #[must_use]
    #[verifier::allow_in_spec]
    pub fn left_alt() -> PhysicalKey
        returns
            PhysicalKey(0xE2),
    {
        PhysicalKey(0xE2)
    }

    #[must_use]
    #[verifier::allow_in_spec]
    pub fn left_gui() -> PhysicalKey
        returns
            PhysicalKey(0xE3),
    {
        PhysicalKey(0xE3)
    }

    #[must_use]
    #[verifier::allow_in_spec]
    pub fn right_ctrl() -> PhysicalKey
        returns
            PhysicalKey(0xE4),
    {
        PhysicalKey(0xE4)
    }

    #[must_use]
    #[verifier::allow_in_spec]
    pub fn right_shift() -> PhysicalKey
        returns
            PhysicalKey(0xE5),
    {
        PhysicalKey(0xE5)
    }

    #[must_use]
    #[verifier::allow_in_spec]
    pub fn right_alt() -> PhysicalKey
        returns
            PhysicalKey(0xE6),
    {
        PhysicalKey(0xE6)
    }

    #[must_use]
    #[verifier::allow_in_spec]
    pub fn right_gui() -> PhysicalKey
        returns
            PhysicalKey(0xE7),
    {
        PhysicalKey(0xE7)
    }

    /// A key of the Consumer page, told apart from the Keyboard page by its top bit.
    #[must_use]
    pub fn consumer(usage: u16) -> (k: PhysicalKey)
        ensures
            k.0 == usage | 0x8000,
    {
        PhysicalKey(usage | 0x8000)
    }

    #[must_use]
    pub fn is_unknown(self) -> (b: bool)
        ensures
            b == (self == PhysicalKey::unknown()),
    {
        self.0 == PhysicalKey::unknown().0
    }

    /// Whether this key is itself a modifier.
    #[must_use]
    pub fn is_modifier(self) -> (b: bool)
        ensures
            b == (0xE0 <= self.0 <= 0xE7),
    {
        self.0 >= 0xE0 && self.0 <= 0xE7
    }

    /// The modifier bit a key contributes: the eight modifier keys, in usage order, are
    /// the eight lowest bits of the mask.
    pub open spec fn spec_modifier_bit(self) -> Option<Modifiers> {
        if 0xE0 <= self.0 <= 0xE7 {
            Some(Modifiers(1u16 << ((self.0 - 0xE0) as u16)))
        } else {
            None
        }
    }

    /// The modifier bit this key contributes, if any.
    #[must_use]
    pub fn modifier_bit(self) -> (m: Option<Modifiers>)
        ensures
            m == self.spec_modifier_bit(),
    {
        proof {
            bits_of_a_word();
        }
        match self.0 {
            0xE0 => Some(Modifiers::left_ctrl()),
            0xE1 => Some(Modifiers::left_shift()),
            0xE2 => Some(Modifiers::left_alt()),
            0xE3 => Some(Modifiers::left_gui()),
            0xE4 => Some(Modifiers::right_ctrl()),
            0xE5 => Some(Modifiers::right_shift()),
            0xE6 => Some(Modifiers::right_alt()),
            0xE7 => Some(Modifiers::right_gui()),
            _ => None,
        }
    }
}

proof fn bits_of_a_word()
    ensures
        1u16 << 0u16 == 0x01,
        1u16 << 1u16 == 0x02,
        1u16 << 2u16 == 0x04,
        1u16 << 3u16 == 0x08,
        1u16 << 4u16 == 0x10,
        1u16 << 5u16 == 0x20,
        1u16 << 6u16 == 0x40,
        1u16 << 7u16 == 0x80,
{
    assert(1u16 << 0u16 == 0x01 && 1u16 << 1u16 == 0x02 && 1u16 << 2u16 == 0x04 && 1u16 << 3u16
        == 0x08 && 1u16 << 4u16 == 0x10 && 1u16 << 5u16 == 0x20 && 1u16 << 6u16 == 0x40 && 1u16
        << 7u16 == 0x80) by (bit_vector);
}

/// Bitmask of modifier keys held at the moment an event was generated.
///
/// Left and right are tracked separately because `RIGHT_ALT` is `AltGr` on most European
/// layouts and must not be conflated with a plain `Alt`.
#[derive(Clone, Copy, PartialEq, Eq, Hash, Debug, Structural)]
pub struct Modifiers(pub u16);

impl Default for Modifiers {
    fn default() -> (m: Modifiers)
        ensures
            m == Modifiers::none(),
    {
        Modifiers::none()
    }
}

impl Modifiers {
    #[must_use]
    #[verifier::allow_in_spec]
    pub fn none() -> Modifiers
        returns
            Modifiers(0),
    {
        Modifiers(0)
    }

    #[must_use]
    #[verifier::allow_in_spec]
    pub fn left_ctrl() -> Modifiers
        returns
            Modifiers(0x01),
    {
        Modifiers(0x01)
    }

    #[must_use]
    #[verifier::allow_in_spec]
    pub fn left_shift() -> Modifiers
        returns
            Modifiers(0x02),
    {
        Modifiers(0x02)
    }

    #[must_use]
    #[verifier::allow_in_spec]
    pub fn left_alt() -> Modifiers
        returns
            Modifiers(0x04),
    {
        Modifiers(0x04)
    }

    #[must_use]
    #[verifier::allow_in_spec]
    pub fn left_gui() -> Modifiers
        returns
            Modifiers(0x08),
    {
        Modifiers(0x08)
    }

    #[must_use]
    #[verifier::allow_in_spec]
    pub fn right_ctrl() -> Modifiers
        returns
            Modifiers(0x10),
    {
        Modifiers(0x10)
    }

    #[must_use]
    #[verifier::allow_in_spec]
    pub fn right_shift() -> Modifiers
        returns
            Modifiers(0x20),
    {
        Modifiers(0x20)
    }

    /// `AltGr` on European layouts.
    #[must_use]
    #[verifier::allow_in_spec]
    pub fn right_alt() -> Modifiers
        returns
            Modifiers(0x40),
    {
        Modifiers(0x40)
    }

    #[must_use]
    #[verifier::allow_in_spec]
    pub fn right_gui() -> Modifiers
        returns
            Modifiers(0x80),
    {
        Modifiers(0x80)
    }

    #[must_use]
    #[verifier::allow_in_spec]
    pub fn caps_lock() -> Modifiers
        returns
            Modifiers(0x100),
    {
        Modifiers(0x100)
    }

    #[must_use]
    #[verifier::allow_in_spec]
    pub fn num_lock() -> Modifiers
        returns
            Modifiers(0x200),
    {
        Modifiers(0x200)
    }

    #[must_use]
    #[verifier::allow_in_spec]
    pub fn scroll_lock() -> Modifiers
        returns
            Modifiers(0x400),
    {
        Modifiers(0x400)
    }

    #[must_use]
    #[verifier::allow_in_spec]
    pub fn any_ctrl() -> Modifiers
        returns
            Modifiers(0x11),
    {
        Modifiers(0x11)
    }

    #[must_use]
    #[verifier::allow_in_spec]
    pub fn any_shift() -> Modifiers
        returns
            Modifiers(0x22),
    {
        Modifiers(0x22)
    }

    #[must_use]
    #[verifier::allow_in_spec]
    pub fn any_alt() -> Modifiers
        returns
            Modifiers(0x44),
    {
        Modifiers(0x44)
    }

    #[must_use]
    #[verifier::allow_in_spec]
    pub fn any_gui() -> Modifiers
        returns
            Modifiers(0x88),
    {
        Modifiers(0x88)
    }

    /// Whether any bit of `other` is set here.
    pub open spec fn has(self, other: Modifiers) -> bool {
        self.0 & other.0 != 0
    }

    #[must_use]
    pub fn contains(self, other: Modifiers) -> (b: bool)
        ensures
            b == self.has(other),
    {
        self.0 & other.0 != 0
    }

    #[must_use]
    pub fn union(self, other: Modifiers) -> (m: Modifiers)
        ensures
            m.0 == self.0 | other.0,
    {
        Modifiers(self.0 | other.0)
    }

    #[must_use]
    pub fn without(self, other: Modifiers) -> (m: Modifiers)
        ensures
            m.0 == self.0 & !other.0,
    {
        Modifiers(self.0 & !other.0)
    }

    #[must_use]
    pub fn is_empty(self) -> (b: bool)
        ensures
            b == (self == Modifiers::none()),
    {
        self.0 == 0
    }

    /// A command chord holds Ctrl or Gui on either side, or the left Alt.
    pub open spec fn command_chord(self) -> bool {
        ||| self.has(Modifiers::left_ctrl())
        ||| self.has(Modifiers::right_ctrl())
        ||| self.has(Modifiers::left_gui())
        ||| self.has(Modifiers::right_gui())
        ||| self.has(Modifiers::left_alt())
    }

    /// Whether these modifiers make the event a command chord rather than text entry.
    ///
    /// Shift and the lock keys are text entry. `AltGr` alone is how European layouts type
    /// `@`, `€` and `{}`, so it is not a command either.
    #[must_use]
    pub fn is_command_chord(self) -> (b: bool)
        ensures
            b == self.command_chord(),
    {
        let m: u16 = self.0;
        proof {
            assert((m & 0x99 != 0 || m & 0x04 != 0) == (m & 0x01 != 0 || m & 0x10 != 0 || m & 0x08
                != 0 || m & 0x80 != 0 || m & 0x04 != 0)) by (bit_vector);
            assert(0x11u16 | 0x88u16 == 0x99u16) by (bit_vector);
        }
        let gui_or_ctrl = m & (Modifiers::any_ctrl().0 | Modifiers::any_gui().0) != 0;
        let plain_left_alt = m & Modifiers::left_alt().0 != 0;
        gui_or_ctrl || plain_left_alt
    }

    /// The modifiers that have a name, with their names, in the order they are listed.
    pub open spec fn names() -> Seq<(Modifiers, Seq<char>)> {
        seq![
            (Modifiers::left_ctrl(), "LCtrl"@),
            (Modifiers::left_shift(), "LShift"@),
            (Modifiers::left_alt(), "LAlt"@),
            (Modifiers::left_gui(), "LGui"@),
            (Modifiers::right_ctrl(), "RCtrl"@),
            (Modifiers::right_shift(), "RShift"@),
            (Modifiers::right_alt(), "AltGr"@),
            (Modifiers::right_gui(), "RGui"@),
            (Modifiers::caps_lock(), "Caps"@),
            (Modifiers::num_lock(), "Num"@),
            (Modifiers::scroll_lock(), "Scroll"@),
        ]
    }

    /// The names of the first `n` listed modifiers that are held, joined by `|`.
    pub open spec fn held_names(self, n: nat) -> Seq<char>
        decreases n,
    {
        if n == 0 {
            Seq::empty()
        } else {
            let before = self.held_names((n - 1) as nat);
            let (bit, name) = Modifiers::names()[n - 1];
            if !self.has(bit) {
                before
            } else if before.len() == 0 {
                name
            } else {
                before + "|"@ + name
            }
        }
    }

    /// A readable listing of the held modifiers.
    #[must_use]
    pub fn describe(self) -> (s: String)
        ensures
            s@ == (if self == Modifiers::none() {
                "Modifiers(NONE)"@
            } else {
                "Modifiers("@ + self.held_names(11) + ")"@
            }),
    {
        if self.is_empty() {
            return String::from_str("Modifiers(NONE)");
        }
        let names: [(Modifiers, &str); 11] = [
            (Modifiers::left_ctrl(), "LCtrl"),
            (Modifiers::left_shift(), "LShift"),
            (Modifiers::left_alt(), "LAlt"),
            (Modifiers::left_gui(), "LGui"),
            (Modifiers::right_ctrl(), "RCtrl"),
            (Modifiers::right_shift(), "RShift"),
            (Modifiers::right_alt(), "AltGr"),
            (Modifiers::right_gui(), "RGui"),
            (Modifiers::caps_lock(), "Caps"),
            (Modifiers::num_lock(), "Num"),
            (Modifiers::scroll_lock(), "Scroll"),
        ];
        let mut out = String::from_str("Modifiers(");
        let mut first = true;
        let mut i: usize = 0;
        proof {
            names_are_not_empty();
            assert(out@ + self.held_names(0) =~= out@);
        }
        while i < 11
            invariant
                i <= 11,
                names@.len() == 11,
                forall|k: int|
                    0 <= k < 11 ==> #[trigger] names@[k].0 == Modifiers::names()[k].0
                        && names@[k].1@ == Modifiers::names()[k].1,
                forall|k: int| 0 <= k < 11 ==> (#[trigger] Modifiers::names()[k]).1.len() > 0,
                first <==> self.held_names(i as nat).len() == 0,
                out@ == "Modifiers("@ + self.held_names(i as nat),
            decreases 11 - i,
        {
            let (bit, name) = names[i];
            assert(names@[i as int].0 == Modifiers::names()[i as int].0);
            if self.contains(bit) {
                let ghost before = out@;
                if !first {
                    out.append("|");
                }
                out.append(name);
                first = false;
                assert(out@ =~= "Modifiers("@ + self.held_names((i + 1) as nat));
            }
            i = i + 1;
        }
        out.append(")");
        out
    }
}

proof fn names_are_not_empty()
    ensures
        forall|k: int| 0 <= k < 11 ==> (#[trigger] Modifiers::names()[k]).1.len() > 0,
{
    reveal_strlit("LCtrl");
    reveal_strlit("LShift");
    reveal_strlit("LAlt");
    reveal_strlit("LGui");
    reveal_strlit("RCtrl");
    reveal_strlit("RShift");
    reveal_strlit("AltGr");
    reveal_strlit("RGui");
    reveal_strlit("Caps");
    reveal_strlit("Num");
    reveal_strlit("Scroll");
}

/// `AltGr`, Shift and the lock keys never turn typing into a command: adding any of them
/// to a set of held modifiers leaves the classification as it was.
pub proof fn text_modifiers_never_make_a_chord(held: Modifiers, added: Modifiers)
    requires
        !added.command_chord(),
    ensures
        Modifiers(held.0 | added.0).command_chord() == held.command_chord(),
        !Modifiers::right_alt().command_chord(),
        !Modifiers::any_shift().command_chord(),
        !Modifiers::caps_lock().command_chord(),
        !Modifiers::num_lock().command_chord(),
        !Modifiers::scroll_lock().command_chord(),
{
    let (h, a) = (held.0, added.0);
    assert(a & 0x01 == 0 && a & 0x10 == 0 && a & 0x08 == 0 && a & 0x80 == 0 && a & 0x04 == 0 ==> (h
        | a) & 0x01 == h & 0x01 && (h | a) & 0x10 == h & 0x10 && (h | a) & 0x08 == h & 0x08 && (h
        | a) & 0x80 == h & 0x80 && (h | a) & 0x04 == h & 0x04) by (bit_vector);
    assert(forall|x: u16|
        (x == 0x40 || x == 0x22 || x == 0x100 || x == 0x200 || x == 0x400) ==> #[trigger] (x & 0x01)
            == 0 && x & 0x10 == 0 && x & 0x08 == 0 && x & 0x80 == 0 && x & 0x04 == 0)
        by (bit_vector);
    assert(0x40u16 & 0x01 == 0 && 0x22u16 & 0x01 == 0 && 0x100u16 & 0x01 == 0 && 0x200u16 & 0x01
        == 0 && 0x400u16 & 0x01 == 0);
}

// ---------------------------------------------------------------- logical text
/// `String::from(char)`: the string of that one character.
#[verifier::external_body]
pub(crate) fn char_text(c: char) -> (s: String)
    ensures
        s@ == seq![c],
{
    String::from(c)
}

/// The text a key press produced on the sender's layout, inline and allocation-free.
///
/// Not always one `char`: a dead-key sequence composes, and an input method can commit
/// several characters from one key press. Capacity is 15 UTF-8 bytes.
#[derive(Clone, Copy, PartialEq, Eq, Debug)]
pub struct LogicalText {
    len: u8,
    buf: [u8; 15],
}

impl View for LogicalText {
    type V = Seq<char>;

    closed spec fn view(&self) -> Seq<char> {
        decode_utf8(self.buf@.take(self.len as int))
    }
}

impl Default for LogicalText {
    fn default() -> (t: LogicalText)
        ensures
            t@ == Seq::<char>::empty(),
    {
        LogicalText::none()
    }
}

impl LogicalText {
    pub const CAPACITY: usize = 15;

    /// The used bytes are UTF-8 and the unused ones are zero, so equal texts are equal
    /// values.
    #[verifier::type_invariant]
    pub closed spec fn wf(self) -> bool {
        &&& self.len <= 15
        &&& valid_utf8(self.buf@.take(self.len as int))
        &&& forall|i: int| self.len <= i < 15 ==> #[trigger] self.buf@[i] == 0
    }

    /// Empty: the key produced no text (a modifier, `F5`, an arrow key).
    #[must_use]
    pub fn none() -> (t: LogicalText)
        ensures
            t.wf(),
            t@ == Seq::<char>::empty(),
    {
        LogicalText { len: 0, buf: [0; 15] }
    }

    /// Returns `None` if `s` exceeds [`Self::CAPACITY`] bytes.
    #[must_use]
    pub fn new(s: &str) -> (t: Option<LogicalText>)
        ensures
            t is Some <==> s.spec_bytes().len() <= 15,
            t matches Some(t) ==> t.wf() && t@ == s@,
    {
        let bytes = s.as_bytes();
        if bytes.len() > LogicalText::CAPACITY {
            return None;
        }
        let mut buf: [u8; 15] = [0u8; 15];
        let mut i: usize = 0;
        while i < bytes.len()
            invariant
                i <= bytes@.len() <= 15,
                forall|k: int| 0 <= k < i ==> buf@[k] == bytes@[k],
                forall|k: int| i <= k < 15 ==> #[trigger] buf@[k] == 0,
            decreases bytes.len() - i,
        {
            buf[i] = bytes[i];
            i = i + 1;
        }
        proof {
            assert(buf@.take(bytes@.len() as int) =~= bytes@);
            encode_utf8_valid_utf8(s@);
            encode_utf8_decode_utf8(s@);
        }
        Some(LogicalText { len: bytes.len() as u8, buf })
    }

    #[must_use]
    pub fn from_char(c: char) -> (t: LogicalText)
        ensures
            t.wf(),
            t@ == seq![c],
    {
        let text = char_text(c);
        proof {
            one_char_is_short(c);
        }
        match LogicalText::new(text.as_str()) {
            Some(t) => t,
            None => LogicalText::none(),
        }
    }

    #[must_use]
    pub fn as_str(&self) -> (s: &str)
        ensures
            s@ == self@,
    {
        proof {
            use_type_invariant(self);
        }
        let all: &[u8] = &self.buf;
        let (used, _) = all.split_at(self.len as usize);
        proof {
            assert(used@ =~= self.buf@.take(self.len as int));
        }
        match utf8_text(used) {
            Some(s) => {
                proof {
                    encode_utf8_decode_utf8(s@);
                }
                s
            },
            None => "",
        }
    }

    /// The text in quotes, for a log.
    #[must_use]
    pub fn describe(&self) -> (s: String)
        ensures
            s@ == "LogicalText("@ + text::quoted(self@) + ")"@,
    {
        let shown = text::quote(self.as_str());
        text::plus(text::plus(String::from_str("LogicalText("), shown.as_str()), ")")
    }

    #[must_use]
    pub fn is_empty(&self) -> (b: bool)
        ensures
            b == (self@.len() == 0),
    {
        proof {
            use_type_invariant(self);
            assert(self.buf@.take(self.len as int).len() == self.len);
        }
        self.len == 0
    }

    /// The text on the wire: one length byte, then its UTF-8.
    pub open spec fn text_bytes(text: Seq<char>) -> Seq<u8> {
        wire::be_bytes(encode_utf8(text).len(), 1) + encode_utf8(text)
    }

    /// A text taken off the front of `s`.
    pub open spec fn get_text(s: Seq<u8>) -> Result<(Seq<char>, Seq<u8>), Error> {
        match wire::get_uint(s, 1) {
            Ok((len, rest)) => if len > 15 {
                Err(Error::TooLong)
            } else {
                match wire::get_bytes(rest, len) {
                    Ok((raw, rest)) => if valid_utf8(raw) {
                        Ok((decode_utf8(raw), rest))
                    } else {
                        Err(Error::InvalidUtf8)
                    },
                    Err(e) => Err(e),
                }
            },
            Err(e) => Err(e),
        }
    }

    pub(crate) fn encode(&self, w: &mut Writer<'_>)
        ensures
            final(w).buf@ == old(w).buf@ + LogicalText::text_bytes(self@),
            final(final(w).buf)@ == final(old(w).buf)@,
    {
        proof {
            use_type_invariant(self);
        }
        let ghost before = w.buf@;
        let all: &[u8] = &self.buf;
        let (used, _) = all.split_at(self.len as usize);
        proof {
            assert(used@ =~= self.buf@.take(self.len as int));
            decode_utf8_encode_utf8(used@);
        }
        w.u8(self.len);
        w.bytes(used);
        proof {
            assert(w.buf@ =~= before + LogicalText::text_bytes(self@));
        }
    }

    pub(crate) fn decode(r: &mut Reader<'_>) -> (t: Result<LogicalText, Error>)
        ensures
            match LogicalText::get_text(old(r)@) {
                Ok((text, rest)) => t is Ok && t->Ok_0.wf() && t->Ok_0@ == text && final(r)@
                    == rest,
                Err(e) => t == Err::<LogicalText, Error>(e),
            },
    {
        let len: u8 = r.u8()?;
        if len as usize > LogicalText::CAPACITY {
            return Err(Error::TooLong);
        }
        let raw = r.bytes(len as usize)?;
        // Validated here, so `as_str` never sees invalid UTF-8 from a hostile peer.
        match utf8_text(raw) {
            Some(s) => {
                proof {
                    encode_utf8_decode_utf8(s@);
                }
                match LogicalText::new(s) {
                    Some(t) => Ok(t),
                    None => Err(Error::TooLong),
                }
            },
            None => Err(Error::InvalidUtf8),
        }
    }
}

/// Two texts that read the same are the same value.
pub proof fn equal_texts_are_equal_values(a: LogicalText, b: LogicalText)
    requires
        a.wf(),
        b.wf(),
        a@ == b@,
    ensures
        a == b,
{
    let (x, y) = (a.buf@.take(a.len as int), b.buf@.take(b.len as int));
    decode_utf8_encode_utf8(x);
    decode_utf8_encode_utf8(y);
    assert(x == y);
    assert(x.len() == a.len && y.len() == b.len);
    assert forall|i: int| 0 <= i < 15 implies a.buf@[i] == b.buf@[i] by {
        if i < a.len {
            assert(x[i] == a.buf@[i] && y[i] == b.buf@[i]);
        }
    }
    assert(a.buf =~= b.buf);
}

/// A text fits its capacity, so its encoding can always be read back.
pub proof fn text_fits(t: LogicalText)
    requires
        t.wf(),
    ensures
        encode_utf8(t@).len() <= 15,
{
    decode_utf8_encode_utf8(t.buf@.take(t.len as int));
}

/// A text written at the front of a stream is the text read from it.
pub proof fn get_text_of_text_bytes(text: Seq<char>, rest: Seq<u8>)
    requires
        encode_utf8(text).len() <= 15,
    ensures
        LogicalText::get_text(LogicalText::text_bytes(text) + rest) == Ok::<
            (Seq<char>, Seq<u8>),
            Error,
        >((text, rest)),
{
    let raw = encode_utf8(text);
    wire::be_limits();
    assert(LogicalText::text_bytes(text) + rest =~= wire::be_bytes(raw.len(), 1) + (raw + rest));
    wire::get_uint_of_be_bytes(raw.len(), 1, raw + rest);
    assert((raw + rest).take(raw.len() as int) =~= raw);
    assert((raw + rest).skip(raw.len() as int) =~= rest);
    encode_utf8_valid_utf8(text);
    encode_utf8_decode_utf8(text);
}

proof fn one_char_is_short(c: char)
    ensures
        encode_utf8(seq![c]).len() <= 4,
{
    reveal_with_fuel(encode_utf8, 2);
    assert(seq![c].drop_first() =~= Seq::<char>::empty());
}

// ---------------------------------------------------------------- layout policy
/// How a receiver should reproduce a key event whose sender had a different layout.
#[derive(Clone, Copy, PartialEq, Eq, Debug, Structural)]
pub enum LayoutPolicy {
    /// Per-event choice: command chords replay the physical key, everything else the
    /// text.
    Auto,
    /// Always replay the physical key. The receiver's own layout decides the glyph.
    Physical,
    /// Always replay the logical text, whatever the receiver's layout does to shortcuts.
    Logical,
}

impl Default for LayoutPolicy {
    fn default() -> (p: LayoutPolicy)
        ensures
            p == LayoutPolicy::Auto,
    {
        LayoutPolicy::Auto
    }
}

impl LayoutPolicy {
    /// The policy a number stands for, if any.
    pub open spec fn of_code(v: u8) -> Option<LayoutPolicy> {
        match v {
            0 => Some(LayoutPolicy::Auto),
            1 => Some(LayoutPolicy::Physical),
            2 => Some(LayoutPolicy::Logical),
            _ => None,
        }
    }

    /// A policy taken off the front of `s`.
    pub open spec fn get_policy(s: Seq<u8>) -> Result<(LayoutPolicy, Seq<u8>), Error> {
        match wire::get_uint(s, 1) {
            Err(e) => Err(e),
            Ok((v, s)) => match LayoutPolicy::of_code(v as u8) {
                Some(it) => Ok((it, s)),
                None => Err(Error::UnknownVariant("LayoutPolicy")),
            },
        }
    }

    pub(crate) fn decode(r: &mut Reader<'_>) -> (p: Result<LayoutPolicy, Error>)
        ensures
            match LayoutPolicy::get_policy(old(r)@) {
                Ok((it, rest)) => p == Ok::<LayoutPolicy, Error>(it) && final(r)@ == rest,
                Err(e) => p == Err::<LayoutPolicy, Error>(e),
            },
    {
        let v: u8 = r.u8()?;
        LayoutPolicy::from_u8(v)
    }

    /// The policy's number on the wire.
    pub open spec fn code(self) -> u8 {
        match self {
            LayoutPolicy::Auto => 0,
            LayoutPolicy::Physical => 1,
            LayoutPolicy::Logical => 2,
        }
    }

    pub(crate) fn to_u8(self) -> (v: u8)
        ensures
            v == self.code(),
    {
        match self {
            LayoutPolicy::Auto => 0,
            LayoutPolicy::Physical => 1,
            LayoutPolicy::Logical => 2,
        }
    }

    pub(crate) fn from_u8(v: u8) -> (p: Result<LayoutPolicy, Error>)
        ensures
            match LayoutPolicy::of_code(v) {
                Some(it) => p == Ok::<LayoutPolicy, Error>(it),
                None => p == Err::<LayoutPolicy, Error>(Error::UnknownVariant("LayoutPolicy")),
            },
    {
        match v {
            0 => Ok(LayoutPolicy::Auto),
            1 => Ok(LayoutPolicy::Physical),
            2 => Ok(LayoutPolicy::Logical),
            _ => Err(Error::UnknownVariant("LayoutPolicy")),
        }
    }
}

/// The concrete injection strategy a receiver derived for one key event.
#[derive(Clone, Copy, PartialEq, Eq, Debug)]
pub enum Replay {
    /// Inject the physical key plus its modifiers.
    Physical(PhysicalKey),
    /// Inject this text directly.
    Text(LogicalText),
}

/// Whether a key event is reproduced by the key's position rather than its glyph.
pub open spec fn by_position(
    policy: LayoutPolicy,
    physical: PhysicalKey,
    text: Seq<char>,
    modifiers: Modifiers,
) -> bool {
    ||| text.len() == 0
    ||| physical.0 != 0 && match policy {
        LayoutPolicy::Auto => modifiers.command_chord(),
        LayoutPolicy::Physical => true,
        LayoutPolicy::Logical => false,
    }
}

/// Decide how to reproduce a key event.
///
/// Falls back to [`Replay::Physical`] whenever there is no usable text, and to
/// [`Replay::Text`] when the physical key is unknown to the sender.
#[must_use]
pub fn resolve_replay(
    policy: LayoutPolicy,
    physical: PhysicalKey,
    logical: LogicalText,
    modifiers: Modifiers,
) -> (r: Replay)
    ensures
        r == (if by_position(policy, physical, logical@, modifiers) {
            Replay::Physical(physical)
        } else {
            Replay::Text(logical)
        }),
{
    // When only one identity is usable there is no policy decision to make. Honouring the
    // policy anyway would mean injecting nothing at all for that key.
    if logical.is_empty() {
        return Replay::Physical(physical);
    }
    if physical.is_unknown() {
        return Replay::Text(logical);
    }
    let prefer_position = match policy {
        LayoutPolicy::Physical => true,
        LayoutPolicy::Logical => false,
        // A command chord means "invoke this shortcut", which is addressed by position.
        LayoutPolicy::Auto => modifiers.is_command_chord(),
    };
    if prefer_position {
        Replay::Physical(physical)
    } else {
        Replay::Text(logical)
    }
}

/// A shortcut arrives as its key and stays the same shortcut on any layout: whatever the
/// sender's layout makes of a known key under Ctrl, Gui or left Alt, the default policy
/// replays the key. So does every policy for a key that produces no text.
pub proof fn a_shortcut_arrives_as_its_key(
    policy: LayoutPolicy,
    physical: PhysicalKey,
    text: Seq<char>,
    modifiers: Modifiers,
)
    ensures
        physical.0 != 0 && modifiers.command_chord() ==> by_position(
            LayoutPolicy::Auto,
            physical,
            text,
            modifiers,
        ),
        text.len() == 0 ==> by_position(policy, physical, text, modifiers),
{
}

/// Typing through `AltGr` arrives as the glyph: with no Ctrl, Gui or left Alt held, the
/// default policy replays any text, whatever key produced it.
pub proof fn altgr_text_arrives_as_the_glyph(
    physical: PhysicalKey,
    text: Seq<char>,
    modifiers: Modifiers,
)
    requires
        text.len() > 0,
        !modifiers.command_chord(),
    ensures
        !by_position(LayoutPolicy::Auto, physical, text, modifiers),
        !by_position(
            LayoutPolicy::Auto,
            physical,
            text,
            Modifiers(modifiers.0 | Modifiers::right_alt().0),
        ),
{
    text_modifiers_never_make_a_chord(modifiers, modifiers);
    text_modifiers_never_make_a_chord(modifiers, Modifiers::right_alt());
}

/// Ctrl and Gui on either side and the left Alt make a command, each alone and whatever else
/// is held; without any of them nothing does.
pub proof fn these_modifiers_make_a_chord(m: Modifiers)
    ensures
        m.0 & 0x01 != 0 ==> m.command_chord(),
        m.0 & 0x04 != 0 ==> m.command_chord(),
        m.0 & 0x08 != 0 ==> m.command_chord(),
        m.0 & 0x10 != 0 ==> m.command_chord(),
        m.0 & 0x80 != 0 ==> m.command_chord(),
        m.0 & 0x01 == 0 && m.0 & 0x04 == 0 && m.0 & 0x08 == 0 && m.0 & 0x10 == 0 && m.0 & 0x80 == 0
            ==> !m.command_chord(),
{
}

/// Where both a known key and a text are at hand the policy decides: the physical one takes
/// the key and the logical one the text, whatever is held. Where only one is at hand, every
/// policy takes that one.
pub proof fn the_policy_decides_where_there_is_a_choice(
    policy: LayoutPolicy,
    physical: PhysicalKey,
    text: Seq<char>,
    modifiers: Modifiers,
)
    ensures
        text.len() == 0 ==> by_position(policy, physical, text, modifiers),
        text.len() > 0 && physical.0 == 0 ==> !by_position(policy, physical, text, modifiers),
        physical.0 != 0 ==> by_position(LayoutPolicy::Physical, physical, text, modifiers),
        text.len() > 0 ==> !by_position(LayoutPolicy::Logical, physical, text, modifiers),
        LayoutPolicy::Auto.code() == 0,
        LayoutPolicy::Physical.code() == 1,
        LayoutPolicy::Logical.code() == 2,
        LayoutPolicy::of_code(policy.code()) == Some(policy),
{
}

/// The named keys stand where the USB tables put them: the letters in alphabetical order from
/// 4, and the modifiers left before right, each in the order Ctrl, Shift, Alt, Gui from 0xE0.
pub proof fn named_keys_have_their_usages()
    ensures
        PhysicalKey::unknown().0 == 0,
        PhysicalKey::a().0 == 4,
        PhysicalKey::b().0 == 4 + 1,
        PhysicalKey::c().0 == 4 + 2,
        PhysicalKey::v().0 == 4 + 21,
        PhysicalKey::x().0 == 4 + 23,
        PhysicalKey::y().0 == 4 + 24,
        PhysicalKey::z().0 == 4 + 25,
        PhysicalKey::enter().0 == 0x28,
        PhysicalKey::escape().0 == 0x29,
        PhysicalKey::backspace().0 == 0x2A,
        PhysicalKey::tab().0 == 0x2B,
        PhysicalKey::space().0 == 0x2C,
        PhysicalKey::caps_lock().0 == 0x39,
        PhysicalKey::right_arrow().0 == 0x4F,
        PhysicalKey::left_arrow().0 == 0x50,
        PhysicalKey::down_arrow().0 == 0x51,
        PhysicalKey::up_arrow().0 == 0x52,
        PhysicalKey::left_ctrl().0 == 0xE0,
        PhysicalKey::left_shift().0 == 0xE1,
        PhysicalKey::left_alt().0 == 0xE2,
        PhysicalKey::left_gui().0 == 0xE3,
        PhysicalKey::right_ctrl().0 == 0xE4,
        PhysicalKey::right_shift().0 == 0xE5,
        PhysicalKey::right_alt().0 == 0xE6,
        PhysicalKey::right_gui().0 == 0xE7,
{
}

/// Each modifier key holds the modifier of its own name, on its own side, and no other key
/// holds one.
pub proof fn a_modifier_key_holds_its_own_modifier(k: PhysicalKey)
    ensures
        PhysicalKey::left_ctrl().spec_modifier_bit() == Some(Modifiers::left_ctrl()),
        PhysicalKey::left_shift().spec_modifier_bit() == Some(Modifiers::left_shift()),
        PhysicalKey::left_alt().spec_modifier_bit() == Some(Modifiers::left_alt()),
        PhysicalKey::left_gui().spec_modifier_bit() == Some(Modifiers::left_gui()),
        PhysicalKey::right_ctrl().spec_modifier_bit() == Some(Modifiers::right_ctrl()),
        PhysicalKey::right_shift().spec_modifier_bit() == Some(Modifiers::right_shift()),
        PhysicalKey::right_alt().spec_modifier_bit() == Some(Modifiers::right_alt()),
        PhysicalKey::right_gui().spec_modifier_bit() == Some(Modifiers::right_gui()),
        k.spec_modifier_bit() is Some ==> 0xE0 <= k.0 <= 0xE7,
        Modifiers::left_ctrl().0 == 0x01,
        Modifiers::left_shift().0 == 0x02,
        Modifiers::left_alt().0 == 0x04,
        Modifiers::left_gui().0 == 0x08,
        Modifiers::right_ctrl().0 == 0x10,
        Modifiers::right_shift().0 == 0x20,
        Modifiers::right_alt().0 == 0x40,
        Modifiers::right_gui().0 == 0x80,
        Modifiers::caps_lock().0 == 0x100,
        Modifiers::num_lock().0 == 0x200,
        Modifiers::scroll_lock().0 == 0x400,
        Modifiers::any_ctrl().0 == 0x01 + 0x10,
        Modifiers::any_shift().0 == 0x02 + 0x20,
        Modifiers::any_alt().0 == 0x04 + 0x40,
        Modifiers::any_gui().0 == 0x08 + 0x80,
{
    bits_of_a_word();
}

/// The modifiers are named in the order of their bits, each by its own name.
pub proof fn modifiers_have_their_names()
    ensures
        Modifiers::names().len() == 11,
        Modifiers::names()[0] == (Modifiers(0x01), "LCtrl"@),
        Modifiers::names()[1] == (Modifiers(0x02), "LShift"@),
        Modifiers::names()[2] == (Modifiers(0x04), "LAlt"@),
        Modifiers::names()[3] == (Modifiers(0x08), "LGui"@),
        Modifiers::names()[4] == (Modifiers(0x10), "RCtrl"@),
        Modifiers::names()[5] == (Modifiers(0x20), "RShift"@),
        Modifiers::names()[6] == (Modifiers(0x40), "AltGr"@),
        Modifiers::names()[7] == (Modifiers(0x80), "RGui"@),
        Modifiers::names()[8] == (Modifiers(0x100), "Caps"@),
        Modifiers::names()[9] == (Modifiers(0x200), "Num"@),
        Modifiers::names()[10] == (Modifiers(0x400), "Scroll"@),
{
}

/// Exactly the modifiers that are held are named, in order, with a bar between each two.
pub proof fn held_modifiers_are_named_in_order(m: Modifiers, n: nat)
    ensures
        m.held_names(0).len() == 0,
        !m.has(Modifiers::names()[n as int].0) ==> m.held_names(n + 1) == m.held_names(n),
        m.has(Modifiers::names()[n as int].0) && m.held_names(n).len() == 0 ==> m.held_names(n + 1)
            == Modifiers::names()[n as int].1,
        m.has(Modifiers::names()[n as int].0) && m.held_names(n).len() > 0 ==> m.held_names(n + 1)
            == m.held_names(n).push('|') + Modifiers::names()[n as int].1,
{
    reveal_strlit("|");
    let (before, name) = (m.held_names(n), Modifiers::names()[n as int].1);
    assert(before + "|"@ + name =~= before.push('|') + name);
}

/// A text of more than fifteen bytes is refused by its length alone; a shorter one is read
/// where its bytes are text.
pub proof fn a_text_has_at_most_fifteen_bytes(s: Seq<u8>)
    requires
        s.len() > 0,
    ensures
        s[0] > 15 ==> LogicalText::get_text(s) == Err::<(Seq<char>, Seq<u8>), Error>(
            Error::TooLong,
        ),
        s[0] <= 15 && s.len() >= 1 + s[0] && valid_utf8(s.subrange(1, 1 + s[0])) ==> (
        LogicalText::get_text(s) matches Ok((text, rest)) && encode_utf8(text) == s.subrange(
            1,
            1 + s[0],
        ) && rest == s.skip(1 + s[0])),
{
    let first = s.take(1);
    wire::what_is_read_is_spelled_so(first);
    assert(first[0] == s[0]);
    let n = s[0] as int;
    if n <= 15 && s.len() >= 1 + n {
        assert(s.skip(1).take(n) =~= s.subrange(1, 1 + n));
        assert(s.skip(1).skip(n) =~= s.skip(1 + n));
        if valid_utf8(s.subrange(1, 1 + n)) {
            decode_utf8_encode_utf8(s.subrange(1, 1 + n));
        }
    }
}

/// The ways of replaying keys have their numbers, and no other number is one.
pub proof fn policies_have_their_numbers(v: u8)
    ensures
        LayoutPolicy::Auto.code() == 0,
        LayoutPolicy::Physical.code() == 1,
        LayoutPolicy::Logical.code() == 2,
        match LayoutPolicy::of_code(v) {
            Some(p) => v < 3 && p.code() == v,
            None => v >= 3,
        },
{
}

} // verus!
