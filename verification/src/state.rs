//! Authoritative key state and reconciliation: the "no stuck modifiers" guarantee.
//!
//! The pressed-key set is an explicit, comparable value. The sender owns the
//! authoritative [`KeyState`]; the receiver keeps its own copy of what it has injected. A
//! heartbeat carries a [`KeyState::digest`], and any divergence is repaired by
//! [`KeyState::reconcile`].
use crate::keys::{Modifiers, PhysicalKey};
use vstd::prelude::*;

verus! {

/// The set of physical keys currently held down, plus the modifier mask.
///
/// One bit per usage of the Keyboard/Keypad page, 256 in all. Fixed-size and `Copy`:
/// comparing and diffing key state never allocates.
#[derive(Clone, Copy, PartialEq, Eq, Debug)]
pub struct KeyState {
    pressed: [u64; 4],
    modifiers: Modifiers,
}

/// Whether bit `j` of `w` is set.
pub open spec fn bit(w: u64, j: u64) -> bool {
    (w >> j) & 1 == 1
}

proof fn bit_facts(x: u64, y: u64, b: u64, j: u64)
    requires
        b < 64,
        j < 64,
    ensures
        bit(x | (1u64 << b), j) == (bit(x, j) || j == b),
        bit(x & !(1u64 << b), j) == (bit(x, j) && j != b),
        bit(x & !y, j) == (bit(x, j) && !bit(y, j)),
        (x & (1u64 << b) != 0) == bit(x, b),
        !bit(0, j),
{
    assert((((x | (1u64 << b)) >> j) & 1 == 1) == ((x >> j) & 1 == 1 || j == b) && (((x & !(1u64
        << b)) >> j) & 1 == 1) == ((x >> j) & 1 == 1 && j != b)) by (bit_vector)
        requires
            b < 64,
            j < 64,
    ;
    assert((((x & !y) >> j) & 1 == 1) == ((x >> j) & 1 == 1 && !((y >> j) & 1 == 1)))
        by (bit_vector)
        requires
            j < 64,
    ;
    assert((x & (1u64 << b) != 0) == ((x >> b) & 1 == 1)) by (bit_vector)
        requires
            b < 64,
    ;
    assert((0u64 >> j) & 1 == 0) by (bit_vector);
}

proof fn mask_facts(m: u16, a: u16, b: u16)
    requires
        a < 8,
        b < 8,
    ensures
        ((m | (1u16 << a)) & (1u16 << b) != 0) == (m & (1u16 << b) != 0 || a == b),
        ((m & !(1u16 << a)) & (1u16 << b) != 0) == (m & (1u16 << b) != 0 && a != b),
        forall|x: u16| #[trigger] (0u16 & x) == 0,
{
    assert(((m | (1u16 << a)) & (1u16 << b) != 0) == (m & (1u16 << b) != 0 || a == b) && ((m & !(
    1u16 << a)) & (1u16 << b) != 0) == (m & (1u16 << b) != 0 && a != b)) by (bit_vector)
        requires
            a < 8,
            b < 8,
    ;
    assert(forall|x: u16| #[trigger] (0u16 & x) == 0) by (bit_vector);
}

proof fn locks_leave_held_modifiers(m: u16, locks: u16, b: u16)
    requires
        b < 8,
    ensures
        (((m & !0x700u16) | (locks & 0x700u16)) & (1u16 << b) != 0) == (m & (1u16 << b) != 0),
{
    assert((((m & !0x700u16) | (locks & 0x700u16)) & (1u16 << b) != 0) == (m & (1u16 << b) != 0))
        by (bit_vector)
        requires
            b < 8,
    ;
}

/// Two words with the same bits are the same word.
proof fn same_bits(x: u64, y: u64)
    requires
        forall|j: u64| j < 64 ==> bit(x, j) == bit(y, j),
    ensures
        x == y,
{
    if x != y {
        let d = x ^ y;
        assert(d != 0) by (bit_vector)
            requires
                x != y,
                d == x ^ y,
        ;
        let j = low_bit(d);
        assert(bit(x, j) == bit(y, j));
        assert(((x ^ y) >> j) & 1 == ((x >> j) & 1) ^ ((y >> j) & 1) && ((((x >> j) & 1 == 1) == ((y
            >> j) & 1 == 1)) ==> ((x >> j) & 1) ^ ((y >> j) & 1) == 0)) by (bit_vector);
    }
}

/// A nonzero word has a set bit.
proof fn low_bit(d: u64) -> (j: u64)
    requires
        d != 0,
    ensures
        j < 64,
        bit(d, j),
{
    vstd::std_specs::bits::axiom_u64_trailing_zeros(d);
    vstd::std_specs::bits::u64_trailing_zeros(d) as u64
}

impl KeyState {
    /// Whether the usage `k` is held: one of the 256 tracked, and its bit is set.
    pub open spec fn is_held(self, k: int) -> bool {
        0 <= k < 256 && bit(self.key_words()[k / 64], (k % 64) as u64)
    }

    /// The usages held.
    pub open spec fn held(self) -> Set<u16> {
        Set::new(|k: u16| self.is_held(k as int))
    }

    /// The modifier mask.
    pub closed spec fn mask(self) -> Modifiers {
        self.modifiers
    }

    /// The modifier mask names exactly the modifier keys that are held. Kept by every
    /// press and release; a state that arrived from a peer may lack it.
    pub open spec fn coherent(self) -> bool {
        forall|k: u16|
            0xE0 <= k <= 0xE7 ==> #[trigger] self.held().contains(k) == (self.mask().0 & (1u16 << (
            (k - 0xE0) as u16)) != 0)
    }

    /// The held keys as four words of one bit per usage, lowest usages first.
    pub closed spec fn key_words(self) -> Seq<u64> {
        self.pressed@
    }

    #[must_use]
    pub fn new() -> (s: KeyState)
        ensures
            s.held() == Set::<u16>::empty(),
            s.mask() == Modifiers::none(),
            s.coherent(),
    {
        let s = KeyState { pressed: [0; 4], modifiers: Modifiers::none() };
        proof {
            s.zero_words_hold_nothing();
            mask_facts(0, 0, 0);
        }
        s
    }

    proof fn zero_words_hold_nothing(self)
        requires
            forall|i: int| 0 <= i < 4 ==> #[trigger] self.pressed@[i] == 0,
        ensures
            self.held() == Set::<u16>::empty(),
            forall|k: int| !self.is_held(k),
    {
        assert forall|k: int| !self.is_held(k) by {
            if 0 <= k < 256 {
                assert(self.pressed@[k / 64] == 0);
                bit_facts(0, 0, 0, (k % 64) as u64);
            }
        }
        assert(self.held() =~= Set::<u16>::empty());
    }

    /// Record a key as held. Returns `true` if this changed the state.
    ///
    /// A usage outside the tracked 256 is ignored.
    pub fn press(&mut self, key: PhysicalKey) -> (changed: bool)
        ensures
            changed == (key.0 < 256 && !old(self).held().contains(key.0)),
            final(self).held() == (if key.0 < 256 {
                old(self).held().insert(key.0)
            } else {
                old(self).held()
            }),
            final(self).held().len() == old(self).held().len() + (if changed {
                1int
            } else {
                0
            }),
            final(self).mask().0 == (match key.spec_modifier_bit() {
                Some(m) => old(self).mask().0 | m.0,
                None => old(self).mask().0,
            }),
            old(self).coherent() ==> final(self).coherent(),
    {
        proof {
            held_keys_are_few(*self);
        }
        if key.0 >= 256 {
            return false;
        }
        let word: usize = (key.0 / 64) as usize;
        let at: u64 = (key.0 % 64) as u64;
        let mask: u64 = 1u64 << at;
        let ghost before = *self;
        let changed = self.pressed[word] & mask == 0;
        self.pressed[word] = self.pressed[word] | mask;
        if let Some(m) = key.modifier_bit() {
            self.modifiers = self.modifiers.union(m);
        }
        proof {
            bit_facts(before.pressed@[word as int], 0, at, at);
            assert forall|k: u16| #[trigger]
                self.is_held(k as int) == (before.is_held(k as int) || k == key.0) by {
                if k < 256 {
                    bit_facts(before.pressed@[word as int], 0, at, (k % 64) as u64);
                    assert(k as int / 64 == word && k % 64 == at ==> k == key.0);
                }
            }
            assert(self.held() =~= before.held().insert(key.0));
            let ghost added = (key.0 - 0xE0) as u16;
            assert forall|k: u16| 0xE0 <= k <= 0xE7 && before.coherent() implies #[trigger] self.held().contains(
            k) == (self.mask().0 & (1u16 << ((k - 0xE0) as u16)) != 0) by {
                assert(before.held().contains(k) == (before.mask().0 & (1u16 << ((k
                    - 0xE0) as u16)) != 0));
                if 0xE0 <= key.0 <= 0xE7 {
                    mask_facts(before.mask().0, added, (k - 0xE0) as u16);
                }
            }
        }
        changed
    }

    /// Record a key as released. Returns `true` if this changed the state.
    pub fn release(&mut self, key: PhysicalKey) -> (changed: bool)
        ensures
            changed == old(self).held().contains(key.0),
            final(self).held() == old(self).held().remove(key.0),
            final(self).held().len() == old(self).held().len() - (if changed {
                1int
            } else {
                0
            }),
            final(self).mask().0 == (match key.spec_modifier_bit() {
                Some(m) => old(self).mask().0 & !m.0,
                None => old(self).mask().0,
            }),
            old(self).coherent() ==> final(self).coherent(),
    {
        let ghost before = *self;
        proof {
            held_keys_are_few(before);
        }
        if key.0 >= 256 {
            proof {
                assert(self.held() =~= before.held().remove(key.0));
            }
            return false;
        }
        let word: usize = (key.0 / 64) as usize;
        let at: u64 = (key.0 % 64) as u64;
        let mask: u64 = 1u64 << at;
        let changed = self.pressed[word] & mask != 0;
        self.pressed[word] = self.pressed[word] & !mask;
        if let Some(m) = key.modifier_bit() {
            self.modifiers = self.modifiers.without(m);
        }
        proof {
            bit_facts(before.pressed@[word as int], 0, at, at);
            assert forall|k: u16| #[trigger]
                self.is_held(k as int) == (before.is_held(k as int) && k != key.0) by {
                if k < 256 {
                    bit_facts(before.pressed@[word as int], 0, at, (k % 64) as u64);
                    assert(k as int / 64 == word && k % 64 == at ==> k == key.0);
                }
            }
            assert(self.held() =~= before.held().remove(key.0));
            let ghost removed = (key.0 - 0xE0) as u16;
            assert forall|k: u16| 0xE0 <= k <= 0xE7 && before.coherent() implies #[trigger] self.held().contains(
            k) == (self.mask().0 & (1u16 << ((k - 0xE0) as u16)) != 0) by {
                assert(before.held().contains(k) == (before.mask().0 & (1u16 << ((k
                    - 0xE0) as u16)) != 0));
                if 0xE0 <= key.0 <= 0xE7 {
                    mask_facts(before.mask().0, removed, (k - 0xE0) as u16);
                }
            }
        }
        changed
    }

    #[must_use]
    pub fn is_pressed(&self, key: PhysicalKey) -> (b: bool)
        ensures
            b == self.held().contains(key.0),
    {
        if key.0 >= 256 {
            return false;
        }
        let word: usize = (key.0 / 64) as usize;
        let at: u64 = (key.0 % 64) as u64;
        proof {
            bit_facts(self.pressed@[word as int], 0, at, at);
        }
        self.pressed[word] & (1u64 << at) != 0
    }

    #[must_use]
    pub fn modifiers(&self) -> (m: Modifiers)
        ensures
            m == self.mask(),
    {
        self.modifiers
    }

    /// Latching modifiers (Caps/Num/Scroll Lock) are state, not a held key, so they are
    /// set directly rather than inferred from press/release.
    pub fn set_locks(&mut self, locks: Modifiers)
        ensures
            final(self).held() == old(self).held(),
            final(self).mask().0 == (old(self).mask().0 & !0x700u16) | (locks.0 & 0x700u16),
            old(self).coherent() ==> final(self).coherent(),
    {
        let ghost before = *self;
        self.modifiers = Modifiers((self.modifiers.0 & !0x700u16) | (locks.0 & 0x700u16));
        proof {
            assert(self.held() =~= before.held()) by {
                assert forall|k: int| #[trigger] self.is_held(k) == before.is_held(k) by {}
            }
            assert forall|k: u16| 0xE0 <= k <= 0xE7 && before.coherent() implies #[trigger] self.held().contains(
            k) == (self.mask().0 & (1u16 << ((k - 0xE0) as u16)) != 0) by {
                assert(before.held().contains(k) == (before.mask().0 & (1u16 << ((k
                    - 0xE0) as u16)) != 0));
                locks_leave_held_modifiers(before.mask().0, locks.0, (k - 0xE0) as u16);
            }
        }
    }

    #[must_use]
    pub fn is_empty(&self) -> (b: bool)
        ensures
            b == (self.held() == Set::<u16>::empty()),
    {
        let b = self.pressed[0] == 0 && self.pressed[1] == 0 && self.pressed[2] == 0
            && self.pressed[3] == 0;
        proof {
            if b {
                self.zero_words_hold_nothing();
            } else {
                let i: int = if self.pressed@[0] != 0 {
                    0
                } else if self.pressed@[1] != 0 {
                    1
                } else if self.pressed@[2] != 0 {
                    2
                } else {
                    3
                };
                let j = low_bit(self.pressed@[i]);
                let k = (i * 64 + j) as u16;
                assert(k as int / 64 == i && k as int % 64 == j);
                assert(self.is_held(k as int));
                assert(self.held().contains(k));
            }
        }
        b
    }

    pub fn clear(&mut self)
        ensures
            final(self).held() == Set::<u16>::empty(),
            final(self).mask() == Modifiers::none(),
            final(self).coherent(),
    {
        self.pressed = [0; 4];
        self.modifiers = Modifiers::none();
        proof {
            self.zero_words_hold_nothing();
            mask_facts(0, 0, 0);
        }
    }

    /// The held keys in ascending usage order.
    pub fn iter(&self) -> (keys: Vec<PhysicalKey>)
        ensures
            forall|i: int, j: int| 0 <= i < j < keys@.len() ==> keys@[i].0 < keys@[j].0,
            keys@.map_values(|k: PhysicalKey| k.0).to_set() == self.held(),
            forall|k: PhysicalKey| #[trigger] keys@.contains(k) <==> self.held().contains(k.0),
            forall|i: int| 0 <= i < keys@.len() ==> (#[trigger] keys@[i]).0 < 256,
            keys@.len() == self.held().len(),
    {
        let mut keys: Vec<PhysicalKey> = Vec::new();
        let mut k: u16 = 0;
        while k < 256
            invariant
                k <= 256,
                forall|i: int| 0 <= i < keys@.len() ==> (#[trigger] keys@[i]).0 < k,
                forall|i: int, j: int| 0 <= i < j < keys@.len() ==> keys@[i].0 < keys@[j].0,
                forall|i: int| 0 <= i < keys@.len() ==> self.held().contains((#[trigger] keys@[i]).0),
                forall|u: u16|
                    u < k && #[trigger] self.held().contains(u) ==> keys@.contains(PhysicalKey(u)),
            decreases 256 - k,
        {
            let ghost before = keys@;
            if self.is_pressed(PhysicalKey(k)) {
                keys.push(PhysicalKey(k));
                proof {
                    assert(keys@[before.len() as int] == PhysicalKey(k));
                    assert forall|u: u16| u <= k && #[trigger] self.held().contains(u) implies keys@.contains(
                    PhysicalKey(u)) by {
                        if u < k {
                            let i = choose|i: int|
                                0 <= i < before.len() && before[i] == PhysicalKey(u);
                            assert(keys@[i] == PhysicalKey(u));
                        }
                    }
                }
            }
            k = k + 1;
        }
        proof {
            let usages = keys@.map_values(|k: PhysicalKey| k.0);
            assert forall|u: u16| usages.to_set().contains(u) == self.held().contains(u) by {
                if self.held().contains(u) {
                    let i = choose|i: int| 0 <= i < keys@.len() && keys@[i] == PhysicalKey(u);
                    assert(usages[i] == u);
                }
                if usages.contains(u) {
                    let i = choose|i: int| 0 <= i < usages.len() && usages[i] == u;
                    assert(self.held().contains(keys@[i].0));
                }
            }
            assert(usages.to_set() =~= self.held());
            assert forall|k: PhysicalKey| #[trigger] keys@.contains(k) implies self.held().contains(
                k.0,
            ) by {
                let i = choose|i: int| 0 <= i < keys@.len() && keys@[i] == k;
                assert(self.held().contains(keys@[i].0));
            }
            assert forall|k: PhysicalKey| self.held().contains(k.0) implies #[trigger] keys@.contains(
                k,
            ) by {
                assert(PhysicalKey(k.0) == k);
            }
            assert(usages.no_duplicates()) by {
                assert forall|i: int, j: int|
                    0 <= i < usages.len() && 0 <= j < usages.len() && i != j implies usages[i]
                    != usages[j] by {
                    if i < j {
                        assert(keys@[i].0 < keys@[j].0);
                    } else {
                        assert(keys@[j].0 < keys@[i].0);
                    }
                }
            }
            usages.unique_seq_to_set();
        }
        keys
    }

    #[must_use]
    pub fn count(&self) -> (n: u32)
        ensures
            n == self.held().len(),
            n <= 256,
    {
        let keys = self.iter();
        proof {
            held_keys_are_few(*self);
        }
        keys.len() as u32
    }

    /// The heartbeat fingerprint of four words and a mask.
    pub open spec fn digest_of(words: Seq<u64>, mask: u16) -> u64 {
        let a0 = (mask as u64).wrapping_mul(0x9E37_79B9_7F4A_7C15);
        let a1 = rotate17(a0 ^ splitmix(words[0]));
        let a2 = rotate17(a1 ^ splitmix(words[1] ^ 0xBF58_476D_1CE4_E5B9));
        let a3 = rotate17(a2 ^ splitmix(words[2] ^ 0x7EB0_8EDA_39C9_CB72));
        let a4 = rotate17(a3 ^ splitmix(words[3] ^ 0x3E08_D647_56AE_B12B));
        splitmix(a4)
    }

    /// A compact fingerprint of this state, for the heartbeat.
    ///
    /// Not cryptographic and does not need to be: peers are already authenticated, so
    /// this only has to catch accidental divergence.
    #[must_use]
    pub fn digest(&self) -> (d: u64)
        ensures
            d == KeyState::digest_of(self.key_words(), self.mask().0),
    {
        let mut acc: u64 = (self.modifiers.0 as u64).wrapping_mul(0x9E37_79B9_7F4A_7C15);
        let salts: [u64; 4] = [
            0,
            0xBF58_476D_1CE4_E5B9,
            0x7EB0_8EDA_39C9_CB72,
            0x3E08_D647_56AE_B12B,
        ];
        let words: [u64; 4] = self.pressed;
        let w0: u64 = words[0];
        assert(w0 ^ 0 == w0) by (bit_vector);
        acc = rotate_left_17(acc ^ splitmix64(words[0] ^ salts[0]));
        acc = rotate_left_17(acc ^ splitmix64(words[1] ^ salts[1]));
        acc = rotate_left_17(acc ^ splitmix64(words[2] ^ salts[2]));
        acc = rotate_left_17(acc ^ splitmix64(words[3] ^ salts[3]));
        splitmix64(acc)
    }

    /// Compute the injections that bring `self` (what the receiver has injected) into
    /// agreement with `authoritative` (what the sender says is really held).
    #[must_use]
    pub fn reconcile(&self, authoritative: &KeyState) -> (fix: Reconciliation)
        ensures
            fix.repairs(*self, *authoritative),
    {
        let mut to_release = KeyState::new();
        let mut to_press = KeyState::new();
        let mut i: usize = 0;
        while i < 4
            invariant
                i <= 4,
                to_release.mask() == Modifiers::none(),
                to_press.mask() == Modifiers::none(),
                forall|k: int|
                    0 <= k < i ==> #[trigger] to_release.pressed@[k] == self.pressed@[k]
                        & !authoritative.pressed@[k],
                forall|k: int|
                    0 <= k < i ==> #[trigger] to_press.pressed@[k] == authoritative.pressed@[k]
                        & !self.pressed@[k],
            decreases 4 - i,
        {
            to_release.pressed[i] = self.pressed[i] & !authoritative.pressed[i];
            to_press.pressed[i] = authoritative.pressed[i] & !self.pressed[i];
            i = i + 1;
        }
        proof {
            assert forall|k: u16|
                {
                    &&& to_release.is_held(k as int) == (self.is_held(k as int)
                        && !authoritative.is_held(k as int))
                    &&& to_press.is_held(k as int) == (authoritative.is_held(k as int)
                        && !self.is_held(k as int))
                } by {
                if k < 256 {
                    let (a, b) = (
                        self.pressed@[k as int / 64],
                        authoritative.pressed@[k as int / 64],
                    );
                    assert(to_release.pressed@[k as int / 64] == a & !b);
                    assert(to_press.pressed@[k as int / 64] == b & !a);
                    bit_facts(a, b, 0, (k % 64) as u64);
                    bit_facts(b, a, 0, (k % 64) as u64);
                }
            }
            assert(to_release.held() =~= self.held().difference(authoritative.held()));
            assert(to_press.held() =~= authoritative.held().difference(self.held()));
        }
        Reconciliation { to_release, to_press, modifiers: authoritative.modifiers }
    }

    pub(crate) fn words(&self) -> (w: [u64; 4])
        ensures
            w@ == self.key_words(),
    {
        self.pressed
    }

    pub(crate) fn from_parts(pressed: [u64; 4], modifiers: Modifiers) -> (s: KeyState)
        ensures
            s.key_words() == pressed@,
            s.mask() == modifiers,
    {
        KeyState { pressed, modifiers }
    }
}

impl Default for KeyState {
    fn default() -> (s: KeyState)
        ensures
            s.held() == Set::<u16>::empty(),
            s.mask() == Modifiers::none(),
    {
        KeyState::new()
    }
}

/// The repair actions produced by [`KeyState::reconcile`].
#[derive(Clone, Copy, PartialEq, Eq, Debug)]
pub struct Reconciliation {
    /// Keys the receiver is holding that the sender is not. Release these first: a stuck
    /// modifier corrupts every subsequent keystroke, so it is the urgent half.
    pub to_release: KeyState,
    /// Keys the sender holds that the receiver is not.
    pub to_press: KeyState,
    /// The authoritative modifier mask, including lock state.
    pub modifiers: Modifiers,
}

impl Reconciliation {
    /// Whether this is the repair that takes `receiver` to `sender`: it releases what only
    /// the receiver holds, presses what only the sender holds, and names the sender's mask.
    pub open spec fn repairs(self, receiver: KeyState, sender: KeyState) -> bool {
        &&& self.to_release.held() == receiver.held().difference(sender.held())
        &&& self.to_press.held() == sender.held().difference(receiver.held())
        &&& self.to_release.mask() == Modifiers::none()
        &&& self.to_press.mask() == Modifiers::none()
        &&& self.modifiers == sender.mask()
    }

    #[must_use]
    pub fn is_noop(&self) -> (b: bool)
        ensures
            b == (self.to_release.held() == Set::<u16>::empty() && self.to_press.held() == Set::<
                u16,
            >::empty()),
    {
        self.to_release.is_empty() && self.to_press.is_empty()
    }
}

// ---------------------------------------------------------------- laws
/// Held keys are always four words.
pub proof fn four_words(s: KeyState)
    ensures
        s.key_words().len() == 4,
{
}

/// Only the 256 tracked usages can be held, so no more than that many are.
pub proof fn held_keys_are_few(s: KeyState)
    ensures
        s.held().finite(),
        s.held().len() <= 256,
        forall|k: u16| #[trigger] s.held().contains(k) ==> k < 256,
{
    let ints = vstd::set_lib::set_int_range(0, 256);
    vstd::set_lib::lemma_int_range(0, 256);
    let f = |i: int| i as u16;
    vstd::set_lib::lemma_map_size_bound(ints, ints.map(f), f);
    assert(s.held().subset_of(ints.map(f))) by {
        assert forall|k: u16| s.held().contains(k) implies ints.map(f).contains(k) by {
            assert(ints.contains(k as int) && f(k as int) == k);
        }
    }
    vstd::set_lib::lemma_len_subset(s.held(), ints.map(f));
}

/// A usage is held just where it is tracked and its bit is set in the words of the state.
pub proof fn held_keys_are_bits(s: KeyState, k: u16)
    ensures
        s.held().contains(k) <==> k < 256 && bit(s.key_words()[k as int / 64], (k % 64) as u64),
{
}

/// Carrying out a repair converges: the receiver, with what it alone held released and
/// what it lacked pressed, holds exactly what the sender holds.
pub proof fn repair_converges(receiver: KeyState, sender: KeyState, fix: Reconciliation)
    requires
        fix.repairs(receiver, sender),
    ensures
        receiver.held().difference(fix.to_release.held()).union(fix.to_press.held())
            == sender.held(),
{
    assert(receiver.held().difference(fix.to_release.held()).union(fix.to_press.held())
        =~= sender.held());
}

/// There is nothing to repair exactly when both sides hold the same keys.
pub proof fn nothing_to_repair_iff_in_agreement(
    receiver: KeyState,
    sender: KeyState,
    fix: Reconciliation,
)
    requires
        fix.repairs(receiver, sender),
    ensures
        (fix.to_release.held() == Set::<u16>::empty() && fix.to_press.held() == Set::<u16>::empty())
            == (receiver.held() == sender.held()),
{
    let (r, s) = (receiver.held(), sender.held());
    if fix.to_release.held() == Set::<u16>::empty() && fix.to_press.held() == Set::<u16>::empty() {
        assert forall|k: u16| r.contains(k) == s.contains(k) by {
            assert(!r.difference(s).contains(k) && !s.difference(r).contains(k));
        }
        assert(r =~= s);
    }
    if r == s {
        assert(r.difference(s) =~= Set::<u16>::empty());
        assert(s.difference(r) =~= Set::<u16>::empty());
    }
}

/// The digest depends on what is held and on the mask, not on how the state came about.
pub proof fn digest_follows_the_state(a: KeyState, b: KeyState)
    requires
        a.held() == b.held(),
        a.mask() == b.mask(),
    ensures
        a == b,
        KeyState::digest_of(a.key_words(), a.mask().0) == KeyState::digest_of(
            b.key_words(),
            b.mask().0,
        ),
{
    assert forall|i: int| 0 <= i < 4 implies a.pressed@[i] == b.pressed@[i] by {
        assert forall|j: u64| j < 64 implies bit(a.pressed@[i], j) == bit(b.pressed@[i], j) by {
            let k = (i * 64 + j) as u16;
            assert(k as int / 64 == i && k as int % 64 == j);
            assert(a.held().contains(k) == a.is_held(k as int));
            assert(b.held().contains(k) == b.is_held(k as int));
        }
        same_bits(a.pressed@[i], b.pressed@[i]);
    }
    assert(a.pressed =~= b.pressed);
}

/// Machines that track their own presses and agree on the modifiers held and on the lock
/// keys have the same mask.
proof fn masks_follow_held_modifiers(a: KeyState, b: KeyState)
    requires
        a.coherent(),
        b.coherent(),
        a.mask().0 < 0x800,
        b.mask().0 < 0x800,
        forall|k: u16|
            0xE0 <= k <= 0xE7 ==> #[trigger] a.held().contains(k) == b.held().contains(k),
        a.mask().0 & 0x700 == b.mask().0 & 0x700,
    ensures
        a.mask() == b.mask(),
{
    let (x, y) = (a.mask().0, b.mask().0);
    assert forall|j: u16| j < 8 implies (x & (1u16 << j) != 0) == (#[trigger] (y & (1u16 << j))
        != 0) by {
        let k = (0xE0 + j) as u16;
        assert((k - 0xE0) as u16 == j);
        assert(a.held().contains(k) == (x & (1u16 << ((k - 0xE0) as u16)) != 0));
        assert(b.held().contains(k) == (y & (1u16 << ((k - 0xE0) as u16)) != 0));
    }
    let same = |j: u16| (x & (1u16 << j) != 0) == (y & (1u16 << j) != 0);
    assert(same(0) && same(1) && same(2) && same(3) && same(4) && same(5) && same(6) && same(7));
    assert(x == y) by (bit_vector)
        requires
            x < 0x800,
            y < 0x800,
            x & 0x700 == y & 0x700,
            (x & (1u16 << 0u16) != 0) == (y & (1u16 << 0u16) != 0),
            (x & (1u16 << 1u16) != 0) == (y & (1u16 << 1u16) != 0),
            (x & (1u16 << 2u16) != 0) == (y & (1u16 << 2u16) != 0),
            (x & (1u16 << 3u16) != 0) == (y & (1u16 << 3u16) != 0),
            (x & (1u16 << 4u16) != 0) == (y & (1u16 << 4u16) != 0),
            (x & (1u16 << 5u16) != 0) == (y & (1u16 << 5u16) != 0),
            (x & (1u16 << 6u16) != 0) == (y & (1u16 << 6u16) != 0),
            (x & (1u16 << 7u16) != 0) == (y & (1u16 << 7u16) != 0),
    ;
}

/// Two machines that track their own presses and agree on the keys held and on the lock
/// keys have equal states, so their digests match.
pub proof fn agreeing_machines_have_equal_digests(a: KeyState, b: KeyState)
    requires
        a.coherent(),
        b.coherent(),
        a.mask().0 < 0x800,
        b.mask().0 < 0x800,
        a.held() == b.held(),
        a.mask().0 & 0x700 == b.mask().0 & 0x700,
    ensures
        a == b,
        KeyState::digest_of(a.key_words(), a.mask().0) == KeyState::digest_of(
            b.key_words(),
            b.mask().0,
        ),
{
    masks_follow_held_modifiers(a, b);
    digest_follows_the_state(a, b);
}

/// A divergence confined to one of the four words of held keys, or to the modifier mask, is
/// always visible in the digest: no two such states share one.
pub proof fn digest_shows_a_single_divergence(a: KeyState, b: KeyState, i: int)
    requires
        0 <= i < 4,
        a.key_words() == b.key_words().update(i, a.key_words()[i]),
        (a.key_words()[i] != b.key_words()[i]) != (a.mask() != b.mask()),
    ensures
        KeyState::digest_of(a.key_words(), a.mask().0) != KeyState::digest_of(
            b.key_words(),
            b.mask().0,
        ),
{
    let (u, v) = (a.key_words(), b.key_words());
    let (s1, s2, s3) = (
        0xBF58_476D_1CE4_E5B9u64,
        0x7EB0_8EDA_39C9_CB72u64,
        0x3E08_D647_56AE_B12Bu64,
    );
    let a0 = (a.mask().0 as u64).wrapping_mul(0x9E37_79B9_7F4A_7C15);
    let b0 = (b.mask().0 as u64).wrapping_mul(0x9E37_79B9_7F4A_7C15);
    if a.mask() != b.mask() {
        odd_multiples_differ(
            a.mask().0 as u64,
            b.mask().0 as u64,
            0x9E37_79B9_7F4A_7C15,
            0xf1de83e19937733d,
            0x957bbf35006ed677,
        );
    }
    let (w0, z0) = (u[0], v[0]);
    assert(w0 ^ 0 == w0 && z0 ^ 0 == z0) by (bit_vector);
    let (a1, b1) = (mixed(a0, w0, 0), mixed(b0, z0, 0));
    mixing_keeps_a_difference(a0, w0, b0, z0, 0);
    let (a2, b2) = (mixed(a1, u[1], s1), mixed(b1, v[1], s1));
    mixing_keeps_a_difference(a1, u[1], b1, v[1], s1);
    let (a3, b3) = (mixed(a2, u[2], s2), mixed(b2, v[2], s2));
    mixing_keeps_a_difference(a2, u[2], b2, v[2], s2);
    let (a4, b4) = (mixed(a3, u[3], s3), mixed(b3, v[3], s3));
    mixing_keeps_a_difference(a3, u[3], b3, v[3], s3);
    if a4 != b4 {
        splitmix_is_injective(a4, b4);
    }
}

/// Where two states agree on the usages of a word, the word is the same.
proof fn words_follow_held_keys(a: KeyState, b: KeyState, i: int)
    requires
        0 <= i < 4,
        forall|k: u16|
            k < 256 && k as int / 64 == i ==> #[trigger] a.held().contains(k) == b.held().contains(k),
    ensures
        a.key_words()[i] == b.key_words()[i],
{
    assert forall|j: u64| j < 64 implies bit(a.key_words()[i], j) == bit(b.key_words()[i], j) by {
        let k = (i * 64 + j) as u16;
        assert(k as int / 64 == i && k as int % 64 == j);
        assert(a.held().contains(k) == a.is_held(k as int));
        assert(b.held().contains(k) == b.is_held(k as int));
    }
    same_bits(a.key_words()[i], b.key_words()[i]);
}

/// A divergence in the held keys among usages with one common multiple of 64 below them, or
/// in the modifier mask alone, is always visible in the digest.
pub proof fn digest_shows_what_is_held(a: KeyState, b: KeyState, i: int)
    requires
        0 <= i < 4,
        forall|k: u16| #[trigger]
            a.held().contains(k) != b.held().contains(k) ==> k as int / 64 == i,
    ensures
        a.held() != b.held() && a.mask() == b.mask() ==> KeyState::digest_of(
            a.key_words(),
            a.mask().0,
        ) != KeyState::digest_of(b.key_words(), b.mask().0),
        a.held() == b.held() && a.mask() != b.mask() ==> KeyState::digest_of(
            a.key_words(),
            a.mask().0,
        ) != KeyState::digest_of(b.key_words(), b.mask().0),
{
    let (u, v) = (a.key_words(), b.key_words());
    assert forall|n: int| 0 <= n < 4 && n != i implies u[n] == v[n] by {
        assert forall|k: u16| k < 256 && k as int / 64 == n implies #[trigger] a.held().contains(k)
            == b.held().contains(k) by {}
        words_follow_held_keys(a, b, n);
    }
    assert(u =~= v.update(i, u[i]));
    if a.held() == b.held() {
        words_follow_held_keys(a, b, i);
    } else if u[i] == v[i] {
        assert(u =~= v);
        assert(a.held() =~= b.held());
    }
    if (a.held() != b.held()) != (a.mask() != b.mask()) {
        digest_shows_a_single_divergence(a, b, i);
    }
}

/// No stuck modifier goes unseen: where two machines that track their own presses hold the
/// same keys otherwise, any difference in the modifiers they hold or in their lock keys is
/// visible in the digest. Of the usages that share a word with the modifiers, which are the
/// rare keys of the keypad and unassigned ones, none is held.
pub proof fn digest_shows_every_modifier(a: KeyState, b: KeyState)
    requires
        a.coherent(),
        b.coherent(),
        a.mask().0 < 0x800,
        b.mask().0 < 0x800,
        forall|k: u16| #[trigger]
            a.held().contains(k) != b.held().contains(k) ==> 0xE0 <= k <= 0xE7,
        forall|k: u16| 0xC0 <= k && #[trigger] a.held().contains(k) ==> 0xE0 <= k <= 0xE7,
        a.held() != b.held() || a.mask() != b.mask(),
    ensures
        KeyState::digest_of(a.key_words(), a.mask().0) != KeyState::digest_of(
            b.key_words(),
            b.mask().0,
        ),
{
    if a.mask() == b.mask() {
        assert forall|k: u16| a.held().contains(k) == b.held().contains(k) by {
            if 0xE0 <= k <= 0xE7 {
                assert(a.held().contains(k) == (a.mask().0 & (1u16 << ((k - 0xE0) as u16)) != 0));
                assert(b.held().contains(k) == (b.mask().0 & (1u16 << ((k - 0xE0) as u16)) != 0));
            }
        }
        assert(a.held() =~= b.held());
    }
    assert forall|n: int| 0 <= n < 3 implies a.key_words()[n] == b.key_words()[n] by {
        assert forall|k: u16| k < 256 && k as int / 64 == n implies #[trigger] a.held().contains(k)
            == b.held().contains(k) by {}
        words_follow_held_keys(a, b, n);
    }
    assert forall|k: u16| 0xC0 <= k && #[trigger] b.held().contains(k) implies 0xE0 <= k
        <= 0xE7 by {
        assert(a.held().contains(k) || a.held().contains(k) != b.held().contains(k));
    }
    last_word_of_modifiers(a);
    last_word_of_modifiers(b);
    let (x, y) = (a.mask().0 as u64, b.mask().0 as u64);
    let (u, v) = (a.key_words(), b.key_words());
    modifiers_never_cancel(x, y);
    wrapping_is_truncating(x, 0x9E37_79B9_7F4A_7C15);
    wrapping_is_truncating(y, 0x9E37_79B9_7F4A_7C15);
    splitmix_truncates(u[3] ^ 0x3E08_D647_56AE_B12B);
    splitmix_truncates(v[3] ^ 0x3E08_D647_56AE_B12B);
    let a0 = x.wrapping_mul(0x9E37_79B9_7F4A_7C15);
    let b0 = y.wrapping_mul(0x9E37_79B9_7F4A_7C15);
    let p = splitmix(u[0]);
    let q = splitmix(u[1] ^ 0xBF58_476D_1CE4_E5B9);
    let r = splitmix(u[2] ^ 0x7EB0_8EDA_39C9_CB72);
    let s = splitmix(u[3] ^ 0x3E08_D647_56AE_B12B);
    let t = splitmix(v[3] ^ 0x3E08_D647_56AE_B12B);
    folding_turns_a_difference(a0, b0, p, q, r, s, t);
    splitmix_is_injective(
        rotate17(rotate17(rotate17(rotate17(a0 ^ p) ^ q) ^ r) ^ s),
        rotate17(rotate17(rotate17(rotate17(b0 ^ p) ^ q) ^ r) ^ t),
    );
}

/// No stuck key goes unseen: where one key is held on one of two machines only, and they
/// track their own presses and agree on all else, their digests differ. A stuck modifier is
/// told while none of the rare usages that share its word is held.
pub proof fn a_stuck_key_shows_in_the_digest(a: KeyState, b: KeyState, k: u16)
    requires
        a.coherent(),
        b.coherent(),
        a.mask().0 < 0x800,
        b.mask().0 < 0x800,
        a.mask().0 & 0x700 == b.mask().0 & 0x700,
        !a.held().contains(k),
        b.held() == a.held().insert(k),
        0xE0 <= k <= 0xE7 ==> forall|n: u16|
            0xC0 <= n && #[trigger] a.held().contains(n) ==> 0xE0 <= n <= 0xE7,
    ensures
        KeyState::digest_of(a.key_words(), a.mask().0) != KeyState::digest_of(
            b.key_words(),
            b.mask().0,
        ),
{
    assert(b.held().contains(k));
    assert forall|n: u16| a.held().contains(n) != b.held().contains(n) implies n == k by {}
    if 0xE0 <= k <= 0xE7 {
        digest_shows_every_modifier(a, b);
    } else {
        masks_follow_held_modifiers(a, b);
        held_keys_are_few(b);
        digest_shows_what_is_held(a, b, k as int / 64);
    }
}

/// Where only modifiers are held among the highest usages, the mask gives the last word.
proof fn last_word_of_modifiers(s: KeyState)
    requires
        s.coherent(),
        forall|k: u16| 0xC0 <= k && #[trigger] s.held().contains(k) ==> 0xE0 <= k <= 0xE7,
    ensures
        s.key_words()[3] == (s.mask().0 as u64 & 0xff) << 32u64,
{
    let m = s.mask().0;
    let w = (m as u64 & 0xff) << 32u64;
    assert forall|j: u64| j < 64 implies bit(s.key_words()[3], j) == bit(w, j) by {
        let k = (192 + j) as u16;
        assert(k as int / 64 == 3 && k as int % 64 == j);
        assert(s.held().contains(k) == s.is_held(k as int));
        let i = if 32 <= j < 40 {
            (j - 32) as u16
        } else {
            0u16
        };
        assert(((((m as u64 & 0xff) << 32u64) >> j) & 1 == 1) == (32 <= j && j < 40 && m & (1u16
            << i) != 0)) by (bit_vector)
            requires
                i < 8,
                j < 64,
                32 <= j && j < 40 ==> j == i + 32,
        ;
        if 32 <= j < 40 {
            assert(0xE0 <= k <= 0xE7 && (k - 0xE0) as u16 == i);
        }
    }
    same_bits(s.key_words()[3], w);
}

/// What the mask of modifiers and locks `x` adds to the digest, if it gives the last word
/// too: itself, turned as folding turns it, and the last word.
spec fn added(x: u64) -> u64 {
    let a = (x * 0x9E37_79B9_7F4A_7C15) as u64;
    ((a << 51u64) | (a >> 13u64)) ^ truncating_splitmix(((x & 0xff) << 32u64)
        ^ 0x3E08_D647_56AE_B12B)
}

/// [`splitmix`], with its arithmetic as truncation.
spec fn truncating_splitmix(x: u64) -> u64 {
    let a = (x + 0x9E37_79B9_7F4A_7C15) as u64;
    let b = ((a ^ (a >> 30u64)) * 0xBF58_476D_1CE4_E5B9) as u64;
    let c = ((b ^ (b >> 27u64)) * 0x94D0_49BB_1331_11EB) as u64;
    c ^ (c >> 31u64)
}

proof fn wrapping_is_truncating(x: u64, c: u64)
    ensures
        (x * c) as u64 == x.wrapping_mul(c),
        (x + c) as u64 == x.wrapping_add(c),
{
    assert((x * c) as u64 == (x * c) % 0x1_0000_0000_0000_0000 && (x + c) as u64 == (x + c)
        % 0x1_0000_0000_0000_0000) by (bit_vector);
}

proof fn splitmix_truncates(x: u64)
    ensures
        truncating_splitmix(x) == splitmix(x),
{
    let a = x.wrapping_add(0x9E37_79B9_7F4A_7C15);
    wrapping_is_truncating(x, 0x9E37_79B9_7F4A_7C15);
    let b = (a ^ (a >> 30u64)).wrapping_mul(0xBF58_476D_1CE4_E5B9);
    wrapping_is_truncating(a ^ (a >> 30u64), 0xBF58_476D_1CE4_E5B9);
    wrapping_is_truncating(b ^ (b >> 27u64), 0x94D0_49BB_1331_11EB);
}

/// Folding the same words turns a difference by 51 bits and leaves it a difference.
proof fn folding_turns_a_difference(a: u64, b: u64, p: u64, q: u64, r: u64, s: u64, t: u64)
    by (bit_vector)
    requires
        ((a << 51u64) | (a >> 13u64)) ^ s != ((b << 51u64) | (b >> 13u64)) ^ t,
    ensures
        rotate17(rotate17(rotate17(rotate17(a ^ p) ^ q) ^ r) ^ s) != rotate17(
            rotate17(rotate17(rotate17(b ^ p) ^ q) ^ r) ^ t,
        ),
{
}

/// No two masks of modifiers and locks add the same.
proof fn modifiers_never_cancel(x: u64, y: u64)
    requires
        x < 0x800,
        y < 0x800,
        x != y,
    ensures
        added(x) != added(y),
{
    let (m, n) = if x < y {
        (x, y)
    } else {
        (y, x)
    };
    if m & 0x80 == 0 && n & 0x80 == 0 {
        modifiers_never_cancel_low(m, n);
    } else if m & 0x80 != 0 && n & 0x80 != 0 {
        modifiers_never_cancel_high(m, n);
    } else if m & 0x80 == 0 {
        modifiers_never_cancel_across(m, n);
    } else {
        modifiers_never_cancel_across(n, m);
    }
}

#[verifier::rlimit(80)]
#[verifier::spinoff_prover]
proof fn modifiers_never_cancel_low(x: u64, y: u64)
    by (bit_vector)
    requires
        x < y,
        y < 0x800,
        x & 0x80 == 0,
        y & 0x80 == 0,
    ensures
        added(x) != added(y),
{
}

#[verifier::rlimit(80)]
#[verifier::spinoff_prover]
proof fn modifiers_never_cancel_high(x: u64, y: u64)
    by (bit_vector)
    requires
        x < y,
        y < 0x800,
        x & 0x80 != 0,
        y & 0x80 != 0,
    ensures
        added(x) != added(y),
{
}

#[verifier::rlimit(80)]
#[verifier::spinoff_prover]
proof fn modifiers_never_cancel_across(x: u64, y: u64)
    by (bit_vector)
    requires
        x < 0x800,
        y < 0x800,
        x & 0x80 == 0,
        y & 0x80 != 0,
    ensures
        added(x) != added(y),
{
}

/// One step of the digest: fold the word `w`, salted with `s`, into `acc`.
spec fn mixed(acc: u64, w: u64, s: u64) -> u64 {
    rotate17(acc ^ splitmix(w ^ s))
}

proof fn mixing_keeps_a_difference(a: u64, w: u64, b: u64, z: u64, s: u64)
    ensures
        (a != b) != (w != z) ==> mixed(a, w, s) != mixed(b, z, s),
        a == b && w == z ==> mixed(a, w, s) == mixed(b, z, s),
{
    let (p, q) = (splitmix(w ^ s), splitmix(z ^ s));
    assert(w != z ==> w ^ s != z ^ s) by (bit_vector);
    if w != z {
        splitmix_is_injective(w ^ s, z ^ s);
    }
    assert((a != b) != (p != q) ==> ((a ^ p) << 17u64) | ((a ^ p) >> 47u64) != ((b ^ q) << 17u64)
        | ((b ^ q) >> 47u64)) by (bit_vector);
}

proof fn splitmix_is_injective(x: u64, y: u64)
    requires
        x != y,
    ensures
        splitmix(x) != splitmix(y),
{
    let (a, p) = (
        x.wrapping_add(0x9E37_79B9_7F4A_7C15),
        y.wrapping_add(0x9E37_79B9_7F4A_7C15),
    );
    assert(a != p);
    let (a1, p1) = (a ^ (a >> 30u64), p ^ (p >> 30u64));
    assert(a != p ==> a ^ (a >> 30u64) != p ^ (p >> 30u64)) by (bit_vector);
    odd_multiples_differ(
        a1,
        p1,
        0xBF58_476D_1CE4_E5B9,
        0x96de1b173f119089,
        0x70c3bca78f27f46c,
    );
    let (b, q) = (a1.wrapping_mul(0xBF58_476D_1CE4_E5B9), p1.wrapping_mul(0xBF58_476D_1CE4_E5B9));
    let (b1, q1) = (b ^ (b >> 27u64), q ^ (q >> 27u64));
    assert(b != q ==> b ^ (b >> 27u64) != q ^ (q >> 27u64)) by (bit_vector);
    odd_multiples_differ(
        b1,
        q1,
        0x94D0_49BB_1331_11EB,
        0x319642b2d24d8ec3,
        0x1cd336eda85f1453,
    );
    let (c, r) = (b1.wrapping_mul(0x94D0_49BB_1331_11EB), q1.wrapping_mul(0x94D0_49BB_1331_11EB));
    assert(c != r ==> c ^ (c >> 31u64) != r ^ (r >> 31u64)) by (bit_vector);
}

/// A factor `c` with an inverse `d` modulo 2^64 keeps different words different.
proof fn odd_multiples_differ(p: u64, q: u64, c: u64, d: int, k: int)
    requires
        c * d == 1 + k * 0x1_0000_0000_0000_0000,
        p != q,
    ensures
        p.wrapping_mul(c) != q.wrapping_mul(c),
{
    let m = 0x1_0000_0000_0000_0000int;
    if p.wrapping_mul(c) == q.wrapping_mul(c) {
        undo_multiple(p as int, c as int, d, k);
        undo_multiple(q as int, c as int, d, k);
        assert((p * c) % m == (q * c) % m);
    }
}

proof fn undo_multiple(p: int, c: int, d: int, k: int)
    requires
        c * d == 1 + k * 0x1_0000_0000_0000_0000,
        0 <= p < 0x1_0000_0000_0000_0000,
    ensures
        (((p * c) % 0x1_0000_0000_0000_0000) * d) % 0x1_0000_0000_0000_0000 == p,
{
    let m = 0x1_0000_0000_0000_0000int;
    vstd::arithmetic::div_mod::lemma_mul_mod_noop_left(p * c, d, m);
    assert((p * c) * d == m * (p * k) + p) by (nonlinear_arith)
        requires
            c * d == 1 + k * m,
    ;
    vstd::arithmetic::div_mod::lemma_mod_multiples_vanish(p * k, p, m);
}

/// A word rotated left by 17 bits.
pub open spec fn rotate17(x: u64) -> u64 {
    (x << 17u64) | (x >> 47u64)
}

/// The finalising mixer of the SplitMix64 generator.
pub open spec fn splitmix(x: u64) -> u64 {
    let a = x.wrapping_add(0x9E37_79B9_7F4A_7C15);
    let b = (a ^ (a >> 30u64)).wrapping_mul(0xBF58_476D_1CE4_E5B9);
    let c = (b ^ (b >> 27u64)).wrapping_mul(0x94D0_49BB_1331_11EB);
    c ^ (c >> 31u64)
}

fn rotate_left_17(x: u64) -> (r: u64)
    ensures
        r == rotate17(x),
{
    (x << 17u64) | (x >> 47u64)
}

fn splitmix64(x: u64) -> (r: u64)
    ensures
        r == splitmix(x),
{
    let a: u64 = x.wrapping_add(0x9E37_79B9_7F4A_7C15);
    let b: u64 = (a ^ (a >> 30u64)).wrapping_mul(0xBF58_476D_1CE4_E5B9);
    let c: u64 = (b ^ (b >> 27u64)).wrapping_mul(0x94D0_49BB_1331_11EB);
    c ^ (c >> 31u64)
}

/// A repair releases a key just where the receiver holds it and the sender does not, presses
/// one just where the sender holds it and the receiver does not, and names the sender's
/// modifiers.
pub proof fn a_repair_is_exactly_the_difference(
    receiver: KeyState,
    sender: KeyState,
    fix: Reconciliation,
    k: u16,
)
    requires
        fix.repairs(receiver, sender),
    ensures
        fix.to_release.is_held(k as int) == (receiver.is_held(k as int) && !sender.is_held(
            k as int,
        )),
        fix.to_press.is_held(k as int) == (sender.is_held(k as int) && !receiver.is_held(k as int)),
        fix.modifiers == sender.mask(),
{
    assert(fix.to_release.held().contains(k) == receiver.held().difference(sender.held()).contains(
        k,
    ));
    assert(fix.to_press.held().contains(k) == sender.held().difference(receiver.held()).contains(
        k,
    ));
}

/// The keys of a state are the bits of its words, the lowest usages first: the first bit of
/// the second word is usage 64.
pub proof fn keys_follow_on_from_word_to_word(s: KeyState, word: int, j: int)
    requires
        0 <= word < 4,
        0 <= j < 64,
    ensures
        s.held().contains((64 * word + j) as u16) == bit(s.key_words()[word], j as u64),
{
    let k = 64 * word + j;
    assert(k / 64 == word && k % 64 == j);
    assert(s.is_held(((k as u16) as int)) == bit(s.key_words()[word], j as u64));
}

} // verus!
