//! Keyboard input reports in the layout that HID defines for boot keyboards:
//! a modifier byte, a reserved byte and six key slots.
use vstd::prelude::*;

use crate::keys::{Key, spec_scancode, is_modifier, lemma_modifier_keys};

verus! {

/// Why a report could not be built.
#[derive(Clone, Copy, Debug, PartialEq, Eq, Structural)]
pub enum ReportError {
    /// More than six keys were asked for at once.
    TooManyKeys,
    /// A key given as a modifier is not one.
    NonModifierKey,
}

impl ReportError {
    /// A sentence that says what went wrong.
    pub fn message(&self) -> (msg: &'static str)
        ensures
            msg@ == (match self {
                ReportError::TooManyKeys => "this dude be mashing (pressing more than 6 keys at once)"@,
                ReportError::NonModifierKey => "cannot use non-modifier keys"@,
            }),
    {
        match self {
            ReportError::TooManyKeys => "this dude be mashing (pressing more than 6 keys at once)",
            ReportError::NonModifierKey => "cannot use non-modifier keys",
        }
    }
}

/// A keyboard input report.
pub struct KeyReport {
    modifiers: u8,
    reserved: u8,
    keys: [u8; 6],
}

/// What a report holds, as plain values.
pub struct KeyReportView {
    pub modifiers: u8,
    pub reserved: u8,
    pub keys: Seq<u8>,
}

impl View for KeyReport {
    type V = KeyReportView;

    closed spec fn view(&self) -> KeyReportView {
        KeyReportView { modifiers: self.modifiers, reserved: self.reserved, keys: self.keys@ }
    }
}

/// The modifier byte whose bits, from the least significant up, say whether
/// left control, left shift, left alt, left super, right control, right
/// shift, right alt and right super are held.
pub open spec fn byte_of_flags(
    lctrl: bool,
    lshift: bool,
    lalt: bool,
    lsuper: bool,
    rctrl: bool,
    rshift: bool,
    ralt: bool,
    rsuper: bool,
) -> u8 {
    (if lctrl { 0x01u8 } else { 0u8 }) | (if lshift { 0x02u8 } else { 0u8 }) | (if lalt {
        0x04u8
    } else {
        0u8
    }) | (if lsuper { 0x08u8 } else { 0u8 }) | (if rctrl { 0x10u8 } else { 0u8 }) | (if rshift {
        0x20u8
    } else {
        0u8
    }) | (if ralt { 0x40u8 } else { 0u8 }) | (if rsuper { 0x80u8 } else { 0u8 })
}

/// The modifier byte for a list of held modifier keys.
pub open spec fn spec_modifier_byte(mods: Seq<Key>) -> u8 {
    byte_of_flags(
        mods.contains(Key::LCTRL),
        mods.contains(Key::LSHIFT),
        mods.contains(Key::LALT),
        mods.contains(Key::LSUPER),
        mods.contains(Key::RCTRL),
        mods.contains(Key::RSHIFT),
        mods.contains(Key::RALT),
        mods.contains(Key::RSUPER),
    )
}

/// The bit of the modifier byte that stands for a key (zero for a key that
/// is not a modifier).
pub open spec fn modifier_bit(k: Key) -> u8 {
    match k {
        Key::LCTRL => 0x01u8,
        Key::LSHIFT => 0x02u8,
        Key::LALT => 0x04u8,
        Key::LSUPER => 0x08u8,
        Key::RCTRL => 0x10u8,
        Key::RSHIFT => 0x20u8,
        Key::RALT => 0x40u8,
        Key::RSUPER => 0x80u8,
        _ => 0u8,
    }
}

/// Whether every key of a list is a modifier.
pub open spec fn all_modifiers(mods: Seq<Key>) -> bool {
    forall|i: int| 0 <= i < mods.len() ==> is_modifier(#[trigger] mods[i])
}

/// The six key slots of a report for the given keys: their usage codes in
/// order, then zeros.
pub open spec fn spec_slots(keys: Seq<Key>) -> Seq<u8> {
    Seq::new(6, |i: int| if i < keys.len() { spec_scancode(keys[i]) } else { 0u8 })
}

/// The report for several keys and modifiers, or why there is none.
pub open spec fn spec_report_from_keys(keys: Seq<Key>, mods: Seq<Key>) -> Result<
    KeyReportView,
    ReportError,
> {
    if keys.len() > 6 {
        Err(ReportError::TooManyKeys)
    } else if !all_modifiers(mods) {
        Err(ReportError::NonModifierKey)
    } else {
        Ok(KeyReportView { modifiers: spec_modifier_byte(mods), reserved: 0, keys: spec_slots(keys) })
    }
}

/// The report for one key and some modifiers, or why there is none.
pub open spec fn spec_report_from_key(key: Key, mods: Seq<Key>) -> Result<
    KeyReportView,
    ReportError,
> {
    if !all_modifiers(mods) {
        Err(ReportError::NonModifierKey)
    } else {
        Ok(
            KeyReportView {
                modifiers: spec_modifier_byte(mods),
                reserved: 0,
                keys: seq![spec_scancode(key), 0u8, 0u8, 0u8, 0u8, 0u8],
            },
        )
    }
}

/// A built report, or the error, as plain values.
pub open spec fn result_view(r: Result<KeyReport, ReportError>) -> Result<KeyReportView, ReportError> {
    match r {
        Ok(rep) => Ok(rep@),
        Err(e) => Err(e),
    }
}

proof fn lemma_push_contains(s: Seq<Key>, k: Key, x: Key)
    ensures
        s.push(k).contains(x) <==> (s.contains(x) || x == k),
{
    if s.contains(x) {
        let i = choose|i: int| 0 <= i < s.len() && s[i] == x;
        assert(s.push(k)[i] == x);
    }
    if x == k {
        assert(s.push(k)[s.len() as int] == x);
    }
    if s.push(k).contains(x) {
        let i = choose|i: int| 0 <= i < s.push(k).len() && s.push(k)[i] == x;
        if i < s.len() {
            assert(s[i] == x);
        }
    }
}

proof fn lemma_flags_set(
    lctrl: bool,
    lshift: bool,
    lalt: bool,
    lsuper: bool,
    rctrl: bool,
    rshift: bool,
    ralt: bool,
    rsuper: bool,
)
    by (bit_vector)
    ensures
        byte_of_flags(lctrl, lshift, lalt, lsuper, rctrl, rshift, ralt, rsuper) | 0x01u8
            == byte_of_flags(true, lshift, lalt, lsuper, rctrl, rshift, ralt, rsuper),
        byte_of_flags(lctrl, lshift, lalt, lsuper, rctrl, rshift, ralt, rsuper) | 0x02u8
            == byte_of_flags(lctrl, true, lalt, lsuper, rctrl, rshift, ralt, rsuper),
        byte_of_flags(lctrl, lshift, lalt, lsuper, rctrl, rshift, ralt, rsuper) | 0x04u8
            == byte_of_flags(lctrl, lshift, true, lsuper, rctrl, rshift, ralt, rsuper),
        byte_of_flags(lctrl, lshift, lalt, lsuper, rctrl, rshift, ralt, rsuper) | 0x08u8
            == byte_of_flags(lctrl, lshift, lalt, true, rctrl, rshift, ralt, rsuper),
        byte_of_flags(lctrl, lshift, lalt, lsuper, rctrl, rshift, ralt, rsuper) | 0x10u8
            == byte_of_flags(lctrl, lshift, lalt, lsuper, true, rshift, ralt, rsuper),
        byte_of_flags(lctrl, lshift, lalt, lsuper, rctrl, rshift, ralt, rsuper) | 0x20u8
            == byte_of_flags(lctrl, lshift, lalt, lsuper, rctrl, true, ralt, rsuper),
        byte_of_flags(lctrl, lshift, lalt, lsuper, rctrl, rshift, ralt, rsuper) | 0x40u8
            == byte_of_flags(lctrl, lshift, lalt, lsuper, rctrl, rshift, true, rsuper),
        byte_of_flags(lctrl, lshift, lalt, lsuper, rctrl, rshift, ralt, rsuper) | 0x80u8
            == byte_of_flags(lctrl, lshift, lalt, lsuper, rctrl, rshift, ralt, true),
        byte_of_flags(false, false, false, false, false, false, false, false) == 0u8,
{
}

/// Reading the modifier byte: the bit of a modifier key is set exactly when
/// that key is among the modifiers the byte was made from.
pub proof fn lemma_modifier_byte_bits(mods: Seq<Key>, k: Key)
    requires
        is_modifier(k),
    ensures
        (spec_modifier_byte(mods) & modifier_bit(k) != 0) <==> mods.contains(k),
{
    lemma_modifier_keys(k);
    let lc = mods.contains(Key::LCTRL);
    let ls = mods.contains(Key::LSHIFT);
    let la = mods.contains(Key::LALT);
    let lg = mods.contains(Key::LSUPER);
    let rc = mods.contains(Key::RCTRL);
    let rs = mods.contains(Key::RSHIFT);
    let ra = mods.contains(Key::RALT);
    let rg = mods.contains(Key::RSUPER);
    let b = byte_of_flags(lc, ls, la, lg, rc, rs, ra, rg);
    assert(b == spec_modifier_byte(mods));
    assert({
        &&& (b & 0x01u8 != 0) == lc
        &&& (b & 0x02u8 != 0) == ls
        &&& (b & 0x04u8 != 0) == la
        &&& (b & 0x08u8 != 0) == lg
        &&& (b & 0x10u8 != 0) == rc
        &&& (b & 0x20u8 != 0) == rs
        &&& (b & 0x40u8 != 0) == ra
        &&& (b & 0x80u8 != 0) == rg
    }) by (bit_vector)
        requires
            b == byte_of_flags(lc, ls, la, lg, rc, rs, ra, rg),
    ;
}

/// The bit of each modifier is the one its usage code's offset from left
/// control names: left control is bit 0 and right super is bit 7.
pub proof fn lemma_modifier_bit_is_usage_offset(k: Key)
    requires
        is_modifier(k),
    ensures
        modifier_bit(k) == 1u8 << ((spec_scancode(k) - 0xE0u8) as u8),
{
    lemma_modifier_keys(k);
    assert({
        &&& 1u8 << 0u8 == 0x01u8
        &&& 1u8 << 1u8 == 0x02u8
        &&& 1u8 << 2u8 == 0x04u8
        &&& 1u8 << 3u8 == 0x08u8
        &&& 1u8 << 4u8 == 0x10u8
        &&& 1u8 << 5u8 == 0x20u8
        &&& 1u8 << 6u8 == 0x40u8
        &&& 1u8 << 7u8 == 0x80u8
    }) by (bit_vector);
}

proof fn lemma_flags_or(
    a0: bool,
    a1: bool,
    a2: bool,
    a3: bool,
    a4: bool,
    a5: bool,
    a6: bool,
    a7: bool,
    b0: bool,
    b1: bool,
    b2: bool,
    b3: bool,
    b4: bool,
    b5: bool,
    b6: bool,
    b7: bool,
)
    by (bit_vector)
    ensures
        byte_of_flags(a0 || b0, a1 || b1, a2 || b2, a3 || b3, a4 || b4, a5 || b5, a6 || b6, a7 || b7)
            == byte_of_flags(a0, a1, a2, a3, a4, a5, a6, a7) | byte_of_flags(
            b0,
            b1,
            b2,
            b3,
            b4,
            b5,
            b6,
            b7,
        ),
{
}

proof fn lemma_concat_contains(a: Seq<Key>, b: Seq<Key>, x: Key)
    ensures
        (a + b).contains(x) <==> (a.contains(x) || b.contains(x)),
{
    let ab = a + b;
    if a.contains(x) {
        let i = choose|i: int| 0 <= i < a.len() && a[i] == x;
        assert(ab[i] == x);
    }
    if b.contains(x) {
        let i = choose|i: int| 0 <= i < b.len() && b[i] == x;
        assert(ab[a.len() + i] == x);
    }
    if ab.contains(x) {
        let i = choose|i: int| 0 <= i < ab.len() && ab[i] == x;
        if i < a.len() {
            assert(a[i] == x);
        } else {
            assert(b[i - a.len()] == x);
        }
    }
}

/// The modifier byte of two lists of modifiers held together is the OR of
/// their bytes, and the joined list is refused exactly when either is.
pub proof fn lemma_modifier_byte_concat(a: Seq<Key>, b: Seq<Key>)
    ensures
        spec_modifier_byte(a + b) == spec_modifier_byte(a) | spec_modifier_byte(b),
        all_modifiers(a + b) <==> (all_modifiers(a) && all_modifiers(b)),
{
    assert forall|x: Key| #[trigger] (a + b).contains(x) <==> (a.contains(x) || b.contains(x)) by {
        lemma_concat_contains(a, b, x);
    }
    lemma_flags_or(
        a.contains(Key::LCTRL),
        a.contains(Key::LSHIFT),
        a.contains(Key::LALT),
        a.contains(Key::LSUPER),
        a.contains(Key::RCTRL),
        a.contains(Key::RSHIFT),
        a.contains(Key::RALT),
        a.contains(Key::RSUPER),
        b.contains(Key::LCTRL),
        b.contains(Key::LSHIFT),
        b.contains(Key::LALT),
        b.contains(Key::LSUPER),
        b.contains(Key::RCTRL),
        b.contains(Key::RSHIFT),
        b.contains(Key::RALT),
        b.contains(Key::RSUPER),
    );
    let ab = a + b;
    if all_modifiers(a) && all_modifiers(b) {
        assert forall|i: int| 0 <= i < ab.len() implies is_modifier(#[trigger] ab[i]) by {
            if i < a.len() {
                assert(ab[i] == a[i]);
            } else {
                assert(ab[i] == b[i - a.len()]);
            }
        }
    }
    if all_modifiers(ab) {
        assert forall|i: int| 0 <= i < a.len() implies is_modifier(#[trigger] a[i]) by {
            assert(ab[i] == a[i]);
        }
        assert forall|i: int| 0 <= i < b.len() implies is_modifier(#[trigger] b[i]) by {
            assert(ab[a.len() + i] == b[i]);
        }
    }
}

/// Whether every key of one list is a modifier follows from which keys it
/// holds.
proof fn lemma_all_modifiers_by_membership(a: Seq<Key>, b: Seq<Key>)
    requires
        forall|k: Key| a.contains(k) <==> b.contains(k),
        all_modifiers(a),
    ensures
        all_modifiers(b),
{
    assert forall|i: int| 0 <= i < b.len() implies is_modifier(#[trigger] b[i]) by {
        assert(b.contains(b[i]));
        let j = choose|j: int| 0 <= j < a.len() && a[j] == b[i];
        assert(is_modifier(a[j]));
    }
}

/// A report depends on its modifiers only through which keys they hold:
/// neither their order nor repeats change the modifier byte or whether the
/// list is refused.
pub proof fn lemma_modifiers_by_membership(keys: Seq<Key>, a: Seq<Key>, b: Seq<Key>)
    requires
        forall|k: Key| a.contains(k) <==> b.contains(k),
    ensures
        spec_modifier_byte(a) == spec_modifier_byte(b),
        all_modifiers(a) <==> all_modifiers(b),
        spec_report_from_keys(keys, a) == spec_report_from_keys(keys, b),
{
    if all_modifiers(a) {
        lemma_all_modifiers_by_membership(a, b);
    }
    if all_modifiers(b) {
        lemma_all_modifiers_by_membership(b, a);
    }
}

/// Whether a code is among the given ones.
fn codes_contain(codes: &[u8; 8], code: u8) -> (found: bool)
    ensures
        found == codes@.contains(code),
{
    let mut i: usize = 0;
    while i < 8
        invariant
            0 <= i <= 8,
            forall|j: int| 0 <= j < i ==> codes@[j] != code,
        decreases 8 - i,
    {
        if codes[i] == code {
            assert(codes@[i as int] == code);
            return true;
        }
        i = i + 1;
    }
    false
}

/// The usage code in a given slot of a report for the given keys.
fn slot_code(keys: &[Key], idx: usize) -> (code: u8)
    ensures
        code == (if idx < keys@.len() { spec_scancode(keys@[idx as int]) } else { 0u8 }),
{
    if idx < keys.len() {
        keys[idx].scancode()
    } else {
        Key::NOKEY.scancode()
    }
}

impl KeyReport {
    /// A report that holds one key, with the given modifiers held.
    pub fn new_from_key(key: Key, modifiers: &[Key]) -> (r: Result<KeyReport, ReportError>)
        ensures
            result_view(r) == spec_report_from_key(key, modifiers@),
    {
        match Self::modifier_byte_from_keys(modifiers) {
            Ok(m) => {
                let r = KeyReport {
                    modifiers: m,
                    reserved: 0x00,
                    keys: [key.scancode(), 0x00, 0x00, 0x00, 0x00, 0x00],
                };
                assert(r@.keys =~= seq![spec_scancode(key), 0u8, 0u8, 0u8, 0u8, 0u8]);
                Ok(r)
            },
            Err(e) => Err(e),
        }
    }

    /// A report that holds up to six keys, in the order given, with the
    /// given modifiers held.
    pub fn new_from_keys(keys: &[Key], modifiers: &[Key]) -> (r: Result<KeyReport, ReportError>)
        ensures
            result_view(r) == spec_report_from_keys(keys@, modifiers@),
    {
        if keys.len() > 6 {
            return Err(ReportError::TooManyKeys);
        }
        match Self::modifier_byte_from_keys(modifiers) {
            Ok(m) => {
                let slots: [u8; 6] = [
                    slot_code(keys, 0),
                    slot_code(keys, 1),
                    slot_code(keys, 2),
                    slot_code(keys, 3),
                    slot_code(keys, 4),
                    slot_code(keys, 5),
                ];
                let r = KeyReport { modifiers: m, reserved: 0x00, keys: slots };
                assert(r@.keys =~= spec_slots(keys@));
                Ok(r)
            },
            Err(e) => Err(e),
        }
    }

    /// The modifier byte for the given keys, which must all be modifiers.
    fn modifier_byte_from_keys(modifiers: &[Key]) -> (r: Result<u8, ReportError>)
        ensures
            match r {
                Ok(b) => all_modifiers(modifiers@) && b == spec_modifier_byte(modifiers@),
                Err(e) => !all_modifiers(modifiers@) && e == ReportError::NonModifierKey,
            },
    {
        let codes = Key::modifiers();
        let mut i: usize = 0;
        while i < modifiers.len()
            invariant
                0 <= i <= modifiers@.len(),
                codes@ == crate::keys::spec_modifier_codes(),
                forall|j: int| 0 <= j < i ==> is_modifier(#[trigger] modifiers@[j]),
            decreases modifiers@.len() - i,
        {
            if !codes_contain(&codes, modifiers[i].scancode()) {
                assert(!is_modifier(modifiers@[i as int]));
                return Err(ReportError::NonModifierKey);
            }
            i = i + 1;
        }
        let mut modifier_byte: u8 = 0;
        proof {
            lemma_flags_set(false, false, false, false, false, false, false, false);
            assert(spec_modifier_byte(modifiers@.take(0)) == 0u8);
        }
        let mut i: usize = 0;
        while i < modifiers.len()
            invariant
                0 <= i <= modifiers@.len(),
                modifier_byte == spec_modifier_byte(modifiers@.take(i as int)),
            decreases modifiers@.len() - i,
        {
            let key = modifiers[i];
            let ghost t = modifiers@.take(i as int);
            proof {
                assert(modifiers@.take(i + 1) =~= t.push(key));
                assert forall|x: Key| modifiers@.take(i + 1).contains(x) <==> (t.contains(x) || x
                    == key) by {
                    lemma_push_contains(t, key, x);
                }
                lemma_flags_set(
                    t.contains(Key::LCTRL),
                    t.contains(Key::LSHIFT),
                    t.contains(Key::LALT),
                    t.contains(Key::LSUPER),
                    t.contains(Key::RCTRL),
                    t.contains(Key::RSHIFT),
                    t.contains(Key::RALT),
                    t.contains(Key::RSUPER),
                );
            }
            match key {
                Key::LCTRL => modifier_byte = modifier_byte | 0b0000_0001,
                Key::LSHIFT => modifier_byte = modifier_byte | 0b0000_0010,
                Key::LALT => modifier_byte = modifier_byte | 0b0000_0100,
                Key::LSUPER => modifier_byte = modifier_byte | 0b0000_1000,
                Key::RCTRL => modifier_byte = modifier_byte | 0b0001_0000,
                Key::RSHIFT => modifier_byte = modifier_byte | 0b0010_0000,
                Key::RALT => modifier_byte = modifier_byte | 0b0100_0000,
                Key::RSUPER => modifier_byte = modifier_byte | 0b1000_0000,
                _ => (),
            }
            i = i + 1;
        }
        assert(modifiers@.take(modifiers@.len() as int) =~= modifiers@);
        Ok(modifier_byte)
    }

    /// The modifier byte of this report.
    pub fn modifier_byte(&self) -> (b: u8)
        ensures
            b == self@.modifiers,
    {
        self.modifiers
    }

    /// The reserved byte of this report.
    pub fn reserved(&self) -> (b: u8)
        ensures
            b == self@.reserved,
    {
        self.reserved
    }

    /// The usage codes in the six key slots of this report.
    pub fn key_codes(&self) -> (codes: [u8; 6])
        ensures
            codes@ == self@.keys,
    {
        self.keys
    }
}

impl Default for KeyReport {
    /// The report in which no key is held.
    fn default() -> (r: Self)
        ensures
            r@ == (KeyReportView { modifiers: 0, reserved: 0, keys: seq![0u8, 0u8, 0u8, 0u8, 0u8, 0u8] }),
    {
        let r = KeyReport { modifiers: 0x00, reserved: 0x00, keys: [0; 6] };
        assert(r@.keys =~= seq![0u8, 0u8, 0u8, 0u8, 0u8, 0u8]);
        r
    }
}

/// A report for one key is the report for the list that holds only that key.
pub proof fn lemma_single_key_report(key: Key, mods: Seq<Key>)
    ensures
        spec_report_from_key(key, mods) == spec_report_from_keys(seq![key], mods),
{
    if all_modifiers(mods) {
        assert(spec_slots(seq![key]) =~= seq![spec_scancode(key), 0u8, 0u8, 0u8, 0u8, 0u8]);
    }
}

/// A list of keys is refused exactly when it holds more than six keys or a
/// modifier that is not one, and the count is looked at first.
pub proof fn lemma_report_refusals(keys: Seq<Key>, mods: Seq<Key>)
    ensures
        spec_report_from_keys(keys, mods) is Ok <==> (keys.len() <= 6 && all_modifiers(mods)),
        keys.len() > 6 ==> spec_report_from_keys(keys, mods) == Err::<KeyReportView, ReportError>(
            ReportError::TooManyKeys,
        ),
{
}

/// What a built report holds: the usage code of each given key in its own
/// slot, in order, zeros after the last key, a zero reserved byte, and a
/// modifier byte whose bit for each modifier is set exactly when that
/// modifier was given.
pub proof fn lemma_report_contents(keys: Seq<Key>, mods: Seq<Key>)
    ensures
        spec_report_from_keys(keys, mods) matches Ok(v) ==> {
            &&& keys.len() <= 6
            &&& v.reserved == 0
            &&& v.keys.len() == 6
            &&& forall|i: int| 0 <= i < keys.len() ==> v.keys[i] == spec_scancode(#[trigger] keys[i])
            &&& forall|i: int| keys.len() <= i < 6 ==> #[trigger] v.keys[i] == 0u8
            &&& forall|k: Key|
                is_modifier(k) ==> ((v.modifiers & #[trigger] modifier_bit(k) != 0) <==> mods.contains(k))
        },
{
    if let Ok(v) = spec_report_from_keys(keys, mods) {
        assert forall|k: Key| is_modifier(k) implies ((v.modifiers & #[trigger] modifier_bit(k) != 0)
            <==> mods.contains(k)) by {
            lemma_modifier_byte_bits(mods, k);
        }
    }
}

/// What a built one-key report holds: the key's usage code in the first
/// slot, zeros in the other five and in the reserved byte, and a modifier
/// byte whose bit for each modifier is set exactly when it was given.
pub proof fn lemma_single_key_report_contents(key: Key, mods: Seq<Key>)
    ensures
        spec_report_from_key(key, mods) matches Ok(v) ==> {
            &&& v.reserved == 0
            &&& v.keys.len() == 6
            &&& v.keys[0] == spec_scancode(key)
            &&& forall|i: int| 1 <= i < 6 ==> #[trigger] v.keys[i] == 0u8
            &&& forall|k: Key|
                is_modifier(k) ==> ((v.modifiers & #[trigger] modifier_bit(k) != 0) <==> mods.contains(k))
        },
{
    lemma_single_key_report(key, mods);
    lemma_report_contents(seq![key], mods);
}

} // verus!
