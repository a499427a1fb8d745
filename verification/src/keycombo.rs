//! Combinations of up to three held keys that select a layer.
use vstd::prelude::*;

use crate::keys::Key;

verus! {

/// Up to three keys that must be held together.
#[derive(Clone, Copy, Debug, PartialEq, Eq, Hash, Structural)]
pub struct KeyCombo {
    key_0: Option<Key>,
    key_1: Option<Key>,
    key_2: Option<Key>,
}

/// The keys an optional slot holds.
pub open spec fn slot_keys(o: Option<Key>) -> Seq<Key> {
    match o {
        Some(k) => seq![k],
        None => Seq::empty(),
    }
}

/// The slot value of a list of keys at a position.
pub open spec fn slot_of(keys: Seq<Key>, i: int) -> Option<Key> {
    if i < keys.len() {
        Some(keys[i])
    } else {
        None
    }
}

impl KeyCombo {
    /// The keys of the combination, in slot order.
    pub closed spec fn spec_keys(self) -> Seq<Key> {
        slot_keys(self.key_0) + slot_keys(self.key_1) + slot_keys(self.key_2)
    }

    /// The combination that `new` makes from a list of keys.
    pub closed spec fn spec_new(keys: Seq<Key>) -> KeyCombo {
        KeyCombo { key_0: slot_of(keys, 0), key_1: slot_of(keys, 1), key_2: slot_of(keys, 2) }
    }

    /// Whether every key of the combination is among the held ones.
    pub open spec fn spec_detects(self, held: Seq<Key>) -> bool {
        forall|i: int| 0 <= i < self.spec_keys().len() ==> held.contains(#[trigger] self.spec_keys()[i])
    }

    /// How many keys the combination holds.
    pub open spec fn spec_size(self) -> nat {
        self.spec_keys().len()
    }

    /// The combination of the first three keys given (fewer if fewer are given).
    pub fn new(keys: &[Key]) -> (combo: Self)
        ensures
            combo == Self::spec_new(keys@),
            combo.spec_keys() == first_three(keys@),
    {
        let combo = KeyCombo {
            key_0: if keys.len() > 0 { Some(keys[0]) } else { None },
            key_1: if keys.len() > 1 { Some(keys[1]) } else { None },
            key_2: if keys.len() > 2 { Some(keys[2]) } else { None },
        };
        assert(combo.spec_keys() =~= first_three(keys@));
        combo
    }

    /// Whether every key of this combination is among the held keys.
    pub fn detect(&self, keys: &[Key]) -> (found: bool)
        ensures
            found == self.spec_detects(keys@),
    {
        let own = self.keys();
        let mut i: usize = 0;
        while i < own.len()
            invariant
                0 <= i <= own@.len(),
                own@ == self.spec_keys(),
                forall|j: int| 0 <= j < i ==> keys@.contains(#[trigger] own@[j]),
            decreases own@.len() - i,
        {
            if !contains_key(keys, own[i]) {
                return false;
            }
            i = i + 1;
        }
        true
    }

    /// The keys of this combination, in slot order.
    fn keys(&self) -> (keys: Vec<Key>)
        ensures
            keys@ == self.spec_keys(),
    {
        let mut real_keys: Vec<Key> = Vec::new();
        if let Some(k) = self.key_0 {
            real_keys.push(k);
        }
        if let Some(k) = self.key_1 {
            real_keys.push(k);
        }
        if let Some(k) = self.key_2 {
            real_keys.push(k);
        }
        assert(real_keys@ =~= self.spec_keys());
        real_keys
    }

    /// How many keys this combination holds.
    pub fn size(&self) -> (n: usize)
        ensures
            n == self.spec_size(),
            n <= 3,
    {
        self.keys().len()
    }
}

impl Default for KeyCombo {
    /// The combination of no keys, which every set of held keys detects.
    fn default() -> (combo: Self)
        ensures
            combo == Self::spec_new(Seq::empty()),
            combo.spec_keys() == Seq::<Key>::empty(),
    {
        let combo = KeyCombo { key_0: None, key_1: None, key_2: None };
        assert(combo.spec_keys() =~= Seq::<Key>::empty());
        combo
    }
}

/// Whether a key is among the given ones.
fn contains_key(keys: &[Key], k: Key) -> (found: bool)
    ensures
        found == keys@.contains(k),
{
    let mut i: usize = 0;
    while i < keys.len()
        invariant
            0 <= i <= keys@.len(),
            forall|j: int| 0 <= j < i ==> keys@[j] != k,
        decreases keys@.len() - i,
    {
        if keys[i] == k {
            assert(keys@[i as int] == k);
            return true;
        }
        i = i + 1;
    }
    false
}

/// The combination of no keys is detected whatever is held.
pub proof fn lemma_empty_combo_always_detected(held: Seq<Key>)
    ensures
        KeyCombo::spec_new(Seq::empty()).spec_detects(held),
        KeyCombo::spec_new(Seq::empty()).spec_size() == 0,
{
    assert(KeyCombo::spec_new(Seq::empty()).spec_keys() =~= Seq::<Key>::empty());
}

/// A combination is detected when its own keys are held, and still when
/// more keys are held besides.
pub proof fn lemma_detect_superset(combo: KeyCombo, held: Seq<Key>, more: Seq<Key>)
    requires
        forall|k: Key| held.contains(k) ==> more.contains(k),
        combo.spec_detects(held),
    ensures
        combo.spec_detects(more),
        combo.spec_detects(combo.spec_keys()),
{
    let ks = combo.spec_keys();
    assert forall|i: int| 0 <= i < ks.len() implies ks.contains(#[trigger] ks[i]) by {}
}

/// The combination made from a list detects that list, and holds as many
/// keys as the list, up to three.
pub proof fn lemma_new_detects_own_keys(keys: Seq<Key>)
    ensures
        KeyCombo::spec_new(keys).spec_detects(keys),
        KeyCombo::spec_new(keys).spec_size() == if keys.len() < 3 { keys.len() } else { 3 },
{
    let c = KeyCombo::spec_new(keys);
    let n: int = if keys.len() < 3 { keys.len() as int } else { 3 };
    assert(c.spec_keys() =~= keys.take(n));
    assert forall|i: int| 0 <= i < c.spec_keys().len() implies keys.contains(
        #[trigger] c.spec_keys()[i],
    ) by {
        assert(keys[i] == c.spec_keys()[i]);
    }
}

/// The first keys of a list, up to three: what a combination keeps of it.
pub open spec fn first_three(keys: Seq<Key>) -> Seq<Key> {
    keys.take(if keys.len() < 3 { keys.len() as int } else { 3 })
}

/// The combination made from a list is detected exactly when each of the
/// list's first three keys (all of them, when there are fewer) is held.
pub proof fn lemma_new_detects_exactly(keys: Seq<Key>, held: Seq<Key>)
    ensures
        KeyCombo::spec_new(keys).spec_detects(held) <==> forall|i: int|
            0 <= i < keys.len() && i < 3 ==> held.contains(#[trigger] keys[i]),
{
    let c = KeyCombo::spec_new(keys);
    assert(c.spec_keys() =~= first_three(keys));
    if c.spec_detects(held) {
        assert forall|i: int| 0 <= i < keys.len() && i < 3 implies held.contains(#[trigger] keys[i]) by {
            assert(c.spec_keys()[i] == keys[i]);
        }
    }
}

/// A combination holds at most three keys.
pub proof fn lemma_size_at_most_three(combo: KeyCombo)
    ensures
        combo.spec_size() <= 3,
{
}

/// Two lists make the same combination exactly when their first three keys
/// (or all of them, when there are fewer) are the same, in the same order.
pub proof fn lemma_new_equal(a: Seq<Key>, b: Seq<Key>)
    ensures
        KeyCombo::spec_new(a) == KeyCombo::spec_new(b) <==> first_three(a) == first_three(b),
{
    let ta = first_three(a);
    let tb = first_three(b);
    if ta == tb {
        assert(ta.len() == tb.len());
        if ta.len() > 0 { assert(ta[0] == a[0] && tb[0] == b[0]); }
        if ta.len() > 1 { assert(ta[1] == a[1] && tb[1] == b[1]); }
        if ta.len() > 2 { assert(ta[2] == a[2] && tb[2] == b[2]); }
    }
    if KeyCombo::spec_new(a) == KeyCombo::spec_new(b) {
        assert(slot_of(a, 0) == slot_of(b, 0));
        assert(slot_of(a, 1) == slot_of(b, 1));
        assert(slot_of(a, 2) == slot_of(b, 2));
        assert(ta =~= tb);
    }
}

/// Making a combination from the keys of a combination that `new` (or
/// `default`, which is `new` of no keys) made gives that combination back.
pub proof fn lemma_new_of_own_keys(keys: Seq<Key>)
    ensures
        KeyCombo::spec_new(KeyCombo::spec_new(keys).spec_keys()) == KeyCombo::spec_new(keys),
        KeyCombo::spec_new(keys).spec_keys() == first_three(keys),
{
    let c = KeyCombo::spec_new(keys);
    assert(c.spec_keys() =~= first_three(keys));
    lemma_new_equal(c.spec_keys(), keys);
    assert(first_three(c.spec_keys()) =~= first_three(keys));
}

} // verus!
