//! Layers, which map matrix positions to keys, and key maps, which pick a
//! layer for each combination of held modifier keys.
use vstd::prelude::*;

use crate::keycombo::KeyCombo;
use crate::keys::Key;

verus! {

/// A position in a key matrix: row, then column.
pub type MatrixLoc = (u8, u8);

/// Whether a position has an entry in an association list.
pub open spec fn has_loc(s: Seq<(MatrixLoc, Key)>, loc: MatrixLoc) -> bool {
    exists|i: int| 0 <= i < s.len() && (#[trigger] s[i]).0 == loc
}

/// No position has two entries in an association list.
pub open spec fn unique_locs(s: Seq<(MatrixLoc, Key)>) -> bool {
    forall|i: int, j: int| 0 <= i < j < s.len() ==> (#[trigger] s[i]).0 != (#[trigger] s[j]).0
}

/// The map that an association list without repeated positions stands for.
pub open spec fn loc_map(s: Seq<(MatrixLoc, Key)>) -> Map<MatrixLoc, Key> {
    Map::new(
        |loc: MatrixLoc| has_loc(s, loc),
        |loc: MatrixLoc| s[choose|i: int| 0 <= i < s.len() && (#[trigger] s[i]).0 == loc].1,
    )
}

/// Writing an entry, over the entry of the same position or after the last
/// one when there is none, inserts it into the map the list stands for.
proof fn lemma_loc_write(
    s: Seq<(MatrixLoc, Key)>,
    t: Seq<(MatrixLoc, Key)>,
    idx: int,
    loc: MatrixLoc,
    key: Key,
)
    requires
        unique_locs(s),
        0 <= idx <= s.len(),
        idx < s.len() ==> s[idx].0 == loc && t == s.update(idx, (loc, key)),
        idx == s.len() ==> !has_loc(s, loc) && t == s.push((loc, key)),
    ensures
        unique_locs(t),
        loc_map(t) == loc_map(s).insert(loc, key),
{
    assert(t[idx] == (loc, key));
    assert forall|j: int| 0 <= j < s.len() && j != idx implies #[trigger] t[j] == s[j] by {}
    assert forall|l: MatrixLoc| #[trigger] has_loc(t, l) == (has_loc(s, l) || l == loc) by {
        if has_loc(s, l) {
            let j = choose|j: int| 0 <= j < s.len() && (#[trigger] s[j]).0 == l;
            assert(t[j].0 == l);
        }
        if has_loc(t, l) {
            let j = choose|j: int| 0 <= j < t.len() && (#[trigger] t[j]).0 == l;
            if j != idx {
                assert(s[j].0 == l);
            }
        }
    }
    assert forall|l: MatrixLoc| #[trigger] loc_map(t).contains_key(l) && l != loc implies loc_map(t)[l]
        == loc_map(s)[l] by {
        let k = choose|j: int| 0 <= j < s.len() && (#[trigger] s[j]).0 == l;
        assert(t[k].0 == l);
    }
    let j = choose|j: int| 0 <= j < t.len() && (#[trigger] t[j]).0 == loc;
    assert(j == idx);
    assert(loc_map(t) =~= loc_map(s).insert(loc, key));
}

/// A map from matrix positions to keys.
pub struct Layer {
    entries: Vec<(MatrixLoc, Key)>,
}

impl View for Layer {
    type V = Map<MatrixLoc, Key>;

    closed spec fn view(&self) -> Map<MatrixLoc, Key> {
        loc_map(self.entries@)
    }
}

impl Layer {
    /// No position appears twice.
    pub closed spec fn wf(&self) -> bool {
        unique_locs(self.entries@)
    }

    /// The layer that maps no position.
    pub fn new() -> (layer: Self)
        ensures
            layer.wf(),
            layer@ == Map::<MatrixLoc, Key>::empty(),
    {
        let layer = Layer { entries: Vec::new() };
        assert(layer@ =~= Map::<MatrixLoc, Key>::empty());
        layer
    }

    /// Where a position is in the list, if it is.
    fn find(&self, loc: MatrixLoc) -> (idx: Option<usize>)
        requires
            self.wf(),
        ensures
            match idx {
                Some(i) => i < self.entries@.len() && self.entries@[i as int].0 == loc,
                None => !has_loc(self.entries@, loc),
            },
    {
        let mut i: usize = 0;
        while i < self.entries.len()
            invariant
                0 <= i <= self.entries@.len(),
                forall|j: int| 0 <= j < i ==> (#[trigger] self.entries@[j]).0 != loc,
            decreases self.entries@.len() - i,
        {
            let e = self.entries[i].0;
            if e.0 == loc.0 && e.1 == loc.1 {
                return Some(i);
            }
            i = i + 1;
        }
        None
    }

    /// The key at a position, if the layer maps it.
    pub fn get(&self, loc: MatrixLoc) -> (key: Option<Key>)
        requires
            self.wf(),
        ensures
            key == (if self@.contains_key(loc) { Some(self@[loc]) } else { None::<Key> }),
    {
        match self.find(loc) {
            Some(i) => {
                let k = self.entries[i].1;
                proof {
                    let c = choose|j: int| 0 <= j < self.entries@.len() && (#[trigger] self.entries@[j]).0 == loc;
                    assert(c == i as int);
                }
                Some(k)
            },
            None => None,
        }
    }

    /// Maps a position to a key, in place of any key it was mapped to.
    pub fn insert(&mut self, loc: MatrixLoc, key: Key)
        requires
            old(self).wf(),
        ensures
            final(self).wf(),
            final(self)@ == old(self)@.insert(loc, key),
    {
        let ghost s = self.entries@;
        match self.find(loc) {
            Some(i) => {
                self.entries.set(i, (loc, key));
                proof {
                    lemma_loc_write(s, self.entries@, i as int, loc, key);
                }
            },
            None => {
                self.entries.push((loc, key));
                proof {
                    lemma_loc_write(s, self.entries@, s.len() as int, loc, key);
                }
            },
        }
    }
}

/// Whether a combination has an entry in an association list.
pub open spec fn has_combo(s: Seq<(KeyCombo, Layer)>, c: KeyCombo) -> bool {
    exists|i: int| 0 <= i < s.len() && (#[trigger] s[i]).0 == c
}

/// No combination has two entries, and every layer is well formed.
pub open spec fn wf_combos(s: Seq<(KeyCombo, Layer)>) -> bool {
    &&& forall|i: int, j: int| 0 <= i < j < s.len() ==> (#[trigger] s[i]).0 != (#[trigger] s[j]).0
    &&& forall|i: int| 0 <= i < s.len() ==> (#[trigger] s[i]).1.wf()
}

/// The combinations of an association list, in order.
pub open spec fn combo_seq(s: Seq<(KeyCombo, Layer)>) -> Seq<KeyCombo> {
    s.map_values(|e: (KeyCombo, Layer)| e.0)
}

/// The layer of each combination of an association list without repeats.
pub open spec fn combo_map(s: Seq<(KeyCombo, Layer)>) -> Map<KeyCombo, Map<MatrixLoc, Key>> {
    Map::new(
        |c: KeyCombo| has_combo(s, c),
        |c: KeyCombo| s[choose|i: int| 0 <= i < s.len() && (#[trigger] s[i]).0 == c].1@,
    )
}

/// A combination is in the order of an association list exactly when it
/// has an entry.
proof fn lemma_combo_seq_contains(s: Seq<(KeyCombo, Layer)>)
    ensures
        forall|c: KeyCombo| #[trigger] combo_seq(s).contains(c) == has_combo(s, c),
{
    assert forall|c: KeyCombo| #[trigger] combo_seq(s).contains(c) == has_combo(s, c) by {
        if has_combo(s, c) {
            let j = choose|j: int| 0 <= j < s.len() && (#[trigger] s[j]).0 == c;
            assert(combo_seq(s)[j] == c);
        }
        if combo_seq(s).contains(c) {
            let j = choose|j: int| 0 <= j < combo_seq(s).len() && combo_seq(s)[j] == c;
            assert(s[j].0 == c);
        }
    }
}

/// Writing an entry, over the entry of the same combination or after the
/// last one when there is none, inserts its layer into the map the list
/// stands for, and keeps the order but for a new combination at its end.
proof fn lemma_combo_write(
    s: Seq<(KeyCombo, Layer)>,
    t: Seq<(KeyCombo, Layer)>,
    idx: int,
    combo: KeyCombo,
    layer: Layer,
)
    requires
        wf_combos(s),
        layer.wf(),
        0 <= idx <= s.len(),
        idx < s.len() ==> s[idx].0 == combo && t == s.update(idx, (combo, layer)),
        idx == s.len() ==> !has_combo(s, combo) && t == s.push((combo, layer)),
    ensures
        wf_combos(t),
        combo_map(t) == combo_map(s).insert(combo, layer@),
        combo_seq(t) == if has_combo(s, combo) {
            combo_seq(s)
        } else {
            combo_seq(s).push(combo)
        },
{
    assert(t[idx] == (combo, layer));
    assert forall|j: int| 0 <= j < s.len() && j != idx implies #[trigger] t[j] == s[j] by {}
    assert forall|c: KeyCombo| #[trigger] has_combo(t, c) == (has_combo(s, c) || c == combo) by {
        if has_combo(s, c) {
            let j = choose|j: int| 0 <= j < s.len() && (#[trigger] s[j]).0 == c;
            assert(t[j].0 == c);
        }
        if has_combo(t, c) {
            let j = choose|j: int| 0 <= j < t.len() && (#[trigger] t[j]).0 == c;
            if j != idx {
                assert(s[j].0 == c);
            }
        }
    }
    assert forall|c: KeyCombo| #[trigger] combo_map(t).contains_key(c) && c != combo implies combo_map(
        t,
    )[c] == combo_map(s)[c] by {
        let k = choose|j: int| 0 <= j < s.len() && (#[trigger] s[j]).0 == c;
        assert(t[k].0 == c);
    }
    let j = choose|j: int| 0 <= j < t.len() && (#[trigger] t[j]).0 == combo;
    assert(j == idx);
    assert(combo_map(t) =~= combo_map(s).insert(combo, layer@));
    if idx < s.len() {
        assert(has_combo(s, combo));
        assert(combo_seq(t) =~= combo_seq(s));
    } else {
        assert(combo_seq(t) =~= combo_seq(s).push(combo));
    }
}

/// Which layer each combination of held modifiers selects.
pub struct KeyMap {
    entries: Vec<(KeyCombo, Layer)>,
}

impl KeyMap {
    /// No combination appears twice, and every layer is well formed.
    pub closed spec fn wf(&self) -> bool {
        wf_combos(self.entries@)
    }

    /// The combinations that have a layer, in the order they were first given one.
    pub closed spec fn combos(&self) -> Seq<KeyCombo> {
        combo_seq(self.entries@)
    }

    /// The layer of each combination that has one.
    pub closed spec fn layers(&self) -> Map<KeyCombo, Map<MatrixLoc, Key>> {
        combo_map(self.entries@)
    }

    /// A combination is in the order exactly when it has a layer.
    pub proof fn lemma_combos_have_layers(&self)
        ensures
            forall|c: KeyCombo| #[trigger] self.combos().contains(c) <==> self.layers().contains_key(c),
    {
        lemma_combo_seq_contains(self.entries@);
    }

    /// The key map that gives no combination a layer.
    pub fn new() -> (km: Self)
        ensures
            km.wf(),
            km.combos() == Seq::<KeyCombo>::empty(),
            km.layers() == Map::<KeyCombo, Map<MatrixLoc, Key>>::empty(),
    {
        let km = KeyMap { entries: Vec::new() };
        assert(km.combos() =~= Seq::<KeyCombo>::empty());
        assert(km.layers() =~= Map::<KeyCombo, Map<MatrixLoc, Key>>::empty());
        km
    }

    /// How many combinations have a layer.
    pub fn len(&self) -> (n: usize)
        ensures
            n == self.combos().len(),
    {
        self.entries.len()
    }

    /// The combination at a place in the order.
    pub fn combo_at(&self, i: usize) -> (c: KeyCombo)
        requires
            i < self.combos().len(),
        ensures
            c == self.combos()[i as int],
    {
        self.entries[i].0
    }

    /// Where a combination is in the list, if it is.
    fn find(&self, combo: &KeyCombo) -> (idx: Option<usize>)
        ensures
            match idx {
                Some(i) => i < self.entries@.len() && self.entries@[i as int].0 == *combo,
                None => !has_combo(self.entries@, *combo),
            },
    {
        let mut i: usize = 0;
        while i < self.entries.len()
            invariant
                0 <= i <= self.entries@.len(),
                forall|j: int| 0 <= j < i ==> (#[trigger] self.entries@[j]).0 != *combo,
            decreases self.entries@.len() - i,
        {
            if self.entries[i].0 == *combo {
                return Some(i);
            }
            i = i + 1;
        }
        None
    }

    /// The layer of a combination, if it has one.
    pub fn get(&self, combo: &KeyCombo) -> (layer: Option<&Layer>)
        requires
            self.wf(),
        ensures
            match layer {
                Some(l) => self.layers().contains_key(*combo) && l@ == self.layers()[*combo]
                    && l.wf(),
                None => !self.layers().contains_key(*combo),
            },
    {
        match self.find(combo) {
            Some(i) => {
                proof {
                    let c = choose|j: int|
                        0 <= j < self.entries@.len() && (#[trigger] self.entries@[j]).0 == *combo;
                    assert(c == i as int);
                }
                Some(&self.entries[i].1)
            },
            None => None,
        }
    }

    /// Gives a combination a layer, in place of any layer it had.
    pub fn insert(&mut self, combo: KeyCombo, layer: Layer)
        requires
            old(self).wf(),
            layer.wf(),
        ensures
            final(self).wf(),
            final(self).layers() == old(self).layers().insert(combo, layer@),
            final(self).combos() == if old(self).combos().contains(combo) {
                old(self).combos()
            } else {
                old(self).combos().push(combo)
            },
    {
        let ghost s = self.entries@;
        let ghost lv = layer;
        proof {
            lemma_combo_seq_contains(s);
        }
        match self.find(&combo) {
            Some(i) => {
                self.entries.set(i, (combo, layer));
                proof {
                    lemma_combo_write(s, self.entries@, i as int, combo, lv);
                }
            },
            None => {
                self.entries.push((combo, layer));
                proof {
                    lemma_combo_write(s, self.entries@, s.len() as int, combo, lv);
                }
            },
        }
    }
}

} // verus!
