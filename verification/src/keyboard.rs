//! The keyboard: it polls a key matrix, works out which modifiers are held,
//! picks the layer they select and looks the held positions up in it.
use vstd::prelude::*;

use crate::keycombo::{KeyCombo, lemma_empty_combo_always_detected};
use crate::keyreport::{
    KeyReport,
    KeyReportView,
    all_modifiers,
    lemma_report_contents,
    modifier_bit,
    spec_report_from_keys,
};
use crate::keys::{is_modifier, spec_scancode};
use crate::keys::Key;
use crate::layer::{KeyMap, Layer, MatrixLoc};

verus! {

/// A key matrix that can say which positions are pressed.
pub trait Matrix {
    /// What the matrix reported at its last poll, for a matrix whose
    /// reading is stated; none for one whose reading is not.
    open spec fn last_reading(&self) -> Option<Seq<MatrixLoc>> {
        None
    }

    /// The positions pressed right now.
    fn poll(&mut self) -> (locs: Vec<MatrixLoc>)
        ensures
            final(self).last_reading() matches Some(r) ==> locs@ == r,
    ;
}

/// The keys that a layer maps the given positions to, in the order of the
/// positions; positions the layer does not map are left out.
pub open spec fn spec_lookup_all(locs: Seq<MatrixLoc>, layer: Map<MatrixLoc, Key>) -> Seq<Key>
    decreases locs.len(),
{
    if locs.len() == 0 {
        Seq::empty()
    } else {
        let rest = spec_lookup_all(locs.drop_last(), layer);
        if layer.contains_key(locs.last()) {
            rest.push(layer[locs.last()])
        } else {
            rest
        }
    }
}

/// Among the combinations detected with the held keys, the last of those
/// with the most keys; none when none is detected.
pub open spec fn spec_chosen_combo(combos: Seq<KeyCombo>, held: Seq<Key>) -> Option<KeyCombo>
    decreases combos.len(),
{
    if combos.len() == 0 {
        None
    } else {
        let best = spec_chosen_combo(combos.drop_last(), held);
        let c = combos.last();
        if c.spec_detects(held) && (best is None || c.spec_size() >= best->0.spec_size()) {
            Some(c)
        } else {
            best
        }
    }
}

/// The combination whose layer is used: the chosen one, or the combination
/// of no keys when none is chosen.
pub open spec fn spec_active_combo(combos: Seq<KeyCombo>, held: Seq<Key>) -> KeyCombo {
    match spec_chosen_combo(combos, held) {
        Some(c) => c,
        None => KeyCombo::spec_new(Seq::empty()),
    }
}

/// The keys that the held positions stand for under a key map and a map of
/// modifier positions.
pub open spec fn spec_active_keys(
    key_map: KeyMap,
    modifier_map: Map<MatrixLoc, Key>,
    state: Seq<MatrixLoc>,
) -> Seq<Key> {
    let held = spec_lookup_all(state, modifier_map);
    spec_lookup_all(state, key_map.layers()[spec_active_combo(key_map.combos(), held)])
}

/// The reports that looking at a state adds to the queue: the report of
/// its active keys with its held modifiers, when that report can be built.
pub open spec fn spec_state_reports(
    key_map: KeyMap,
    modifier_map: Map<MatrixLoc, Key>,
    state: Seq<MatrixLoc>,
) -> Seq<KeyReportView> {
    match spec_report_from_keys(
        spec_active_keys(key_map, modifier_map, state),
        spec_lookup_all(state, modifier_map),
    ) {
        Ok(r) => seq![r],
        Err(_) => Seq::empty(),
    }
}

/// Whether a newly polled matrix state is to be looked at: when it differs
/// from the last one, or when anything is pressed.
pub fn should_evaluate(prev: &[MatrixLoc], next: &[MatrixLoc]) -> (r: bool)
    ensures
        r == (prev@ != next@ || next@.len() > 0),
{
    if next.len() > 0 {
        return true;
    }
    if prev.len() != next.len() {
        return true;
    }
    assert(next@ =~= prev@);
    false
}

/// The keys a layer maps the given positions to.
fn lookup_all(locs: &Vec<MatrixLoc>, layer: &Layer) -> (keys: Vec<Key>)
    requires
        layer.wf(),
    ensures
        keys@ == spec_lookup_all(locs@, layer@),
{
    let mut keys: Vec<Key> = Vec::new();
    let mut i: usize = 0;
    while i < locs.len()
        invariant
            0 <= i <= locs@.len(),
            layer.wf(),
            keys@ == spec_lookup_all(locs@.take(i as int), layer@),
        decreases locs@.len() - i,
    {
        assert(locs@.take(i + 1).drop_last() =~= locs@.take(i as int));
        if let Some(k) = layer.get(locs[i]) {
            keys.push(k);
        }
        i = i + 1;
    }
    assert(locs@.take(locs@.len() as int) =~= locs@);
    keys
}

/// The combination whose layer the held keys select.
fn active_combo(key_map: &KeyMap, held: &Vec<Key>) -> (combo: KeyCombo)
    ensures
        combo == spec_active_combo(key_map.combos(), held@),
{
    let mut best: Option<KeyCombo> = None;
    let mut best_size: usize = 0;
    let n = key_map.len();
    let mut i: usize = 0;
    while i < n
        invariant
            n == key_map.combos().len(),
            0 <= i <= n,
            best == spec_chosen_combo(key_map.combos().take(i as int), held@),
            best matches Some(b) ==> best_size == b.spec_size(),
        decreases n - i,
    {
        let c = key_map.combo_at(i);
        assert(key_map.combos().take(i + 1).drop_last() =~= key_map.combos().take(i as int));
        let size = c.size();
        if c.detect(held.as_slice()) && (best.is_none() || size >= best_size) {
            best = Some(c);
            best_size = size;
        }
        i = i + 1;
    }
    assert(key_map.combos().take(n as int) =~= key_map.combos());
    match best {
        Some(c) => c,
        None => KeyCombo::default(),
    }
}

/// A keyboard that reads a key matrix and turns it into keys.
pub struct Keyboard<M: Matrix> {
    matrix: M,
    key_map: KeyMap,
    modifier_map: Layer,
    report_queue: Vec<KeyReport>,
    state: Vec<MatrixLoc>,
}

impl<M: Matrix> Keyboard<M> {
    /// The maps are well formed and the key map has a layer for the
    /// combination of no keys, used when no other combination is held.
    pub closed spec fn wf(&self) -> bool {
        &&& self.key_map.wf()
        &&& self.modifier_map.wf()
        &&& self.key_map.layers().contains_key(KeyCombo::spec_new(Seq::empty()))
    }

    /// The matrix positions seen at the last poll.
    pub closed spec fn spec_state(&self) -> Seq<MatrixLoc> {
        self.state@
    }

    /// The key map.
    pub closed spec fn spec_key_map(&self) -> KeyMap {
        self.key_map
    }

    /// The positions of the modifier keys.
    pub closed spec fn spec_modifier_map(&self) -> Map<MatrixLoc, Key> {
        self.modifier_map@
    }

    /// The reports that wait to be sent, oldest first.
    pub closed spec fn spec_queue(&self) -> Seq<KeyReportView> {
        self.report_queue@.map_values(|r: KeyReport| r@)
    }

    /// The matrix.
    pub closed spec fn spec_matrix(&self) -> M {
        self.matrix
    }

    /// A keyboard over a matrix, with a key map and the positions of its
    /// modifier keys; nothing is pressed yet and no report waits.
    pub fn new(matrix: M, key_map: KeyMap, modifier_map: Layer) -> (kb: Self)
        requires
            key_map.wf(),
            modifier_map.wf(),
            key_map.layers().contains_key(KeyCombo::spec_new(Seq::empty())),
        ensures
            kb.wf(),
            kb.spec_matrix() == matrix,
            kb.spec_key_map() == key_map,
            kb.spec_modifier_map() == modifier_map@,
            kb.spec_state() == Seq::<MatrixLoc>::empty(),
            kb.spec_queue() == Seq::<KeyReportView>::empty(),
    {
        let kb = Keyboard {
            matrix,
            key_map,
            modifier_map,
            report_queue: Vec::new(),
            state: Vec::new(),
        };
        assert(kb.spec_queue() =~= Seq::<KeyReportView>::empty());
        kb
    }

    /// The matrix positions seen at the last poll.
    pub fn state(&self) -> (s: &Vec<MatrixLoc>)
        ensures
            s@ == self.spec_state(),
    {
        &self.state
    }

    /// The reports that wait to be sent, oldest first.
    pub fn report_queue(&self) -> (q: &Vec<KeyReport>)
        ensures
            q@.map_values(|r: KeyReport| r@) == self.spec_queue(),
    {
        &self.report_queue
    }

    /// Polls the matrix and takes in what it reports.
    pub fn poll(&mut self)
        requires
            old(self).wf(),
        ensures
            final(self).wf(),
            final(self).spec_key_map() == old(self).spec_key_map(),
            final(self).spec_modifier_map() == old(self).spec_modifier_map(),
            final(self).spec_queue() == old(self).spec_queue() + if old(self).spec_state()
                != final(self).spec_state() || final(self).spec_state().len() > 0 {
                spec_state_reports(
                    old(self).spec_key_map(),
                    old(self).spec_modifier_map(),
                    final(self).spec_state(),
                )
            } else {
                Seq::empty()
            },
            final(self).spec_matrix().last_reading() matches Some(r) ==> final(self).spec_state()
                == r,
    {
        let new_state = self.matrix.poll();
        self.update_state(new_state);
    }

    /// Takes in a newly polled matrix state. When it is to be looked at (it
    /// differs from the last one, or something is pressed), queues the
    /// report of the keys it stands for under the layer that the held
    /// modifiers select, when that report can be built, and returns those
    /// keys.
    pub fn update_state(&mut self, new_state: Vec<MatrixLoc>) -> (evaluated: Option<Vec<Key>>)
        requires
            old(self).wf(),
        ensures
            final(self).wf(),
            final(self).spec_state() == new_state@,
            final(self).spec_matrix() == old(self).spec_matrix(),
            final(self).spec_key_map() == old(self).spec_key_map(),
            final(self).spec_modifier_map() == old(self).spec_modifier_map(),
            match evaluated {
                Some(keys) => {
                    &&& old(self).spec_state() != new_state@ || new_state@.len() > 0
                    &&& keys@ == spec_active_keys(
                        old(self).spec_key_map(),
                        old(self).spec_modifier_map(),
                        new_state@,
                    )
                    &&& final(self).spec_queue() == old(self).spec_queue() + spec_state_reports(
                        old(self).spec_key_map(),
                        old(self).spec_modifier_map(),
                        new_state@,
                    )
                },
                None => {
                    &&& old(self).spec_state() == new_state@
                    &&& new_state@.len() == 0
                    &&& final(self).spec_queue() == old(self).spec_queue()
                },
            },
    {
        if should_evaluate(self.state.as_slice(), new_state.as_slice()) {
            self.state = new_state;
            Some(self.eval_state())
        } else {
            None
        }
    }

    /// The keys that the current state stands for; their report, with the
    /// held modifiers, is queued when it can be built.
    fn eval_state(&mut self) -> (keys: Vec<Key>)
        requires
            old(self).wf(),
        ensures
            final(self).wf(),
            final(self).state == old(self).state,
            final(self).matrix == old(self).matrix,
            final(self).key_map == old(self).key_map,
            final(self).modifier_map == old(self).modifier_map,
            keys@ == spec_active_keys(old(self).key_map, old(self).modifier_map@, old(self).state@),
            final(self).spec_queue() == old(self).spec_queue() + spec_state_reports(
                old(self).key_map,
                old(self).modifier_map@,
                old(self).state@,
            ),
    {
        let pressed_modifiers = lookup_all(&self.state, &self.modifier_map);
        let combo = active_combo(&self.key_map, &pressed_modifiers);
        proof {
            lemma_chosen_combo(self.key_map.combos(), pressed_modifiers@);
            self.key_map.lemma_combos_have_layers();
        }
        let keys = match self.key_map.get(&combo) {
            Some(active_layer) => lookup_all(&self.state, active_layer),
            None => {
                assert(false);
                Vec::new()
            },
        };
        let ghost q = self.spec_queue();
        match KeyReport::new_from_keys(keys.as_slice(), pressed_modifiers.as_slice()) {
            Ok(report) => {
                self.report_queue.push(report);
                assert(self.spec_queue() =~= q.push(report@));
            },
            Err(_) => {
                assert(self.spec_queue() =~= q);
            },
        }
        keys
    }
}

/// The chosen combination is one of those given, is detected with the held
/// keys, and holds at least as many keys as any other detected one; none is
/// chosen exactly when none is detected.
pub proof fn lemma_chosen_combo(combos: Seq<KeyCombo>, held: Seq<Key>)
    ensures
        match spec_chosen_combo(combos, held) {
            Some(c) => {
                &&& combos.contains(c)
                &&& c.spec_detects(held)
                &&& forall|i: int|
                    0 <= i < combos.len() && (#[trigger] combos[i]).spec_detects(held)
                        ==> combos[i].spec_size() <= c.spec_size()
            },
            None => forall|i: int| 0 <= i < combos.len() ==> !(#[trigger] combos[i]).spec_detects(held),
        },
    decreases combos.len(),
{
    if combos.len() > 0 {
        let rest = combos.drop_last();
        let last = combos.last();
        let n = combos.len() - 1;
        lemma_chosen_combo(rest, held);
        assert forall|i: int| 0 <= i < rest.len() implies #[trigger] rest[i] == combos[i] by {}
        assert(combos[n] == last);
        let best = spec_chosen_combo(rest, held);
        if last.spec_detects(held) && (best is None || last.spec_size() >= best->0.spec_size()) {
            assert(spec_chosen_combo(combos, held) == Some(last));
            assert forall|i: int|
                0 <= i < combos.len() && (#[trigger] combos[i]).spec_detects(held) implies combos[i].spec_size()
                <= last.spec_size() by {
                if i < n {
                    assert(rest[i] == combos[i]);
                }
            }
        } else {
            assert(spec_chosen_combo(combos, held) == best);
            match best {
                Some(b) => {
                    let j = choose|j: int| 0 <= j < rest.len() && rest[j] == b;
                    assert(combos[j] == b);
                    assert forall|i: int|
                        0 <= i < combos.len() && (#[trigger] combos[i]).spec_detects(held) implies combos[i].spec_size()
                        <= b.spec_size() by {
                        if i < n {
                            assert(rest[i] == combos[i]);
                        }
                    }
                },
                None => {
                    assert forall|i: int| 0 <= i < combos.len() implies !(#[trigger] combos[i]).spec_detects(held) by {
                        if i < n {
                            assert(rest[i] == combos[i]);
                        }
                    }
                },
            }
        }
    }
}

/// Whatever modifiers are held, a keyboard whose key map has a layer for the
/// combination of no keys finds a layer to use.
pub proof fn lemma_active_combo_has_layer(key_map: KeyMap, held: Seq<Key>)
    requires
        key_map.layers().contains_key(KeyCombo::spec_new(Seq::empty())),
    ensures
        key_map.layers().contains_key(spec_active_combo(key_map.combos(), held)),
{
    lemma_chosen_combo(key_map.combos(), held);
    key_map.lemma_combos_have_layers();
}

/// When the key map has a layer for the combination of no keys and that
/// combination is in its order, some combination is always chosen.
pub proof fn lemma_base_combo_always_chosen(combos: Seq<KeyCombo>, held: Seq<Key>)
    requires
        combos.contains(KeyCombo::spec_new(Seq::empty())),
    ensures
        spec_chosen_combo(combos, held) is Some,
{
    lemma_empty_combo_always_detected(held);
    lemma_chosen_combo(combos, held);
}

/// Looking up one position gives its key when the layer maps it, and
/// nothing when it does not.
pub proof fn lemma_lookup_one(loc: MatrixLoc, layer: Map<MatrixLoc, Key>)
    ensures
        spec_lookup_all(seq![loc], layer) == if layer.contains_key(loc) {
            seq![layer[loc]]
        } else {
            Seq::<Key>::empty()
        },
{
    assert(seq![loc].drop_last() =~= Seq::<MatrixLoc>::empty());
    assert(seq![loc].last() == loc);
    assert(spec_lookup_all(Seq::<MatrixLoc>::empty(), layer) == Seq::<Key>::empty());
    if layer.contains_key(loc) {
        assert(Seq::<Key>::empty().push(layer[loc]) =~= seq![layer[loc]]);
    }
}

/// Looking up positions one list after another gives the keys of the
/// first list followed by those of the second.
pub proof fn lemma_lookup_concat(a: Seq<MatrixLoc>, b: Seq<MatrixLoc>, layer: Map<MatrixLoc, Key>)
    ensures
        spec_lookup_all(a + b, layer) == spec_lookup_all(a, layer) + spec_lookup_all(b, layer),
    decreases b.len(),
{
    if b.len() == 0 {
        assert(a + b =~= a);
        assert(spec_lookup_all(a, layer) + Seq::<Key>::empty() =~= spec_lookup_all(a, layer));
    } else {
        lemma_lookup_concat(a, b.drop_last(), layer);
        assert((a + b).drop_last() =~= a + b.drop_last());
        assert((a + b).last() == b.last());
        let la = spec_lookup_all(a, layer);
        let lb = spec_lookup_all(b.drop_last(), layer);
        if layer.contains_key(b.last()) {
            assert(la + lb.push(layer[b.last()]) =~= (la + lb).push(layer[b.last()]));
        }
    }
}

/// A key is among those a layer maps some positions to exactly when one of
/// the positions is mapped to it.
pub proof fn lemma_lookup_all_contains(locs: Seq<MatrixLoc>, layer: Map<MatrixLoc, Key>, k: Key)
    ensures
        spec_lookup_all(locs, layer).contains(k) <==> exists|i: int|
            0 <= i < locs.len() && layer.contains_key(#[trigger] locs[i]) && layer[locs[i]] == k,
    decreases locs.len(),
{
    if locs.len() > 0 {
        let front = locs.drop_last();
        let n = locs.len() - 1;
        lemma_lookup_all_contains(front, layer, k);
        let rest = spec_lookup_all(front, layer);
        let all = spec_lookup_all(locs, layer);
        if rest.contains(k) {
            let j = choose|j: int| 0 <= j < rest.len() && rest[j] == k;
            if layer.contains_key(locs.last()) {
                assert(all[j] == k);
            }
            let i = choose|i: int|
                0 <= i < front.len() && layer.contains_key(#[trigger] front[i]) && layer[front[i]] == k;
            assert(locs[i] == front[i]);
        }
        if exists|i: int| 0 <= i < locs.len() && layer.contains_key(#[trigger] locs[i]) && layer[locs[i]] == k {
            let i = choose|i: int| 0 <= i < locs.len() && layer.contains_key(#[trigger] locs[i]) && layer[locs[i]] == k;
            if i < n {
                assert(front[i] == locs[i]);
                let j = choose|j: int| 0 <= j < rest.len() && rest[j] == k;
                if layer.contains_key(locs.last()) {
                    assert(all[j] == k);
                }
            } else {
                assert(all[all.len() - 1] == k);
            }
        }
        if all.contains(k) {
            let j = choose|j: int| 0 <= j < all.len() && all[j] == k;
            if j < rest.len() {
                assert(rest[j] == k);
            } else {
                assert(locs[n] == locs.last());
            }
        }
    }
}

/// Whether every key a layer maps some positions to is a modifier.
proof fn lemma_lookup_all_modifiers(locs: Seq<MatrixLoc>, layer: Map<MatrixLoc, Key>)
    ensures
        all_modifiers(spec_lookup_all(locs, layer)) <==> forall|i: int|
            0 <= i < locs.len() && layer.contains_key(#[trigger] locs[i]) ==> is_modifier(layer[locs[i]]),
{
    let held = spec_lookup_all(locs, layer);
    if all_modifiers(held) {
        assert forall|i: int| 0 <= i < locs.len() && layer.contains_key(#[trigger] locs[i]) implies is_modifier(
            layer[locs[i]],
        ) by {
            lemma_lookup_all_contains(locs, layer, layer[locs[i]]);
            let j = choose|j: int| 0 <= j < held.len() && held[j] == layer[locs[i]];
            assert(is_modifier(held[j]));
        }
    }
    if forall|i: int| 0 <= i < locs.len() && layer.contains_key(#[trigger] locs[i]) ==> is_modifier(layer[locs[i]]) {
        assert forall|j: int| 0 <= j < held.len() implies is_modifier(#[trigger] held[j]) by {
            assert(held.contains(held[j]));
            lemma_lookup_all_contains(locs, layer, held[j]);
        }
    }
}

/// Looking at a state queues at most one report. It queues one exactly when
/// the active keys are at most six and every held position of the modifier
/// map holds a modifier. That report holds the usage codes of the active
/// keys in order, zeros after them, and sets the bit of a modifier exactly
/// when some held position of the modifier map holds it, whatever layer
/// the held modifiers select.
pub proof fn lemma_queued_report(key_map: KeyMap, modifier_map: Map<MatrixLoc, Key>, state: Seq<MatrixLoc>)
    ensures
        spec_state_reports(key_map, modifier_map, state).len() <= 1,
        spec_state_reports(key_map, modifier_map, state).len() == 1 <==> (spec_active_keys(
            key_map,
            modifier_map,
            state,
        ).len() <= 6 && forall|i: int|
            0 <= i < state.len() && modifier_map.contains_key(#[trigger] state[i]) ==> is_modifier(
                modifier_map[state[i]],
            )),
        spec_state_reports(key_map, modifier_map, state).len() == 1 ==> {
            let r = spec_state_reports(key_map, modifier_map, state)[0];
            let keys = spec_active_keys(key_map, modifier_map, state);
            &&& r.reserved == 0
            &&& r.keys.len() == 6
            &&& forall|i: int| 0 <= i < keys.len() ==> r.keys[i] == spec_scancode(#[trigger] keys[i])
            &&& forall|i: int| keys.len() <= i < 6 ==> #[trigger] r.keys[i] == 0u8
            &&& forall|k: Key|
                is_modifier(k) ==> ((r.modifiers & #[trigger] modifier_bit(k) != 0) <==> exists|i: int|
                    0 <= i < state.len() && modifier_map.contains_key(#[trigger] state[i])
                        && modifier_map[state[i]] == k)
        },
{
    let held = spec_lookup_all(state, modifier_map);
    let keys = spec_active_keys(key_map, modifier_map, state);
    lemma_report_contents(keys, held);
    lemma_lookup_all_modifiers(state, modifier_map);
    if let Ok(r) = spec_report_from_keys(keys, held) {
        assert(spec_state_reports(key_map, modifier_map, state)[0] == r);
        assert forall|k: Key| is_modifier(k) implies ((r.modifiers & #[trigger] modifier_bit(k) != 0) <==> exists|i: int|
            0 <= i < state.len() && modifier_map.contains_key(#[trigger] state[i]) && modifier_map[state[i]] == k) by {
            lemma_lookup_all_contains(state, modifier_map, k);
        }
    }
}

} // verus!
