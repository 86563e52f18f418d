//! The ordered mempool store: a map from transaction id to arrival index and
//! a map from arrival index to raw transaction bytes, driven by a counter
//! that is never reused and never decremented.

use vstd::prelude::*;

use crate::txdepth::TxDepth;

verus! {

// ---------------------------------------------------------------------------
// The two concurrent containers, taken from their crates and described to the
// verifier through trusted declarations and wrappers.
// ---------------------------------------------------------------------------

#[verifier::external_type_specification]
#[verifier::external_body]
#[verifier::reject_recursive_types(K)]
#[verifier::reject_recursive_types(V)]
pub struct ExSkipMap<K, V>(crossbeam_skiplist::SkipMap<K, V>);

#[verifier::external_type_specification]
#[verifier::external_body]
#[verifier::reject_recursive_types(K)]
#[verifier::reject_recursive_types(V)]
#[verifier::reject_recursive_types(S)]
pub struct ExDashMap<K, V, S>(dashmap::DashMap<K, V, S>);

/// The entries held by an ordered index-to-bytes map.
pub uninterp spec fn skip_view(m: crossbeam_skiplist::SkipMap<u64, Vec<u8>>) -> Map<u64, Seq<u8>>;

/// The entries held by a transaction-id-to-index map.
pub uninterp spec fn dash_view(m: dashmap::DashMap<String, u64>) -> Map<Seq<char>, u64>;

/// Relies on crossbeam_skiplist::SkipMap::new: a fresh map holds no entries.
#[verifier::external_body]
fn skip_new() -> (r: crossbeam_skiplist::SkipMap<u64, Vec<u8>>)
    ensures
        forall|k: u64| !skip_view(r).contains_key(k),
{
    crossbeam_skiplist::SkipMap::new()
}

/// Relies on crossbeam_skiplist::SkipMap::insert: stores the pair, removing
/// any existing entry with the same key first.
#[verifier::external_body]
fn skip_insert(m: &mut crossbeam_skiplist::SkipMap<u64, Vec<u8>>, key: u64, value: Vec<u8>)
    ensures
        skip_view(*final(m)) == skip_view(*old(m)).insert(key, value@),
{
    m.insert(key, value);
}

/// Relies on crossbeam_skiplist::SkipMap::remove: takes the entry with this
/// key out of the map and reports whether one was there.
#[verifier::external_body]
fn skip_remove(m: &mut crossbeam_skiplist::SkipMap<u64, Vec<u8>>, key: u64) -> (removed: bool)
    ensures
        skip_view(*final(m)) == skip_view(*old(m)).remove(key),
        removed == skip_view(*old(m)).contains_key(key),
{
    m.remove(&key).is_some()
}

/// Relies on crossbeam_skiplist::SkipMap::len: the number of entries.
#[verifier::external_body]
fn skip_len(m: &crossbeam_skiplist::SkipMap<u64, Vec<u8>>) -> (n: usize)
    ensures
        skip_view(*m).dom().finite() ==> n == skip_view(*m).dom().len(),
{
    m.len()
}

/// Relies on crossbeam_skiplist::SkipMap::iter: entries come out in
/// ascending key order, one for every key in the map.
#[verifier::external_body]
fn skip_entries(m: &crossbeam_skiplist::SkipMap<u64, Vec<u8>>) -> (entries: Vec<(u64, Vec<u8>)>)
    ensures
        forall|i: int, j: int|
            0 <= i < j < entries@.len() ==> entries@[i].0 < entries@[j].0,
        forall|i: int|
            0 <= i < entries@.len() ==> skip_view(*m).contains_pair(
                entries@[i].0,
                entries@[i].1@,
            ),
        forall|k: u64|
            skip_view(*m).contains_key(k) ==> exists|i: int|
                0 <= i < entries@.len() && #[trigger] entries@[i].0 == k,
{
    m.iter().map(|e| (*e.key(), e.value().clone())).collect()
}

/// Relies on crossbeam_skiplist::SkipMap::range: entries with keys at or
/// above the bound come out in ascending key order.
#[verifier::external_body]
fn skip_entries_from(m: &crossbeam_skiplist::SkipMap<u64, Vec<u8>>, from: u64) -> (entries: Vec<
    (u64, Vec<u8>),
>)
    ensures
        forall|i: int, j: int|
            0 <= i < j < entries@.len() ==> entries@[i].0 < entries@[j].0,
        forall|i: int|
            0 <= i < entries@.len() ==> skip_view(*m).contains_pair(
                entries@[i].0,
                entries@[i].1@,
            ) && entries@[i].0 >= from,
        forall|k: u64|
            skip_view(*m).contains_key(k) && k >= from ==> exists|i: int|
                0 <= i < entries@.len() && #[trigger] entries@[i].0 == k,
{
    m.range(from..).map(|e| (*e.key(), e.value().clone())).collect()
}

/// Relies on dashmap::DashMap::with_capacity: a fresh map holds no entries.
#[verifier::external_body]
fn dash_with_capacity(capacity: usize) -> (m: dashmap::DashMap<String, u64>)
    ensures
        forall|k: Seq<char>| !dash_view(m).contains_key(k),
{
    dashmap::DashMap::with_capacity(capacity)
}

/// Relies on dashmap::DashMap::insert: stores the pair and returns the value
/// previously associated with the key, if any.
#[verifier::external_body]
fn dash_insert(m: &mut dashmap::DashMap<String, u64>, key: String, value: u64) -> (prev: Option<
    u64,
>)
    ensures
        dash_view(*final(m)) == dash_view(*old(m)).insert(key@, value),
        prev is Some <==> dash_view(*old(m)).contains_key(key@),
        prev matches Some(p) ==> dash_view(*old(m)).contains_pair(key@, p),
{
    m.insert(key, value)
}

/// Relies on dashmap::DashMap::remove: takes the entry with this key out of
/// the map and returns its value, if one was there.
#[verifier::external_body]
fn dash_remove(m: &mut dashmap::DashMap<String, u64>, key: &String) -> (removed: Option<u64>)
    ensures
        dash_view(*final(m)) == dash_view(*old(m)).remove(key@),
        removed is Some <==> dash_view(*old(m)).contains_key(key@),
        removed matches Some(v) ==> dash_view(*old(m)).contains_pair(key@, v),
{
    m.remove(key).map(|kv| kv.1)
}

/// Relies on dashmap::DashMap::len: the number of entries.
#[verifier::external_body]
fn dash_len(m: &dashmap::DashMap<String, u64>) -> (n: usize)
    ensures
        dash_view(*m).dom().finite() ==> n == dash_view(*m).dom().len(),
{
    m.len()
}

/// Relies on dashmap::DashMap::iter: one entry for every key; the order the
/// entries come out in is left open, as it depends on the hasher's seed.
#[verifier::external_body]
fn dash_entries(m: &dashmap::DashMap<String, u64>) -> (entries: Vec<(String, u64)>)
    ensures
        forall|i: int|
            0 <= i < entries@.len() ==> dash_view(*m).contains_pair(
                entries@[i].0@,
                entries@[i].1,
            ),
        forall|i: int, j: int|
            0 <= i < j < entries@.len() ==> entries@[i].0@ != entries@[j].0@,
        forall|k: Seq<char>|
            dash_view(*m).contains_key(k) ==> exists|i: int|
                0 <= i < entries@.len() && #[trigger] entries@[i].0@ == k,
{
    m.iter().map(|e| (e.key().clone(), *e.value())).collect()
}

// ---------------------------------------------------------------------------
// The mathematical model of the store.
// ---------------------------------------------------------------------------

/// The store as the verifier sees it: the arrival counter, the map from
/// transaction id to arrival index, and the map from arrival index to raw
/// transaction bytes.
pub struct MempoolView {
    pub counter: u64,
    pub ids: Map<Seq<char>, u64>,
    pub data: Map<u64, Seq<u8>>,
}

impl MempoolView {
    /// Well-formedness: ids is a finite injection, every assigned index is
    /// below the counter, and the data map holds exactly the assigned
    /// indices.
    pub open spec fn wf(self) -> bool {
        &&& self.ids.dom().finite()
        &&& self.data.dom().finite()
        &&& self.ids.is_injective()
        &&& forall|t: Seq<char>| #[trigger]
            self.ids.contains_key(t) ==> self.ids[t] < self.counter
        &&& self.data.dom() == self.ids.values()
    }
}

/// What one insertion does to the model: the counter advances, the id takes
/// the pre-increment counter value as its index, any index the id previously
/// held is dropped from the data map, and the bytes are filed under the new
/// index.
pub open spec fn add_tx_spec(m: MempoolView, tx_id: Seq<char>, bytes: Seq<u8>) -> MempoolView
    recommends
        m.counter < u64::MAX,
{
    MempoolView {
        counter: (m.counter + 1) as u64,
        ids: m.ids.insert(tx_id, m.counter),
        data: (if m.ids.contains_key(tx_id) {
            m.data.remove(m.ids[tx_id])
        } else {
            m.data
        }).insert(m.counter, bytes),
    }
}

/// What one removal does to the model: the id and its index leave both maps;
/// an absent id changes nothing, and the counter never moves.
pub open spec fn remove_tx_spec(m: MempoolView, tx_id: Seq<char>) -> MempoolView {
    if m.ids.contains_key(tx_id) {
        MempoolView {
            counter: m.counter,
            ids: m.ids.remove(tx_id),
            data: m.data.remove(m.ids[tx_id]),
        }
    } else {
        m
    }
}

// ---------------------------------------------------------------------------
// The store itself.
// ---------------------------------------------------------------------------

/// A mempool mirror that keeps track of the order of arrival of incoming
/// transactions. Each insertion consumes one counter value; the counter is
/// never reused, so the set of live arrival indices grows sparse as
/// transactions leave the pool.
pub struct Mempool {
    counter: u64,
    id_tx_map: crossbeam_skiplist::SkipMap<u64, Vec<u8>>,
    txid_id_map: dashmap::DashMap<String, u64>,
}

impl View for Mempool {
    type V = MempoolView;

    closed spec fn view(&self) -> MempoolView {
        MempoolView {
            counter: self.counter,
            ids: dash_view(self.txid_id_map),
            data: skip_view(self.id_tx_map),
        }
    }
}

impl Mempool {
    pub open spec fn wf(&self) -> bool {
        self@.wf()
    }

    /// An empty store with the counter at zero.
    pub fn new() -> (r: Mempool)
        ensures
            r.wf(),
            r@.counter == 0,
            r@.ids == Map::<Seq<char>, u64>::empty(),
            r@.data == Map::<u64, Seq<u8>>::empty(),
    {
        let r = Mempool {
            counter: 0,
            id_tx_map: skip_new(),
            txid_id_map: dash_with_capacity(100000),
        };
        proof {
            assert(r@.ids =~= Map::<Seq<char>, u64>::empty());
            assert(r@.data =~= Map::<u64, Seq<u8>>::empty());
            assert(r@.ids.dom() =~= Set::empty());
            assert(r@.data.dom() =~= Set::empty());
            assert(r@.ids.values() =~= r@.data.dom());
        }
        r
    }

    /// Insert a transaction: the id is filed under the next counter value and
    /// the bytes under that same index; a previous entry for the same id is
    /// superseded, its index retired.
    pub fn add_tx(&mut self, tx_id: String, bytes: Vec<u8>)
        requires
            old(self).wf(),
            old(self)@.counter < u64::MAX,
        ensures
            final(self).wf(),
            final(self)@ == add_tx_spec(old(self)@, tx_id@, bytes@),
    {
        let ghost m0 = self@;
        let ghost t = tx_id@;
        let previous_value = self.counter;
        self.counter = self.counter + 1;
        let prev = dash_insert(&mut self.txid_id_map, tx_id, previous_value);
        match prev {
            Some(old_index) => {
                let _ = skip_remove(&mut self.id_tx_map, old_index);
            },
            None => {},
        }
        skip_insert(&mut self.id_tx_map, previous_value, bytes);
        proof {
            lemma_add_preserves_wf(m0, t, bytes@);
            assert(self@ =~= add_tx_spec(m0, t, bytes@)) by {
                if m0.ids.contains_key(t) {
                    assert(self@.data =~= add_tx_spec(m0, t, bytes@).data);
                }
            }
        }
    }

    /// Remove a transaction by id. Absent ids are left alone; a present id
    /// leaves both maps and its arrival index is not reissued.
    pub fn remove_tx(&mut self, tx_id: &String)
        requires
            old(self).wf(),
        ensures
            final(self).wf(),
            final(self)@ == remove_tx_spec(old(self)@, tx_id@),
    {
        let ghost m0 = self@;
        let ghost t = tx_id@;
        let kk = dash_remove(&mut self.txid_id_map, tx_id);
        match kk {
            Some(id) => {
                let _ = skip_remove(&mut self.id_tx_map, id);
            },
            None => {},
        }
        proof {
            lemma_remove_preserves_wf(m0, t);
            if m0.ids.contains_key(t) {
                assert(self@ =~= remove_tx_spec(m0, t)) by {
                    assert(self@.ids =~= remove_tx_spec(m0, t).ids);
                    assert(self@.data =~= remove_tx_spec(m0, t).data);
                }
            } else {
                assert(self@.ids =~= m0.ids);
                assert(self@.data =~= m0.data);
                assert(self@ =~= remove_tx_spec(m0, t));
            }
        }
    }

    /// The number of transactions currently present.
    pub fn len(&self) -> (n: u32)
        requires
            self.wf(),
        ensures
            self@.ids.dom().len() <= u32::MAX ==> n == self@.ids.dom().len(),
    {
        let full = dash_len(&self.txid_id_map);
        full as u32
    }

    /// The number of insertions ever attempted: the next index to be handed
    /// out.
    pub fn counter(&self) -> (c: u64)
        ensures
            c == self@.counter,
    {
        self.counter
    }

    /// A snapshot of the id-to-index direction: one pair per present
    /// transaction, in no promised order.
    pub fn txid_pos_iterator(&self) -> (entries: Vec<(String, u64)>)
        ensures
            forall|i: int|
                0 <= i < entries@.len() ==> self@.ids.contains_pair(
                    entries@[i].0@,
                    entries@[i].1,
                ),
            forall|i: int, j: int|
                0 <= i < j < entries@.len() ==> entries@[i].0@ != entries@[j].0@,
            forall|k: Seq<char>|
                self@.ids.contains_key(k) ==> exists|i: int|
                    0 <= i < entries@.len() && #[trigger] entries@[i].0@ == k,
    {
        dash_entries(&self.txid_id_map)
    }

    /// A snapshot of the index-to-bytes direction: exactly the present
    /// entries, in ascending arrival order.
    pub fn pos_data_iterator(&self) -> (entries: Vec<(u64, Vec<u8>)>)
        ensures
            forall|i: int, j: int|
                0 <= i < j < entries@.len() ==> entries@[i].0 < entries@[j].0,
            forall|i: int|
                0 <= i < entries@.len() ==> self@.data.contains_pair(
                    entries@[i].0,
                    entries@[i].1@,
                ),
            forall|k: u64|
                self@.data.contains_key(k) ==> exists|i: int|
                    0 <= i < entries@.len() && #[trigger] entries@[i].0 == k,
    {
        skip_entries(&self.id_tx_map)
    }

    /// A snapshot of the index-to-bytes direction from a lower bound on:
    /// exactly the present entries whose arrival index is at least `from`,
    /// in ascending arrival order.
    pub fn pos_data_iterator_from(&self, from: u64) -> (entries: Vec<(u64, Vec<u8>)>)
        ensures
            forall|i: int, j: int|
                0 <= i < j < entries@.len() ==> entries@[i].0 < entries@[j].0,
            forall|i: int|
                0 <= i < entries@.len() ==> self@.data.contains_pair(
                    entries@[i].0,
                    entries@[i].1@,
                ) && entries@[i].0 >= from,
            forall|k: u64|
                self@.data.contains_key(k) && k >= from ==> exists|i: int|
                    0 <= i < entries@.len() && #[trigger] entries@[i].0 == k,
    {
        skip_entries_from(&self.id_tx_map, from)
    }

    /// Insert every transaction of every layer, walking the layers in
    /// ascending index order: all of layer `k` is inserted before any of
    /// layer `k + 1`, so smaller ancestor counts take smaller arrival
    /// indices.
    pub fn load_mempool_with(&mut self, vec2: Vec<Vec<TxDepth>>)
        requires
            old(self).wf(),
            old(self)@.counter + layers_flat(vec2@).len() <= u64::MAX,
        ensures
            final(self).wf(),
            final(self)@ == add_all_spec(old(self)@, layers_flat(vec2@)),
    {
        let ghost target = add_all_spec(old(self)@, layers_flat(vec2@));
        let mut vec2 = vec2;
        while vec2.len() > 0
            invariant
                self.wf(),
                self@.counter + layers_flat(vec2@).len() <= u64::MAX,
                add_all_spec(self@, layers_flat(vec2@)) == target,
            decreases vec2@.len(),
        {
            let ghost vs0 = vec2@;
            let mut layer = vec2.remove(0);
            proof {
                assert(vs0.remove(0) =~= vs0.drop_first());
                assert(layers_flat(vs0) == layer@ + layers_flat(vec2@));
            }
            while layer.len() > 0
                invariant
                    self.wf(),
                    self@.counter + layer@.len() + layers_flat(vec2@).len() <= u64::MAX,
                    add_all_spec(self@, layer@ + layers_flat(vec2@)) == target,
                decreases layer@.len(),
            {
                let ghost l0 = layer@;
                let ghost m0 = self@;
                let ghost rest = layers_flat(vec2@);
                let t = layer.remove(0);
                self.add_tx(t.tx_id, t.bytes);
                proof {
                    assert(l0.remove(0) =~= l0.drop_first());
                    let whole = l0 + rest;
                    assert(whole.len() > 0 && whole[0] == t);
                    assert(whole.drop_first() =~= layer@ + rest);
                    assert(add_all_spec(m0, whole) == add_all_spec(
                        add_tx_spec(m0, t.tx_id@, t.bytes@),
                        layer@ + rest,
                    ));
                }
            }
            proof {
                assert(layer@ + layers_flat(vec2@) =~= layers_flat(vec2@));
            }
        }
        proof {
            assert(add_all_spec(self@, layers_flat(vec2@)) == self@);
        }
    }
}

// ---------------------------------------------------------------------------
// Bulk-load folds.
// ---------------------------------------------------------------------------

/// The transactions of a list of layers, flattened in layer order.
pub open spec fn layers_flat(vs: Seq<Vec<TxDepth>>) -> Seq<TxDepth>
    decreases vs.len(),
{
    if vs.len() == 0 {
        Seq::empty()
    } else {
        vs[0]@ + layers_flat(vs.drop_first())
    }
}

/// Folding a list of transactions into the store, first to last.
pub open spec fn add_all_spec(m: MempoolView, txs: Seq<TxDepth>) -> MempoolView
    decreases txs.len(),
{
    if txs.len() == 0 {
        m
    } else {
        add_all_spec(add_tx_spec(m, txs[0].tx_id@, txs[0].bytes@), txs.drop_first())
    }
}

// ---------------------------------------------------------------------------
// Laws of the store.
// ---------------------------------------------------------------------------

/// An insertion or a removal, as the model sees it.
pub enum StoreOp {
    Add { tx_id: Seq<char>, bytes: Seq<u8> },
    Remove { tx_id: Seq<char> },
}

/// Folding a list of operations into the store, first to last.
pub open spec fn apply_ops_spec(m: MempoolView, ops: Seq<StoreOp>) -> MempoolView
    decreases ops.len(),
{
    if ops.len() == 0 {
        m
    } else {
        let m1 = match ops[0] {
            StoreOp::Add { tx_id, bytes } => add_tx_spec(m, tx_id, bytes),
            StoreOp::Remove { tx_id } => remove_tx_spec(m, tx_id),
        };
        apply_ops_spec(m1, ops.drop_first())
    }
}

/// How many of the operations are insertions.
pub open spec fn count_adds(ops: Seq<StoreOp>) -> nat
    decreases ops.len(),
{
    if ops.len() == 0 {
        0
    } else {
        (if ops[0] is Add {
            1nat
        } else {
            0nat
        }) + count_adds(ops.drop_first())
    }
}

/// Law: the two directions of the store always hold the same number of
/// entries.
pub proof fn lemma_dual_index_sizes_agree(m: MempoolView)
    requires
        m.wf(),
    ensures
        m.ids.dom().len() == m.data.dom().len(),
{
    m.ids.lemma_injective_values_len();
}

/// Law: of two insertions made in order, the earlier one takes the smaller
/// arrival index (as long as the later one does not overwrite it).
pub proof fn lemma_insertion_order_monotone(
    m: MempoolView,
    t1: Seq<char>,
    b1: Seq<u8>,
    t2: Seq<char>,
    b2: Seq<u8>,
)
    requires
        m.counter + 2 <= u64::MAX,
        t1 != t2,
    ensures
        ({
            let m2 = add_tx_spec(add_tx_spec(m, t1, b1), t2, b2);
            &&& m2.ids.contains_key(t1)
            &&& m2.ids.contains_key(t2)
            &&& m2.ids[t1] < m2.ids[t2]
        }),
{
}

/// Law: the counter counts every insertion ever made, however many removals
/// come between; removals never move it.
pub proof fn lemma_counter_counts_insertions(m: MempoolView, ops: Seq<StoreOp>)
    requires
        m.counter + count_adds(ops) <= u64::MAX,
    ensures
        apply_ops_spec(m, ops).counter == m.counter + count_adds(ops),
    decreases ops.len(),
{
    if ops.len() > 0 {
        match ops[0] {
            StoreOp::Add { tx_id, bytes } => {
                lemma_counter_counts_insertions(add_tx_spec(m, tx_id, bytes), ops.drop_first());
            },
            StoreOp::Remove { tx_id } => {
                lemma_counter_counts_insertions(remove_tx_spec(m, tx_id), ops.drop_first());
            },
        }
    }
}

/// Law: removing a transaction twice is the same as removing it once.
pub proof fn lemma_remove_idempotent(m: MempoolView, t: Seq<char>)
    ensures
        remove_tx_spec(remove_tx_spec(m, t), t) == remove_tx_spec(m, t),
{
}

/// Law: removing an absent transaction changes nothing.
pub proof fn lemma_remove_absent_no_op(m: MempoolView, t: Seq<char>)
    requires
        !m.ids.contains_key(t),
    ensures
        remove_tx_spec(m, t) == m,
{
}

// ---------------------------------------------------------------------------
// Laws of the layered bulk load.
// ---------------------------------------------------------------------------

proof fn lemma_add_all_preserves_other(m: MempoolView, txs: Seq<TxDepth>, t: Seq<char>)
    requires
        forall|i: int| 0 <= i < txs.len() ==> txs[i].tx_id@ != t,
    ensures
        add_all_spec(m, txs).ids.contains_key(t) == m.ids.contains_key(t),
        m.ids.contains_key(t) ==> add_all_spec(m, txs).ids[t] == m.ids[t],
    decreases txs.len(),
{
    if txs.len() > 0 {
        let m1 = add_tx_spec(m, txs[0].tx_id@, txs[0].bytes@);
        lemma_add_all_preserves_other(m1, txs.drop_first(), t);
    }
}

/// Law: folding `n` transactions into the store advances the counter by
/// exactly `n`, whether or not any of them supersede earlier entries.
pub proof fn lemma_add_all_counter(m: MempoolView, txs: Seq<TxDepth>)
    requires
        m.counter + txs.len() <= u64::MAX,
    ensures
        add_all_spec(m, txs).counter == m.counter + txs.len(),
    decreases txs.len(),
{
    if txs.len() > 0 {
        lemma_add_all_counter(add_tx_spec(m, txs[0].tx_id@, txs[0].bytes@), txs.drop_first());
    }
}

/// Law: when a list of transactions with pairwise distinct ids is folded
/// into the store, the transaction at position `i` ends up holding arrival
/// index `counter + i`.
pub proof fn lemma_add_all_assigns_ascending(m: MempoolView, txs: Seq<TxDepth>)
    requires
        m.counter + txs.len() <= u64::MAX,
        forall|i: int, j: int| 0 <= i < j < txs.len() ==> txs[i].tx_id@ != txs[j].tx_id@,
    ensures
        forall|i: int|
            0 <= i < txs.len() ==> add_all_spec(m, txs).ids.contains_pair(
                txs[i].tx_id@,
                (m.counter + i) as u64,
            ),
    decreases txs.len(),
{
    if txs.len() > 0 {
        let m1 = add_tx_spec(m, txs[0].tx_id@, txs[0].bytes@);
        let rest = txs.drop_first();
        assert(forall|i: int| 0 <= i < rest.len() ==> rest[i].tx_id@ != txs[0].tx_id@);
        lemma_add_all_preserves_other(m1, rest, txs[0].tx_id@);
        assert(m1.ids.contains_pair(txs[0].tx_id@, m.counter));
        lemma_add_all_assigns_ascending(m1, rest);
        assert forall|i: int| 1 <= i < txs.len() implies add_all_spec(m, txs).ids.contains_pair(
            txs[i].tx_id@,
            (m.counter + i) as u64,
        ) by {
            assert(rest[i - 1] == txs[i]);
            assert(add_all_spec(m1, rest).ids.contains_pair(
                rest[i - 1].tx_id@,
                (m1.counter + (i - 1)) as u64,
            ));
        }
    }
}

proof fn lemma_layers_flat_concat(a: Seq<Vec<TxDepth>>, b: Seq<Vec<TxDepth>>)
    ensures
        layers_flat(a + b) =~= layers_flat(a) + layers_flat(b),
    decreases a.len(),
{
    if a.len() == 0 {
        assert(a + b =~= b);
    } else {
        assert((a + b).drop_first() =~= a.drop_first() + b);
        assert((a + b)[0] == a[0]);
        lemma_layers_flat_concat(a.drop_first(), b);
    }
}

proof fn lemma_layers_flat_take_succ(vs: Seq<Vec<TxDepth>>, i: int)
    requires
        0 <= i < vs.len(),
    ensures
        layers_flat(vs.take(i + 1)) =~= layers_flat(vs.take(i)) + vs[i]@,
{
    assert(vs.take(i + 1) =~= vs.take(i) + seq![vs[i]]);
    lemma_layers_flat_concat(vs.take(i), seq![vs[i]]);
    assert(layers_flat(seq![vs[i]]) =~= vs[i]@) by {
        let s = seq![vs[i]];
        assert(s.drop_first() =~= Seq::<Vec<TxDepth>>::empty());
        assert(layers_flat(s.drop_first()) == Seq::<TxDepth>::empty());
        assert(layers_flat(s) == s[0]@ + layers_flat(s.drop_first()));
        assert(s[0]@ + Seq::<TxDepth>::empty() =~= vs[i]@);
    }
}

/// Where the transactions of layer `i` start inside the flattened load.
pub open spec fn layer_start(vs: Seq<Vec<TxDepth>>, i: int) -> int {
    layers_flat(vs.take(i)).len() as int
}

proof fn lemma_layer_start_monotone(vs: Seq<Vec<TxDepth>>, i: int, k: int)
    requires
        0 <= i <= k <= vs.len(),
    ensures
        layer_start(vs, i) <= layer_start(vs, k),
    decreases k - i,
{
    if i < k {
        lemma_layers_flat_take_succ(vs, k - 1);
        lemma_layer_start_monotone(vs, i, k - 1);
    }
}

proof fn lemma_flat_position(vs: Seq<Vec<TxDepth>>, i: int, j: int)
    requires
        0 <= i < vs.len(),
        0 <= j < vs[i]@.len(),
    ensures
        0 <= layer_start(vs, i) + j < layers_flat(vs).len(),
        layers_flat(vs)[layer_start(vs, i) + j] == vs[i]@[j],
{
    assert(vs =~= vs.take(i) + vs.skip(i));
    lemma_layers_flat_concat(vs.take(i), vs.skip(i));
    let tail = vs.skip(i);
    assert(tail[0] == vs[i]);
    assert(layers_flat(tail) == vs[i]@ + layers_flat(tail.drop_first()));
    assert(layers_flat(tail)[j] == vs[i]@[j]);
    assert(layers_flat(vs)[layer_start(vs, i) + j] == layers_flat(tail)[j]);
}

/// Law: after a layered bulk load over pairwise distinct transaction ids, a
/// transaction with the smaller ancestor count takes the smaller arrival
/// index. Layer `p` holds the transactions whose ancestor count is `p + 1`,
/// so a smaller ancestor count means an earlier layer.
pub proof fn lemma_bulk_load_orders_ancestors(
    m: MempoolView,
    vs: Seq<Vec<TxDepth>>,
    i: int,
    j: int,
    k: int,
    l: int,
)
    requires
        m.counter + layers_flat(vs).len() <= u64::MAX,
        forall|p: int, q: int|
            0 <= p < q < layers_flat(vs).len() ==> layers_flat(vs)[p].tx_id@ != layers_flat(
                vs,
            )[q].tx_id@,
        forall|p: int, q: int|
            0 <= p < vs.len() && 0 <= q < vs[p]@.len() ==> #[trigger] vs[p]@[q].ancestor_count
                == p + 1,
        0 <= i < vs.len(),
        0 <= j < vs[i]@.len(),
        0 <= k < vs.len(),
        0 <= l < vs[k]@.len(),
        vs[i]@[j].ancestor_count < vs[k]@[l].ancestor_count,
    ensures
        ({
            let r = add_all_spec(m, layers_flat(vs));
            &&& r.ids.contains_key(vs[i]@[j].tx_id@)
            &&& r.ids.contains_key(vs[k]@[l].tx_id@)
            &&& r.ids[vs[i]@[j].tx_id@] < r.ids[vs[k]@[l].tx_id@]
        }),
{
    let flat = layers_flat(vs);
    assert(vs[i]@[j].ancestor_count == i + 1);
    assert(vs[k]@[l].ancestor_count == k + 1);
    assert(i < k);
    lemma_flat_position(vs, i, j);
    lemma_flat_position(vs, k, l);
    let p1 = layer_start(vs, i) + j;
    let p2 = layer_start(vs, k) + l;
    assert(p1 < p2) by {
        lemma_layers_flat_take_succ(vs, i);
        assert(layer_start(vs, i + 1) == layer_start(vs, i) + vs[i]@.len());
        lemma_layer_start_monotone(vs, i + 1, k);
    }
    lemma_add_all_assigns_ascending(m, flat);
    let r = add_all_spec(m, flat);
    assert(r.ids.contains_pair(flat[p1].tx_id@, (m.counter + p1) as u64));
    assert(r.ids.contains_pair(flat[p2].tx_id@, (m.counter + p2) as u64));
}

// ---------------------------------------------------------------------------
// Preservation of well-formedness.
// ---------------------------------------------------------------------------

proof fn lemma_add_preserves_wf(m: MempoolView, tx_id: Seq<char>, bytes: Seq<u8>)
    requires
        m.wf(),
        m.counter < u64::MAX,
    ensures
        add_tx_spec(m, tx_id, bytes).wf(),
{
    let r = add_tx_spec(m, tx_id, bytes);
    assert(r.ids.is_injective()) by {
        assert forall|k1: Seq<char>, k2: Seq<char>|
            r.ids.contains_key(k1) && r.ids.contains_key(k2) && r.ids[k1] == r.ids[k2]
        implies k1 == k2 by {
            if k1 != tx_id && k2 != tx_id {
                assert(m.ids.contains_pair(k1, r.ids[k1]));
                assert(m.ids.contains_pair(k2, r.ids[k2]));
            } else if k1 == tx_id && k2 != tx_id {
                assert(m.ids.contains_key(k2) && m.ids[k2] < m.counter);
            } else if k1 != tx_id && k2 == tx_id {
                assert(m.ids.contains_key(k1) && m.ids[k1] < m.counter);
            }
        }
    }
    assert(r.data.dom() =~= r.ids.values()) by {
        assert forall|s: u64| r.data.dom().contains(s) implies r.ids.values().contains(s) by {
            if s == m.counter {
                assert(r.ids.contains_key(tx_id) && r.ids[tx_id] == s);
                assert(r.ids.values().contains(s));
            } else {
                // s comes from the old data map and is not the retired index.
                assert(m.data.dom().contains(s));
                assert(m.ids.values().contains(s));
                let k = choose|k: Seq<char>| #[trigger] m.ids.contains_key(k) && m.ids[k] == s;
                if m.ids.contains_key(tx_id) {
                    assert(s != m.ids[tx_id]);
                    assert(k != tx_id);
                } else {
                    assert(k != tx_id) by {
                        if k == tx_id {
                            assert(m.ids.contains_key(tx_id));
                        }
                    }
                }
                assert(r.ids.contains_key(k) && r.ids[k] == s);
                assert(r.ids.values().contains(s));
            }
        }
        assert forall|s: u64| r.ids.values().contains(s) implies r.data.dom().contains(s) by {
            let k = choose|k: Seq<char>| #[trigger] r.ids.contains_key(k) && r.ids[k] == s;
            if k == tx_id {
                assert(s == m.counter);
            } else {
                assert(m.ids.contains_pair(k, s));
                assert(m.ids.values().contains(s));
                assert(m.data.dom().contains(s));
                assert(s < m.counter);
                if m.ids.contains_key(tx_id) {
                    // The retired index belonged to tx_id alone.
                    assert(s != m.ids[tx_id]) by {
                        if s == m.ids[tx_id] {
                            assert(m.ids.contains_key(k) && m.ids.contains_key(tx_id)
                                && m.ids[k] == m.ids[tx_id]);
                        }
                    }
                }
            }
        }
    }
}

proof fn lemma_remove_preserves_wf(m: MempoolView, tx_id: Seq<char>)
    requires
        m.wf(),
    ensures
        remove_tx_spec(m, tx_id).wf(),
{
    let r = remove_tx_spec(m, tx_id);
    if m.ids.contains_key(tx_id) {
        let s0 = m.ids[tx_id];
        assert(r.data.dom() =~= r.ids.values()) by {
            assert forall|s: u64| r.data.dom().contains(s) implies r.ids.values().contains(s) by {
                assert(m.ids.values().contains(s));
                let k = choose|k: Seq<char>| #[trigger] m.ids.contains_key(k) && m.ids[k] == s;
                assert(k != tx_id);
                assert(r.ids.contains_key(k) && r.ids[k] == s);
            }
            assert forall|s: u64| r.ids.values().contains(s) implies r.data.dom().contains(s) by {
                let k = choose|k: Seq<char>| #[trigger] r.ids.contains_key(k) && r.ids[k] == s;
                assert(m.ids.contains_pair(k, s));
                assert(m.ids.values().contains(s));
                assert(s != s0) by {
                    if s == s0 {
                        assert(m.ids.contains_key(k) && m.ids.contains_key(tx_id)
                            && m.ids[k] == m.ids[tx_id]);
                        assert(k == tx_id);
                    }
                }
            }
        }
    }
}

} // verus!
