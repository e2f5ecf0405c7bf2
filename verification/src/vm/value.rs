//! The values the machine computes with, key-value storage, and their
//! mathematical views.

use vstd::prelude::*;

verus! {

/// A machine value.
#[derive(Debug)]
pub enum Value {
    Int(i64),
    Bool(bool),
    Bytes(Vec<u8>),
    Address([u8; 32]),
    Contract(ContractData),
}

/// A contract: its code, its own storage and its balance.
#[derive(Debug)]
pub struct ContractData {
    pub code: Vec<u8>,
    pub storage: Storage,
    pub balance: u64,
}

/// One storage slot.
#[derive(Debug)]
pub struct StorageEntry {
    pub key: [u8; 32],
    pub value: Value,
}

/// A mapping from 32-byte keys to values, kept in insertion order.
///
/// Well-formed storage holds each key at most once.
#[derive(Debug)]
pub struct Storage {
    pub entries: Vec<StorageEntry>,
}

/// What a `Value` is, mathematically.
pub enum ValueView {
    Int(i64),
    Bool(bool),
    Bytes(Seq<u8>),
    Address(Seq<u8>),
    Contract(ContractView),
}

/// What a `ContractData` is, mathematically.
pub struct ContractView {
    pub code: Seq<u8>,
    pub storage: Map<Seq<u8>, ValueView>,
    pub balance: u64,
}

/// A storage slot as a pair of key bytes and value.
pub type Slot = (Seq<u8>, ValueView);

pub open spec fn value_view(v: Value) -> ValueView
    decreases v,
{
    match v {
        Value::Int(i) => ValueView::Int(i),
        Value::Bool(b) => ValueView::Bool(b),
        Value::Bytes(b) => ValueView::Bytes(b@),
        Value::Address(a) => ValueView::Address(a@),
        Value::Contract(c) => ValueView::Contract(
            ContractView {
                code: c.code@,
                storage: listing_map(entries_view(c.storage.entries@)),
                balance: c.balance,
            },
        ),
    }
}

/// The slots of a sequence of entries, in the same order.
pub open spec fn entries_view(s: Seq<StorageEntry>) -> Seq<Slot>
    decreases s,
{
    Seq::new(
        s.len(),
        |i: int|
            if 0 <= i < s.len() {
                (s[i].key@, value_view(s[i].value))
            } else {
                (Seq::empty(), ValueView::Bool(false))
            },
    )
}

/// Whether `k` is the key of some slot of `l`.
pub open spec fn has_key(l: Seq<Slot>, k: Seq<u8>) -> bool {
    exists|i: int| 0 <= i < l.len() && (#[trigger] l[i]).0 == k
}

/// An index at which `l` holds key `k`, where there is one.
pub open spec fn index_of_key(l: Seq<Slot>, k: Seq<u8>) -> int {
    choose|i: int| 0 <= i < l.len() && (#[trigger] l[i]).0 == k
}

/// No key occurs in two slots of `l`.
pub open spec fn unique_keys(l: Seq<Slot>) -> bool {
    forall|i: int, j: int|
        0 <= i < l.len() && 0 <= j < l.len() && (#[trigger] l[i]).0 == (#[trigger] l[j]).0 ==> i
            == j
}

/// The mapping that a listing of slots stands for.
pub open spec fn listing_map(l: Seq<Slot>) -> Map<Seq<u8>, ValueView> {
    Map::new(|k: Seq<u8>| has_key(l, k), |k: Seq<u8>| l[index_of_key(l, k)].1)
}

impl View for Value {
    type V = ValueView;

    open spec fn view(&self) -> ValueView {
        value_view(*self)
    }
}

impl View for ContractData {
    type V = ContractView;

    open spec fn view(&self) -> ContractView {
        ContractView { code: self.code@, storage: self.storage@, balance: self.balance }
    }
}

impl View for Storage {
    type V = Map<Seq<u8>, ValueView>;

    open spec fn view(&self) -> Map<Seq<u8>, ValueView> {
        listing_map(self.listing())
    }
}

/// Appending a slot with a fresh key, or replacing the value under a key
/// already present, acts on the mapping as `insert` does.
pub proof fn lemma_listing_insert(l: Seq<Slot>, k: Seq<u8>, v: ValueView)
    requires
        unique_keys(l),
    ensures
        !has_key(l, k) ==> unique_keys(l.push((k, v))) && listing_map(l.push((k, v)))
            == listing_map(l).insert(k, v),
        has_key(l, k) ==> unique_keys(l.update(index_of_key(l, k), (k, v))) && listing_map(
            l.update(index_of_key(l, k), (k, v)),
        ) == listing_map(l).insert(k, v),
{
    if !has_key(l, k) {
        let l2 = l.push((k, v));
        assert forall|q: Seq<u8>| has_key(l2, q) <==> (q == k || has_key(l, q)) by {
            if has_key(l2, q) {
                let i = index_of_key(l2, q);
                if i < l.len() {
                    assert(l[i].0 == q);
                }
            }
            if q == k {
                assert(l2[l.len() as int].0 == q);
            }
            if has_key(l, q) {
                let i = index_of_key(l, q);
                assert(l2[i].0 == q);
            }
        }
        assert(unique_keys(l2)) by {
            assert forall|i: int, j: int|
                0 <= i < l2.len() && 0 <= j < l2.len() && (#[trigger] l2[i]).0 == (
                #[trigger] l2[j]).0 implies i == j by {
                if i < l.len() {
                    assert(l[i].0 == l2[i].0);
                }
                if j < l.len() {
                    assert(l[j].0 == l2[j].0);
                }
            }
        }
        assert forall|q: Seq<u8>| has_key(l2, q) implies #[trigger] listing_map(l2)[q]
            == listing_map(l).insert(k, v)[q] by {
            let i = index_of_key(l2, q);
            if q != k {
                let j = index_of_key(l, q);
                assert(l2[j].0 == q);
            } else {
                assert(l2[l.len() as int].0 == q);
            }
        }
        assert(listing_map(l2) =~= listing_map(l).insert(k, v));
    } else {
        let p = index_of_key(l, k);
        let l2 = l.update(p, (k, v));
        assert forall|i: int| 0 <= i < l.len() implies (#[trigger] l2[i]).0 == l[i].0 by {}
        assert forall|q: Seq<u8>| has_key(l2, q) <==> has_key(l, q) by {
            if has_key(l2, q) {
                let i = index_of_key(l2, q);
                assert(l[i].0 == q);
            }
            if has_key(l, q) {
                let i = index_of_key(l, q);
                assert(l2[i].0 == q);
            }
        }
        assert(unique_keys(l2)) by {
            assert forall|i: int, j: int|
                0 <= i < l2.len() && 0 <= j < l2.len() && (#[trigger] l2[i]).0 == (
                #[trigger] l2[j]).0 implies i == j by {
                assert(l[i].0 == l2[i].0);
                assert(l[j].0 == l2[j].0);
            }
        }
        assert forall|q: Seq<u8>| has_key(l2, q) implies #[trigger] listing_map(l2)[q]
            == listing_map(l).insert(k, v)[q] by {
            let i = index_of_key(l2, q);
            let j = index_of_key(l, q);
            assert(l2[j].0 == q);
            assert(l[i].0 == l2[i].0);
        }
        assert(listing_map(l2) =~= listing_map(l).insert(k, v));
    }
}

/// Whether two keys hold the same bytes.
pub fn keys_equal(a: &[u8; 32], b: &[u8; 32]) -> (r: bool)
    ensures
        r == (a@ == b@),
{
    let mut i: usize = 0;
    while i < 32
        invariant
            i <= 32,
            forall|j: int| 0 <= j < i ==> a@[j] == b@[j],
        decreases 32 - i,
    {
        if a[i] != b[i] {
            return false;
        }
        i += 1;
    }
    assert(a@ =~= b@);
    true
}

/// A copy of a byte vector.
pub fn clone_bytes(b: &Vec<u8>) -> (r: Vec<u8>)
    ensures
        r@ == b@,
{
    let mut r: Vec<u8> = Vec::new();
    let mut i: usize = 0;
    while i < b.len()
        invariant
            i <= b.len(),
            r@ == b@.subrange(0, i as int),
        decreases b.len() - i,
    {
        r.push(b[i]);
        i += 1;
        assert(r@ == b@.subrange(0, i as int));
    }
    assert(b@.subrange(0, b.len() as int) == b@);
    r
}

impl Clone for Value {
    fn clone(&self) -> (r: Self)
        ensures
            r@ == self@,
        decreases *self, 1nat,
    {
        match self {
            Value::Int(i) => Value::Int(*i),
            Value::Bool(b) => Value::Bool(*b),
            Value::Bytes(b) => Value::Bytes(clone_bytes(b)),
            Value::Address(a) => Value::Address(*a),
            Value::Contract(c) => {
                let entries = clone_entries(&c.storage.entries);
                Value::Contract(
                    ContractData {
                        code: clone_bytes(&c.code),
                        storage: Storage { entries },
                        balance: c.balance,
                    },
                )
            },
        }
    }
}

/// A copy of a vector of storage entries, slot for slot.
pub fn clone_entries(s: &Vec<StorageEntry>) -> (r: Vec<StorageEntry>)
    ensures
        entries_view(r@) == entries_view(s@),
    decreases *s, 0nat,
{
    let mut entries: Vec<StorageEntry> = Vec::new();
    let mut i: usize = 0;
    while i < s.len()
        invariant
            i <= s.len(),
            entries@.len() == i,
            forall|j: int|
                0 <= j < i ==> (#[trigger] entries@[j]).key@ == s@[j].key@ && entries@[j].value@
                    == s@[j].value@,
        decreases s.len() - i,
    {
        let e = &s[i];
        proof {
            vstd::std_specs::vec::axiom_vec_index_decreases(*s, i as int);
        }
        entries.push(StorageEntry { key: e.key, value: e.value.clone() });
        i += 1;
    }
    assert(entries_view(entries@) =~= entries_view(s@));
    entries
}

impl Clone for ContractData {
    fn clone(&self) -> (r: Self)
        ensures
            r@ == self@,
    {
        ContractData {
            code: clone_bytes(&self.code),
            storage: self.storage.clone(),
            balance: self.balance,
        }
    }
}

impl Clone for StorageEntry {
    fn clone(&self) -> (r: Self)
        ensures
            r.key@ == self.key@,
            r.value@ == self.value@,
    {
        StorageEntry { key: self.key, value: self.value.clone() }
    }
}

impl Clone for Storage {
    fn clone(&self) -> (r: Self)
        ensures
            r.listing() == self.listing(),
            r@ == self@,
            r.wf() == self.wf(),
    {
        Storage { entries: clone_entries(&self.entries) }
    }
}

impl Storage {
    /// The slots in insertion order.
    pub open spec fn listing(&self) -> Seq<Slot> {
        entries_view(self.entries@)
    }

    /// No key is held twice.
    pub open spec fn wf(&self) -> bool {
        unique_keys(self.listing())
    }

    /// An empty storage.
    pub fn new() -> (r: Self)
        ensures
            r.wf(),
            r@ == Map::<Seq<u8>, ValueView>::empty(),
            r.listing() == Seq::<Slot>::empty(),
    {
        let r = Storage { entries: Vec::new() };
        assert(r.listing() =~= Seq::<Slot>::empty());
        assert(r@ =~= Map::<Seq<u8>, ValueView>::empty());
        r
    }

    /// The number of keys held.
    pub fn len(&self) -> (n: usize)
        ensures
            n == self.listing().len(),
    {
        self.entries.len()
    }

    /// Whether no key is held.
    pub fn is_empty(&self) -> (r: bool)
        ensures
            r == (self.listing().len() == 0),
    {
        self.entries.len() == 0
    }

    /// The position of `key` among the entries, if it is held.
    fn position(&self, key: &[u8; 32]) -> (r: Option<usize>)
        ensures
            match r {
                Some(i) => i < self.listing().len() && self.listing()[i as int].0 == key@,
                None => !has_key(self.listing(), key@),
            },
    {
        let mut i: usize = 0;
        while i < self.entries.len()
            invariant
                i <= self.entries.len(),
                forall|j: int| 0 <= j < i ==> (#[trigger] self.listing()[j]).0 != key@,
            decreases self.entries.len() - i,
        {
            if keys_equal(&self.entries[i].key, key) {
                return Some(i);
            }
            i += 1;
        }
        None
    }

    /// Whether `key` is held.
    pub fn contains_key(&self, key: &[u8; 32]) -> (r: bool)
        ensures
            r == self@.contains_key(key@),
    {
        self.position(key).is_some()
    }

    /// The value under `key`, if there is one.
    pub fn get(&self, key: &[u8; 32]) -> (r: Option<&Value>)
        requires
            self.wf(),
        ensures
            match r {
                Some(v) => self@.contains_key(key@) && self@[key@] == v@,
                None => !self@.contains_key(key@),
            },
    {
        match self.position(key) {
            Some(i) => {
                assert(self.listing()[i as int].0 == key@);
                assert(index_of_key(self.listing(), key@) == i as int);
                Some(&self.entries[i].value)
            },
            None => None,
        }
    }

    /// Puts `value` under `key`, replacing what was there.
    pub fn insert(&mut self, key: [u8; 32], value: Value)
        requires
            old(self).wf(),
        ensures
            final(self).wf(),
            final(self)@ == old(self)@.insert(key@, value@),
            final(self).listing() == (if has_key(old(self).listing(), key@) {
                old(self).listing().update(index_of_key(old(self).listing(), key@), (key@, value@))
            } else {
                old(self).listing().push((key@, value@))
            }),
    {
        proof {
            lemma_listing_insert(self.listing(), key@, value@);
        }
        match self.position(&key) {
            Some(i) => {
                assert(self.listing()[i as int].0 == key@);
                assert(index_of_key(self.listing(), key@) == i as int);
                self.entries[i] = StorageEntry { key, value };
                assert(self.listing() =~= old(self).listing().update(i as int, (key@, value@)));
            },
            None => {
                self.entries.push(StorageEntry { key, value });
                assert(self.listing() =~= old(self).listing().push((key@, value@)));
            },
        }
    }
}

} // verus!
