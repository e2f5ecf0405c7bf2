//! The state root: a commitment to storage and logs that does not depend on
//! the order in which storage was written.

use crate::hashing::{commit, commitment};
use crate::vm::model::LogView;
use crate::vm::value::{
    has_key, index_of_key, listing_map, unique_keys, Slot, Storage, Value, ValueView,
};
use crate::vm::{logs_view, Log};
use rayon::slice::ParallelSliceMut;
use vstd::bytes::{spec_u64_to_le_bytes, u64_to_le_bytes};
use vstd::prelude::*;

verus! {

/// Lexicographic "less than" on byte strings of one length: at the first
/// place where they differ, `a` holds the smaller byte.
pub open spec fn key_lt(a: Seq<u8>, b: Seq<u8>) -> bool {
    exists|i: int|
        0 <= i < a.len() && i < b.len() && #[trigger] a[i] < b[i] && a.take(i) == b.take(i)
}

pub open spec fn key_le(a: Seq<u8>, b: Seq<u8>) -> bool {
    a == b || key_lt(a, b)
}

/// The keys of `l` rise strictly from slot to slot.
pub open spec fn strictly_sorted(l: Seq<Slot>) -> bool {
    forall|i: int, j: int| 0 <= i < j < l.len() ==> key_lt(#[trigger] l[i].0, #[trigger] l[j].0)
}

/// `l` lists exactly the slots of `m`, by rising key.
pub open spec fn is_sorted_listing(l: Seq<Slot>, m: Map<Seq<u8>, ValueView>) -> bool {
    strictly_sorted(l) && listing_map(l) == m
}

/// The slots of `m` by rising key.
pub open spec fn sorted_listing(m: Map<Seq<u8>, ValueView>) -> Seq<Slot> {
    choose|l: Seq<Slot>| is_sorted_listing(l, m)
}

/// The canonical bytes of a value: integers as eight little-endian bytes,
/// booleans as one byte, byte strings and addresses as they are, a contract
/// as its code followed by its balance.
pub open spec fn encode_value(v: ValueView) -> Seq<u8> {
    match v {
        ValueView::Int(i) => spec_u64_to_le_bytes(i as u64),
        ValueView::Bool(b) => seq![if b { 1u8 } else { 0u8 }],
        ValueView::Bytes(b) => b,
        ValueView::Address(a) => a,
        ValueView::Contract(c) => c.code + spec_u64_to_le_bytes(c.balance),
    }
}

/// Each slot's key followed by its value, slot after slot.
pub open spec fn encode_slots(l: Seq<Slot>) -> Seq<u8>
    decreases l.len(),
{
    if l.len() == 0 {
        Seq::empty()
    } else {
        encode_slots(l.drop_last()) + l.last().0 + encode_value(l.last().1)
    }
}

/// The byte strings of `parts`, one after another.
pub open spec fn concat(parts: Seq<Seq<u8>>) -> Seq<u8>
    decreases parts.len(),
{
    if parts.len() == 0 {
        Seq::empty()
    } else {
        concat(parts.drop_last()) + parts.last()
    }
}

pub open spec fn encode_log(log: LogView) -> Seq<u8> {
    log.address + concat(log.topics) + log.data
}

pub open spec fn encode_logs(logs: Seq<LogView>) -> Seq<u8>
    decreases logs.len(),
{
    if logs.len() == 0 {
        Seq::empty()
    } else {
        encode_logs(logs.drop_last()) + encode_log(logs.last())
    }
}

/// The bytes that the state root commits to: storage by rising key, then
/// the logs in the order they were written.
pub open spec fn root_preimage(storage: Map<Seq<u8>, ValueView>, logs: Seq<LogView>) -> Seq<u8> {
    encode_slots(sorted_listing(storage)) + encode_logs(logs)
}

/// The state root of a machine with this storage and these logs.
pub open spec fn state_root_of(storage: Map<Seq<u8>, ValueView>, logs: Seq<LogView>) -> Seq<u8> {
    commitment(root_preimage(storage, logs))
}

/// The mapping that a sequence of writes leaves behind, the later write
/// winning where two name one key.
pub open spec fn writes_map(writes: Seq<Slot>) -> Map<Seq<u8>, ValueView>
    decreases writes.len(),
{
    if writes.len() == 0 {
        Map::empty()
    } else {
        writes_map(writes.drop_last()).insert(writes.last().0, writes.last().1)
    }
}

/// A strictly sorted listing holds no key twice.
pub proof fn lemma_sorted_unique_keys(l: Seq<Slot>)
    requires
        strictly_sorted(l),
    ensures
        unique_keys(l),
{
    assert forall|i: int, j: int|
        0 <= i < l.len() && 0 <= j < l.len() && (#[trigger] l[i]).0 == (#[trigger] l[j]).0 implies i
        == j by {
        if i < j {
            assert(key_lt(l[i].0, l[j].0));
        } else if j < i {
            assert(key_lt(l[j].0, l[i].0));
        }
    }
}

/// Of two byte strings at most one is below the other.
pub proof fn lemma_key_lt_asymmetric(a: Seq<u8>, b: Seq<u8>)
    requires
        key_lt(a, b),
    ensures
        !key_lt(b, a),
        a != b,
{
    let i = choose|i: int|
        0 <= i < a.len() && i < b.len() && #[trigger] a[i] < b[i] && a.take(i) == b.take(i);
    if key_lt(b, a) {
        let j = choose|j: int|
            0 <= j < b.len() && j < a.len() && #[trigger] b[j] < a[j] && b.take(j) == a.take(j);
        if i < j {
            assert(b.take(j)[i] == a.take(j)[i]);
        } else if j < i {
            assert(a.take(i)[j] == b.take(i)[j]);
        }
    }
}

/// Two listings by rising key of one mapping are the same listing.
pub proof fn lemma_sorted_listing_unique(l1: Seq<Slot>, l2: Seq<Slot>)
    requires
        strictly_sorted(l1),
        strictly_sorted(l2),
        listing_map(l1) == listing_map(l2),
    ensures
        l1 == l2,
    decreases l1.len(),
{
    lemma_sorted_unique_keys(l1);
    lemma_sorted_unique_keys(l2);
    let m = listing_map(l1);
    if l1.len() == 0 {
        if l2.len() > 0 {
            assert(has_key(l2, l2[0].0));
            assert(listing_map(l2).contains_key(l2[0].0));
            assert(has_key(l1, l2[0].0));
        }
        assert(l1 =~= l2);
    } else if l2.len() == 0 {
        assert(has_key(l1, l1[0].0));
        assert(listing_map(l1).contains_key(l1[0].0));
        assert(has_key(l2, l1[0].0));
    } else {
        let k1 = l1[0].0;
        let k2 = l2[0].0;
        assert(has_key(l1, k1));
        assert(m.contains_key(k1));
        assert(has_key(l2, k1));
        assert(has_key(l2, k2));
        assert(listing_map(l2).contains_key(k2));
        assert(has_key(l1, k2));
        let j = index_of_key(l2, k1);
        let i = index_of_key(l1, k2);
        if j > 0 {
            assert(key_lt(l2[0].0, l2[j].0));
            lemma_key_lt_asymmetric(k2, k1);
            if i > 0 {
                assert(key_lt(l1[0].0, l1[i].0));
            }
        }
        assert(j == 0);
        assert(k1 == k2);
        assert(index_of_key(l1, k1) == 0);
        assert(listing_map(l1)[k1] == l1[0].1);
        assert(listing_map(l2)[k1] == l2[0].1);
        assert(l1[0] == l2[0]);
        let t1 = l1.drop_first();
        let t2 = l2.drop_first();
        assert(strictly_sorted(t1)) by {
            assert forall|a: int, b: int| 0 <= a < b < t1.len() implies key_lt(
                #[trigger] t1[a].0,
                #[trigger] t1[b].0,
            ) by {
                assert(key_lt(l1[a + 1].0, l1[b + 1].0));
            }
        }
        assert(strictly_sorted(t2)) by {
            assert forall|a: int, b: int| 0 <= a < b < t2.len() implies key_lt(
                #[trigger] t2[a].0,
                #[trigger] t2[b].0,
            ) by {
                assert(key_lt(l2[a + 1].0, l2[b + 1].0));
            }
        }
        lemma_tail_map(l1);
        lemma_tail_map(l2);
        lemma_sorted_listing_unique(t1, t2);
        assert(l1 =~= seq![l1[0]] + t1);
        assert(l2 =~= seq![l2[0]] + t2);
    }
}

/// Without its first slot, a listing with distinct keys stands for the same
/// mapping less the first key.
proof fn lemma_tail_map(l: Seq<Slot>)
    requires
        l.len() > 0,
        unique_keys(l),
    ensures
        listing_map(l.drop_first()) == listing_map(l).remove(l[0].0),
{
    let t = l.drop_first();
    let k0 = l[0].0;
    assert forall|q: Seq<u8>| has_key(t, q) <==> (has_key(l, q) && q != k0) by {
        if has_key(t, q) {
            let i = index_of_key(t, q);
            assert(l[i + 1].0 == q);
            if q == k0 {
                assert(l[0].0 == l[i + 1].0);
            }
        }
        if has_key(l, q) && q != k0 {
            let i = index_of_key(l, q);
            assert(i > 0);
            assert(t[i - 1].0 == q);
        }
    }
    assert forall|q: Seq<u8>| has_key(t, q) implies #[trigger] listing_map(t)[q] == listing_map(
        l,
    )[q] by {
        let i = index_of_key(t, q);
        let j = index_of_key(l, q);
        assert(l[i + 1].0 == q);
        assert(l[j].0 == l[i + 1].0);
    }
    assert(listing_map(t) =~= listing_map(l).remove(k0));
}

/// A listing by rising key of the mapping `m` is the one that
/// `sorted_listing` names.
pub proof fn lemma_sorted_listing_is(l: Seq<Slot>, m: Map<Seq<u8>, ValueView>)
    requires
        is_sorted_listing(l, m),
    ensures
        sorted_listing(m) == l,
{
    let c = sorted_listing(m);
    assert(is_sorted_listing(c, m));
    lemma_sorted_listing_unique(c, l);
}

/// The state root depends on what storage holds, not on how it came to
/// hold it: two sequences of writes that leave the same mapping give the
/// same root.
pub proof fn law_state_root_ignores_write_order(
    writes_a: Seq<Slot>,
    writes_b: Seq<Slot>,
    logs: Seq<LogView>,
)
    requires
        writes_map(writes_a) == writes_map(writes_b),
    ensures
        state_root_of(writes_map(writes_a), logs) == state_root_of(writes_map(writes_b), logs),
{
}

/// Calls `par_sort_by_key` of rayon's `ParallelSliceMut` on the items, the
/// key of an item being its byte array. Trusted: afterwards the vector holds
/// the items it held before, each as often as before, and the keys do not
/// fall from one item to the next in the lexicographic order of byte arrays.
#[verifier::external_body]
fn sort_by_key(items: &mut Vec<([u8; 32], usize)>)
    ensures
        final(items)@.to_multiset() == old(items)@.to_multiset(),
        forall|i: int, j: int|
            0 <= i < j < final(items)@.len() ==> key_le(
                (#[trigger] final(items)@[i]).0@,
                (#[trigger] final(items)@[j]).0@,
            ),
{
    items.par_sort_by_key(|item| item.0);
}

/// Appends `bytes` to `out`.
pub fn append_bytes(out: &mut Vec<u8>, bytes: &[u8])
    ensures
        final(out)@ == old(out)@ + bytes@,
{
    let mut i: usize = 0;
    while i < bytes.len()
        invariant
            i <= bytes.len(),
            out@ == old(out)@ + bytes@.take(i as int),
        decreases bytes.len() - i,
    {
        out.push(bytes[i]);
        i += 1;
        assert(out@ =~= old(out)@ + bytes@.take(i as int));
    }
    assert(bytes@.take(bytes.len() as int) =~= bytes@);
}

/// Appends the canonical bytes of `v` to `out`.
pub fn encode_value_into(v: &Value, out: &mut Vec<u8>)
    ensures
        final(out)@ == old(out)@ + encode_value(v@),
{
    match v {
        Value::Int(i) => {
            let le = u64_to_le_bytes(*i as u64);
            append_bytes(out, le.as_slice());
        },
        Value::Bool(b) => {
            let byte: u8 = if *b {
                1
            } else {
                0
            };
            out.push(byte);
            assert(out@ =~= old(out)@ + seq![byte]);
        },
        Value::Bytes(b) => {
            append_bytes(out, b.as_slice());
        },
        Value::Address(a) => {
            append_bytes(out, a.as_slice());
        },
        Value::Contract(c) => {
            append_bytes(out, c.code.as_slice());
            let le = u64_to_le_bytes(c.balance);
            append_bytes(out, le.as_slice());
            assert(out@ =~= old(out)@ + (c.code@ + spec_u64_to_le_bytes(c.balance)));
        },
    }
}

/// Appends the bytes of one log to `out`.
pub fn encode_log_into(log: &Log, out: &mut Vec<u8>)
    ensures
        final(out)@ == old(out)@ + encode_log(log@),
{
    append_bytes(out, log.address.as_slice());
    let ghost base = out@;
    let mut i: usize = 0;
    while i < log.topics.len()
        invariant
            i <= log.topics.len(),
            out@ == base + concat(log@.topics.take(i as int)),
        decreases log.topics.len() - i,
    {
        append_bytes(out, log.topics[i].as_slice());
        i += 1;
        proof {
            let t = log@.topics.take(i as int);
            assert(t.drop_last() =~= log@.topics.take(i - 1));
            assert(t.last() == log.topics@[i - 1]@);
            assert(out@ =~= base + concat(t));
        }
    }
    assert(log@.topics.take(log.topics.len() as int) =~= log@.topics);
    append_bytes(out, log.data.as_slice());
    assert(out@ =~= old(out)@ + encode_log(log@));
}

/// The slots that sorted items point at, in the items' order.
pub open spec fn pointed_slots(items: Seq<([u8; 32], usize)>, listing: Seq<Slot>) -> Seq<Slot> {
    Seq::new(items.len(), |j: int| listing[items[j].1 as int])
}

/// The items of a listing: each key with its position.
pub open spec fn indexed_keys(entries: Seq<crate::vm::value::StorageEntry>) -> Seq<
    ([u8; 32], usize),
> {
    Seq::new(entries.len(), |i: int| (entries[i].key, i as usize))
}

/// Sorted items that are a rearrangement of a well-formed listing's keys
/// point at the slots of that listing by rising key.
proof fn lemma_pointed_slots_sorted(
    entries: Seq<crate::vm::value::StorageEntry>,
    items: Seq<([u8; 32], usize)>,
)
    requires
        entries.len() <= usize::MAX,
        unique_keys(crate::vm::value::entries_view(entries)),
        items.to_multiset() == indexed_keys(entries).to_multiset(),
        forall|i: int, j: int|
            0 <= i < j < items.len() ==> key_le((#[trigger] items[i]).0@, (#[trigger] items[j]).0@),
    ensures
        items.len() == entries.len(),
        forall|j: int|
            0 <= j < items.len() ==> (#[trigger] items[j]).1 < entries.len() && items[j].0
                == entries[items[j].1 as int].key,
        is_sorted_listing(
            pointed_slots(items, crate::vm::value::entries_view(entries)),
            listing_map(crate::vm::value::entries_view(entries)),
        ),
{
    let listing = crate::vm::value::entries_view(entries);
    let source = indexed_keys(entries);
    let slots = pointed_slots(items, listing);
    vstd::seq_lib::to_multiset_len(items);
    vstd::seq_lib::to_multiset_len(source);
    assert forall|j: int| 0 <= j < items.len() implies (#[trigger] items[j]).1 < entries.len()
        && items[j].0 == entries[items[j].1 as int].key && source[items[j].1 as int]
        == items[j] by {
        vstd::seq_lib::to_multiset_contains(items, items[j]);
        vstd::seq_lib::to_multiset_contains(source, items[j]);
        assert(items.contains(items[j]));
        assert(source.contains(items[j]));
        let i = choose|i: int| 0 <= i < source.len() && source[i] == items[j];
        assert(source[i] == (entries[i].key, i as usize));
    }
    assert(source.no_duplicates()) by {
        assert forall|a: int, b: int|
            0 <= a < source.len() && 0 <= b < source.len() && a != b implies source[a]
            != source[b] by {
            assert(source[a].1 == a as usize);
            assert(source[b].1 == b as usize);
        }
    }
    source.lemma_multiset_has_no_duplicates();
    items.lemma_multiset_has_no_duplicates_conv();
    assert forall|a: int, b: int| 0 <= a < b < slots.len() implies key_lt(
        #[trigger] slots[a].0,
        #[trigger] slots[b].0,
    ) by {
        assert(key_le(items[a].0@, items[b].0@));
        assert(slots[a].0 == items[a].0@);
        assert(slots[b].0 == items[b].0@);
        if items[a].0@ == items[b].0@ {
            let ia = items[a].1 as int;
            let ib = items[b].1 as int;
            assert(listing[ia].0 == listing[ib].0);
            assert(ia == ib);
            assert(items[a].0 == items[b].0) by {
                assert(items[a].0 == entries[ia].key);
            }
            assert(items[a] == items[b]);
        }
    }
    lemma_sorted_unique_keys(slots);
    assert forall|q: Seq<u8>| has_key(slots, q) <==> has_key(listing, q) by {
        if has_key(slots, q) {
            let j = index_of_key(slots, q);
            assert(listing[items[j].1 as int].0 == q);
        }
        if has_key(listing, q) {
            let i = index_of_key(listing, q);
            vstd::seq_lib::to_multiset_contains(source, source[i]);
            vstd::seq_lib::to_multiset_contains(items, source[i]);
            assert(source.contains(source[i]));
            assert(items.contains(source[i]));
            let j = choose|j: int| 0 <= j < items.len() && items[j] == source[i];
            assert(slots[j].0 == q);
        }
    }
    assert forall|q: Seq<u8>| has_key(slots, q) implies #[trigger] listing_map(slots)[q]
        == listing_map(listing)[q] by {
        let j = index_of_key(slots, q);
        let i = index_of_key(listing, q);
        assert(listing[items[j].1 as int].0 == listing[i].0);
    }
    assert(listing_map(slots) =~= listing_map(listing));
}

/// The state root of `storage` and `logs`: the commitment to the storage
/// slots by rising key followed by the logs.
pub fn compute_state_root(storage: &Storage, logs: &Vec<Log>) -> (root: [u8; 32])
    requires
        storage.wf(),
    ensures
        root@ == state_root_of(storage@, logs_view(logs@)),
{
    let n = storage.entries.len();
    let mut items: Vec<([u8; 32], usize)> = Vec::new();
    let mut i: usize = 0;
    while i < n
        invariant
            n == storage.entries.len(),
            i <= n,
            items@ == indexed_keys(storage.entries@).take(i as int),
        decreases n - i,
    {
        items.push((storage.entries[i].key, i));
        i += 1;
        assert(items@ =~= indexed_keys(storage.entries@).take(i as int));
    }
    assert(items@ =~= indexed_keys(storage.entries@));
    sort_by_key(&mut items);
    proof {
        lemma_pointed_slots_sorted(storage.entries@, items@);
        lemma_sorted_listing_is(pointed_slots(items@, storage.listing()), storage@);
    }
    let ghost slots = pointed_slots(items@, storage.listing());
    let mut out: Vec<u8> = Vec::new();
    let mut j: usize = 0;
    while j < n
        invariant
            n == storage.entries.len(),
            n == items.len(),
            j <= n,
            slots == pointed_slots(items@, storage.listing()),
            forall|k: int|
                0 <= k < items.len() ==> (#[trigger] items[k]).1 < n && items[k].0
                    == storage.entries[items[k].1 as int].key,
            out@ == encode_slots(slots.take(j as int)),
        decreases n - j,
    {
        let item = &items[j];
        append_bytes(&mut out, item.0.as_slice());
        encode_value_into(&storage.entries[item.1].value, &mut out);
        j += 1;
        proof {
            let t = slots.take(j as int);
            assert(t.drop_last() =~= slots.take(j - 1));
            assert(t.last() == slots[j - 1]);
            assert(out@ =~= encode_slots(t));
        }
    }
    assert(slots.take(n as int) =~= slots);
    let ghost base = out@;
    let mut k: usize = 0;
    while k < logs.len()
        invariant
            k <= logs.len(),
            out@ == base + encode_logs(logs_view(logs@).take(k as int)),
        decreases logs.len() - k,
    {
        encode_log_into(&logs[k], &mut out);
        k += 1;
        proof {
            let t = logs_view(logs@).take(k as int);
            assert(t.drop_last() =~= logs_view(logs@).take(k - 1));
            assert(t.last() == logs@[k - 1]@);
            assert(out@ =~= base + encode_logs(t));
        }
    }
    assert(logs_view(logs@).take(logs.len() as int) =~= logs_view(logs@));
    commit(out.as_slice())
}

} // verus!
