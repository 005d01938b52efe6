//! The versioned-entry data model: a single `{key, value}` entry within an
//! indexed data set, its older versions as a delta chain, and cutoff-based
//! compaction.

use vstd::prelude::*;

use vstd::std_specs::cmp::PartialEqSpec;

use crate::data::{Diff, NoDiff};
use crate::Error;

verus! {

/// The value part of an entry: either a live value or a tombstone, each with
/// the sequence number of the operation that produced it.
#[derive(Clone, Debug, PartialEq, Eq)]
pub enum Value<V> {
    U { value: V, seqno: u64 },
    D { seqno: u64 },
}

/// An older version of an entry: a delta against the next newer version, or
/// a tombstone.
#[derive(Clone, Debug, PartialEq, Eq)]
pub enum Delta<D> {
    U { delta: D, seqno: u64 },
    D { seqno: u64 },
}

/// A single `{key, value}` entry within an indexed data set, with its older
/// versions held as deltas, newest first.
#[derive(Clone, Debug, PartialEq, Eq)]
pub struct Entry<K, V, D = NoDiff> {
    pub key: K,
    pub value: Value<V>,
    pub deltas: Vec<Delta<D>>,
}

/// The sequence number of a value.
pub open spec fn value_seqno<V>(v: Value<V>) -> u64 {
    match v {
        Value::U { seqno, .. } => seqno,
        Value::D { seqno } => seqno,
    }
}

/// The sequence number of a delta.
pub open spec fn delta_seqno<D>(d: Delta<D>) -> u64 {
    match d {
        Delta::U { seqno, .. } => seqno,
        Delta::D { seqno } => seqno,
    }
}

impl<V> Value<V> {
    /// Version number of this type's stored form.
    pub const ID: u32 = 0x0001;

    /// Overwrite with a live value.
    pub fn set(&mut self, value: V, seqno: u64)
        ensures
            *final(self) == (Value::U { value, seqno }),
    {
        *self = Value::U { value, seqno };
    }

    /// Overwrite with a tombstone.
    pub fn delete(&mut self, seqno: u64)
        ensures
            *final(self) == (Value::D::<V> { seqno }),
    {
        *self = Value::D { seqno };
    }

    /// The sequence number of the operation that produced this value.
    pub fn to_seqno(&self) -> (r: u64)
        ensures
            r == value_seqno(*self),
    {
        match self {
            Value::U { seqno, .. } => *seqno,
            Value::D { seqno } => *seqno,
        }
    }

    /// Whether this value is a tombstone.
    pub fn is_deleted(&self) -> (r: bool)
        ensures
            r == (self is D),
    {
        match self {
            Value::U { .. } => false,
            Value::D { .. } => true,
        }
    }
}

impl<D> Delta<D> {
    /// Version number of this type's stored form.
    pub const ID: u32 = 0x0001;

    /// The sequence number of the version this delta stands for.
    pub fn to_seqno(&self) -> (r: u64)
        ensures
            r == delta_seqno(*self),
    {
        match self {
            Delta::U { seqno, .. } => *seqno,
            Delta::D { seqno } => *seqno,
        }
    }
}

/// The version one step older than `cur`, reconstructed from a delta.
pub open spec fn prev_value<V: Diff>(cur: Value<V>, d: Delta<V::Delta>) -> Value<V> {
    match d {
        Delta::U { delta, seqno } => match cur {
            Value::U { value, .. } => Value::U { value: value.merge_spec(&delta), seqno },
            Value::D { .. } => Value::U { value: V::from_delta_spec(&delta), seqno },
        },
        Delta::D { seqno } => Value::D { seqno },
    }
}

/// The full history of an entry, oldest version first, current value last:
/// each delta, in stored order, unwinds the value one step further back.
pub open spec fn history<V: Diff>(cur: Value<V>, deltas: Seq<Delta<V::Delta>>) -> Seq<Value<V>>
    decreases deltas.len(),
{
    if deltas.len() == 0 {
        seq![cur]
    } else {
        history(prev_value(cur, deltas[0]), deltas.drop_first()).push(cur)
    }
}

/// The value after unwinding the first `take`n deltas.
pub open spec fn unwound<V: Diff>(cur: Value<V>, deltas: Seq<Delta<V::Delta>>) -> Value<V>
    decreases deltas.len(),
{
    if deltas.len() == 0 {
        cur
    } else {
        unwound(prev_value(cur, deltas[0]), deltas.drop_first())
    }
}

/// A history has one more version than there are deltas; reading it from the
/// newest end, position `j` from the back is the value after unwinding `j`
/// deltas.
proof fn lemma_history_index<V: Diff>(cur: Value<V>, deltas: Seq<Delta<V::Delta>>, j: int)
    requires
        0 <= j <= deltas.len(),
    ensures
        history(cur, deltas).len() == deltas.len() + 1,
        history(cur, deltas)[deltas.len() - j] == unwound(cur, deltas.take(j)),
    decreases deltas.len(),
{
    lemma_history_len(cur, deltas);
    if deltas.len() == 0 {
    } else {
        let prev = prev_value(cur, deltas[0]);
        lemma_history_len(prev, deltas.drop_first());
        if j == 0 {
            assert(deltas.take(0) =~= Seq::<Delta<V::Delta>>::empty());
        } else {
            lemma_history_index(prev, deltas.drop_first(), j - 1);
            assert(deltas.take(j).drop_first() =~= deltas.drop_first().take(j - 1));
            assert(deltas.take(j)[0] == deltas[0]);
            assert(unwound(cur, deltas.take(j)) == unwound(prev, deltas.drop_first().take(j - 1)));
        }
    }
}

/// A history's length.
proof fn lemma_history_len<V: Diff>(cur: Value<V>, deltas: Seq<Delta<V::Delta>>)
    ensures
        history(cur, deltas).len() == deltas.len() + 1,
    decreases deltas.len(),
{
    if deltas.len() > 0 {
        lemma_history_len(prev_value(cur, deltas[0]), deltas.drop_first());
    }
}

/// Duplicate a value by duplicating its payload.
fn dup_value<V: Diff>(v: &Value<V>) -> (r: Value<V>)
    ensures
        r == *v,
{
    match v {
        Value::U { value, seqno } => Value::U { value: value.dup(), seqno: *seqno },
        Value::D { seqno } => Value::D { seqno: *seqno },
    }
}

/// Duplicate a delta by duplicating its payload.
fn dup_delta_of<V: Diff>(d: &Delta<V::Delta>) -> (r: Delta<V::Delta>)
    ensures
        r == *d,
{
    match d {
        Delta::U { delta, seqno } => Delta::U { delta: V::dup_delta(delta), seqno: *seqno },
        Delta::D { seqno } => Delta::D { seqno: *seqno },
    }
}

impl<K, V, D> Entry<K, V, D> {
    /// Version number of this type's stored form.
    pub const ID: u32 = 0x0001;

    /// A fresh entry holding one live version.
    pub fn new(key: K, value: V, seqno: u64) -> (r: Entry<K, V, D>)
        ensures
            r.key == key,
            r.value == (Value::U { value, seqno }),
            r.deltas@ =~= Seq::<Delta<D>>::empty(),
    {
        Entry { key, value: Value::U { value, seqno }, deltas: Vec::new() }
    }

    /// A fresh entry holding one tombstone.
    pub fn new_deleted(key: K, seqno: u64) -> (r: Entry<K, V, D>)
        ensures
            r.key == key,
            r.value == (Value::D::<V> { seqno }),
            r.deltas@ =~= Seq::<Delta<D>>::empty(),
    {
        Entry { key, value: Value::D { seqno }, deltas: Vec::new() }
    }

    /// The sequence number of the newest version.
    pub fn to_seqno(&self) -> (r: u64)
        ensures
            r == value_seqno(self.value),
    {
        match &self.value {
            Value::U { seqno, .. } => *seqno,
            Value::D { seqno } => *seqno,
        }
    }

    /// Whether the newest version is a tombstone.
    pub fn is_deleted(&self) -> (r: bool)
        ensures
            r == (self.value is D),
    {
        match &self.value {
            Value::U { .. } => false,
            Value::D { .. } => true,
        }
    }

    /// A copy of the key.
    pub fn to_key(&self) -> (r: K) where K: Clone
        ensures
            vstd::pervasive::cloned(self.key, r),
    {
        self.key.clone()
    }

    /// Borrow the key.
    pub fn as_key(&self) -> (r: &K)
        ensures
            r == &self.key,
    {
        &self.key
    }

    /// Borrow the key; the name kept for callers that work with borrowed
    /// forms of the key type.
    pub fn borrow_key(&self) -> (r: &K)
        ensures
            r == &self.key,
    {
        &self.key
    }

    /// Drop every older version, keeping the newest.
    pub fn drain_deltas(&mut self)
        ensures
            final(self).key == old(self).key,
            final(self).value == old(self).value,
            final(self).deltas@ =~= Seq::<Delta<D>>::empty(),
    {
        self.deltas = Vec::new();
    }
}

/// The delta recorded when a live entry is overwritten by `newv`.
pub open spec fn insert_delta<V: Diff>(oldv: Value<V>, newv: V) -> Delta<V::Delta> {
    match oldv {
        Value::U { value, seqno } => Delta::U { delta: newv.diff_spec(&value), seqno },
        Value::D { seqno } => Delta::D { seqno },
    }
}

/// The delta recorded when an entry is deleted.
pub open spec fn delete_delta<V: Diff>(oldv: Value<V>) -> Delta<V::Delta> {
    match oldv {
        Value::U { value, seqno } => Delta::U { delta: value.to_delta_spec(), seqno },
        Value::D { seqno } => Delta::D { seqno },
    }
}

impl<K, V: Diff> Entry<K, V, V::Delta> {
    /// Record a newer live version: the previous version becomes the first
    /// delta.
    pub fn insert(&mut self, value: V, seqn: u64)
        ensures
            final(self).key == old(self).key,
            final(self).value == (Value::U { value, seqno: seqn }),
            final(self).deltas@ == old(self).deltas@.insert(
                0,
                insert_delta(old(self).value, value),
            ),
    {
        let delta: Delta<V::Delta> = match &self.value {
            Value::U { value: oldv, seqno } => Delta::U { delta: value.diff(oldv), seqno: *seqno },
            Value::D { seqno } => Delta::D { seqno: *seqno },
        };
        self.value = Value::U { value, seqno: seqn };
        self.deltas.insert(0, delta);
    }

    /// Record a deletion: the previous version becomes the first delta.
    pub fn delete(&mut self, seqn: u64)
        ensures
            final(self).key == old(self).key,
            final(self).value == (Value::D::<V> { seqno: seqn }),
            final(self).deltas@ == old(self).deltas@.insert(0, delete_delta(old(self).value)),
    {
        let mut tmp: Value<V> = Value::D { seqno: seqn };
        core::mem::swap(&mut self.value, &mut tmp);
        match tmp {
            Value::U { value: oldv, seqno } => {
                self.deltas.insert(0, Delta::U { delta: oldv.to_delta(), seqno });
            },
            Value::D { seqno } => {
                self.deltas.insert(0, Delta::D { seqno });
            },
        }
    }

    /// A copy of the newest value, or nothing for a tombstone.
    pub fn to_value(&self) -> (r: Option<V>)
        ensures
            r is Some <==> self.value is U,
            r matches Some(v) ==> self.value matches Value::U { value, .. } && v == value,
    {
        match &self.value {
            Value::U { value, .. } => Some(value.dup()),
            Value::D { .. } => None,
        }
    }

    /// Every version of this entry, oldest first, reconstructed from the
    /// delta chain.
    pub fn to_values(&self) -> (r: Vec<Value<V>>)
        ensures
            r@ == history(self.value, self.deltas@),
    {
        let ghost ds = self.deltas@;
        let mut rev: Vec<Value<V>> = Vec::new();
        let mut cur: Value<V> = dup_value(&self.value);
        rev.push(dup_value(&cur));
        proof {
            assert(ds.take(0) =~= Seq::<Delta<V::Delta>>::empty());
        }
        let mut i: usize = 0;
        while i < self.deltas.len()
            invariant
                ds == self.deltas@,
                i <= ds.len(),
                cur == unwound(self.value, ds.take(i as int)),
                rev@.len() == i + 1,
                forall|j: int| 0 <= j <= i ==> #[trigger] rev@[j] == unwound(
                    self.value,
                    ds.take(j),
                ),
            decreases ds.len() - i,
        {
            let d = &self.deltas[i];
            let next: Value<V> = match d {
                Delta::U { delta, seqno } => match &cur {
                    Value::U { value, .. } => Value::U { value: value.merge(delta), seqno: *seqno },
                    Value::D { .. } => Value::U { value: V::from_delta(delta), seqno: *seqno },
                },
                Delta::D { seqno } => Value::D { seqno: *seqno },
            };
            proof {
                assert(next == prev_value(cur, ds[i as int]));
                lemma_unwound_step(self.value, ds, i as int);
            }
            cur = next;
            rev.push(dup_value(&cur));
            i += 1;
        }
        let ghost n = ds.len() as int;
        let mut values: Vec<Value<V>> = Vec::new();
        proof {
            lemma_history_len(self.value, ds);
        }
        while rev.len() > 0
            invariant
                ds == self.deltas@,
                rev@.len() + values@.len() == ds.len() + 1,
                forall|j: int| 0 <= j < rev@.len() ==> #[trigger] rev@[j] == unwound(
                    self.value,
                    ds.take(j),
                ),
                forall|j: int| 0 <= j < values@.len() ==> #[trigger] values@[j] == history(
                    self.value,
                    ds,
                )[j],
            decreases rev@.len(),
        {
            let ghost rev_old = rev@;
            let x = match rev.pop() {
                Some(x) => x,
                None => {
                    proof {
                        assert(false);
                    }
                    return values;
                },
            };
            proof {
                assert(x == rev_old[rev_old.len() - 1]);
                assert(x == unwound(self.value, ds.take(rev_old.len() - 1)));
                lemma_history_index(self.value, ds, rev@.len() as int);
                assert(history(self.value, ds)[values@.len() as int] == x);
            }
            values.push(x);
        }
        proof {
            lemma_history_len(self.value, ds);
            assert(values@ =~= history(self.value, ds));
        }
        values
    }
}

/// Unwinding one more delta steps through `prev_value`.
proof fn lemma_unwound_step<V: Diff>(cur: Value<V>, ds: Seq<Delta<V::Delta>>, i: int)
    requires
        0 <= i < ds.len(),
    ensures
        unwound(cur, ds.take(i + 1)) == prev_value(unwound(cur, ds.take(i)), ds[i]),
    decreases i,
{
    reveal_with_fuel(unwound, 3);
    if i == 0 {
        assert(ds.take(1).drop_first() =~= Seq::<Delta<V::Delta>>::empty());
        assert(ds.take(0) =~= Seq::<Delta<V::Delta>>::empty());
        assert(ds.take(1)[0] == ds[0]);
    } else {
        let prev = prev_value(cur, ds[0]);
        assert(ds.take(i + 1)[0] == ds[0]);
        assert(ds.take(i)[0] == ds[0]);
        assert(ds.take(i + 1).drop_first() =~= ds.drop_first().take(i));
        assert(ds.take(i).drop_first() =~= ds.drop_first().take(i - 1));
        assert(ds.drop_first()[i - 1] == ds[i]);
        lemma_unwound_step(prev, ds.drop_first(), i - 1);
        assert(unwound(cur, ds.take(i + 1)) == unwound(prev, ds.drop_first().take(i)));
        assert(unwound(cur, ds.take(i)) == unwound(prev, ds.drop_first().take(i - 1)));
    }
}

} // verus!

verus! {

impl<K, V: Diff> Entry<K, V, V::Delta> {
    /// Rebuild an entry from a full history, oldest version first. The
    /// result's own history is exactly the input.
    pub fn from_values(key: K, values: Vec<Value<V>>) -> (r: Entry<K, V, V::Delta>)
        requires
            values@.len() > 0,
        ensures
            r.key == key,
            history(r.value, r.deltas@) == values@,
    {
        let ghost vs = values@;
        let total = values.len();
        proof {
            assert(vs.len() == total);
        }
        let mut rem = values;
        let first = rem.remove(0);
        proof {
            assert(first == vs[0]);
            assert(rem@ =~= vs.skip(1));
        }
        let mut entry: Entry<K, V, V::Delta> = match first {
            Value::U { value, seqno } => Entry::new(key, value, seqno),
            Value::D { seqno } => Entry::new_deleted(key, seqno),
        };
        proof {
            assert(history(entry.value, entry.deltas@) =~= vs.take(1));
        }
        let mut i: usize = 1;
        while rem.len() > 0
            invariant
                1 <= i,
                i + rem@.len() == vs.len(),
                rem@ == vs.skip(i as int),
                vs.len() <= usize::MAX,
                entry.key == key,
                history(entry.value, entry.deltas@) == vs.take(i as int),
            decreases rem@.len(),
        {
            let v = rem.remove(0);
            proof {
                assert(v == vs[i as int]);
                assert(rem@ =~= vs.skip(i as int + 1));
            }
            let ghost old_val = entry.value;
            let ghost old_ds = entry.deltas@;
            match v {
                Value::U { value, seqno } => {
                    let ghost gv = value;
                    entry.insert(value, seqno);
                    proof {
                        assert(entry.deltas@[0] == insert_delta(old_val, gv));
                        assert(entry.deltas@.drop_first() =~= old_ds);
                        match old_val {
                            Value::U { value: ov, seqno: os } => {
                                V::lemma_merge_diff(gv, ov);
                            },
                            Value::D { .. } => {},
                        }
                        assert(prev_value(entry.value, entry.deltas@[0]) == old_val);
                        assert(history(entry.value, entry.deltas@) == history(
                            old_val,
                            old_ds,
                        ).push(entry.value));
                        assert(vs.take(i as int).push(vs[i as int]) =~= vs.take(i as int + 1));
                    }
                },
                Value::D { seqno } => {
                    entry.delete(seqno);
                    proof {
                        assert(entry.deltas@[0] == delete_delta(old_val));
                        assert(entry.deltas@.drop_first() =~= old_ds);
                        match old_val {
                            Value::U { value: ov, seqno: os } => {
                                V::lemma_delta_roundtrip(ov);
                            },
                            Value::D { .. } => {},
                        }
                        assert(prev_value(entry.value, entry.deltas@[0]) == old_val);
                        assert(history(entry.value, entry.deltas@) == history(
                            old_val,
                            old_ds,
                        ).push(entry.value));
                        assert(vs.take(i as int).push(vs[i as int]) =~= vs.take(i as int + 1));
                    }
                },
            }
            i += 1;
        }
        proof {
            assert(vs.take(i as int) =~= vs);
        }
        entry
    }
}

/// Two versions are the same when their kinds, sequence numbers and, for
/// live versions, values agree, by the value type's own equality.
pub open spec fn value_eq_spec<V: PartialEq>(a: Value<V>, b: Value<V>) -> bool {
    match (a, b) {
        (Value::U { value: x, seqno: s }, Value::U { value: y, seqno: t }) => s == t && x.eq_spec(
            &y,
        ),
        (Value::D { seqno: s }, Value::D { seqno: t }) => s == t,
        _ => false,
    }
}

/// Every version in `sub` occurs in `sup`.
pub open spec fn values_subset<V: PartialEq>(sub: Seq<Value<V>>, sup: Seq<Value<V>>) -> bool {
    forall|i: int|
        0 <= i < sub.len() ==> exists|j: int|
            0 <= j < sup.len() && value_eq_spec(#[trigger] sub[i], sup[j])
}

/// Compare two versions.
fn value_eq<V: PartialEq>(a: &Value<V>, b: &Value<V>) -> (r: bool)
    ensures
        V::obeys_eq_spec() ==> r == value_eq_spec(*a, *b),
{
    match (a, b) {
        (Value::U { value: x, seqno: s }, Value::U { value: y, seqno: t }) => {
            if *s == *t {
                x == y
            } else {
                false
            }
        },
        (Value::D { seqno: s }, Value::D { seqno: t }) => *s == *t,
        _ => false,
    }
}

/// Whether some version in `list` matches `w`.
fn find_value<V: PartialEq>(list: &Vec<Value<V>>, w: &Value<V>) -> (r: bool)
    ensures
        V::obeys_eq_spec() ==> r == exists|j: int|
            0 <= j < list@.len() && value_eq_spec(*w, list@[j]),
{
    let mut j: usize = 0;
    while j < list.len()
        invariant
            j <= list@.len(),
            V::obeys_eq_spec() ==> forall|k: int| 0 <= k < j ==> !value_eq_spec(*w, list@[k]),
        decreases list@.len() - j,
    {
        if value_eq(w, &list[j]) {
            return true;
        }
        j += 1;
    }
    false
}

impl<K, V: Diff + PartialEq> Entry<K, V, V::Delta> {
    /// Whether every version of `other` also occurs, with the same sequence
    /// number and value, among this entry's versions.
    pub fn contains(&self, other: &Self) -> (r: bool)
        ensures
            V::obeys_eq_spec() ==> r == values_subset(
                history(other.value, other.deltas@),
                history(self.value, self.deltas@),
            ),
    {
        let vs = self.to_values();
        let ws = other.to_values();
        let ghost ha = history(self.value, self.deltas@);
        let ghost hb = history(other.value, other.deltas@);
        let mut i: usize = 0;
        proof {
            if V::obeys_eq_spec() {
                assert(hb.take(0) =~= Seq::<Value<V>>::empty());
                assert(values_subset(hb.take(0), ha));
            }
        }
        while i < ws.len()
            invariant
                vs@ == ha,
                ws@ == hb,
                ha == history(self.value, self.deltas@),
                hb == history(other.value, other.deltas@),
                i <= hb.len(),
                V::obeys_eq_spec() ==> values_subset(hb.take(i as int), ha),
            decreases hb.len() - i,
        {
            let found = find_value(&vs, &ws[i]);
            if !found {
                proof {
                    if V::obeys_eq_spec() {
                        assert(!(exists|j: int|
                            0 <= j < ha.len() && value_eq_spec(hb[i as int], ha[j])));
                        assert(!values_subset(hb, ha));
                    }
                }
                return false;
            }
            proof {
                if V::obeys_eq_spec() {
                    assert forall|k: int| 0 <= k < hb.take(i + 1).len() implies exists|j: int|
                        0 <= j < ha.len() && value_eq_spec(#[trigger] hb.take(i + 1)[k], ha[j]) by {
                        assert(hb.take(i + 1)[k] == hb[k]);
                        if k < i {
                            assert(values_subset(hb.take(i as int), ha));
                            assert(hb.take(i as int)[k] == hb[k]);
                            assert(exists|j: int|
                                0 <= j < ha.len() && value_eq_spec(
                                    #[trigger] hb.take(i as int)[k],
                                    ha[j],
                                ));
                        } else {
                            assert(exists|j: int|
                                0 <= j < ha.len() && value_eq_spec(hb[i as int], ha[j]));
                        }
                    }
                    assert(values_subset(hb.take(i + 1), ha));
                }
            }
            i += 1;
        }
        proof {
            if V::obeys_eq_spec() {
                assert(hb.take(i as int) =~= hb);
            }
        }
        true
    }
}

} // verus!

verus! {

/// Versions in non-decreasing sequence-number order.
pub open spec fn sorted_by_seqno<V>(s: Seq<Value<V>>) -> bool {
    forall|i: int, j: int|
        0 <= i < j < s.len() ==> value_seqno(#[trigger] s[i]) <= value_seqno(#[trigger] s[j])
}

/// One step of a stable sort: insert a version after every version whose
/// sequence number is at or below its own, so that ties keep arrival order.
pub open spec fn insert_by_seqno<V>(s: Seq<Value<V>>, x: Value<V>) -> Seq<Value<V>>
    decreases s.len(),
{
    if s.len() == 0 {
        seq![x]
    } else if value_seqno(x) < value_seqno(s.last()) {
        insert_by_seqno(s.drop_last(), x).push(s.last())
    } else {
        s.push(x)
    }
}

/// The stable sort of versions by sequence number: each version in turn is
/// inserted after every version at or below its sequence number, so versions
/// with equal sequence numbers keep their relative order.
pub open spec fn stable_sort_by_seqno<V>(s: Seq<Value<V>>) -> Seq<Value<V>>
    decreases s.len(),
{
    if s.len() == 0 {
        Seq::empty()
    } else {
        insert_by_seqno(stable_sort_by_seqno(s.drop_last()), s.last())
    }
}

/// The insertion step keeps length plus one, sortedness, and the versions.
proof fn lemma_insert_props<V>(s: Seq<Value<V>>, x: Value<V>)
    requires
        sorted_by_seqno(s),
    ensures
        insert_by_seqno(s, x).len() == s.len() + 1,
        sorted_by_seqno(insert_by_seqno(s, x)),
        insert_by_seqno(s, x).to_multiset() == s.to_multiset().insert(x),
    decreases s.len(),
{
    broadcast use vstd::seq_lib::group_to_multiset_ensures;

    let r = insert_by_seqno(s, x);
    if s.len() == 0 {
        assert(seq![x] =~= Seq::<Value<V>>::empty().push(x));
        assert(r.to_multiset() =~= s.to_multiset().insert(x));
    } else if value_seqno(x) < value_seqno(s.last()) {
        let dl = s.drop_last();
        assert(sorted_by_seqno(dl));
        lemma_insert_props(dl, x);
        let r0 = insert_by_seqno(dl, x);
        assert(r == r0.push(s.last()));
        assert forall|i: int| 0 <= i < r0.len() implies value_seqno(#[trigger] r0[i])
            <= value_seqno(s.last()) by {
            assert(r0.contains(r0[i]));
            assert(r0.to_multiset().count(r0[i]) > 0);
            if r0[i] != x {
                assert(dl.to_multiset().count(r0[i]) > 0);
                assert(dl.contains(r0[i]));
                let w = choose|w: int| 0 <= w < dl.len() && dl[w] == r0[i];
                assert(dl[w] == s[w]);
            }
        }
        assert(sorted_by_seqno(r));
        assert(s.to_multiset() =~= dl.to_multiset().insert(s.last())) by {
            assert(s =~= dl.push(s.last()));
        }
        assert(r.to_multiset() =~= s.to_multiset().insert(x));
    } else {
        assert(r == s.push(x));
        assert forall|i: int, j: int| 0 <= i < j < r.len() implies value_seqno(#[trigger] r[i])
            <= value_seqno(#[trigger] r[j]) by {
            if j == r.len() - 1 {
                if i < s.len() - 1 {
                    assert(value_seqno(s[i]) <= value_seqno(s[s.len() - 1]));
                }
            }
        }
    }
}

/// A stable sort keeps length and versions and yields sorted order.
proof fn lemma_stable_sort_props<V>(s: Seq<Value<V>>)
    ensures
        stable_sort_by_seqno(s).len() == s.len(),
        sorted_by_seqno(stable_sort_by_seqno(s)),
        stable_sort_by_seqno(s).to_multiset() == s.to_multiset(),
    decreases s.len(),
{
    broadcast use vstd::seq_lib::group_to_multiset_ensures;

    if s.len() > 0 {
        let dl = s.drop_last();
        lemma_stable_sort_props(dl);
        lemma_insert_props(stable_sort_by_seqno(dl), s.last());
        assert(s =~= dl.push(s.last()));
        assert(stable_sort_by_seqno(s).to_multiset() =~= s.to_multiset());
    }
}

/// The insertion step lands at the position the exec scan finds: directly
/// after the versions at or below the new one's sequence number.
proof fn lemma_insert_at<V>(s: Seq<Value<V>>, x: Value<V>, pos: int)
    requires
        0 <= pos <= s.len(),
        forall|j: int| pos <= j < s.len() ==> value_seqno(#[trigger] s[j]) > value_seqno(x),
        pos > 0 ==> value_seqno(s[pos - 1]) <= value_seqno(x),
    ensures
        insert_by_seqno(s, x) == s.insert(pos, x),
    decreases s.len(),
{
    if pos == s.len() {
        if s.len() == 0 {
            assert(insert_by_seqno(s, x) =~= s.insert(pos, x));
        } else {
            assert(value_seqno(s[pos - 1]) <= value_seqno(x));
            assert(insert_by_seqno(s, x) == s.push(x));
            assert(s.push(x) =~= s.insert(pos, x));
        }
    } else {
        let dl = s.drop_last();
        assert(value_seqno(s[s.len() - 1]) > value_seqno(x));
        assert(forall|j: int| pos <= j < dl.len() ==> value_seqno(#[trigger] dl[j]) > value_seqno(
            x,
        ));
        if pos > 0 {
            assert(dl[pos - 1] == s[pos - 1]);
        }
        lemma_insert_at(dl, x, pos);
        assert(insert_by_seqno(s, x) == dl.insert(pos, x).push(s.last()));
        assert(dl.insert(pos, x).push(s.last()) =~= s.insert(pos, x));
    }
}

/// Stable sort of versions by sequence number: versions with equal sequence
/// numbers keep their relative order.
fn sort_values<V: Diff>(input: Vec<Value<V>>) -> (r: Vec<Value<V>>)
    ensures
        r@ == stable_sort_by_seqno(input@),
        sorted_by_seqno(r@),
        r@.to_multiset() == input@.to_multiset(),
        r@.len() == input@.len(),
{
    let ghost iv = input@;
    let total = input.len();
    proof {
        assert(iv.len() == total);
    }
    let mut rem = input;
    let mut out: Vec<Value<V>> = Vec::new();
    let mut i: usize = 0;
    proof {
        assert(rem@ =~= iv.skip(0));
        assert(iv.take(0) =~= Seq::<Value<V>>::empty());
    }
    while rem.len() > 0
        invariant
            i + rem@.len() == iv.len(),
            rem@ == iv.skip(i as int),
            iv.len() <= usize::MAX,
            out@ == stable_sort_by_seqno(iv.take(i as int)),
            sorted_by_seqno(out@),
        decreases rem@.len(),
    {
        let x = rem.remove(0);
        proof {
            assert(x == iv[i as int]);
            assert(rem@ =~= iv.skip(i as int + 1));
        }
        let mut pos: usize = out.len();
        while pos > 0 && out[pos - 1].to_seqno() > x.to_seqno()
            invariant
                pos <= out@.len(),
                forall|j: int| pos <= j < out@.len() ==> value_seqno(#[trigger] out@[j])
                    > value_seqno(x),
            decreases pos,
        {
            pos -= 1;
        }
        let ghost out_old = out@;
        proof {
            lemma_insert_at(out_old, x, pos as int);
        }
        out.insert(pos, x);
        proof {
            assert(out@ == insert_by_seqno(out_old, x));
            assert(iv.take(i as int + 1).drop_last() =~= iv.take(i as int));
            assert(iv.take(i as int + 1).last() == iv[i as int]);
            lemma_stable_sort_props(iv.take(i as int));
            lemma_insert_props(out_old, x);
        }
        i += 1;
    }
    proof {
        assert(iv.take(i as int) =~= iv);
        lemma_stable_sort_props(iv);
    }
    out
}

impl<K: Clone + PartialEq, V: Diff + PartialEq> Entry<K, V, V::Delta> {
    /// Merge two entries for the same key into one whose history holds both
    /// entries' versions, stably sorted by sequence number: on equal sequence
    /// numbers this entry's versions come first, in their own order. Entries
    /// under different keys do not merge, and the result is a copy of this
    /// entry.
    pub fn merge(&self, other: &Self) -> (r: Self)
        ensures
            vstd::pervasive::cloned(self.key, r.key),
            K::obeys_eq_spec() && !self.key.eq_spec(&other.key) ==> r.value == self.value
                && r.deltas@ == self.deltas@,
            K::obeys_eq_spec() && self.key.eq_spec(&other.key) ==> history(r.value, r.deltas@)
                == stable_sort_by_seqno(
                history(self.value, self.deltas@) + history(other.value, other.deltas@),
            ) && sorted_by_seqno(history(r.value, r.deltas@)) && history(
                r.value,
                r.deltas@,
            ).to_multiset() == (history(self.value, self.deltas@) + history(
                other.value,
                other.deltas@,
            )).to_multiset(),
    {
        broadcast use vstd::seq_lib::group_to_multiset_ensures;

        if !(self.key == other.key) {
            let mut deltas: Vec<Delta<V::Delta>> = Vec::new();
            let mut i: usize = 0;
            while i < self.deltas.len()
                invariant
                    i <= self.deltas@.len(),
                    deltas@ == self.deltas@.take(i as int),
                decreases self.deltas@.len() - i,
            {
                deltas.push(dup_delta_of::<V>(&self.deltas[i]));
                proof {
                    assert(deltas@ =~= self.deltas@.take(i as int + 1));
                }
                i += 1;
            }
            proof {
                assert(self.deltas@.take(self.deltas@.len() as int) =~= self.deltas@);
            }
            return Entry { key: self.key.clone(), value: dup_value(&self.value), deltas };
        }
        let mut values = self.to_values();
        let mut ovalues = other.to_values();
        let ghost h1 = history(self.value, self.deltas@);
        let ghost h2 = history(other.value, other.deltas@);
        let ghost both = h1 + h2;
        let mut j: usize = 0;
        while j < ovalues.len()
            invariant
                h2 == history(other.value, other.deltas@),
                j <= h2.len(),
                ovalues@ == h2,
                values@ == h1 + h2.take(j as int),
            decreases h2.len() - j,
        {
            values.push(dup_value(&ovalues[j]));
            proof {
                assert(values@ =~= h1 + h2.take(j as int + 1));
            }
            j += 1;
        }
        proof {
            assert(h2.take(h2.len() as int) =~= h2);
        }
        let sorted = sort_values(values);
        proof {
            lemma_history_len(self.value, self.deltas@);
            lemma_history_len(other.value, other.deltas@);
            lemma_stable_sort_props(h1 + h2);
        }
        Entry::from_values(self.key.clone(), sorted)
    }
}

} // verus!

verus! {

/// A one-sided bound on sequence numbers, for compaction cutoffs.
#[derive(Clone, Copy, Debug, PartialEq, Eq, Structural)]
pub enum Bound {
    Included(u64),
    Excluded(u64),
    Unbounded,
}

/// Compaction behaviour: which entries, or versions of an entry, a
/// compaction pass purges.
#[derive(Clone, Copy, Debug, PartialEq, Eq, Structural)]
pub enum Cutoff {
    /// Deduplication: drop older versions, and deleted entries entirely.
    Mono,
    /// Log-structured compaction: purge versions up to a sequence number.
    Lsm(Bound),
    /// Tombstone compaction: purge only deleted entries up to a sequence
    /// number.
    Tombstone(Bound),
}

/// Whether a version with sequence number `seqno` falls at or before the
/// cutoff bound and is to be purged.
pub open spec fn seqno_purged(seqno: u64, b: Bound) -> bool {
    match b {
        Bound::Included(c) => seqno <= c,
        Bound::Excluded(c) => seqno < c,
        Bound::Unbounded => true,
    }
}

/// Whether a delta survives an lsm cutoff: only versions strictly after the
/// bound are kept.
pub open spec fn delta_kept<D>(d: Delta<D>, b: Bound) -> bool {
    match b {
        Bound::Included(c) => delta_seqno(d) > c,
        Bound::Excluded(c) => delta_seqno(d) >= c,
        Bound::Unbounded => false,
    }
}

/// The longest prefix of deltas an lsm cutoff keeps.
pub open spec fn kept_prefix_len<D>(ds: Seq<Delta<D>>, b: Bound) -> int
    decreases ds.len(),
{
    if ds.len() == 0 {
        0
    } else if delta_kept(ds[0], b) {
        1 + kept_prefix_len(ds.drop_first(), b)
    } else {
        0
    }
}

/// A run of kept deltas that ends, or runs out, has that run as its kept
/// prefix.
proof fn lemma_kept_prefix<D>(ds: Seq<Delta<D>>, b: Bound, n: int)
    requires
        0 <= n <= ds.len(),
        forall|j: int| 0 <= j < n ==> delta_kept(#[trigger] ds[j], b),
        n < ds.len() ==> !delta_kept(ds[n], b),
    ensures
        kept_prefix_len(ds, b) == n,
    decreases ds.len(),
{
    if ds.len() == 0 {
    } else if n == 0 {
    } else {
        assert(delta_kept(ds[0], b));
        assert(forall|j: int| 0 <= j < n - 1 ==> delta_kept(#[trigger] ds.drop_first()[j], b));
        if n - 1 < ds.drop_first().len() {
            assert(ds.drop_first()[n - 1] == ds[n]);
        }
        lemma_kept_prefix(ds.drop_first(), b, n - 1);
    }
}

impl<K, V, D> Entry<K, V, D> {
    /// Compact this entry: purge it, or some of its versions, per the
    /// cutoff. Deduplication keeps only a live newest version; lsm
    /// compaction purges the entry when every version is at or before the
    /// cutoff, else keeps the prefix of versions after it; tombstone
    /// compaction purges only deleted entries at or before the cutoff.
    pub fn purge(self, cutoff: Cutoff) -> (r: Option<Self>)
        ensures
            match cutoff {
                Cutoff::Mono => if self.value is D {
                    r is None
                } else {
                    r matches Some(e) && e.key == self.key && e.value == self.value && e.deltas@
                        =~= Seq::<Delta<D>>::empty()
                },
                Cutoff::Tombstone(b) => if self.value is D && seqno_purged(
                    value_seqno(self.value),
                    b,
                ) {
                    r is None
                } else {
                    r matches Some(e) && e.key == self.key && e.value == self.value && e.deltas@
                        == self.deltas@
                },
                Cutoff::Lsm(b) => if b != Bound::Included(0u64) && b != Bound::Excluded(0u64)
                    && seqno_purged(value_seqno(self.value), b) {
                    r is None
                } else {
                    r matches Some(e) && e.key == self.key && e.value == self.value && e.deltas@
                        == (if b == Bound::Included(0u64) || b == Bound::Excluded(0u64) {
                        self.deltas@
                    } else {
                        self.deltas@.take(kept_prefix_len(self.deltas@, b))
                    })
                },
            },
    {
        let deleted = match &self.value {
            Value::U { .. } => false,
            Value::D { .. } => true,
        };
        let val_seqno = match &self.value {
            Value::U { seqno, .. } => *seqno,
            Value::D { seqno } => *seqno,
        };
        let cutoff_bound: Bound = match cutoff {
            Cutoff::Mono => {
                if deleted {
                    return None;
                }
                let mut this = self;
                this.deltas = Vec::new();
                return Some(this);
            },
            Cutoff::Lsm(b) => b,
            Cutoff::Tombstone(b) => {
                if deleted {
                    let purged = match b {
                        Bound::Included(c) => val_seqno <= c,
                        Bound::Excluded(c) => val_seqno < c,
                        Bound::Unbounded => true,
                    };
                    if purged {
                        return None;
                    }
                }
                return Some(self);
            },
        };
        match cutoff_bound {
            Bound::Included(c) => {
                if c == 0 {
                    return Some(self);
                }
                if val_seqno <= c {
                    return None;
                }
            },
            Bound::Excluded(c) => {
                if c == 0 {
                    return Some(self);
                }
                if val_seqno < c {
                    return None;
                }
            },
            Bound::Unbounded => {
                return None;
            },
        }
        let mut this = self;
        let ghost ds = this.deltas@;
        let mut n: usize = 0;
        let mut stop = false;
        while !stop && n < this.deltas.len()
            invariant
                ds == this.deltas@,
                n <= ds.len(),
                forall|j: int| 0 <= j < n ==> delta_kept(#[trigger] ds[j], cutoff_bound),
                stop ==> n < ds.len() && !delta_kept(ds[n as int], cutoff_bound),
            decreases ds.len() - n, (if stop { 0int } else { 1int }),
        {
            let keep = match (&this.deltas[n], &cutoff_bound) {
                (d, Bound::Included(c)) => d.to_seqno() > *c,
                (d, Bound::Excluded(c)) => d.to_seqno() >= *c,
                (_, Bound::Unbounded) => false,
            };
            if keep {
                n += 1;
            } else {
                stop = true;
            }
        }
        proof {
            lemma_kept_prefix(ds, cutoff_bound, n as int);
        }
        this.deltas.truncate(n);
        Some(this)
    }
}

} // verus!

verus! {

/// Trait to bulk-add entries into an index. A bitmap can be supplied to
/// build a Bloom filter alongside; pass `NoBitmap` where none is wanted.
/// When `seqno` is absent the snapshot takes the highest sequence number
/// found in the entries.
pub trait BuildIndex<K, V, D, B>: Sized {
    type Err;

    /// Build an index from a batch of entries.
    fn build_index(&mut self, entries: Vec<Entry<K, V, D>>, bitmap: B, seqno: Option<u64>) -> (r:
        Result<(), Self::Err>);
}

/// Trait to build and manage keys in a bit-mapped Bloom filter.
pub trait Bloom: Sized {
    type Err;

    /// Add a key into the index.
    fn add_key<Q: ?Sized + core::hash::Hash>(&mut self, key: &Q);

    /// Add a 32-bit digest into the index.
    fn add_digest32(&mut self, digest: u32);

    /// Build the keys added so far into the bitmap index.
    fn build(&mut self) -> (r: Result<(), Error>);

    /// Whether a key may be present: false positives allowed, false
    /// negatives not.
    fn contains<Q: ?Sized + core::hash::Hash>(&self, element: &Q) -> (r: bool);

    /// Serialize the bitmap to bytes.
    fn to_bytes(&self) -> (r: Result<Vec<u8>, Self::Err>);

    /// Deserialize a bitmap from bytes, returning it with the byte count
    /// read.
    fn from_bytes(buf: &Vec<u8>) -> (r: Result<(Self, usize), Self::Err>);

    /// Merge two bitmaps.
    fn or(&self, other: &Self) -> (r: Result<Self, Self::Err>);
}

/// Trait for a small key-value lookup table.
pub trait Lookup<K, V>: Sized {
    /// The value under a key, if any.
    fn get(&self, key: &K) -> (r: Option<V>);

    /// Bind a value to a key, returning what it replaced.
    fn set(&mut self, key: K, value: V) -> (r: Option<V>);

    /// Unbind a key, returning what it held.
    fn remove(&mut self, key: &K) -> (r: Option<V>);
}

} // verus!
