//! The witness data model: field elements and witness maps.
//!
//! A witness map is a mapping from witness indices (32-bit, unique) to
//! field elements. It is held as a vector of entries sorted strictly
//! ascending by index, so that the binary encoding of a map is determined
//! by its logical content alone.
use vstd::prelude::*;

verus! {

/// A scalar from the circuit's prime coefficient field, held as its
/// canonical 32-byte representation. Two field elements are equal exactly
/// when their canonical bytes are equal.
pub struct FieldElement {
    bytes: Vec<u8>,
}

impl View for FieldElement {
    type V = Seq<u8>;

    closed spec fn view(&self) -> Seq<u8> {
        self.bytes@
    }
}

impl FieldElement {
    /// A field element is well formed when it holds exactly the canonical
    /// byte width of the field.
    pub open spec fn wf(&self) -> bool {
        self@.len() == 32
    }

    /// Wraps a canonical 32-byte block; any other length is refused.
    pub fn from_bytes(bytes: Vec<u8>) -> (r: Option<FieldElement>)
        ensures
            bytes@.len() == 32 ==> (r matches Some(f) && f@ == bytes@ && f.wf()),
            bytes@.len() != 32 ==> r is None,
    {
        if bytes.len() == 32 {
            Some(FieldElement { bytes })
        } else {
            None
        }
    }

    /// The canonical bytes of this field element.
    pub fn as_bytes(&self) -> (r: &Vec<u8>)
        ensures
            r@ == self@,
    {
        &self.bytes
    }

    /// A fresh field element with the same canonical bytes.
    pub fn duplicate(&self) -> (r: FieldElement)
        ensures
            r@ == self@,
    {
        FieldElement { bytes: clone_bytes(&self.bytes) }
    }
}

/// A fresh byte vector with the same content.
fn clone_bytes(v: &Vec<u8>) -> (r: Vec<u8>)
    ensures
        r@ == v@,
{
    let mut out: Vec<u8> = Vec::new();
    let mut i: usize = 0;
    while i < v.len()
        invariant
            i <= v@.len(),
            out@ == v@.take(i as int),
        decreases v@.len() - i,
    {
        out.push(v[i]);
        i = i + 1;
    }
    proof {
        assert(out@ =~= v@);
    }
    out
}

/// The (index, canonical bytes) view of a sequence of plain pairs.
pub open spec fn pairs_view(s: Seq<(u32, Vec<u8>)>) -> Seq<(u32, Seq<u8>)> {
    s.map_values(|p: (u32, Vec<u8>)| (p.0, p.1@))
}

/// The logical content of a sequence of (index, field bytes) entries:
/// entries are taken in order, a later entry for an index overwriting an
/// earlier one.
pub open spec fn map_of_kv(s: Seq<(u32, Seq<u8>)>) -> Map<u32, Seq<u8>>
    decreases s.len(),
{
    if s.len() == 0 {
        Map::empty()
    } else {
        map_of_kv(s.drop_last()).insert(s.last().0, s.last().1)
    }
}

/// Entry keys strictly ascending: each key is greater than every key
/// before it.
pub open spec fn strictly_sorted_kv(s: Seq<(u32, Seq<u8>)>) -> bool {
    forall|i: int, j: int| 0 <= i < j < s.len() ==> (#[trigger] s[i]).0 < (#[trigger] s[j]).0
}

/// A mapping from witness indices to field elements, keys unique, held
/// sorted strictly ascending by index.
pub struct WitnessMap {
    entries: Vec<(u32, FieldElement)>,
}

impl View for WitnessMap {
    type V = Map<u32, Seq<u8>>;

    open spec fn view(&self) -> Map<u32, Seq<u8>> {
        map_of_kv(self.kv())
    }
}

impl WitnessMap {
    /// The entries of the map in ascending index order, each field element
    /// as its canonical bytes.
    pub closed spec fn kv(&self) -> Seq<(u32, Seq<u8>)> {
        self.entries@.map_values(|p: (u32, FieldElement)| (p.0, p.1@))
    }

    /// Entries sorted strictly ascending by index (so keys are unique),
    /// every value of canonical width.
    pub open spec fn wf(&self) -> bool {
        &&& strictly_sorted_kv(self.kv())
        &&& forall|i: int| 0 <= i < self.kv().len() ==> (#[trigger] self.kv()[i]).1.len() == 32
    }

    /// The empty witness map.
    pub fn new() -> (r: WitnessMap)
        ensures
            r.wf(),
            r@ == Map::<u32, Seq<u8>>::empty(),
            r.kv() == Seq::<(u32, Seq<u8>)>::empty(),
    {
        let r = WitnessMap { entries: Vec::new() };
        proof {
            assert(r.kv() =~= Seq::<(u32, Seq<u8>)>::empty());
        }
        r
    }

    /// How many indices the map assigns.
    pub fn len(&self) -> (r: usize)
        ensures
            r == self.kv().len(),
    {
        self.entries.len()
    }

    /// Assigns `value` to `key`; an existing entry for `key` is replaced.
    pub fn insert(&mut self, key: u32, value: FieldElement)
        requires
            old(self).wf(),
            value.wf(),
        ensures
            final(self).wf(),
            final(self)@ == old(self)@.insert(key, value@),
    {
        let mut i: usize = 0;
        while i < self.entries.len() && self.entries[i].0 < key
            invariant
                i <= self.entries@.len(),
                forall|j: int| 0 <= j < i ==> (#[trigger] self.entries@[j]).0 < key,
            decreases self.entries@.len() - i,
        {
            i = i + 1;
        }
        let ghost s0 = self.kv();
        if i < self.entries.len() && self.entries[i].0 == key {
            self.entries.remove(i);
            let ghost s1 = self.kv();
            proof {
                assert(s1 =~= s0.remove(i as int));
                lemma_map_of_kv_remove_at(s0, i as int);
            }
            self.entries.insert(i, (key, value));
            proof {
                assert(self.kv() =~= s1.insert(i as int, (key, value@)));
                lemma_map_of_kv_insert_at(s1, i as int, key, value@);
                assert(map_of_kv(self.kv()) =~= map_of_kv(s0).insert(key, value@));
            }
        } else {
            proof {
                assert forall|j: int| 0 <= j < s0.len() implies (#[trigger] s0[j]).0 != key by {
                    if j >= i {
                        assert(s0[i as int].0 <= s0[j].0);
                    }
                }
            }
            self.entries.insert(i, (key, value));
            proof {
                assert(self.kv() =~= s0.insert(i as int, (key, value@)));
                lemma_map_of_kv_insert_at(s0, i as int, key, value@);
            }
        }
    }

    /// The field element assigned to `key`, if any.
    pub fn get(&self, key: u32) -> (r: Option<&FieldElement>)
        requires
            self.wf(),
        ensures
            match r {
                Some(f) => self@.contains_key(key) && f@ == self@[key],
                None => !self@.contains_key(key),
            },
    {
        let mut i: usize = 0;
        while i < self.entries.len()
            invariant
                self.wf(),
                i <= self.entries@.len(),
                forall|j: int| 0 <= j < i ==> (#[trigger] self.kv()[j]).0 != key,
            decreases self.entries@.len() - i,
        {
            if self.entries[i].0 == key {
                proof {
                    lemma_map_of_kv_index(self.kv(), i as int);
                }
                return Some(&self.entries[i].1);
            }
            i = i + 1;
        }
        proof {
            lemma_map_of_kv_absent(self.kv(), key);
        }
        None
    }

    /// The entries of the map as plain (index, canonical bytes) pairs, in
    /// ascending index order.
    pub fn to_pairs(&self) -> (r: Vec<(u32, Vec<u8>)>)
        ensures
            r@.map_values(|p: (u32, Vec<u8>)| (p.0, p.1@)) == self.kv(),
    {
        let mut out: Vec<(u32, Vec<u8>)> = Vec::new();
        let mut i: usize = 0;
        while i < self.entries.len()
            invariant
                i <= self.entries@.len(),
                out@.len() == i,
                forall|j: int|
                    0 <= j < i ==> (#[trigger] out@[j]).0 == self.entries@[j].0 && out@[j].1@
                        == self.entries@[j].1@,
            decreases self.entries@.len() - i,
        {
            let bytes = self.entries[i].1.duplicate();
            let index = self.entries[i].0;
            out.push((index, bytes.bytes));
            i = i + 1;
        }
        proof {
            assert(out@.map_values(|p: (u32, Vec<u8>)| (p.0, p.1@)) =~= self.kv());
        }
        out
    }
}

impl WitnessMap {
    /// Builds a witness map from plain (index, canonical bytes) pairs,
    /// taken in order, a later pair for an index overwriting an earlier
    /// one; refused as soon as one value is not of canonical width.
    pub fn from_pairs(pairs: &Vec<(u32, Vec<u8>)>) -> (r: Option<WitnessMap>)
        ensures
            ({
                let pv = pairs@.map_values(|p: (u32, Vec<u8>)| (p.0, p.1@));
                &&& (r is Some <==> forall|i: int|
                    0 <= i < pv.len() ==> (#[trigger] pv[i]).1.len() == 32)
                &&& (r matches Some(w) ==> w.wf() && w@ == map_of_kv(pv))
            }),
    {
        let ghost pv = pairs@.map_values(|p: (u32, Vec<u8>)| (p.0, p.1@));
        let mut w = WitnessMap::new();
        let mut i: usize = 0;
        while i < pairs.len()
            invariant
                i <= pairs@.len(),
                pv == pairs@.map_values(|p: (u32, Vec<u8>)| (p.0, p.1@)),
                w.wf(),
                w@ == map_of_kv(pv.take(i as int)),
                forall|j: int| 0 <= j < i ==> (#[trigger] pv[j]).1.len() == 32,
            decreases pairs@.len() - i,
        {
            if pairs[i].1.len() != 32 {
                proof {
                    assert(pv[i as int].1.len() != 32);
                }
                return None;
            }
            let value = FieldElement::from_bytes(clone_bytes(&pairs[i].1)).unwrap();
            w.insert(pairs[i].0, value);
            proof {
                assert(pv.take(i + 1).drop_last() =~= pv.take(i as int));
                assert(pv.take(i + 1).last() == pv[i as int]);
            }
            i = i + 1;
        }
        proof {
            assert(pv.take(pairs@.len() as int) =~= pv);
        }
        Some(w)
    }
}

/// Removing the entry at `i` removes its key from the logical content,
/// provided no other entry holds the same key.
proof fn lemma_map_of_kv_remove_at(s: Seq<(u32, Seq<u8>)>, i: int)
    requires
        0 <= i < s.len(),
        forall|j: int| 0 <= j < s.len() && j != i ==> (#[trigger] s[j]).0 != s[i].0,
    ensures
        map_of_kv(s.remove(i)) == map_of_kv(s).remove(s[i].0),
    decreases s.len(),
{
    if i == s.len() - 1 {
        assert(s.remove(i) =~= s.drop_last());
        lemma_map_of_kv_absent(s.drop_last(), s[i].0);
        assert(map_of_kv(s.drop_last()).insert(s[i].0, s[i].1).remove(s[i].0) =~= map_of_kv(
            s.drop_last(),
        ));
    } else {
        let t = s.drop_last();
        lemma_map_of_kv_remove_at(t, i);
        assert(s.remove(i).drop_last() =~= t.remove(i));
        assert(s.remove(i).last() == s.last());
        assert(map_of_kv(t).remove(t[i].0).insert(s.last().0, s.last().1) =~= map_of_kv(t).insert(
            s.last().0,
            s.last().1,
        ).remove(t[i].0));
    }
}

/// Inserting an entry whose key no other entry holds inserts that key into
/// the logical content, at whatever position.
proof fn lemma_map_of_kv_insert_at(s: Seq<(u32, Seq<u8>)>, i: int, k: u32, v: Seq<u8>)
    requires
        0 <= i <= s.len(),
        forall|j: int| 0 <= j < s.len() ==> (#[trigger] s[j]).0 != k,
    ensures
        map_of_kv(s.insert(i, (k, v))) == map_of_kv(s).insert(k, v),
    decreases s.len(),
{
    if i == s.len() {
        assert(s.insert(i, (k, v)).drop_last() =~= s);
    } else {
        let t = s.drop_last();
        lemma_map_of_kv_insert_at(t, i, k, v);
        assert(s.insert(i, (k, v)).drop_last() =~= t.insert(i, (k, v)));
        assert(s.insert(i, (k, v)).last() == s.last());
        assert(map_of_kv(t).insert(k, v).insert(s.last().0, s.last().1) =~= map_of_kv(t).insert(
            s.last().0,
            s.last().1,
        ).insert(k, v));
    }
}

/// A key no entry holds is not in the logical content.
proof fn lemma_map_of_kv_absent(s: Seq<(u32, Seq<u8>)>, k: u32)
    requires
        forall|j: int| 0 <= j < s.len() ==> (#[trigger] s[j]).0 != k,
    ensures
        !map_of_kv(s).contains_key(k),
    decreases s.len(),
{
    if s.len() > 0 {
        lemma_map_of_kv_absent(s.drop_last(), k);
    }
}

/// The logical content assigns to the key of each entry; with unique keys,
/// it assigns exactly that entry's value.
proof fn lemma_map_of_kv_index(s: Seq<(u32, Seq<u8>)>, i: int)
    requires
        0 <= i < s.len(),
        forall|p: int, q: int| 0 <= p < q < s.len() ==> (#[trigger] s[p]).0 != (#[trigger] s[q]).0,
    ensures
        map_of_kv(s).contains_key(s[i].0),
        map_of_kv(s)[s[i].0] == s[i].1,
    decreases s.len(),
{
    if i < s.len() - 1 {
        lemma_map_of_kv_index(s.drop_last(), i);
    }
}

/// The one strictly sorted entry sequence with the given logical content
/// (unique by `lemma_sorted_kv_unique`, and the entry sequence of every
/// well-formed witness map by `lemma_kv_is_sorted_kv_of`).
pub open spec fn sorted_kv_of(m: Map<u32, Seq<u8>>) -> Seq<(u32, Seq<u8>)> {
    choose|s: Seq<(u32, Seq<u8>)>| strictly_sorted_kv(s) && map_of_kv(s) == m
}

/// A well-formed witness map's entry sequence is the sorted entry
/// sequence of its logical content.
pub proof fn lemma_kv_is_sorted_kv_of(w: &WitnessMap)
    requires
        w.wf(),
    ensures
        w.kv() == sorted_kv_of(w@),
{
    assert(exists|s: Seq<(u32, Seq<u8>)>| strictly_sorted_kv(s) && map_of_kv(s) == w@) by {
        assert(strictly_sorted_kv(w.kv()) && map_of_kv(w.kv()) == w@);
    }
    let s = sorted_kv_of(w@);
    assert(strictly_sorted_kv(s) && map_of_kv(s) == w@);
    lemma_sorted_kv_unique(s, w.kv());
}

/// Every key of the logical content stays under a bound that all entry
/// keys stay under.
proof fn lemma_map_of_kv_bound(s: Seq<(u32, Seq<u8>)>, bound: u32)
    requires
        forall|j: int| 0 <= j < s.len() ==> (#[trigger] s[j]).0 <= bound,
    ensures
        forall|k: u32| #[trigger] map_of_kv(s).contains_key(k) ==> k <= bound,
    decreases s.len(),
{
    if s.len() > 0 {
        lemma_map_of_kv_bound(s.drop_last(), bound);
        assert forall|k: u32| #[trigger] map_of_kv(s).contains_key(k) implies k <= bound by {
            if k == s.last().0 {
                assert(s[s.len() - 1].0 <= bound);
            } else {
                assert(map_of_kv(s.drop_last()).contains_key(k));
            }
        }
    }
}

/// A logical witness map has exactly one strictly sorted entry sequence:
/// two sorted entry sequences with the same content are the same sequence.
pub proof fn lemma_sorted_kv_unique(s1: Seq<(u32, Seq<u8>)>, s2: Seq<(u32, Seq<u8>)>)
    requires
        strictly_sorted_kv(s1),
        strictly_sorted_kv(s2),
        map_of_kv(s1) == map_of_kv(s2),
    ensures
        s1 == s2,
    decreases s1.len(),
{
    if s1.len() == 0 {
        if s2.len() > 0 {
            assert(map_of_kv(s2).contains_key(s2.last().0));
            assert(false);
        }
        assert(s1 =~= s2);
    } else {
        assert(map_of_kv(s1).contains_key(s1.last().0));
        if s2.len() == 0 {
            assert(false);
        }
        let k1 = s1.last().0;
        let k2 = s2.last().0;
        lemma_map_of_kv_bound(s1, k1);
        lemma_map_of_kv_bound(s2, k2);
        assert(map_of_kv(s2).contains_key(k1));
        assert(map_of_kv(s1).contains_key(k2));
        assert(k1 == k2);
        assert(map_of_kv(s1)[k1] == s1.last().1);
        assert(map_of_kv(s2)[k2] == s2.last().1);
        lemma_map_of_kv_remove_at(s1, s1.len() - 1);
        lemma_map_of_kv_remove_at(s2, s2.len() - 1);
        assert(s1.remove(s1.len() - 1) =~= s1.drop_last());
        assert(s2.remove(s2.len() - 1) =~= s2.drop_last());
        lemma_sorted_kv_unique(s1.drop_last(), s2.drop_last());
        assert forall|i: int| 0 <= i < s1.len() implies s1[i] == s2[i] by {
            if i < s1.len() - 1 {
                assert(s1.drop_last()[i] == s2.drop_last()[i]);
                assert(s1.drop_last()[i] == s1[i]);
                assert(s2.drop_last()[i] == s2[i]);
            } else {
                assert(s1[i].0 == s2[i].0);
                assert(s1[i].1 == s2[i].1);
                assert(s1[i] =~= s2[i]);
            }
        }
        assert(s1 =~= s2);
    }
}

} // verus!
