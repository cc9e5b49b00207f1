use vstd::prelude::*;
use jagua_rs::entities::PItemKey;
use slotmap::{KeyData, SecondaryMap};

verus! {

/// Secondary map from placed items to indices: slotmap's `SecondaryMap`,
/// kept in a field the verifier does not see (it refuses the map's type with
/// its `Key` bound) and reached only through the wrappers below.
#[verifier::external_body]
#[derive(Debug)]
pub struct PItemIndices {
    map: SecondaryMap<PItemKey, usize>,
}

/// Slot of a key given by its 64-bit data (the low half).
pub open spec fn slot_of(key: u64) -> int {
    key as int % 0x1_0000_0000
}

/// Version of a key given by its 64-bit data (the high half).
pub open spec fn version_of(key: u64) -> int {
    key as int / 0x1_0000_0000
}

/// The key that 64-bit data stands for: key versions are always odd, so an
/// even version is taken one up.
pub open spec fn stored_key(key: u64) -> u64 {
    if version_of(key) % 2 == 0 {
        (key + 0x1_0000_0000) as u64
    } else {
        key
    }
}

/// The null key has the last slot.
pub open spec fn is_null_key(key: u64) -> bool {
    slot_of(key) == 0xffff_ffff
}

/// Version `a` is older than version `b`, on a wrapping 32-bit clock.
pub open spec fn is_older_version(a: int, b: int) -> bool {
    (a - b) % 0x1_0000_0000 >= 0x8000_0000
}

/// What a secondary map can hold: finitely many keys, none null, every
/// version odd, and at most one key per slot.
pub open spec fn secondary_wf(m: Map<u64, usize>) -> bool {
    &&& m.dom().finite()
    &&& forall|g: u64| #[trigger] m.dom().contains(g) ==> !is_null_key(g) && version_of(g) % 2 == 1
    &&& forall|g: u64, h: u64|
        #[trigger] m.dom().contains(g) && #[trigger] m.dom().contains(h) && slot_of(g) == slot_of(h)
            ==> g == h
}

/// A secondary map after `value` was inserted at `key`: a null key changes
/// nothing; the same key gets the new value; a key of another version in
/// the same slot is replaced, unless the new key is the older one; an empty
/// slot takes the new key.
pub open spec fn secondary_insert(m: Map<u64, usize>, key: u64, value: usize) -> Map<u64, usize> {
    let f = stored_key(key);
    if is_null_key(f) {
        m
    } else if m.dom().contains(f) {
        m.insert(f, value)
    } else if exists|g: u64| #[trigger] m.dom().contains(g) && slot_of(g) == slot_of(f) {
        let g = choose|g: u64| #[trigger] m.dom().contains(g) && slot_of(g) == slot_of(f);
        if is_older_version(version_of(f), version_of(g)) {
            m
        } else {
            m.remove(g).insert(f, value)
        }
    } else {
        m.insert(f, value)
    }
}

/// The entries of a secondary map from placed items to indices, each key
/// given by its 64-bit data as `KeyData::as_ffi` gives it (version in the
/// high half, slot in the low half).
pub uninterp spec fn secondary_contents(m: PItemIndices) -> Map<u64, usize>;

/// `SecondaryMap::with_capacity`: an empty map.
#[verifier::external_body]
fn secondary_with_capacity(capacity: usize) -> (r: PItemIndices)
    ensures
        secondary_contents(r).dom().is_empty(),
{
    PItemIndices { map: SecondaryMap::with_capacity(capacity) }
}

/// `SecondaryMap::insert` at the key whose data is `key` (rebuilt with
/// `KeyData::from_ffi`): the entries change as `secondary_insert` says, and
/// the value that the same key held before is returned.
#[verifier::external_body]
fn secondary_insert_at(m: &mut PItemIndices, key: u64, value: usize) -> (r: Option<usize>)
    ensures
        secondary_contents(*final(m)) == secondary_insert(secondary_contents(*old(m)), key, value),
        r == if !is_null_key(key) && secondary_contents(*old(m)).dom().contains(stored_key(key)) {
            Some(secondary_contents(*old(m))[stored_key(key)])
        } else {
            None::<usize>
        },
{
    m.map.insert(PItemKey::from(KeyData::from_ffi(key)), value)
}

/// `SecondaryMap::remove` at the key whose data is `key`: the entry of that
/// key leaves the map and its value is returned.
#[verifier::external_body]
fn secondary_remove_at(m: &mut PItemIndices, key: u64) -> (r: Option<usize>)
    ensures
        secondary_contents(*final(m)) == secondary_contents(*old(m)).remove(stored_key(key)),
        r == if secondary_contents(*old(m)).dom().contains(stored_key(key)) {
            Some(secondary_contents(*old(m))[stored_key(key)])
        } else {
            None::<usize>
        },
{
    m.map.remove(PItemKey::from(KeyData::from_ffi(key)))
}

/// `SecondaryMap::clone`: a map with the same entries.
#[verifier::external_body]
fn secondary_clone(m: &PItemIndices) -> (r: PItemIndices)
    ensures
        secondary_contents(r) == secondary_contents(*m),
{
    PItemIndices { map: m.map.clone() }
}

/// `SecondaryMap::get` at the key whose data is `key`: the value of that
/// key, if it is in the map.
#[verifier::external_body]
fn secondary_get_at(m: &PItemIndices, key: u64) -> (r: Option<usize>)
    ensures
        r == if secondary_contents(*m).dom().contains(stored_key(key)) {
            Some(secondary_contents(*m)[stored_key(key)])
        } else {
            None::<usize>
        },
{
    m.map.get(PItemKey::from(KeyData::from_ffi(key))).copied()
}

/// Every index is below `size` and no two keys share one.
pub open spec fn indices_valid(m: Map<u64, usize>, size: nat) -> bool {
    &&& forall|g: u64| #[trigger] m.dom().contains(g) ==> m[g] < size
    &&& forall|g: u64, h: u64|
        #[trigger] m.dom().contains(g) && #[trigger] m.dom().contains(h) && m[g] == m[h] ==> g == h
}

/// The entries after the keys `keys[0..n]` were inserted in turn, each with
/// its position as index.
pub open spec fn indices_of_keys(keys: Seq<u64>, n: int) -> Map<u64, usize>
    decreases n,
{
    if n <= 0 {
        Map::empty()
    } else {
        secondary_insert(indices_of_keys(keys, n - 1), keys[n - 1], (n - 1) as usize)
    }
}

/// None of the keys is null and no two lie in the same slot, as for the
/// keys of the items placed in one layout.
pub open spec fn keys_in_distinct_slots(keys: Seq<u64>) -> bool {
    &&& forall|i: int| 0 <= i < keys.len() ==> !is_null_key(#[trigger] keys[i])
    &&& forall|i: int, j: int|
        0 <= i < keys.len() && 0 <= j < keys.len() && i != j ==> slot_of(#[trigger] keys[i])
            != slot_of(#[trigger] keys[j])
}

proof fn lemma_stored_key(key: u64)
    ensures
        slot_of(stored_key(key)) == slot_of(key),
        version_of(stored_key(key)) % 2 == 1,
        version_of(key) % 2 == 1 ==> stored_key(key) == key,
{
    if version_of(key) % 2 == 0 {
        assert(key + 0x1_0000_0000u64 <= 0xffff_ffff_ffff_ffffu64 && ((key + 0x1_0000_0000u64) as u64)
            % 0x1_0000_0000u64 == key % 0x1_0000_0000u64 && (((key + 0x1_0000_0000u64) as u64)
            / 0x1_0000_0000u64) % 2 == 1) by (bit_vector)
            requires
                (key / 0x1_0000_0000u64) % 2 == 0,
        ;
    }
}

/// After an insertion every entry is the inserted one or an entry that was
/// there before, unchanged; and the map stays one a secondary map can be.
proof fn lemma_insert_entries(m: Map<u64, usize>, key: u64, v: usize)
    requires
        secondary_wf(m),
    ensures
        secondary_wf(secondary_insert(m, key, v)),
        forall|g: u64| #[trigger]
            secondary_insert(m, key, v).dom().contains(g) ==> (g == stored_key(key)
                && secondary_insert(m, key, v)[g] == v) || (g != stored_key(key) && m.dom().contains(g)
                && secondary_insert(m, key, v)[g] == m[g]),
{
    lemma_stored_key(key);
    let f = stored_key(key);
    if is_null_key(f) {
    } else if m.dom().contains(f) {
    } else if exists|g: u64| #[trigger] m.dom().contains(g) && slot_of(g) == slot_of(f) {
        let g = choose|g: u64| #[trigger] m.dom().contains(g) && slot_of(g) == slot_of(f);
        if !is_older_version(version_of(f), version_of(g)) {
            let r = m.remove(g).insert(f, v);
            assert(r == secondary_insert(m, key, v));
            assert forall|a: u64, b: u64|
                #[trigger] r.dom().contains(a) && #[trigger] r.dom().contains(b) && slot_of(a) == slot_of(b)
                    implies a == b by {
                if a != f && b != f {
                    assert(m.dom().contains(a) && m.dom().contains(b));
                } else if a == f && b != f {
                    assert(m.dom().contains(b) && m.dom().contains(g));
                } else if a != f && b == f {
                    assert(m.dom().contains(a) && m.dom().contains(g));
                }
            }
        }
    } else {
        let r = m.insert(f, v);
        assert forall|a: u64, b: u64|
            #[trigger] r.dom().contains(a) && #[trigger] r.dom().contains(b) && slot_of(a) == slot_of(b)
                implies a == b by {
            if a != f && b != f {
                assert(m.dom().contains(a) && m.dom().contains(b));
            } else if a == f && b != f {
                assert(m.dom().contains(b));
            } else if a != f && b == f {
                assert(m.dom().contains(a));
            }
        }
    }
}

/// Inserting an index that no key holds yet keeps the indices valid.
proof fn lemma_insert_fresh(m: Map<u64, usize>, key: u64, v: usize, size: nat)
    requires
        secondary_wf(m),
        indices_valid(m, size),
        v < size,
        forall|g: u64| #[trigger] m.dom().contains(g) ==> m[g] != v,
    ensures
        secondary_wf(secondary_insert(m, key, v)),
        indices_valid(secondary_insert(m, key, v), size),
{
    lemma_insert_entries(m, key, v);
}

proof fn lemma_indices_of_keys(keys: Seq<u64>, n: int)
    requires
        0 <= n <= keys.len(),
        keys.len() <= usize::MAX,
    ensures
        secondary_wf(indices_of_keys(keys, n)),
        indices_valid(indices_of_keys(keys, n), n as nat),
    decreases n,
{
    if n > 0 {
        let prev = indices_of_keys(keys, n - 1);
        lemma_indices_of_keys(keys, n - 1);
        lemma_insert_fresh(prev, keys[n - 1], (n - 1) as usize, n as nat);
    } else {
        assert(indices_of_keys(keys, n).dom() =~= Set::empty());
    }
}

proof fn lemma_indices_of_distinct_keys(keys: Seq<u64>, n: int)
    requires
        0 <= n <= keys.len(),
        keys.len() <= usize::MAX,
        keys_in_distinct_slots(keys),
    ensures
        forall|i: int|
            0 <= i < n ==> #[trigger] indices_of_keys(keys, n).dom().contains(stored_key(keys[i]))
                && indices_of_keys(keys, n)[stored_key(keys[i])] == i,
        forall|g: u64| #[trigger]
            indices_of_keys(keys, n).dom().contains(g) ==> exists|i: int|
                0 <= i < n && g == stored_key(#[trigger] keys[i]),
    decreases n,
{
    if n > 0 {
        let prev = indices_of_keys(keys, n - 1);
        lemma_indices_of_distinct_keys(keys, n - 1);
        let key = keys[n - 1];
        let f = stored_key(key);
        lemma_stored_key(key);
        assert forall|g: u64| #[trigger] prev.dom().contains(g) implies slot_of(g) != slot_of(f) by {
            let i = choose|i: int| 0 <= i < n - 1 && g == stored_key(#[trigger] keys[i]);
            lemma_stored_key(keys[i]);
        }
        assert(!prev.dom().contains(f));
        assert(indices_of_keys(keys, n) == prev.insert(f, (n - 1) as usize));
        assert forall|i: int| 0 <= i < n implies #[trigger] indices_of_keys(keys, n).dom().contains(
            stored_key(keys[i]),
        ) && indices_of_keys(keys, n)[stored_key(keys[i])] == i by {
            if i < n - 1 {
                assert(prev.dom().contains(stored_key(keys[i])));
            }
        }
        assert forall|g: u64| #[trigger] indices_of_keys(keys, n).dom().contains(g) implies exists|i: int|
            0 <= i < n && g == stored_key(#[trigger] keys[i]) by {
            if g == f {
                assert(g == stored_key(keys[n - 1]));
            } else {
                assert(prev.dom().contains(g));
                let i = choose|i: int| 0 <= i < n - 1 && g == stored_key(#[trigger] keys[i]);
                assert(0 <= i < n && g == stored_key(keys[i]));
            }
        }
    }
}

/// Which row and column of the overlap matrices belongs to which placed
/// item: each item, given by the 64-bit data of its key, has an index below
/// `size`, and no two items share one.
#[derive(Debug)]
pub struct ItemIndexMap {
    map: PItemIndices,
    size: usize,
}

impl ItemIndexMap {
    #[verifier::type_invariant]
    spec fn inv(self) -> bool {
        &&& secondary_wf(secondary_contents(self.map))
        &&& indices_valid(secondary_contents(self.map), self.size as nat)
    }

    /// The index of each key, by the key's 64-bit data.
    pub closed spec fn indices(self) -> Map<u64, usize> {
        secondary_contents(self.map)
    }

    /// Number of rows of the matrices the indices point into.
    pub closed spec fn size(self) -> nat {
        self.size as nat
    }

    /// Gives the `i`-th key the index `i`, inserting the keys in turn into a
    /// secondary map; the keys of one layout each get their position.
    pub fn new(size: usize, keys: &Vec<u64>) -> (m: Self)
        requires
            keys@.len() <= size,
        ensures
            m.size() == size,
            m.indices() == indices_of_keys(keys@, keys@.len() as int),
            indices_valid(m.indices(), m.size()),
            keys_in_distinct_slots(keys@) ==> {
                &&& forall|i: int|
                    0 <= i < keys@.len() ==> #[trigger] m.indices().dom().contains(stored_key(keys@[i]))
                        && m.indices()[stored_key(keys@[i])] == i
                &&& forall|g: u64| #[trigger]
                    m.indices().dom().contains(g) ==> exists|i: int|
                        0 <= i < keys@.len() && g == stored_key(#[trigger] keys@[i])
            },
    {
        let mut map = secondary_with_capacity(size);
        assert(secondary_contents(map) =~= indices_of_keys(keys@, 0));
        let mut i: usize = 0;
        while i < keys.len()
            invariant
                i <= keys@.len(),
                keys@.len() <= size,
                secondary_contents(map) == indices_of_keys(keys@, i as int),
            decreases keys@.len() - i,
        {
            let _ = secondary_insert_at(&mut map, keys[i], i);
            i = i + 1;
        }
        proof {
            lemma_indices_of_keys(keys@, keys@.len() as int);
            let m = indices_of_keys(keys@, keys@.len() as int);
            assert forall|g: u64| #[trigger] m.dom().contains(g) implies m[g] < size by {}
            if keys_in_distinct_slots(keys@) {
                lemma_indices_of_distinct_keys(keys@, keys@.len() as int);
            }
        }
        ItemIndexMap { map, size }
    }

    /// The index of the item whose key has the data `key`, if it has one.
    pub fn index_of(&self, key: u64) -> (r: Option<usize>)
        ensures
            r == if self.indices().dom().contains(stored_key(key)) {
                Some(self.indices()[stored_key(key)])
            } else {
                None::<usize>
            },
            indices_valid(self.indices(), self.size()),
    {
        proof {
            use_type_invariant(self);
        }
        secondary_get_at(&self.map, key)
    }

    /// An item moved and got a new key: the new key takes over the index of
    /// the old one, which leaves the map. In a layout, where the new key is
    /// in a slot of its own, exactly that happens and nothing else changes.
    pub fn register_move(&mut self, old_key: u64, new_key: u64)
        requires
            old(self).indices().dom().contains(stored_key(old_key)),
        ensures
            final(self).size() == old(self).size(),
            final(self).indices() == secondary_insert(
                old(self).indices().remove(stored_key(old_key)),
                new_key,
                old(self).indices()[stored_key(old_key)],
            ),
            indices_valid(final(self).indices(), final(self).size()),
            !is_null_key(new_key) && (forall|g: u64| #[trigger]
                old(self).indices().dom().contains(g) && g != stored_key(old_key) ==> slot_of(g)
                    != slot_of(new_key)) ==> final(self).indices() == old(self).indices().remove(
                stored_key(old_key),
            ).insert(stored_key(new_key), old(self).indices()[stored_key(old_key)]),
    {
        proof {
            use_type_invariant(&*self);
        }
        let ghost before = secondary_contents(self.map);
        let ghost idx = before[stored_key(old_key)];
        let mut map = secondary_with_capacity(0);
        proof {
            assert(secondary_contents(map) =~= Map::<u64, usize>::empty());
        }
        std::mem::swap(&mut map, &mut self.map);
        let removed = secondary_remove_at(&mut map, old_key);
        let ghost rest = secondary_contents(map);
        proof {
            assert(rest == before.remove(stored_key(old_key)));
            assert forall|g: u64| #[trigger] rest.dom().contains(g) implies rest[g] != idx by {
                assert(before.dom().contains(g));
            }
            assert(secondary_wf(rest)) by {
                assert(rest.dom() =~= before.dom().remove(stored_key(old_key)));
            }
            lemma_insert_fresh(rest, new_key, idx, self.size as nat);
            lemma_stored_key(new_key);
        }
        match removed {
            Some(i) => {
                let _ = secondary_insert_at(&mut map, new_key, i);
            },
            None => {},
        }
        self.map = map;
    }

    /// A map with the same indices.
    pub fn duplicate(&self) -> (r: Self)
        ensures
            r.indices() == self.indices(),
            r.size() == self.size(),
    {
        proof {
            use_type_invariant(self);
        }
        ItemIndexMap { map: secondary_clone(&self.map), size: self.size }
    }
}

} // verus!
