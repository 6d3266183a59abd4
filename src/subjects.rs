//! The containers under measurement, each built pre-populated with synthetic
//! entries.
use vstd::prelude::*;
use std::collections::{BTreeMap, HashMap};
use std::hash::{BuildHasher, Hash, RandomState};
use indexmap::IndexMap;
use vstd::laws_cmp::obeys_cmp;
use vstd::std_specs::hash::{builds_valid_hashers, obeys_key_model};
use crate::keys::{
    distinct_entries_get_distinct_keys, distinct_entry_count, key_of, key_span, lemma_key_repeats,
    usize_to_bytes,
};

verus! {

/// indexmap's insertion-ordered hash map, carried through as an opaque value.
#[verifier::external_type_specification]
#[verifier::external_body]
#[verifier::reject_recursive_types(K)]
#[verifier::reject_recursive_types(V)]
#[verifier::reject_recursive_types(S)]
pub struct ExIndexMap<K, V, S>(IndexMap<K, V, S>);

/// An insertion-ordered hash map of `N`-byte keys, seen as the keys it
/// holds, in their order.
#[verifier::reject_recursive_types(N)]
#[verifier::reject_recursive_types(V)]
pub struct InsertionOrderedMap<const N: usize, V> {
    map: IndexMap<[u8; N], V>,
    keys: Ghost<Seq<Seq<u8>>>,
}

impl<const N: usize, V> InsertionOrderedMap<N, V> {
    /// The keys held, in insertion order.
    pub closed spec fn keys(&self) -> Seq<Seq<u8>> {
        self.keys@
    }

    /// Relies on indexmap's `IndexMap::with_capacity`: the map starts empty,
    /// with room for `n` pairs.
    #[verifier::external_body]
    fn with_capacity(n: usize) -> (r: Self)
        ensures
            r.keys() == Seq::<Seq<u8>>::empty(),
    {
        InsertionOrderedMap { map: IndexMap::with_capacity(n), keys: Ghost(Seq::empty()) }
    }

    /// Relies on indexmap's `IndexMap::insert`: a key already held keeps its
    /// place (only its value changes), a new key goes last.
    #[verifier::external_body]
    fn insert(&mut self, k: [u8; N], v: V)
        ensures
            old(self).keys().contains(k@) ==> final(self).keys() == old(self).keys(),
            !old(self).keys().contains(k@) ==> final(self).keys() == old(self).keys().push(k@),
    {
        self.map.insert(k, v);
    }

    /// The map itself.
    pub fn map(&self) -> &IndexMap<[u8; N], V> {
        &self.map
    }
}

/// Relies on `std::hint::black_box`: the built container counts as used, so
/// its construction is not optimised away.
#[verifier::external_body]
fn observe<T>(x: &T) {
    std::hint::black_box(x);
}

/// The keys of the first `size` entries, in entry order, each once.
pub open spec fn entry_keys(n: nat, size: nat) -> Seq<Seq<u8>> {
    Seq::new(distinct_entry_count(n, size), |i: int| key_of(n, i as nat))
}

/// Whether `k` is the key of one of the first `size` entries, for keys of
/// width `n`.
pub open spec fn is_entry_key(n: nat, k: Seq<u8>, size: int) -> bool {
    exists|i: int| 0 <= i < size && k == #[trigger] key_of(n, i as nat)
}

/// Adding the key of entry `i` to the keys of the entries before it gives the
/// keys of the entries up to and including it, one more exactly when entry
/// `i` is below the key span.
proof fn lemma_add_entry_key<const N: usize>(
    before: Set<[u8; N]>,
    after: Set<[u8; N]>,
    added: [u8; N],
    i: int,
)
    requires
        0 <= i,
        added@ == key_of(N as nat, i as nat),
        after == before.insert(added),
        forall|k: [u8; N]| #[trigger] before.contains(k) <==> is_entry_key(N as nat, k@, i),
        before.finite(),
        before.len() == distinct_entry_count(N as nat, i as nat),
    ensures
        forall|k: [u8; N]| #[trigger] after.contains(k) <==> is_entry_key(N as nat, k@, i + 1),
        after.finite(),
        after.len() == distinct_entry_count(N as nat, (i + 1) as nat),
{
    broadcast use vstd::array::group_array_axioms;

    if i < key_span(N as nat) {
        if before.contains(added) {
            let j = choose|j: int| 0 <= j < i && added@ == #[trigger] key_of(N as nat, j as nat);
            distinct_entries_get_distinct_keys(N as nat, i as nat, j as nat);
        }
    } else {
        lemma_key_repeats(N as nat, i as nat);
        let j = (i as nat % key_span(N as nat)) as int;
        assert(0 <= j < i && added@ == key_of(N as nat, j as nat));
        assert(before.contains(added));
        assert(after =~= before);
    }

    assert forall|k: [u8; N]| #[trigger] after.contains(k) <==> is_entry_key(
        N as nat,
        k@,
        i + 1,
    ) by {
        if k@ == added@ {
            assert(k =~= added);
        }
        if is_entry_key(N as nat, k@, i + 1) {
            let j = choose|j: int| 0 <= j < i + 1 && k@ == #[trigger] key_of(N as nat, j as nat);
            if j < i {
                assert(is_entry_key(N as nat, k@, i));
            }
        }
        if is_entry_key(N as nat, k@, i) {
            let j = choose|j: int| 0 <= j < i && k@ == #[trigger] key_of(N as nat, j as nat);
            assert(0 <= j < i + 1);
        }
        if k == added {
            assert(0 <= i < i + 1 && k@ == key_of(N as nat, i as nat));
        }
    }
}

/// A container that can be built holding a given number of synthetic entries.
pub trait DataStruct: Sized {
    /// Builds the container for `size` entries.
    fn new_with_size(size: usize) -> Self;
}

/// A vector is only reserved: its entries are the payload.
impl<T: Default> DataStruct for Vec<T> {
    fn new_with_size(size: usize) -> (r: Self)
        ensures
            r@.len() == 0,
    {
        Vec::with_capacity(size)
    }
}

/// The ordered map takes no capacity hint: its growth is part of what is
/// measured. What it holds is stated under `obeys_cmp` for the key type, the
/// condition on which vstd's specification of `BTreeMap::insert` speaks.
impl<const N: usize, V: Default> DataStruct for BTreeMap<[u8; N], V> {
    fn new_with_size(size: usize) -> (r: Self)
        ensures
            obeys_cmp::<[u8; N]>() ==> forall|k: [u8; N]| #[trigger]
                r@.contains_key(k) <==> is_entry_key(N as nat, k@, size as int),
            obeys_cmp::<[u8; N]>() ==> r@.len() == distinct_entry_count(N as nat, size as nat),
    {
        let mut r = BTreeMap::new();
        let mut i: usize = 0;
        assert(distinct_entry_count(N as nat, 0) == 0) by {
            lemma_key_repeats(N as nat, 0);
        }
        while i < size
            invariant
                i <= size,
                obeys_cmp::<[u8; N]>() ==> forall|k: [u8; N]| #[trigger]
                    r@.contains_key(k) <==> is_entry_key(N as nat, k@, i as int),
                obeys_cmp::<[u8; N]>() ==> r@.dom().finite() && r@.len() == distinct_entry_count(
                    N as nat,
                    i as nat,
                ),
            decreases size - i,
        {
            let key = usize_to_bytes::<N>(i);
            let ghost before = r@;
            r.insert(key, V::default());
            proof {
                if obeys_cmp::<[u8; N]>() {
                    lemma_add_entry_key::<N>(
                        before.dom(),
                        r@.dom(),
                        key,
                        i as int,
                    );
                }
            }
            i = i + 1;
        }
        observe(&r);
        r
    }
}

/// The hash map is reserved for `size` entries first. What it holds is stated
/// under `obeys_key_model` for the key type and valid hashers, the condition
/// on which vstd's specification of `HashMap::insert` speaks.
impl<const N: usize, V: Default> DataStruct for HashMap<[u8; N], V> {
    fn new_with_size(size: usize) -> (r: Self)
        ensures
            obeys_key_model::<[u8; N]>() && builds_valid_hashers::<RandomState>() ==> forall|
                k: [u8; N],
            | #[trigger] r@.contains_key(k) <==> is_entry_key(N as nat, k@, size as int),
            obeys_key_model::<[u8; N]>() && builds_valid_hashers::<RandomState>() ==> r@.len()
                == distinct_entry_count(N as nat, size as nat),
    {
        let mut r = HashMap::with_capacity(size);
        let mut i: usize = 0;
        assert(distinct_entry_count(N as nat, 0) == 0) by {
            lemma_key_repeats(N as nat, 0);
        }
        while i < size
            invariant
                i <= size,
                obeys_key_model::<[u8; N]>() && builds_valid_hashers::<RandomState>() ==> forall|
                    k: [u8; N],
                | #[trigger] r@.contains_key(k) <==> is_entry_key(N as nat, k@, i as int),
                obeys_key_model::<[u8; N]>() && builds_valid_hashers::<RandomState>() ==> r@.dom().finite()
                    && r@.len() == distinct_entry_count(N as nat, i as nat),
            decreases size - i,
        {
            let key = usize_to_bytes::<N>(i);
            let ghost before = r@;
            r.insert(key, V::default());
            proof {
                if obeys_key_model::<[u8; N]>() && builds_valid_hashers::<RandomState>() {
                    lemma_add_entry_key::<N>(
                        before.dom(),
                        r@.dom(),
                        key,
                        i as int,
                    );
                }
            }
            i = i + 1;
        }
        observe(&r);
        r
    }
}

/// The insertion-ordered map is reserved for `size` entries first, and holds
/// the entry keys in entry order.
impl<const N: usize, V: Default> DataStruct for InsertionOrderedMap<N, V> {
    fn new_with_size(size: usize) -> (r: Self)
        ensures
            r.keys() == entry_keys(N as nat, size as nat),
    {
        let mut r = InsertionOrderedMap::with_capacity(size);
        let mut i: usize = 0;
        proof {
            lemma_key_repeats(N as nat, 0);
            assert(r.keys() =~= entry_keys(N as nat, 0));
        }
        while i < size
            invariant
                i <= size,
                r.keys() == entry_keys(N as nat, i as nat),
            decreases size - i,
        {
            let key = usize_to_bytes::<N>(i);
            let ghost before = r.keys();
            r.insert(key, V::default());
            proof {
                lemma_key_repeats(N as nat, i as nat);
                if (i as nat) < key_span(N as nat) {
                    if before.contains(key@) {
                        let j = choose|j: int| 0 <= j < before.len() && before[j] == key@;
                        distinct_entries_get_distinct_keys(N as nat, i as nat, j as nat);
                    }
                    assert(r.keys() =~= entry_keys(N as nat, (i + 1) as nat));
                } else {
                    let j = (i as nat % key_span(N as nat)) as int;
                    assert(before[j] == key@);
                    assert(r.keys() =~= entry_keys(N as nat, (i + 1) as nat));
                }
            }
            i = i + 1;
        }
        observe(&r);
        r
    }
}

} // verus!
