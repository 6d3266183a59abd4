//! The per-family store of overhead records, kept ordered by key.
use vstd::prelude::*;
use crate::sweep::{measure_overhead, overhead_spec, OverheadError};
use crate::tracker::Tracker;

verus! {

/// A record key: entry count, key size and value size, in bytes.
pub type RecordKey = (usize, usize, usize);

/// A record: its key and the overhead measured for it.
pub type Record = (RecordKey, usize);

/// The natural order of record keys: by count, then key size, then value size.
pub open spec fn key_lt(a: RecordKey, b: RecordKey) -> bool {
    a.0 < b.0 || (a.0 == b.0 && (a.1 < b.1 || (a.1 == b.1 && a.2 < b.2)))
}

/// Whether `a` comes before `b` in the natural order of keys.
pub fn key_less(a: RecordKey, b: RecordKey) -> (r: bool)
    ensures
        r == key_lt(a, b),
{
    a.0 < b.0 || (a.0 == b.0 && (a.1 < b.1 || (a.1 == b.1 && a.2 < b.2)))
}

/// Whether two keys are equal.
pub fn key_equal(a: RecordKey, b: RecordKey) -> (r: bool)
    ensures
        r == (a == b),
{
    a.0 == b.0 && a.1 == b.1 && a.2 == b.2
}

/// The records stand in strictly ascending key order (so no key repeats).
pub open spec fn strictly_ascending(s: Seq<Record>) -> bool {
    forall|i: int, j: int| 0 <= i < j < s.len() ==> key_lt(#[trigger] s[i].0, #[trigger] s[j].0)
}

/// Whether some record of `s` has key `k`.
pub open spec fn has_key(s: Seq<Record>, k: RecordKey) -> bool {
    exists|i: int| 0 <= i < s.len() && #[trigger] s[i].0 == k
}

/// The records as a map from key to overhead.
pub open spec fn as_map(s: Seq<Record>) -> Map<RecordKey, usize> {
    Map::new(
        |k: RecordKey| has_key(s, k),
        |k: RecordKey| s[choose|i: int| 0 <= i < s.len() && #[trigger] s[i].0 == k].1,
    )
}

/// In ascending records the record at `i` is what the map holds for its key.
pub proof fn lemma_as_map_at(s: Seq<Record>, i: int)
    requires
        strictly_ascending(s),
        0 <= i < s.len(),
    ensures
        as_map(s).contains_key(s[i].0),
        as_map(s)[s[i].0] == s[i].1,
{
    assert(has_key(s, s[i].0));
    let j = choose|j: int| 0 <= j < s.len() && #[trigger] s[j].0 == s[i].0;
    if j < i {
        assert(key_lt(s[j].0, s[i].0));
    } else if i < j {
        assert(key_lt(s[i].0, s[j].0));
    }
}

/// A measured construction: the entry count, then the counter readings taken
/// right before and right after it.
pub type Reading = (usize, usize, usize);

/// What the measurement `rd` of entries of `el_size` payload bytes gives.
pub open spec fn reading_outcome(rd: Reading, el_size: int) -> Result<usize, OverheadError> {
    overhead_spec(rd.1 as int, rd.2 as int, rd.0 as int, el_size)
}

/// The records after a sweep over `readings` for keys of `k_sz` and values of
/// `v_sz` bytes, starting from `m`: each measurement that gives an overhead
/// stores it under its key, later ones replacing earlier ones; the others
/// leave the records as they were.
pub open spec fn sweep_spec(
    m: Map<RecordKey, usize>,
    k_sz: usize,
    v_sz: usize,
    readings: Seq<Reading>,
) -> Map<RecordKey, usize>
    decreases readings.len(),
{
    if readings.len() == 0 {
        m
    } else {
        let prev = sweep_spec(m, k_sz, v_sz, readings.drop_last());
        let rd = readings.last();
        match reading_outcome(rd, k_sz + v_sz) {
            Ok(o) => prev.insert((rd.0, k_sz, v_sz), o),
            Err(_) => prev,
        }
    }
}

/// A sweep depends on what each construction cost alone: two sweeps from the
/// same records, over readings with the same entry counts and the same
/// differences between the readings, give the same records, whatever the
/// counter stood at.
pub proof fn sweep_depends_on_costs_only(
    m: Map<RecordKey, usize>,
    k_sz: usize,
    v_sz: usize,
    a: Seq<Reading>,
    b: Seq<Reading>,
)
    requires
        a.len() == b.len(),
        forall|i: int|
            0 <= i < a.len() ==> (#[trigger] a[i]).0 == (#[trigger] b[i]).0 && a[i].2 - a[i].1 == b[i].2
                - b[i].1,
    ensures
        sweep_spec(m, k_sz, v_sz, a) == sweep_spec(m, k_sz, v_sz, b),
    decreases a.len(),
{
    if a.len() > 0 {
        let n = a.len() - 1;
        assert(a[n].0 == b[n].0);
        sweep_depends_on_costs_only(m, k_sz, v_sz, a.drop_last(), b.drop_last());
    }
}

/// The overhead records of one subject family, under its name.
///
/// The records are a vector kept in ascending key order, an invariant (`wf`)
/// that every method preserves, rather than a `BTreeMap`. vstd specifies what
/// a `BTreeMap` holds, but gives the order in which it is walked only through
/// its prophetic iterator specification, over a sequence of references;
/// keeping the order in the store's own invariant lets `export` and the table
/// text state and prove their order directly.
pub struct TestResults {
    res: Vec<Record>,
    name: String,
}

impl TestResults {
    /// The records, in ascending key order.
    pub closed spec fn records(&self) -> Seq<Record> {
        self.res@
    }

    /// The family's name.
    pub closed spec fn name(&self) -> Seq<char> {
        self.name@
    }

    /// The records as a map from key to overhead.
    pub open spec fn overheads(&self) -> Map<RecordKey, usize> {
        as_map(self.records())
    }

    /// The store keeps its records in strictly ascending key order.
    pub open spec fn wf(&self) -> bool {
        strictly_ascending(self.records())
    }

    /// An empty store for the family `name`.
    pub fn new(name: String) -> (r: TestResults)
        ensures
            r.wf(),
            r.records() == Seq::<Record>::empty(),
            r.name() == name@,
    {
        TestResults { res: Vec::new(), name }
    }

    /// The family's name.
    pub fn family(&self) -> (r: &String)
        ensures
            r@ == self.name(),
    {
        &self.name
    }

    /// The records, in ascending key order.
    pub fn rows(&self) -> (r: &Vec<Record>)
        ensures
            r@ == self.records(),
    {
        &self.res
    }

    /// The number of records.
    pub fn len(&self) -> (r: usize)
        ensures
            r == self.records().len(),
    {
        self.res.len()
    }

    /// Records `ovh_size` under `key`, replacing what was there.
    pub fn insert(&mut self, key: RecordKey, ovh_size: usize)
        requires
            old(self).wf(),
        ensures
            final(self).wf(),
            final(self).overheads() == old(self).overheads().insert(key, ovh_size),
            final(self).name() == old(self).name(),
    {
        let ghost s = self.res@;
        let mut p: usize = 0;
        while p < self.res.len() && key_less(self.res[p].0, key)
            invariant
                self.res@ == s,
                strictly_ascending(s),
                0 <= p <= s.len(),
                forall|t: int| 0 <= t < p ==> key_lt(#[trigger] s[t].0, key),
            decreases s.len() - p,
        {
            p = p + 1;
        }
        if p < self.res.len() && key_equal(self.res[p].0, key) {
            self.res.set(p, (key, ovh_size));
            proof {
                let n = self.res@;
                assert(n == s.update(p as int, (key, ovh_size)));
                assert forall|i: int, j: int| 0 <= i < j < n.len() implies key_lt(
                    #[trigger] n[i].0,
                    #[trigger] n[j].0,
                ) by {
                    assert(key_lt(s[i].0, s[j].0));
                }
                assert forall|k: RecordKey| #[trigger]
                    as_map(n).contains_key(k) == as_map(s).insert(key, ovh_size).contains_key(
                        k,
                    ) by {
                    if has_key(n, k) {
                        let i = choose|i: int| 0 <= i < n.len() && #[trigger] n[i].0 == k;
                        if i != p {
                            assert(s[i].0 == k);
                        }
                    }
                    if has_key(s, k) {
                        let i = choose|i: int| 0 <= i < s.len() && #[trigger] s[i].0 == k;
                        assert(n[i].0 == k);
                    }
                    if k == key {
                        assert(n[p as int].0 == k);
                    }
                }
                assert forall|k: RecordKey| #[trigger]
                    as_map(n).contains_key(k) implies as_map(n)[k] == as_map(s).insert(
                        key,
                        ovh_size,
                    )[k] by {
                    let i = choose|i: int| 0 <= i < n.len() && #[trigger] n[i].0 == k;
                    lemma_as_map_at(n, i);
                    if i != p {
                        lemma_as_map_at(s, i);
                    }
                }
                assert(as_map(n) =~= as_map(s).insert(key, ovh_size));
            }
        } else {
            self.res.insert(p, (key, ovh_size));
            proof {
                let n = self.res@;
                assert(n == s.insert(p as int, (key, ovh_size)));
                if p < s.len() {
                    assert(key_lt(key, s[p as int].0));
                }
                assert forall|i: int, j: int| 0 <= i < j < n.len() implies key_lt(
                    #[trigger] n[i].0,
                    #[trigger] n[j].0,
                ) by {
                    if j < p {
                        assert(key_lt(s[i].0, s[j].0));
                    } else if j == p {
                        assert(key_lt(s[i].0, key));
                    } else if i < p {
                        assert(key_lt(s[i].0, key));
                        assert(key_lt(key, s[p as int].0));
                        if j - 1 > p {
                            assert(key_lt(s[p as int].0, s[j - 1].0));
                        }
                    } else if i == p {
                        assert(key_lt(key, s[p as int].0));
                        if j - 1 > p {
                            assert(key_lt(s[p as int].0, s[j - 1].0));
                        }
                    } else {
                        assert(key_lt(s[i - 1].0, s[j - 1].0));
                    }
                }
                assert forall|k: RecordKey| #[trigger]
                    as_map(n).contains_key(k) == as_map(s).insert(key, ovh_size).contains_key(
                        k,
                    ) by {
                    if has_key(n, k) {
                        let i = choose|i: int| 0 <= i < n.len() && #[trigger] n[i].0 == k;
                        if i < p {
                            assert(s[i].0 == k);
                        } else if i > p {
                            assert(s[i - 1].0 == k);
                        }
                    }
                    if has_key(s, k) {
                        let i = choose|i: int| 0 <= i < s.len() && #[trigger] s[i].0 == k;
                        if i < p {
                            assert(n[i].0 == k);
                        } else {
                            assert(n[i + 1].0 == k);
                        }
                    }
                    if k == key {
                        assert(n[p as int].0 == k);
                    }
                }
                assert forall|k: RecordKey| #[trigger]
                    as_map(n).contains_key(k) implies as_map(n)[k] == as_map(s).insert(
                        key,
                        ovh_size,
                    )[k] by {
                    let i = choose|i: int| 0 <= i < n.len() && #[trigger] n[i].0 == k;
                    lemma_as_map_at(n, i);
                    if i < p {
                        lemma_as_map_at(s, i);
                        assert(key_lt(s[i].0, key));
                    } else if i > p {
                        lemma_as_map_at(s, i - 1);
                        assert(key_lt(key, s[p as int].0));
                        if i - 1 > p {
                            assert(key_lt(s[p as int].0, s[i - 1].0));
                        }
                    }
                }
                assert(as_map(n) =~= as_map(s).insert(key, ovh_size));
            }
        }
    }

    /// Stores the outcome of one measured construction of `len` entries with
    /// keys of `k_sz` and values of `v_sz` bytes, whose counter readings were
    /// `counter_before` and `counter_after`. An anomaly is returned and
    /// leaves the records unchanged.
    pub fn record(
        &mut self,
        tracker: &Tracker,
        len: usize,
        k_sz: usize,
        v_sz: usize,
        counter_before: usize,
        counter_after: usize,
    ) -> (r: Result<usize, OverheadError>)
        requires
            old(self).wf(),
        ensures
            r == overhead_spec(
                counter_before as int,
                counter_after as int,
                len as int,
                k_sz + v_sz,
            ),
            final(self).wf(),
            final(self).name() == old(self).name(),
            r is Ok ==> final(self).overheads() == old(self).overheads().insert(
                (len, k_sz, v_sz),
                r->Ok_0,
            ),
            r is Err ==> final(self).records() == old(self).records(),
    {
        let outcome = match k_sz.checked_add(v_sz) {
            Some(el_size) => measure_overhead(tracker, counter_before, counter_after, len, el_size),
            None => {
                if counter_after < counter_before {
                    Err(OverheadError::CounterWentBack)
                } else {
                    proof {
                        assert(len as int * (k_sz + v_sz) >= 0) by (nonlinear_arith);
                        if len > 0 {
                            assert(len as int * (k_sz + v_sz) >= (k_sz + v_sz)) by (
                            nonlinear_arith)
                                requires
                                    len > 0,
                                    k_sz + v_sz >= 0,
                            ;
                        }
                    }
                    if len == 0 {
                        Ok(counter_after - counter_before)
                    } else {
                        Err(OverheadError::BelowPayload)
                    }
                }
            },
        };
        if let Ok(o) = outcome {
            self.insert((len, k_sz, v_sz), o);
        }
        outcome
    }

    /// Records a sweep: for each reading (entry count, counter before,
    /// counter after) of constructions with keys of `k_sz` and values of
    /// `v_sz` bytes, stores its overhead under its key. Returns the outcome
    /// of each reading, in order.
    pub fn run_tests(
        &mut self,
        tracker: &Tracker,
        k_sz: usize,
        v_sz: usize,
        readings: &Vec<Reading>,
    ) -> (r: Vec<Result<usize, OverheadError>>)
        requires
            old(self).wf(),
        ensures
            final(self).wf(),
            final(self).name() == old(self).name(),
            final(self).overheads() == sweep_spec(old(self).overheads(), k_sz, v_sz, readings@),
            r@.len() == readings@.len(),
            forall|i: int|
                0 <= i < r@.len() ==> #[trigger] r@[i] == reading_outcome(
                    readings@[i],
                    k_sz + v_sz,
                ),
    {
        let ghost m0 = self.overheads();
        let mut out: Vec<Result<usize, OverheadError>> = Vec::new();
        let mut i: usize = 0;
        while i < readings.len()
            invariant
                0 <= i <= readings@.len(),
                self.wf(),
                self.name() == old(self).name(),
                m0 == old(self).overheads(),
                self.overheads() == sweep_spec(m0, k_sz, v_sz, readings@.subrange(0, i as int)),
                out@.len() == i,
                forall|t: int|
                    0 <= t < i ==> #[trigger] out@[t] == reading_outcome(
                        readings@[t],
                        k_sz + v_sz,
                    ),
            decreases readings@.len() - i,
        {
            let rd = readings[i];
            let ghost before = self.overheads();
            let o = self.record(tracker, rd.0, k_sz, v_sz, rd.1, rd.2);
            proof {
                let sub = readings@.subrange(0, i as int + 1);
                assert(sub.drop_last() =~= readings@.subrange(0, i as int));
                assert(sub.last() == rd);
            }
            out.push(o);
            i = i + 1;
        }
        assert(readings@.subrange(0, readings@.len() as int) =~= readings@);
        out
    }

    /// Hands out every record in ascending key order and empties the store.
    pub fn export(&mut self) -> (rows: Vec<Record>)
        requires
            old(self).wf(),
        ensures
            rows@ == old(self).records(),
            strictly_ascending(rows@),
            as_map(rows@) == old(self).overheads(),
            final(self).wf(),
            final(self).records() == Seq::<Record>::empty(),
            final(self).name() == old(self).name(),
    {
        let mut taken: Vec<Record> = Vec::new();
        std::mem::swap(&mut taken, &mut self.res);
        taken
    }
}

} // verus!
