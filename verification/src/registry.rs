//! The string-keyed handle tables of the event loop: the connection
//! registry (peer identifier to connection handle), the pending-response
//! table (request identifier to reply stream), and the open-stream table
//! (stream identifier to its send half) are all instances of one table that
//! holds at most one entry per key.  Handles are opaque numbers that the
//! unverified shell maps to live transport objects.
use vstd::prelude::*;
use vstd::pervasive::VecAdditionalExecFns;

verus! {

/// A table from string keys to numeric handles, with at most one entry per
/// key.
pub struct HandleTable {
    keys: Vec<String>,
    vals: Vec<u64>,
}

impl HandleTable {
    /// The keys, as character sequences, in insertion order.
    pub closed spec fn key_seq(self) -> Seq<Seq<char>> {
        self.keys@.map_values(|s: String| s@)
    }

    /// The handles, in insertion order.
    pub closed spec fn val_seq(self) -> Seq<u64> {
        self.vals@
    }

    /// Number of entries.
    pub open spec fn spec_len(self) -> nat {
        self.key_seq().len()
    }

    /// Well-formed: keys and handles line up, and no key occurs twice.
    pub closed spec fn wf(self) -> bool {
        &&& self.keys@.len() == self.vals@.len()
        &&& forall|i: int, j: int|
            0 <= i < j < self.key_seq().len() ==> #[trigger] self.key_seq()[i]
                != #[trigger] self.key_seq()[j]
    }

    /// True when `k` is a key of the table.
    pub closed spec fn contains_key(self, k: Seq<char>) -> bool {
        exists|i: int| 0 <= i < self.key_seq().len() && self.key_seq()[i] == k
    }

    /// The handle stored under `k`, when `k` is a key.
    pub closed spec fn value_of(self, k: Seq<char>) -> u64 {
        let i = choose|i: int| 0 <= i < self.key_seq().len() && self.key_seq()[i] == k;
        self.val_seq()[i]
    }

    /// With no key repeated, the handle beside any occurrence of `k` is the
    /// handle of `k`.
    proof fn lemma_value_at(self, i: int)
        requires
            self.wf(),
            0 <= i < self.key_seq().len(),
        ensures
            self.value_of(self.key_seq()[i]) == self.val_seq()[i],
            self.contains_key(self.key_seq()[i]),
    {
        let k = self.key_seq()[i];
        let j = choose|j: int| 0 <= j < self.key_seq().len() && self.key_seq()[j] == k;
        if i != j {
            assert(self.key_seq()[i] != self.key_seq()[j] || self.key_seq()[j]
                != self.key_seq()[i]);
        }
    }

    pub fn new() -> (r: HandleTable)
        ensures
            r.wf(),
            r.spec_len() == 0,
            forall|k: Seq<char>| !r.contains_key(k),
    {
        HandleTable { keys: Vec::new(), vals: Vec::new() }
    }

    pub fn len(&self) -> (r: usize)
        ensures
            r == self.spec_len(),
    {
        self.keys.len()
    }

    /// The position of `k`, if present.
    fn find(&self, k: &String) -> (r: Option<usize>)
        ensures
            match r {
                Some(i) => i < self.key_seq().len() && self.key_seq()[i as int] == k@,
                None => !self.contains_key(k@),
            },
    {
        let mut i: usize = 0;
        while i < self.keys.len()
            invariant
                i <= self.key_seq().len(),
                forall|j: int| 0 <= j < i ==> #[trigger] self.key_seq()[j] != k@,
            decreases self.key_seq().len() - i,
        {
            if self.keys[i].eq(k) {
                return Some(i);
            }
            i = i + 1;
        }
        None
    }

    /// The handle stored under `k`, if any.
    pub fn get(&self, k: &String) -> (r: Option<u64>)
        requires
            self.wf(),
        ensures
            match r {
                Some(v) => self.contains_key(k@) && v == self.value_of(k@),
                None => !self.contains_key(k@),
            },
    {
        match self.find(k) {
            Some(i) => {
                proof {
                    self.lemma_value_at(i as int);
                }
                Some(self.vals[i])
            },
            None => None,
        }
    }

    /// Insert `v` under `k`.  A key already present keeps a single entry:
    /// the old handle is replaced and returned, so the caller can close the
    /// displaced connection.
    pub fn insert(&mut self, k: String, v: u64) -> (displaced: Option<u64>)
        requires
            old(self).wf(),
        ensures
            final(self).wf(),
            final(self).contains_key(k@),
            final(self).value_of(k@) == v,
            forall|k2: Seq<char>|
                k2 != k@ ==> #[trigger] final(self).contains_key(k2) == old(self).contains_key(k2),
            forall|k2: Seq<char>|
                k2 != k@ && old(self).contains_key(k2) ==> #[trigger] final(self).value_of(k2)
                    == old(self).value_of(k2),
            match displaced {
                Some(w) => old(self).contains_key(k@) && w == old(self).value_of(k@) && final(self).spec_len() == old(self).spec_len(),
                None => !old(self).contains_key(k@) && final(self).spec_len() == old(self).spec_len() + 1,
            },
    {
        match self.find(&k) {
            Some(i) => {
                let w = self.vals[i];
                proof {
                    self.lemma_value_at(i as int);
                }
                let ghost before = *self;
                self.vals.set(i, v);
                proof {
                    assert(self.key_seq() =~= before.key_seq());
                    self.lemma_value_at(i as int);
                    assert forall|k2: Seq<char>| k2 != k@ && before.contains_key(k2) implies #[trigger]
                        self.value_of(k2) == before.value_of(k2) by {
                        let j = choose|j: int|
                            0 <= j < before.key_seq().len() && before.key_seq()[j] == k2;
                        assert(j != i);
                        before.lemma_value_at(j);
                        self.lemma_value_at(j);
                    }
                }
                Some(w)
            },
            None => {
                let ghost before = *self;
                self.keys.push(k);
                self.vals.push(v);
                proof {
                    assert(self.key_seq() =~= before.key_seq().push(self.keys@.last()@));
                    let n = before.key_seq().len() as int;
                    assert forall|i: int, j: int|
                        0 <= i < j < self.key_seq().len() implies #[trigger] self.key_seq()[i]
                        != #[trigger] self.key_seq()[j] by {
                        if j < n {
                        } else {
                            assert(self.key_seq()[j] == self.keys@.last()@);
                            assert(!before.contains_key(self.keys@.last()@));
                        }
                    }
                    self.lemma_value_at(n);
                    assert forall|k2: Seq<char>| k2 != k@ implies #[trigger] self.contains_key(k2)
                        == before.contains_key(k2) by {
                        if self.contains_key(k2) {
                            let j = choose|j: int|
                                0 <= j < self.key_seq().len() && self.key_seq()[j] == k2;
                            assert(j < n);
                            assert(before.key_seq()[j] == k2);
                        }
                        if before.contains_key(k2) {
                            let j0 = choose|j0: int|
                                0 <= j0 < before.key_seq().len() && before.key_seq()[j0] == k2;
                            assert(self.key_seq()[j0] == k2);
                        }
                    }
                    assert forall|k2: Seq<char>| k2 != k@ && before.contains_key(k2) implies #[trigger]
                        self.value_of(k2) == before.value_of(k2) by {
                        let j = choose|j: int|
                            0 <= j < before.key_seq().len() && before.key_seq()[j] == k2;
                        before.lemma_value_at(j);
                        self.lemma_value_at(j);
                    }
                }
                None
            },
        }
    }

    /// Remove the entry under `k`, returning its handle; absent keys are a
    /// no-op.
    pub fn remove(&mut self, k: &String) -> (r: Option<u64>)
        requires
            old(self).wf(),
        ensures
            final(self).wf(),
            !final(self).contains_key(k@),
            forall|k2: Seq<char>|
                k2 != k@ ==> #[trigger] final(self).contains_key(k2) == old(self).contains_key(k2),
            forall|k2: Seq<char>|
                k2 != k@ && old(self).contains_key(k2) ==> #[trigger] final(self).value_of(k2)
                    == old(self).value_of(k2),
            match r {
                Some(w) => old(self).contains_key(k@) && w == old(self).value_of(k@) && final(self).spec_len() + 1 == old(self).spec_len(),
                None => !old(self).contains_key(k@) && final(self).spec_len() == old(self).spec_len(),
            },
    {
        match self.find(k) {
            Some(i) => {
                proof {
                    self.lemma_value_at(i as int);
                }
                let ghost before = *self;
                self.keys.remove(i);
                let w = self.vals.remove(i);
                proof {
                    assert(self.key_seq() =~= before.key_seq().remove(i as int));
                    assert(self.val_seq() =~= before.val_seq().remove(i as int));
                    let n = self.key_seq().len() as int;
                    assert forall|a: int, b: int|
                        0 <= a < b < self.key_seq().len() implies #[trigger] self.key_seq()[a]
                        != #[trigger] self.key_seq()[b] by {
                        let a0 = if a < i { a } else { a + 1 };
                        let b0 = if b < i { b } else { b + 1 };
                        assert(self.key_seq()[a] == before.key_seq()[a0]);
                        assert(self.key_seq()[b] == before.key_seq()[b0]);
                    }
                    assert forall|j: int| 0 <= j < n implies #[trigger] self.key_seq()[j] != k@ by {
                        let j0 = if j < i { j } else { j + 1 };
                        assert(self.key_seq()[j] == before.key_seq()[j0]);
                        assert(j0 != i);
                    }
                    assert forall|k2: Seq<char>| k2 != k@ implies #[trigger] self.contains_key(k2)
                        == before.contains_key(k2) by {
                        if before.contains_key(k2) {
                            let j0 = choose|j0: int|
                                0 <= j0 < before.key_seq().len() && before.key_seq()[j0] == k2;
                            assert(j0 != i);
                            let j = if j0 < i { j0 } else { j0 - 1 };
                            assert(self.key_seq()[j] == before.key_seq()[j0]);
                        }
                        if self.contains_key(k2) {
                            let j = choose|j: int|
                                0 <= j < self.key_seq().len() && self.key_seq()[j] == k2;
                            let j0 = if j < i { j } else { j + 1 };
                            assert(before.key_seq()[j0] == self.key_seq()[j]);
                        }
                    }
                    assert forall|k2: Seq<char>| k2 != k@ && before.contains_key(k2) implies #[trigger]
                        self.value_of(k2) == before.value_of(k2) by {
                        let j0 = choose|j0: int|
                            0 <= j0 < before.key_seq().len() && before.key_seq()[j0] == k2;
                        assert(j0 != i);
                        let j = if j0 < i { j0 } else { j0 - 1 };
                        assert(self.key_seq()[j] == before.key_seq()[j0]);
                        assert(self.val_seq()[j] == before.val_seq()[j0]);
                        before.lemma_value_at(j0);
                        self.lemma_value_at(j);
                    }
                }
                Some(w)
            },
            None => None,
        }
    }

    /// Some handle of the table, if it is not empty; which entry it comes
    /// from is not specified, as iteration order never is.
    pub fn any_value(&self) -> (r: Option<u64>)
        requires
            self.wf(),
        ensures
            match r {
                Some(v) => self.spec_len() > 0 && (exists|k: Seq<char>|
                    self.contains_key(k) && #[trigger] self.value_of(k) == v),
                None => self.spec_len() == 0,
            },
    {
        if self.vals.len() > 0 {
            proof {
                self.lemma_value_at(0);
            }
            Some(self.vals[0])
        } else {
            None
        }
    }
}

/// Registry uniqueness: a well-formed table never holds two entries with
/// the same key, whatever sequence of inserts and removes built it — every
/// operation above requires and re-establishes `wf`.
pub proof fn lemma_registry_unique(t: HandleTable, i: int, j: int)
    requires
        t.wf(),
        0 <= i < t.key_seq().len(),
        0 <= j < t.key_seq().len(),
        t.key_seq()[i] == t.key_seq()[j],
    ensures
        i == j,
{
}

} // verus!
