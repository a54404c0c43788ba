//! The shell's job table: a map from job ids to job records, kept as a
//! vector sorted by id so that listings come out in id order and the
//! smallest free id can be computed by one scan.

use vstd::prelude::*;

verus! {

/// One tracked job: its process-group id and the command line that
/// produced it.
pub struct JobEntry {
    pub pgid: usize,
    pub cmd: String,
}

/// Job table, sorted strictly by job id.
pub struct JobTable {
    entries: Vec<(usize, JobEntry)>,
}

/// Keys strictly increase along the sequence.
pub open spec fn sorted_by_key(s: Seq<(usize, JobEntry)>) -> bool {
    forall|i: int, j: int| 0 <= i < j < s.len() ==> (#[trigger] s[i]).0 < (#[trigger] s[j]).0
}

/// Some entry of `s` carries the key `k`.
pub open spec fn has_key(s: Seq<(usize, JobEntry)>, k: usize) -> bool {
    exists|i: int| 0 <= i < s.len() && (#[trigger] s[i]).0 == k
}

/// The index of the entry carrying key `k`.
pub open spec fn index_of_key(s: Seq<(usize, JobEntry)>, k: usize) -> int {
    choose|i: int| 0 <= i < s.len() && (#[trigger] s[i]).0 == k
}

/// The map the entry sequence denotes.
pub open spec fn map_of(s: Seq<(usize, JobEntry)>) -> Map<usize, JobEntry> {
    Map::new(|k: usize| has_key(s, k), |k: usize| s[index_of_key(s, k)].1)
}

impl View for JobTable {
    type V = Map<usize, JobEntry>;

    closed spec fn view(&self) -> Map<usize, JobEntry> {
        map_of(self.entries@)
    }
}

impl JobTable {
    /// The entries in id order, for listings.
    pub closed spec fn entries_seq(&self) -> Seq<(usize, JobEntry)> {
        self.entries@
    }

    /// The table's internal ordering invariant.
    pub closed spec fn wf(&self) -> bool {
        sorted_by_key(self.entries@)
    }

    /// Every entry is present in the map view, and every key of the map
    /// view is carried by some entry.
    pub proof fn lemma_view(&self)
        requires
            self.wf(),
        ensures
            forall|i: int|
                0 <= i < self.entries_seq().len() ==> self@.contains_key(
                    (#[trigger] self.entries_seq()[i]).0,
                ) && self@[self.entries_seq()[i].0] == self.entries_seq()[i].1,
            forall|k: usize| self@.contains_key(k) <==> has_key(self.entries_seq(), k),
            self@.dom().finite(),
    {
        let s = self.entries@;
        assert forall|i: int| 0 <= i < s.len() implies self@.contains_key((#[trigger] s[i]).0)
            && self@[s[i].0] == s[i].1 by {
            assert(has_key(s, s[i].0));
            let j = index_of_key(s, s[i].0);
            assert(0 <= j < s.len() && s[j].0 == s[i].0);
            assert(j == i);
        }
        assert(self@.dom().finite()) by {
            lemma_key_set_finite(s);
            assert(self@.dom() =~= Set::new(|k: usize| has_key(s, k)));
        }
    }

    pub fn new() -> (t: JobTable)
        ensures
            t.wf(),
            t@ == Map::<usize, JobEntry>::empty(),
            t.entries_seq().len() == 0,
    {
        let t = JobTable { entries: Vec::new() };
        proof {
            assert(t@ =~= Map::<usize, JobEntry>::empty());
        }
        t
    }

    pub fn len(&self) -> (n: usize)
        ensures
            n == self.entries_seq().len(),
    {
        self.entries.len()
    }

    pub fn is_empty(&self) -> (r: bool)
        ensures
            r <==> self@ == Map::<usize, JobEntry>::empty(),
            r <==> self.entries_seq().len() == 0,
    {
        let r = self.entries.len() == 0;
        proof {
            if r {
                assert(self@ =~= Map::<usize, JobEntry>::empty());
            } else {
                assert(has_key(self.entries@, self.entries@[0].0));
                assert(self@.contains_key(self.entries@[0].0));
            }
        }
        r
    }

    /// The id and record at position `i` of the id-ordered listing.
    pub fn at(&self, i: usize) -> (r: (usize, &JobEntry))
        requires
            i < self.entries_seq().len(),
        ensures
            r.0 == self.entries_seq()[i as int].0,
            *r.1 == self.entries_seq()[i as int].1,
    {
        let p = &self.entries[i];
        (p.0, &p.1)
    }

    pub fn contains_key(&self, k: usize) -> (r: bool)
        requires
            self.wf(),
        ensures
            r == self@.contains_key(k),
    {
        let mut i: usize = 0;
        while i < self.entries.len()
            invariant
                i <= self.entries@.len(),
                forall|j: int| 0 <= j < i ==> (#[trigger] self.entries@[j]).0 != k,
            decreases self.entries@.len() - i,
        {
            if self.entries[i].0 == k {
                proof {
                    assert(has_key(self.entries@, k));
                }
                return true;
            }
            i = i + 1;
        }
        proof {
            assert(!has_key(self.entries@, k));
        }
        false
    }

    pub fn get(&self, k: usize) -> (r: Option<&JobEntry>)
        requires
            self.wf(),
        ensures
            match r {
                Some(e) => self@.contains_key(k) && *e == self@[k],
                None => !self@.contains_key(k),
            },
    {
        let mut i: usize = 0;
        while i < self.entries.len()
            invariant
                self.wf(),
                i <= self.entries@.len(),
                forall|j: int| 0 <= j < i ==> (#[trigger] self.entries@[j]).0 != k,
            decreases self.entries@.len() - i,
        {
            if self.entries[i].0 == k {
                proof {
                    assert(has_key(self.entries@, k));
                    let j = index_of_key(self.entries@, k);
                    assert(self.entries@[j].0 == k);
                    assert(j == i) by {
                        if j < i as int {
                            assert(self.entries@[j].0 != k);
                        }
                        if j > i as int {
                            assert(self.entries@[i as int].0 < self.entries@[j].0);
                        }
                    }
                }
                return Some(&self.entries[i].1);
            }
            i = i + 1;
        }
        proof {
            assert(!has_key(self.entries@, k));
        }
        None
    }

    /// Inserts a fresh id, keeping the entries sorted.
    pub fn insert(&mut self, k: usize, e: JobEntry)
        requires
            old(self).wf(),
            !old(self)@.contains_key(k),
        ensures
            final(self).wf(),
            final(self)@ == old(self)@.insert(k, e),
            final(self).entries_seq().len() == old(self).entries_seq().len() + 1,
    {
        proof {
            assert(!has_key(self.entries@, k));
        }
        let mut p: usize = 0;
        while p < self.entries.len() && self.entries[p].0 < k
            invariant
                self.wf(),
                !has_key(self.entries@, k),
                p <= self.entries@.len(),
                forall|j: int| 0 <= j < p ==> (#[trigger] self.entries@[j]).0 < k,
            decreases self.entries@.len() - p,
        {
            p = p + 1;
        }
        proof {
            if p < self.entries@.len() {
                assert(self.entries@[p as int].0 != k) by {
                    assert(!has_key(self.entries@, k));
                }
                assert(self.entries@[p as int].0 > k);
            }
        }
        let ghost olds = self.entries@;
        self.entries.insert(p, (k, e));
        proof {
            let s = self.entries@;
            assert(s.len() == olds.len() + 1);
            assert(forall|j: int| 0 <= j < p ==> s[j] == olds[j]);
            assert(s[p as int] == (k, e));
            assert(forall|j: int| p < j < s.len() ==> s[j] == olds[j - 1]);
            assert(sorted_by_key(s)) by {
                assert forall|a: int, b: int| 0 <= a < b < s.len() implies (#[trigger] s[a]).0 < (
                #[trigger] s[b]).0 by {
                    if a < p && b < p {
                    } else if a == p && b > p {
                        assert(s[b] == olds[b - 1]);
                        assert(olds[b - 1].0 >= k) by {
                            if b - 1 > p {
                                assert(olds[p as int].0 < olds[b - 1].0);
                            }
                        }
                    } else if b == p {
                        assert(s[a] == olds[a]);
                    } else if a < p && b > p {
                        assert(olds[a].0 < k || true);
                        assert(olds[b - 1].0 > k || olds[b - 1].0 >= k) by {
                            if b - 1 == p {
                            } else {
                                assert(olds[p as int].0 < olds[b - 1].0);
                            }
                        }
                        assert(s[a].0 < k);
                        assert(s[b].0 >= k);
                    } else {
                        assert(a > p && b > p);
                        assert(s[a] == olds[a - 1] && s[b] == olds[b - 1]);
                    }
                }
            }
            assert forall|q: usize| #![auto] map_of(s).contains_key(q) == map_of(olds).insert(
                k,
                e,
            ).contains_key(q) by {
                lemma_map_of_insert_at(olds, s, p as int, k, e, q);
            }
            assert forall|q: usize| #![auto] map_of(s).contains_key(q) implies map_of(s)[q]
                == map_of(olds).insert(k, e)[q] by {
                lemma_map_of_insert_at(olds, s, p as int, k, e, q);
            }
            assert(map_of(s) =~= map_of(olds).insert(k, e));
            assert(self@ == old(self)@.insert(k, e));
        }
    }

    /// Removes an id, returning its record.
    pub fn remove(&mut self, k: usize) -> (r: Option<JobEntry>)
        requires
            old(self).wf(),
        ensures
            final(self).wf(),
            final(self)@ == old(self)@.remove(k),
            match r {
                Some(e) => old(self)@.contains_key(k) && e == old(self)@[k],
                None => !old(self)@.contains_key(k),
            },
    {
        let mut i: usize = 0;
        while i < self.entries.len()
            invariant
                self.wf(),
                *self == *old(self),
                i <= self.entries@.len(),
                forall|j: int| 0 <= j < i ==> (#[trigger] self.entries@[j]).0 != k,
            decreases self.entries@.len() - i,
        {
            if self.entries[i].0 == k {
                proof {
                    assert(has_key(self.entries@, k));
                    let j = index_of_key(self.entries@, k);
                    assert(j == i) by {
                        if j < i as int {
                            assert(self.entries@[j].0 != k);
                        }
                        if j > i as int {
                            assert(self.entries@[i as int].0 < self.entries@[j].0);
                        }
                    }
                }
                let ghost olds = self.entries@;
                let (_, e) = self.entries.remove(i);
                proof {
                    let s = self.entries@;
                    assert(forall|j: int| 0 <= j < i ==> s[j] == olds[j]);
                    assert(forall|j: int| i <= j < s.len() ==> s[j] == olds[j + 1]);
                    assert(sorted_by_key(s));
                    assert forall|q: usize| #![auto] map_of(s).contains_key(q) == map_of(
                        olds,
                    ).remove(k).contains_key(q) by {
                        lemma_map_of_remove_at(olds, s, i as int, k, q);
                    }
                    assert forall|q: usize| #![auto] map_of(s).contains_key(q) implies map_of(s)[q]
                        == map_of(olds).remove(k)[q] by {
                        lemma_map_of_remove_at(olds, s, i as int, k, q);
                    }
                    assert(map_of(s) =~= map_of(olds).remove(k));
                    assert(self@ == old(self)@.remove(k));
                }
                return Some(e);
            }
            i = i + 1;
        }
        proof {
            assert(!has_key(self.entries@, k));
            assert(!self@.contains_key(k));
            assert(self@ =~= old(self)@.remove(k)) by {
                assert(forall|q: usize|
                    #![auto]
                    self@.contains_key(q) == old(self)@.remove(k).contains_key(q));
            }
        }
        None
    }

    /// The smallest id not in the table. Ids are handed out smallest-free
    /// first, so a removed id is reused before any larger one.
    pub fn smallest_free(&self) -> (r: usize)
        requires
            self.wf(),
        ensures
            !self@.contains_key(r),
            forall|j: usize| j < r ==> self@.contains_key(j),
    {
        let n = self.entries.len();
        let mut i: usize = 0;
        while i < n
            invariant
                i <= n,
                n == self.entries@.len(),
                self.wf(),
                forall|j: int| 0 <= j < i ==> (#[trigger] self.entries@[j]).0 == j,
            decreases n - i,
        {
            if self.entries[i].0 != i {
                proof {
                    assert(self.entries@[i as int].0 > i) by {
                        if i > 0 {
                            assert(self.entries@[i - 1].0 < self.entries@[i as int].0);
                        }
                    }
                    assert(!has_key(self.entries@, i)) by {
                        if has_key(self.entries@, i) {
                            let j = index_of_key(self.entries@, i as usize);
                            assert(self.entries@[j].0 == i);
                            if j < i as int {
                                assert(self.entries@[j].0 == j);
                            } else if j > i as int {
                                assert(self.entries@[i as int].0 < self.entries@[j].0);
                            }
                        }
                    }
                    assert forall|q: usize| q < i implies self@.contains_key(q) by {
                        assert(self.entries@[q as int].0 == q);
                        assert(has_key(self.entries@, q));
                    }
                }
                return i;
            }
            i = i + 1;
        }
        proof {
            assert(!has_key(self.entries@, n)) by {
                if has_key(self.entries@, n as usize) {
                    let j = index_of_key(self.entries@, n as usize);
                    assert(self.entries@[j].0 == j);
                }
            }
            assert forall|q: usize| q < n implies self@.contains_key(q) by {
                assert(self.entries@[q as int].0 == q);
                assert(has_key(self.entries@, q));
            }
        }
        n
    }
}

/// The set of keys of an entry sequence is finite.
pub proof fn lemma_key_set_finite(s: Seq<(usize, JobEntry)>)
    ensures
        Set::new(|k: usize| has_key(s, k)).finite(),
    decreases s.len(),
{
    if s.len() == 0 {
        assert(Set::new(|k: usize| has_key(s, k)) =~= Set::<usize>::empty());
    } else {
        let t = s.drop_last();
        lemma_key_set_finite(t);
        assert(Set::new(|k: usize| has_key(s, k)) =~= Set::new(|k: usize| has_key(t, k)).insert(
            s.last().0,
        )) by {
            assert forall|k: usize| has_key(s, k) implies has_key(t, k) || k == s.last().0 by {
                let i = choose|i: int| 0 <= i < s.len() && (#[trigger] s[i]).0 == k;
                if i < s.len() - 1 {
                    assert(t[i] == s[i]);
                    assert(has_key(t, k));
                }
            }
            assert forall|k: usize| has_key(t, k) implies has_key(s, k) by {
                let i = choose|i: int| 0 <= i < t.len() && (#[trigger] t[i]).0 == k;
                assert(s[i] == t[i]);
            }
            assert(has_key(s, s.last().0));
        }
    }
}

/// Relates the maps of an entry sequence before and after inserting a
/// fresh key `k` at position `p`.
proof fn lemma_map_of_insert_at(
    olds: Seq<(usize, JobEntry)>,
    s: Seq<(usize, JobEntry)>,
    p: int,
    k: usize,
    e: JobEntry,
    q: usize,
)
    requires
        sorted_by_key(olds),
        sorted_by_key(s),
        !has_key(olds, k),
        0 <= p <= olds.len(),
        s.len() == olds.len() + 1,
        forall|j: int| 0 <= j < p ==> s[j] == olds[j],
        s[p] == (k, e),
        forall|j: int| p < j < s.len() ==> s[j] == olds[j - 1],
    ensures
        map_of(s).contains_key(q) == map_of(olds).insert(k, e).contains_key(q),
        map_of(s).contains_key(q) ==> map_of(s)[q] == map_of(olds).insert(k, e)[q],
{
    if q == k {
        assert(has_key(s, k));
        let j = index_of_key(s, k);
        assert(j == p) by {
            if j != p {
                let jo = if j < p {
                    j
                } else {
                    j - 1
                };
                assert(olds[jo].0 == k);
                assert(has_key(olds, k));
            }
        }
        assert(map_of(s)[q] == e);
    } else {
        if has_key(s, q) {
            let j = index_of_key(s, q);
            assert(j != p);
            let jo = if j < p {
                j
            } else {
                j - 1
            };
            assert(olds[jo].0 == q);
            assert(has_key(olds, q));
            let jo2 = index_of_key(olds, q);
            assert(jo2 == jo) by {
                if jo2 != jo {
                    assert(olds[jo2].0 == olds[jo].0);
                    if jo2 < jo {
                        assert(olds[jo2].0 < olds[jo].0);
                    } else {
                        assert(olds[jo].0 < olds[jo2].0);
                    }
                }
            }
            assert(map_of(s)[q] == map_of(olds)[q]);
        }
        if has_key(olds, q) {
            let j = index_of_key(olds, q);
            let js = if j < p {
                j
            } else {
                j + 1
            };
            assert(s[js].0 == q);
            assert(has_key(s, q));
        }
    }
}

/// Relates the maps of an entry sequence before and after removing the
/// entry at position `p`, which carries key `k`.
proof fn lemma_map_of_remove_at(
    olds: Seq<(usize, JobEntry)>,
    s: Seq<(usize, JobEntry)>,
    p: int,
    k: usize,
    q: usize,
)
    requires
        sorted_by_key(olds),
        sorted_by_key(s),
        0 <= p < olds.len(),
        olds[p].0 == k,
        s.len() == olds.len() - 1,
        forall|j: int| 0 <= j < p ==> s[j] == olds[j],
        forall|j: int| p <= j < s.len() ==> s[j] == olds[j + 1],
    ensures
        map_of(s).contains_key(q) == map_of(olds).remove(k).contains_key(q),
        map_of(s).contains_key(q) ==> map_of(s)[q] == map_of(olds).remove(k)[q],
{
    if q == k {
        assert(!has_key(s, k)) by {
            if has_key(s, k) {
                let j = index_of_key(s, k);
                let jo = if j < p {
                    j
                } else {
                    j + 1
                };
                assert(olds[jo].0 == k);
                assert(jo != p);
                if jo < p {
                    assert(olds[jo].0 < olds[p].0);
                } else {
                    assert(olds[p].0 < olds[jo].0);
                }
            }
        }
    } else {
        if has_key(s, q) {
            let j = index_of_key(s, q);
            let jo = if j < p {
                j
            } else {
                j + 1
            };
            assert(olds[jo].0 == q);
            assert(has_key(olds, q));
            let jo2 = index_of_key(olds, q);
            assert(jo2 == jo) by {
                if jo2 < jo {
                    assert(olds[jo2].0 < olds[jo].0);
                } else if jo2 > jo {
                    assert(olds[jo].0 < olds[jo2].0);
                }
            }
            assert(map_of(s)[q] == map_of(olds)[q]);
        }
        if has_key(olds, q) {
            let j = index_of_key(olds, q);
            assert(j != p) by {
                assert(olds[j].0 == q && olds[p].0 == k);
            }
            let js = if j < p {
                j
            } else {
                j - 1
            };
            assert(s[js].0 == q);
            assert(has_key(s, q));
        }
    }
}

} // verus!
