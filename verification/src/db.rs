//! The visit database: an in-memory mapping from directory path to a
//! visit counter, modelled as a `Map<Seq<char>, int>`.
use vstd::prelude::*;

use crate::JumpError;

verus! {

/// The views of a sequence of stored entries: each path as its character
/// sequence, each counter unchanged.
pub open spec fn entry_views(s: Seq<(String, i32)>) -> Seq<(Seq<char>, i32)> {
    s.map_values(|e: (String, i32)| (e.0@, e.1))
}

/// No path occurs twice in the entry sequence.
pub open spec fn unique_keys(s: Seq<(Seq<char>, i32)>) -> bool {
    forall|i: int, j: int| 0 <= i < j < s.len() ==> (#[trigger] s[i]).0 != (#[trigger] s[j]).0
}

/// Every counter in the entry sequence is non-negative.
pub open spec fn nonneg_counts(s: Seq<(Seq<char>, i32)>) -> bool {
    forall|i: int| 0 <= i < s.len() ==> (#[trigger] s[i]).1 >= 0
}

/// The mapping an entry sequence denotes; a later entry for a path
/// overrides an earlier one.
pub open spec fn map_of(s: Seq<(Seq<char>, i32)>) -> Map<Seq<char>, int>
    decreases s.len(),
{
    if s.len() == 0 {
        Map::empty()
    } else {
        map_of(s.drop_last()).insert(s.last().0, s.last().1 as int)
    }
}

/// The visit count a mapping gives to a path: its entry, or 0 if absent.
pub open spec fn count_of(m: Map<Seq<char>, int>, p: Seq<char>) -> int {
    if m.dom().contains(p) {
        m[p]
    } else {
        0
    }
}

/// What recording one visit to `p` does to a mapping.
pub open spec fn record_visit_step(m: Map<Seq<char>, int>, p: Seq<char>) -> Map<Seq<char>, int> {
    m.insert(p, count_of(m, p) + 1)
}

/// Recording a visit to `p` `n` times in a row.
pub open spec fn record_n(m: Map<Seq<char>, int>, p: Seq<char>, n: nat) -> Map<Seq<char>, int>
    decreases n,
{
    if n == 0 {
        m
    } else {
        record_visit_step(record_n(m, p, (n - 1) as nat), p)
    }
}

/// Recording a visit to `p` `n` times raises `p`'s count by exactly `n`,
/// starting from 0 if `p` was absent, and leaves every other path's count
/// unchanged.
pub proof fn lemma_record_visit_n(m: Map<Seq<char>, int>, p: Seq<char>, n: nat)
    ensures
        count_of(record_n(m, p, n), p) == count_of(m, p) + n,
        forall|q: Seq<char>| q != p ==> count_of(record_n(m, p, n), q) == count_of(m, q),
    decreases n,
{
    if n > 0 {
        lemma_record_visit_n(m, p, (n - 1) as nat);
    }
}

/// A path is in the mapping of an entry sequence exactly when some entry
/// carries it.
pub proof fn lemma_map_of_dom(s: Seq<(Seq<char>, i32)>)
    ensures
        forall|k: Seq<char>|
            #[trigger] map_of(s).dom().contains(k) <==> exists|j: int|
                0 <= j < s.len() && (#[trigger] s[j]).0 == k,
    decreases s.len(),
{
    if s.len() > 0 {
        lemma_map_of_dom(s.drop_last());
        let d = s.drop_last();
        assert forall|k: Seq<char>| #[trigger] map_of(s).dom().contains(k) implies exists|j: int|
            0 <= j < s.len() && (#[trigger] s[j]).0 == k by {
            if k == s.last().0 {
                assert((s[s.len() - 1]).0 == k);
            } else {
                assert(map_of(d).dom().contains(k));
                let j = choose|j: int| 0 <= j < d.len() && (#[trigger] d[j]).0 == k;
                assert(s[j] == d[j]);
                assert((s[j]).0 == k);
            }
        }
        assert forall|k: Seq<char>|
            (exists|j: int| 0 <= j < s.len() && (#[trigger] s[j]).0 == k)
            implies #[trigger] map_of(s).dom().contains(k) by {
            let j = choose|j: int| 0 <= j < s.len() && (#[trigger] s[j]).0 == k;
            if j == s.len() - 1 {
                assert(map_of(s).dom().contains(s.last().0));
            } else {
                assert(d[j] == s[j]);
                assert((d[j]).0 == k);
                assert(map_of(d).dom().contains(k));
            }
        }
    }
}

/// In an entry sequence without repeated paths, the mapping gives entry
/// `i`'s path its counter.
pub proof fn lemma_map_of_get(s: Seq<(Seq<char>, i32)>, i: int)
    requires
        unique_keys(s),
        0 <= i < s.len(),
    ensures
        map_of(s).dom().contains(s[i].0),
        map_of(s)[s[i].0] == s[i].1 as int,
    decreases s.len(),
{
    if i < s.len() - 1 {
        assert(unique_keys(s.drop_last())) by {
            assert forall|x: int, y: int| 0 <= x < y < s.drop_last().len() implies (
            #[trigger] s.drop_last()[x]).0 != (#[trigger] s.drop_last()[y]).0 by {
                assert(s[x] == s.drop_last()[x] && s[y] == s.drop_last()[y]);
            }
        }
        lemma_map_of_get(s.drop_last(), i);
        assert(s.drop_last()[i] == s[i]);
        assert(s[i].0 != s.last().0);
    }
}

/// Replacing entry `i`'s counter updates the mapping at entry `i`'s path
/// and nowhere else.
pub proof fn lemma_map_of_update(s: Seq<(Seq<char>, i32)>, i: int, k: Seq<char>, v: i32)
    requires
        unique_keys(s),
        0 <= i < s.len(),
        s[i].0 == k,
    ensures
        map_of(s.update(i, (k, v))) == map_of(s).insert(k, v as int),
    decreases s.len(),
{
    let t = s.update(i, (k, v));
    if i == s.len() - 1 {
        assert(t.drop_last() =~= s.drop_last());
        assert(t.last() == (k, v));
        assert(map_of(s.drop_last()).insert(k, s.last().1 as int).insert(k, v as int) =~= map_of(
            s.drop_last(),
        ).insert(k, v as int));
    } else {
        assert(unique_keys(s.drop_last())) by {
            assert forall|x: int, y: int| 0 <= x < y < s.drop_last().len() implies (
            #[trigger] s.drop_last()[x]).0 != (#[trigger] s.drop_last()[y]).0 by {
                assert(s[x] == s.drop_last()[x] && s[y] == s.drop_last()[y]);
            }
        }
        assert(s.drop_last()[i] == s[i]);
        lemma_map_of_update(s.drop_last(), i, k, v);
        assert(t.drop_last() =~= s.drop_last().update(i, (k, v)));
        assert(t.last() == s.last());
        assert(s[i] == s.drop_last()[i]);
        assert(k != s.last().0);
        assert(map_of(s.drop_last()).insert(k, v as int).insert(s.last().0, s.last().1 as int)
            =~= map_of(s.drop_last()).insert(s.last().0, s.last().1 as int).insert(k, v as int));
    }
}

/// The visit database: each known directory path with its visit counter.
pub struct Database {
    pub(crate) entries: Vec<(String, i32)>,
}

impl View for Database {
    type V = Map<Seq<char>, int>;

    open spec fn view(&self) -> Map<Seq<char>, int> {
        map_of(self.entries_seq())
    }
}

impl Database {
    /// The stored entries, in storage order.
    pub closed spec fn entries_seq(&self) -> Seq<(Seq<char>, i32)> {
        entry_views(self.entries@)
    }

    /// Well-formed: no path stored twice, no negative counter.
    pub open spec fn wf(&self) -> bool {
        unique_keys(self.entries_seq()) && nonneg_counts(self.entries_seq())
    }

    /// An empty database.
    pub fn new() -> (d: Database)
        ensures
            d.wf(),
            d@ == Map::<Seq<char>, int>::empty(),
            d.entries_seq() == Seq::<(Seq<char>, i32)>::empty(),
    {
        let d = Database { entries: Vec::new() };
        proof {
            assert(d.entries_seq() =~= Seq::<(Seq<char>, i32)>::empty());
        }
        d
    }

    /// Removes every entry.
    pub fn reset(&mut self)
        ensures
            final(self).wf(),
            final(self)@ == Map::<Seq<char>, int>::empty(),
            final(self).entries_seq() == Seq::<(Seq<char>, i32)>::empty(),
    {
        self.entries.clear();
        proof {
            assert(self.entries_seq() =~= Seq::<(Seq<char>, i32)>::empty());
        }
    }

    /// How many entries the database holds.
    pub fn num_entries(&self) -> (n: usize)
        ensures
            n == self.entries_seq().len(),
    {
        self.entries.len()
    }

    /// The path of entry `i`.
    pub fn key_at(&self, i: usize) -> (k: &String)
        requires
            i < self.entries_seq().len(),
        ensures
            k@ == self.entries_seq()[i as int].0,
    {
        &self.entries[i].0
    }

    /// The counter of entry `i`.
    pub fn count_at(&self, i: usize) -> (c: i32)
        requires
            i < self.entries_seq().len(),
        ensures
            c == self.entries_seq()[i as int].1,
    {
        self.entries[i].1
    }

    /// The visit count recorded for `path`: its counter, or 0 if unknown.
    pub fn count(&self, path: &str) -> (c: i32)
        requires
            self.wf(),
        ensures
            c as int == count_of(self@, path@),
            c >= 0,
    {
        proof {
            lemma_map_of_dom(self.entries_seq());
        }
        let n = self.entries.len();
        let p = path.to_owned();
        let mut i: usize = 0;
        while i < n
            invariant
                self.wf(),
                n == self.entries_seq().len(),
                0 <= i <= n,
                p@ == path@,
                forall|j: int| 0 <= j < i ==> (#[trigger] self.entries_seq()[j]).0 != path@,
            decreases n - i,
        {
            if self.entries[i].0 == p {
                proof {
                    lemma_map_of_get(self.entries_seq(), i as int);
                }
                return self.entries[i].1;
            }
            i = i + 1;
        }
        assert(!self@.dom().contains(path@));
        0
    }

    /// Stores counter `c` for `path`, replacing any earlier entry.
    fn store(&mut self, path: &str, c: i32)
        requires
            old(self).wf(),
            c >= 0,
        ensures
            final(self).wf(),
            final(self)@ == old(self)@.insert(path@, c as int),
    {
        let n = self.entries.len();
        let p = path.to_owned();
        let mut i: usize = 0;
        while i < n
            invariant
                self.wf(),
                self == old(self),
                c >= 0,
                n == self.entries_seq().len(),
                0 <= i <= n,
                p@ == path@,
                forall|j: int| 0 <= j < i ==> (#[trigger] self.entries_seq()[j]).0 != path@,
            decreases n - i,
        {
            if self.entries[i].0 == p {
                let ghost s_old = self.entries_seq();
                assert(s_old[i as int].0 == path@);
                self.entries[i] = (p, c);
                proof {
                    let s_new = s_old.update(i as int, (path@, c));
                    assert(self.entries_seq() =~= s_new);
                    lemma_map_of_update(s_old, i as int, path@, c);
                    assert forall|x: int, y: int| 0 <= x < y < s_new.len() implies (
                    #[trigger] s_new[x]).0 != (#[trigger] s_new[y]).0 by {
                        assert(s_old[x].0 != s_old[y].0);
                    }
                    assert forall|x: int| 0 <= x < s_new.len() implies (#[trigger] s_new[x]).1
                        >= 0 by {
                        if x == i as int {
                            assert(s_new[x] == (path@, c));
                        } else {
                            assert(s_new[x] == s_old[x]);
                            assert(s_old[x].1 >= 0);
                        }
                    }
                }
                return ;
            }
            i = i + 1;
        }
        let ghost s_old = self.entries_seq();
        self.entries.push((p, c));
        proof {
            assert(self.entries_seq() =~= s_old.push((path@, c)));
            assert(self.entries_seq().drop_last() =~= s_old);
            assert forall|x: int, y: int| 0 <= x < y < self.entries_seq().len() implies (
            #[trigger] self.entries_seq()[x]).0 != (#[trigger] self.entries_seq()[y]).0 by {
                if y < self.entries_seq().len() - 1 {
                    assert(s_old[x] == self.entries_seq()[x] && s_old[y] == self.entries_seq()[y]);
                } else {
                    assert(self.entries_seq()[x] == s_old[x]);
                }
            }
        }
    }

    /// Records one visit to `path`: its count rises by exactly 1, from 0 if
    /// `path` was unknown.
    pub fn record_visit(&mut self, path: &str)
        requires
            old(self).wf(),
            count_of(old(self)@, path@) < i32::MAX as int,
        ensures
            final(self).wf(),
            final(self)@ == record_visit_step(old(self)@, path@),
    {
        let c = self.count(path);
        self.store(path, c + 1);
    }

    /// Builds a database from decoded entries; a later entry for a path
    /// overrides an earlier one, and a negative counter is rejected as
    /// corrupt.
    pub fn from_entries(entries: &Vec<(String, i32)>) -> (r: Result<Database, JumpError>)
        ensures
            r is Ok <==> nonneg_counts(entry_views(entries@)),
            r is Ok ==> (r->Ok_0).wf() && (r->Ok_0)@ == map_of(entry_views(entries@)),
            r is Err ==> r->Err_0 == JumpError::CorruptDatabase,
    {
        let ghost all = entry_views(entries@);
        let mut d = Database::new();
        let n = entries.len();
        let mut i: usize = 0;
        proof {
            assert(all.subrange(0, 0) =~= Seq::<(Seq<char>, i32)>::empty());
        }
        while i < n
            invariant
                d.wf(),
                n == entries@.len(),
                all == entry_views(entries@),
                0 <= i <= n,
                d@ == map_of(all.subrange(0, i as int)),
                forall|j: int| 0 <= j < i ==> (#[trigger] all[j]).1 >= 0,
            decreases n - i,
        {
            let c = entries[i].1;
            if c < 0 {
                assert(all[i as int].1 < 0);
                return Err(JumpError::CorruptDatabase);
            }
            d.store(entries[i].0.as_str(), c);
            proof {
                let pre = all.subrange(0, i as int);
                let post = all.subrange(0, i as int + 1);
                assert(post.drop_last() =~= pre);
                assert(post.last() == all[i as int]);
            }
            i = i + 1;
        }
        proof {
            assert(all.subrange(0, n as int) =~= all);
        }
        Ok(d)
    }
}

} // verus!
