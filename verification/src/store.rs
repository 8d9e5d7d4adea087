//! The aggregate store: path -> latest parsed suites.
//!
//! The store is a sequence of entries with pairwise-distinct paths; its
//! mathematical view is the finite map from each path to the suites of that
//! path's most recent parse. Re-parsing a path replaces its entry in full,
//! and removing an absent path is a no-op.

use vstd::prelude::*;

use crate::suite::SuiteResult;
use crate::suite::SuiteView;

verus! {

/// The unit the aggregate tracks: one report file's path and the suites its
/// most recent successful parse produced, in document order.
pub struct ReportFile {
    pub path: String,
    pub suites: Vec<SuiteResult>,
}

/// The mapping an entry sequence denotes: each entry's path to its suites.
pub open spec fn map_of(entries: Seq<ReportFile>) -> Map<Seq<char>, Seq<SuiteView>>
    decreases entries.len(),
{
    if entries.len() == 0 {
        Map::empty()
    } else {
        map_of(entries.drop_last()).insert(
            entries.last().path@,
            entries.last().suites.deep_view(),
        )
    }
}

/// Every suite of an entry sequence, flattened in entry order.
pub open spec fn flat_of(entries: Seq<ReportFile>) -> Seq<SuiteView>
    decreases entries.len(),
{
    if entries.len() == 0 {
        Seq::empty()
    } else {
        flat_of(entries.drop_last()) + entries.last().suites.deep_view()
    }
}

/// A key is in the map of an entry sequence exactly when some entry has it
/// as its path.
proof fn lemma_map_of_keys(entries: Seq<ReportFile>)
    ensures
        forall|k: Seq<char>|
            map_of(entries).contains_key(k) <==> exists|i: int|
                0 <= i < entries.len() && #[trigger] entries[i].path@ == k,
    decreases entries.len(),
{
    if entries.len() > 0 {
        let prev = entries.drop_last();
        lemma_map_of_keys(prev);
        assert forall|k: Seq<char>| map_of(entries).contains_key(k) implies exists|i: int|
            0 <= i < entries.len() && #[trigger] entries[i].path@ == k by {
            if k == entries.last().path@ {
                assert(entries[entries.len() - 1].path@ == k);
            } else {
                assert(map_of(prev).contains_key(k));
                let i = choose|i: int| 0 <= i < prev.len() && #[trigger] prev[i].path@ == k;
                assert(prev[i] == entries[i]);
                assert(entries[i].path@ == k);
            }
        }
        assert forall|k: Seq<char>|
            (exists|i: int|
                0 <= i < entries.len() && #[trigger] entries[i].path@ == k) implies map_of(
            entries,
        ).contains_key(k) by {
            let i = choose|i: int| 0 <= i < entries.len() && #[trigger] entries[i].path@ == k;
            if i < entries.len() - 1 {
                assert(prev[i] == entries[i]);
                assert(prev[i].path@ == k);
                assert(map_of(prev).contains_key(k));
            } else {
                assert(k == entries.last().path@);
            }
        }
    }
}

/// With pairwise-distinct paths, each entry's path maps to that entry's
/// suites.
proof fn lemma_map_of_values(entries: Seq<ReportFile>)
    requires
        forall|i: int, j: int|
            0 <= i < j < entries.len() ==> entries[i].path@ != entries[j].path@,
    ensures
        forall|i: int|
            0 <= i < entries.len() ==> map_of(entries).contains_key(#[trigger] entries[i].path@)
                && map_of(entries)[entries[i].path@] == entries[i].suites.deep_view(),
    decreases entries.len(),
{
    if entries.len() > 0 {
        lemma_map_of_values(entries.drop_last());
        assert forall|i: int| 0 <= i < entries.len() implies map_of(entries).contains_key(
            #[trigger] entries[i].path@,
        ) && map_of(entries)[entries[i].path@] == entries[i].suites.deep_view() by {
            if i < entries.len() - 1 {
                assert(entries.drop_last()[i] == entries[i]);
                assert(entries[i].path@ != entries.last().path@);
            }
        }
    }
}

/// With pairwise-distinct paths, removing the entry at `i` removes exactly
/// its path from the map.
proof fn lemma_map_of_remove(entries: Seq<ReportFile>, i: int)
    requires
        forall|a: int, b: int|
            0 <= a < b < entries.len() ==> entries[a].path@ != entries[b].path@,
        0 <= i < entries.len(),
    ensures
        map_of(entries.remove(i)) =~= map_of(entries).remove(entries[i].path@),
    decreases entries.len(),
{
    let k = entries[i].path@;
    if i == entries.len() - 1 {
        assert(entries.remove(i) =~= entries.drop_last());
        lemma_map_of_keys(entries.drop_last());
        assert(!map_of(entries.drop_last()).contains_key(k));
        assert(map_of(entries).remove(k) =~= map_of(entries.drop_last()));
    } else {
        assert(entries.remove(i).drop_last() =~= entries.drop_last().remove(i));
        assert(entries.remove(i).last() == entries.last());
        assert(entries.drop_last()[i] == entries[i]);
        lemma_map_of_remove(entries.drop_last(), i);
        assert(entries[i].path@ != entries.last().path@);
        assert(map_of(entries.remove(i)) =~= map_of(entries.drop_last()).remove(k).insert(
            entries.last().path@,
            entries.last().suites.deep_view(),
        ));
        assert(map_of(entries).remove(k) =~= map_of(entries.drop_last()).insert(
            entries.last().path@,
            entries.last().suites.deep_view(),
        ).remove(k));
    }
}

/// With pairwise-distinct paths, every suite of the flattened sequence is
/// the suite of some tracked path.
proof fn lemma_flat_of_tracked(entries: Seq<ReportFile>)
    requires
        forall|a: int, b: int|
            0 <= a < b < entries.len() ==> entries[a].path@ != entries[b].path@,
    ensures
        forall|x: SuiteView|
            flat_of(entries).contains(x) ==> exists|k: Seq<char>|
                #[trigger] map_of(entries).contains_key(k) && map_of(entries)[k].contains(x),
    decreases entries.len(),
{
    if entries.len() > 0 {
        lemma_flat_of_tracked(entries.drop_last());
        lemma_map_of_keys(entries.drop_last());
        lemma_map_of_values(entries);
        assert forall|x: SuiteView| flat_of(entries).contains(x) implies exists|k: Seq<char>|
            #[trigger] map_of(entries).contains_key(k) && map_of(entries)[k].contains(x) by {
            let pos = choose|p: int| 0 <= p < flat_of(entries).len() && flat_of(entries)[p] == x;
            if pos < flat_of(entries.drop_last()).len() {
                assert(flat_of(entries.drop_last()).contains(x));
                let k = choose|k: Seq<char>|
                    #[trigger] map_of(entries.drop_last()).contains_key(k) && map_of(
                        entries.drop_last(),
                    )[k].contains(x);
                let i = choose|i: int|
                    0 <= i < entries.drop_last().len() && #[trigger] entries.drop_last()[i].path@
                        == k;
                assert(entries[i].path@ == k);
                assert(entries[i].path@ != entries.last().path@);
                assert(map_of(entries).contains_key(k));
                assert(map_of(entries)[k] == map_of(entries.drop_last())[k]);
            } else {
                let k = entries.last().path@;
                assert(entries[entries.len() - 1].path@ == k);
                assert(map_of(entries)[k].contains(x));
            }
        }
    }
}

/// The aggregate: the latest suites of every tracked report file, keyed by
/// path. Created empty; an upsert replaces a path's entry in full; removal
/// of an absent path is a no-op.
pub struct AggregateStore {
    entries: Vec<ReportFile>,
}

impl View for AggregateStore {
    type V = Map<Seq<char>, Seq<SuiteView>>;

    closed spec fn view(&self) -> Map<Seq<char>, Seq<SuiteView>> {
        map_of(self.entries@)
    }
}

impl AggregateStore {
    /// Well-formed: no two entries share a path, so the entry sequence and
    /// the map view carry the same information.
    pub closed spec fn wf(&self) -> bool {
        forall|i: int, j: int|
            0 <= i < j < self.entries@.len() ==> self.entries@[i].path@ != self.entries@[j].path@
    }

    /// Every tracked suite, flattened in a stable (entry) order.
    pub closed spec fn flat(&self) -> Seq<SuiteView> {
        flat_of(self.entries@)
    }

    /// Creates an empty aggregate.
    pub fn new() -> (r: AggregateStore)
        ensures
            r.wf(),
            r@ =~= Map::<Seq<char>, Seq<SuiteView>>::empty(),
            r.flat() =~= Seq::<SuiteView>::empty(),
    {
        let r = AggregateStore { entries: Vec::new() };
        proof {
            assert(r.entries@.len() == 0);
        }
        r
    }

    /// Whether no path is tracked.
    pub fn is_empty(&self) -> (r: bool)
        ensures
            r <==> (self@ =~= Map::<Seq<char>, Seq<SuiteView>>::empty()),
    {
        let r = self.entries.len() == 0;
        proof {
            if self.entries@.len() > 0 {
                assert(self@.contains_key(self.entries@.last().path@));
            }
        }
        r
    }

    /// Deletes the entry for `path` if one exists. Removing a path that was
    /// never tracked is not an error and leaves the aggregate unchanged.
    pub fn remove(&mut self, path: &str)
        requires
            old(self).wf(),
        ensures
            final(self).wf(),
            final(self)@ =~= old(self)@.remove(path@),
            !old(self)@.contains_key(path@) ==> final(self)@ =~= old(self)@,
    {
        let want: String = path.to_owned();
        let mut i: usize = 0;
        while i < self.entries.len()
            invariant
                old(self).wf(),
                self.entries@ == old(self).entries@,
                want@ == path@,
                0 <= i <= self.entries@.len(),
                forall|j: int| 0 <= j < i ==> self.entries@[j].path@ != path@,
            decreases self.entries@.len() - i,
        {
            if self.entries[i].path == want {
                proof {
                    lemma_map_of_remove(self.entries@, i as int);
                    let s = self.entries@;
                    let s2 = s.remove(i as int);
                    s.remove_ensures(i as int);
                    assert forall|a: int, b: int|
                        0 <= a < b < s2.len() implies s2[a].path@ != s2[b].path@ by {
                        if a < i {
                            assert(s2[a] == s[a]);
                        } else {
                            assert(s2[a] == s[a + 1]);
                        }
                        if b < i {
                            assert(s2[b] == s[b]);
                        } else {
                            assert(s2[b] == s[b + 1]);
                        }
                    }
                }
                self.entries.remove(i);
                return ;
            }
            i = i + 1;
        }
        proof {
            lemma_map_of_keys(self.entries@);
            assert(!self@.contains_key(path@));
            assert(self@ =~= old(self)@.remove(path@));
        }
    }

    /// Replaces the entry for `path` with the given suites, creating it when
    /// absent. The prior entry, if any, is replaced in full, never merged.
    pub fn upsert(&mut self, path: String, suites: Vec<SuiteResult>)
        requires
            old(self).wf(),
        ensures
            final(self).wf(),
            final(self)@ =~= old(self)@.insert(path@, suites.deep_view()),
    {
        self.remove(path.as_str());
        proof {
            lemma_map_of_keys(self.entries@);
            assert(!self@.contains_key(path@));
        }
        let ghost before = self.entries@;
        self.entries.push(ReportFile { path, suites });
        proof {
            assert(self.entries@.drop_last() =~= before);
            assert(self.entries@.last().path@ == path@);
            assert(forall|j: int| 0 <= j < before.len() ==> self.entries@[j] == before[j]);
            assert(self@ =~= old(self)@.insert(path@, suites.deep_view()));
        }
    }

    /// Flattens every tracked file's suites into one sequence. The order is
    /// stable for a fixed store content (entry order, document order within
    /// an entry), though it need not match any particular insertion order.
    pub fn all_suites(&self) -> (r: Vec<SuiteResult>)
        ensures
            r.deep_view() == self.flat(),
    {
        let mut out: Vec<SuiteResult> = Vec::new();
        let mut i: usize = 0;
        proof {
            assert(out.deep_view() =~= flat_of(self.entries@.take(0)));
        }
        while i < self.entries.len()
            invariant
                0 <= i <= self.entries@.len(),
                out.deep_view() == flat_of(self.entries@.take(i as int)),
            decreases self.entries@.len() - i,
        {
            let suites = &self.entries[i].suites;
            let mut j: usize = 0;
            proof {
                assert(suites.deep_view().take(0) =~= Seq::<SuiteView>::empty());
                assert(out.deep_view() + suites.deep_view().take(0) =~= out.deep_view());
            }
            let ghost outer = out.deep_view();
            while j < suites.len()
                invariant
                    0 <= j <= suites@.len(),
                    suites == &self.entries@[i as int].suites,
                    0 <= i < self.entries@.len(),
                    outer == flat_of(self.entries@.take(i as int)),
                    out.deep_view() == outer + suites.deep_view().take(j as int),
                decreases suites@.len() - j,
            {
                let ghost prev = out.deep_view();
                let s = &suites[j];
                let copy = SuiteResult {
                    name: s.name.clone(),
                    tests: s.tests,
                    failures: s.failures,
                    errors: s.errors,
                };
                proof {
                    assert(copy@ == suites@[j as int]@);
                }
                out.push(copy);
                proof {
                    assert(out.deep_view() =~= prev.push(suites@[j as int].deep_view()));
                    assert(suites.deep_view().take(j + 1) =~= suites.deep_view().take(
                        j as int,
                    ).push(suites@[j as int].deep_view()));
                    assert(out.deep_view() =~= outer + suites.deep_view().take(j + 1));
                }
                j = j + 1;
            }
            proof {
                assert(suites.deep_view().take(suites@.len() as int) =~= suites.deep_view());
                assert(self.entries@.take(i + 1).drop_last() =~= self.entries@.take(i as int));
                assert(self.entries@.take(i + 1).last() == self.entries@[i as int]);
                assert(out.deep_view() =~= flat_of(self.entries@.take(i + 1)));
            }
            i = i + 1;
        }
        proof {
            assert(self.entries@.take(self.entries@.len() as int) =~= self.entries@);
        }
        out
    }

    /// Every suite that `all_suites` reports belongs to some tracked path's
    /// current entry: nothing replaced or removed lingers in the flattening.
    pub proof fn lemma_all_suites_tracked(&self)
        requires
            self.wf(),
        ensures
            forall|x: SuiteView|
                self.flat().contains(x) ==> exists|k: Seq<char>|
                    #[trigger] self@.contains_key(k) && self@[k].contains(x),
    {
        lemma_flat_of_tracked(self.entries@);
        assert forall|x: SuiteView| self.flat().contains(x) implies exists|k: Seq<char>|
            #[trigger] self@.contains_key(k) && self@[k].contains(x) by {
            assert(flat_of(self.entries@).contains(x));
            let k = choose|k: Seq<char>|
                #[trigger] map_of(self.entries@).contains_key(k) && map_of(
                    self.entries@,
                )[k].contains(x);
            assert(self@.contains_key(k) && self@[k].contains(x));
        }
    }
}

/// Replacing one path's suites twice keeps only the second sequence: an
/// aggregate that saw `a` and then `b` under one path is exactly the
/// aggregate that saw `b` alone, so nothing of `a` remains.
pub proof fn lemma_upsert_replaces(
    m: Map<Seq<char>, Seq<SuiteView>>,
    path: Seq<char>,
    a: Seq<SuiteView>,
    b: Seq<SuiteView>,
)
    ensures
        m.insert(path, a).insert(path, b) =~= m.insert(path, b),
{
}

} // verus!
