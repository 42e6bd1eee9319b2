use vstd::prelude::*;

use crate::models::{Configuration, ConfigurationV, UserProvidedConfig, UserProvidedConfigV};
use crate::models::opt_str_view;

verus! {

/// One registry entry: the configuration a service was created with, the
/// on-disk configuration file, the discovered endpoint and the up flag.
#[derive(Debug)]
pub struct ServiceRecord {
    pub data: Option<UserProvidedConfig>,
    pub template: Configuration,
    pub filepath: Option<String>,
    pub url: Option<String>,
    pub up: bool,
}

/// Mathematical value of a [`ServiceRecord`].
pub struct ServiceRecordV {
    pub data: Option<UserProvidedConfigV>,
    pub template: ConfigurationV,
    pub filepath: Option<Seq<char>>,
    pub url: Option<Seq<char>>,
    pub up: bool,
}

impl View for ServiceRecord {
    type V = ServiceRecordV;

    open spec fn view(&self) -> ServiceRecordV {
        ServiceRecordV {
            data: match self.data {
                Some(d) => Some(d@),
                None => None,
            },
            template: self.template@,
            filepath: opt_str_view(self.filepath),
            url: opt_str_view(self.url),
            up: self.up,
        }
    }
}

impl ServiceRecordV {
    /// A record marked up always has an endpoint; a record with an endpoint
    /// that is not yet up is launching.
    pub open spec fn wf(self) -> bool {
        self.up ==> self.url is Some
    }

    /// The same record with another endpoint.
    pub open spec fn with_url(self, url: Option<Seq<char>>) -> ServiceRecordV {
        ServiceRecordV { url, ..self }
    }

    /// The same record with another up flag.
    pub open spec fn with_up(self, up: bool) -> ServiceRecordV {
        ServiceRecordV { up, ..self }
    }

    /// The same record with endpoint cleared and the up flag down.
    pub open spec fn torn_down(self) -> ServiceRecordV {
        ServiceRecordV { url: None, up: false, ..self }
    }
}

/// The name/record pairs of the registry, in insertion order.
pub type PairSeq = Seq<(Seq<char>, ServiceRecordV)>;

/// The mapping a pair sequence denotes; a later pair wins over an earlier
/// one with the same name.
pub open spec fn map_of(ps: PairSeq) -> Map<Seq<char>, ServiceRecordV>
    decreases ps.len(),
{
    if ps.len() == 0 {
        Map::empty()
    } else {
        map_of(ps.drop_last()).insert(ps.last().0, ps.last().1)
    }
}

/// No two pairs share a name.
pub open spec fn unique_keys(ps: PairSeq) -> bool {
    forall|i: int, j: int| 0 <= i < j < ps.len() ==> ps[i].0 != ps[j].0
}

/// Every record of the sequence is well-formed.
pub open spec fn all_wf(ps: PairSeq) -> bool {
    forall|i: int| 0 <= i < ps.len() ==> (#[trigger] ps[i].1).wf()
}

/// A name is in the denoted map exactly when some pair carries it.
pub proof fn lemma_map_of_dom(ps: PairSeq, k: Seq<char>)
    ensures
        map_of(ps).dom().contains(k) <==> exists|i: int| 0 <= i < ps.len() && ps[i].0 == k,
    decreases ps.len(),
{
    if ps.len() == 0 {
    } else {
        lemma_map_of_dom(ps.drop_last(), k);
        if ps.last().0 == k {
            assert(ps[ps.len() - 1].0 == k);
        } else {
            if exists|i: int| 0 <= i < ps.len() && ps[i].0 == k {
                let i = choose|i: int| 0 <= i < ps.len() && ps[i].0 == k;
                assert(ps.drop_last()[i] == ps[i]);
            }
            if exists|i: int| 0 <= i < ps.len() - 1 && ps.drop_last()[i].0 == k {
                let i = choose|i: int| 0 <= i < ps.len() - 1 && ps.drop_last()[i].0 == k;
                assert(ps[i].0 == k);
            }
        }
    }
}

/// With unique names, the denoted map sends each pair's name to its record.
pub proof fn lemma_map_of_index(ps: PairSeq, i: int)
    requires
        unique_keys(ps),
        0 <= i < ps.len(),
    ensures
        map_of(ps).dom().contains(ps[i].0),
        map_of(ps)[ps[i].0] == ps[i].1,
    decreases ps.len(),
{
    if i == ps.len() - 1 {
    } else {
        assert(ps.drop_last()[i] == ps[i]);
        lemma_map_of_index(ps.drop_last(), i);
        assert(ps[i].0 != ps.last().0);
    }
}

/// Appending a pair inserts its name into the denoted map.
pub proof fn lemma_map_of_push(ps: PairSeq, p: (Seq<char>, ServiceRecordV))
    ensures
        map_of(ps.push(p)) == map_of(ps).insert(p.0, p.1),
{
    assert(ps.push(p).drop_last() =~= ps);
    assert(ps.push(p).last() == p);
}

/// Replacing the record of pair `i` in place updates its name's image.
pub proof fn lemma_map_of_update(ps: PairSeq, i: int, v: ServiceRecordV)
    requires
        unique_keys(ps),
        0 <= i < ps.len(),
    ensures
        map_of(ps.update(i, (ps[i].0, v))) == map_of(ps).insert(ps[i].0, v),
    decreases ps.len(),
{
    let k = ps[i].0;
    let q = ps.update(i, (k, v));
    if i == ps.len() - 1 {
        assert(q.drop_last() =~= ps.drop_last());
        assert(q.last() == (k, v));
        assert(map_of(ps.drop_last()).insert(k, ps[i].1).insert(k, v) =~= map_of(
            ps.drop_last(),
        ).insert(k, v));
    } else {
        assert(q.drop_last() =~= ps.drop_last().update(i, (k, v)));
        assert(ps.drop_last()[i] == ps[i]);
        lemma_map_of_update(ps.drop_last(), i, v);
        assert(q.last() == ps.last());
        assert(k != ps.last().0);
        assert(map_of(ps.drop_last()).insert(k, v).insert(ps.last().0, ps.last().1) =~= map_of(
            ps.drop_last(),
        ).insert(ps.last().0, ps.last().1).insert(k, v));
    }
}

/// Removing pair `i` removes its name from the denoted map.
pub proof fn lemma_map_of_remove(ps: PairSeq, i: int)
    requires
        unique_keys(ps),
        0 <= i < ps.len(),
    ensures
        map_of(ps.remove(i)) == map_of(ps).remove(ps[i].0),
    decreases ps.len(),
{
    let k = ps[i].0;
    if i == ps.len() - 1 {
        assert(ps.remove(i) =~= ps.drop_last());
        lemma_map_of_dom(ps.drop_last(), k);
        assert(forall|j: int| 0 <= j < ps.len() - 1 ==> ps.drop_last()[j] == ps[j]);
        assert(!map_of(ps.drop_last()).dom().contains(k));
        assert(map_of(ps.drop_last()).insert(k, ps[i].1).remove(k) =~= map_of(ps.drop_last()));
    } else {
        assert(ps.remove(i).drop_last() =~= ps.drop_last().remove(i));
        assert(ps.drop_last()[i] == ps[i]);
        lemma_map_of_remove(ps.drop_last(), i);
        assert(ps.remove(i).last() == ps.last());
        assert(k != ps.last().0);
        assert(map_of(ps.drop_last()).remove(k).insert(ps.last().0, ps.last().1) =~= map_of(
            ps.drop_last(),
        ).insert(ps.last().0, ps.last().1).remove(k));
    }
}

/// The registry store: the mapping from service name to service record.
/// Names are unique and every record satisfies its invariant.
pub struct Registry {
    entries: Vec<(String, ServiceRecord)>,
}

impl Registry {
    /// The name/record pairs, in insertion order.
    pub closed spec fn pairs(self) -> PairSeq {
        Seq::new(self.entries@.len(), |i: int| (self.entries@[i].0@, self.entries@[i].1@))
    }

    /// Unique names, well-formed records.
    pub open spec fn wf(self) -> bool {
        unique_keys(self.pairs()) && all_wf(self.pairs())
    }
}

impl View for Registry {
    type V = Map<Seq<char>, ServiceRecordV>;

    closed spec fn view(&self) -> Map<Seq<char>, ServiceRecordV> {
        map_of(self.pairs())
    }
}

impl Registry {
    /// The mapping the store denotes is exactly the one its pair walk
    /// builds.
    pub proof fn lemma_view_of_pairs(&self)
        ensures
            self@ == map_of(self.pairs()),
    {
    }

    /// An empty registry.
    pub fn new() -> (r: Registry)
        ensures
            r@ == Map::<Seq<char>, ServiceRecordV>::empty(),
            r.wf(),
            r.pairs().len() == 0,
    {
        let r = Registry { entries: Vec::new() };
        proof {
            assert(r.pairs() =~= Seq::<(Seq<char>, ServiceRecordV)>::empty());
        }
        r
    }

    /// Index of the pair carrying `name`, if any.
    fn index_of(&self, name: &String) -> (r: Option<usize>)
        ensures
            match r {
                Some(i) => i < self.pairs().len() && self.pairs()[i as int].0 == name@,
                None => forall|i: int| 0 <= i < self.pairs().len() ==> self.pairs()[i].0 != name@,
            },
    {
        let n = self.entries.len();
        let mut i: usize = 0;
        while i < n
            invariant
                n == self.entries.len(),
                i <= n,
                forall|j: int| 0 <= j < i ==> self.pairs()[j].0 != name@,
            decreases n - i,
        {
            if self.entries[i].0 == *name {
                return Some(i);
            }
            i = i + 1;
        }
        None
    }

    /// Whether a service of this name is registered.
    pub fn contains(&self, name: &String) -> (r: bool)
        ensures
            r == self@.dom().contains(name@),
    {
        let found = self.index_of(name);
        proof {
            lemma_map_of_dom(self.pairs(), name@);
            if let Some(i) = found {
                assert(self.pairs()[i as int].0 == name@);
            }
        }
        found.is_some()
    }

    /// The record registered under this name, if any.
    pub fn get(&self, name: &String) -> (r: Option<&ServiceRecord>)
        requires
            self.wf(),
        ensures
            match r {
                Some(rec) => self@.dom().contains(name@) && rec@ == self@[name@] && rec@.wf(),
                None => !self@.dom().contains(name@),
            },
    {
        proof {
            lemma_map_of_dom(self.pairs(), name@);
        }
        match self.index_of(name) {
            Some(i) => {
                proof {
                    lemma_map_of_index(self.pairs(), i as int);
                }
                Some(&self.entries[i].1)
            },
            None => None,
        }
    }

    /// Inserts the record under the name, replacing any previous record.
    pub fn upsert(&mut self, name: String, rec: ServiceRecord)
        requires
            old(self).wf(),
            rec@.wf(),
        ensures
            final(self).wf(),
            final(self)@ == old(self)@.insert(name@, rec@),
    {
        match self.index_of(&name) {
            Some(i) => {
                let ghost ps = self.pairs();
                proof {
                    lemma_map_of_update(ps, i as int, rec@);
                }
                self.entries[i] = (name, rec);
                proof {
                    assert(self.pairs() =~= ps.update(i as int, (ps[i as int].0, rec@)));
                }
            },
            None => {
                let ghost ps = self.pairs();
                proof {
                    lemma_map_of_push(ps, (name@, rec@));
                }
                self.entries.push((name, rec));
                proof {
                    assert(self.pairs() =~= ps.push((name@, rec@)));
                }
            },
        }
    }

    /// Removes the record of this name; reports whether one was there.
    pub fn remove(&mut self, name: &String) -> (removed: bool)
        requires
            old(self).wf(),
        ensures
            final(self).wf(),
            removed == old(self)@.dom().contains(name@),
            final(self)@ == old(self)@.remove(name@),
    {
        proof {
            lemma_map_of_dom(self.pairs(), name@);
        }
        match self.index_of(name) {
            Some(i) => {
                let ghost ps = self.pairs();
                proof {
                    lemma_map_of_remove(ps, i as int);
                }
                let _ = self.entries.remove(i);
                proof {
                    assert(self.pairs() =~= ps.remove(i as int));
                }
                true
            },
            None => {
                proof {
                    assert(self@ =~= self@.remove(name@));
                }
                false
            },
        }
    }

    /// Stores an endpoint on the record of this name; reports whether the
    /// record was there.
    pub fn set_url(&mut self, name: &String, url: String) -> (found: bool)
        requires
            old(self).wf(),
        ensures
            final(self).wf(),
            found == old(self)@.dom().contains(name@),
            final(self)@ == if old(self)@.dom().contains(name@) {
                old(self)@.insert(name@, old(self)@[name@].with_url(Some(url@)))
            } else {
                old(self)@
            },
    {
        proof {
            lemma_map_of_dom(self.pairs(), name@);
        }
        match self.index_of(name) {
            Some(i) => {
                let ghost ps = self.pairs();
                proof {
                    lemma_map_of_index(ps, i as int);
                    lemma_map_of_update(ps, i as int, ps[i as int].1.with_url(Some(url@)));
                }
                self.entries[i].1.url = Some(url);
                proof {
                    assert(self.pairs() =~= ps.update(
                        i as int,
                        (ps[i as int].0, ps[i as int].1.with_url(Some(url@))),
                    ));
                }
                true
            },
            None => false,
        }
    }

    /// Marks the record of this name as up, provided it is still registered
    /// and still has an endpoint; a record torn down or removed in the
    /// meantime is left alone.  Reports whether the flag was set.
    pub fn mark_up(&mut self, name: &String) -> (marked: bool)
        requires
            old(self).wf(),
        ensures
            final(self).wf(),
            marked == (old(self)@.dom().contains(name@) && old(self)@[name@].url is Some),
            final(self)@ == if old(self)@.dom().contains(name@) && old(self)@[name@].url is Some {
                old(self)@.insert(name@, old(self)@[name@].with_up(true))
            } else {
                old(self)@
            },
    {
        proof {
            lemma_map_of_dom(self.pairs(), name@);
        }
        match self.index_of(name) {
            Some(i) => {
                let ghost ps = self.pairs();
                proof {
                    lemma_map_of_index(ps, i as int);
                }
                if self.entries[i].1.url.is_some() {
                    proof {
                        lemma_map_of_update(ps, i as int, ps[i as int].1.with_up(true));
                    }
                    self.entries[i].1.up = true;
                    proof {
                        assert(self.pairs() =~= ps.update(
                            i as int,
                            (ps[i as int].0, ps[i as int].1.with_up(true)),
                        ));
                    }
                    true
                } else {
                    false
                }
            },
            None => false,
        }
    }

    /// Clears the up flag of the record of this name, if it is registered.
    pub fn mark_down(&mut self, name: &String) -> (found: bool)
        requires
            old(self).wf(),
        ensures
            final(self).wf(),
            found == old(self)@.dom().contains(name@),
            final(self)@ == if old(self)@.dom().contains(name@) {
                old(self)@.insert(name@, old(self)@[name@].with_up(false))
            } else {
                old(self)@
            },
    {
        proof {
            lemma_map_of_dom(self.pairs(), name@);
        }
        match self.index_of(name) {
            Some(i) => {
                let ghost ps = self.pairs();
                proof {
                    lemma_map_of_index(ps, i as int);
                    lemma_map_of_update(ps, i as int, ps[i as int].1.with_up(false));
                }
                self.entries[i].1.up = false;
                proof {
                    assert(self.pairs() =~= ps.update(
                        i as int,
                        (ps[i as int].0, ps[i as int].1.with_up(false)),
                    ));
                }
                true
            },
            None => false,
        }
    }

    /// Clears endpoint and up flag of the record of this name, if it is
    /// registered.
    pub fn tear_down(&mut self, name: &String) -> (found: bool)
        requires
            old(self).wf(),
        ensures
            final(self).wf(),
            found == old(self)@.dom().contains(name@),
            final(self)@ == if old(self)@.dom().contains(name@) {
                old(self)@.insert(name@, old(self)@[name@].torn_down())
            } else {
                old(self)@
            },
    {
        proof {
            lemma_map_of_dom(self.pairs(), name@);
        }
        match self.index_of(name) {
            Some(i) => {
                let ghost ps = self.pairs();
                proof {
                    lemma_map_of_index(ps, i as int);
                    lemma_map_of_update(ps, i as int, ps[i as int].1.torn_down());
                }
                self.entries[i].1.url = None;
                self.entries[i].1.up = false;
                proof {
                    assert(self.pairs() =~= ps.update(
                        i as int,
                        (ps[i as int].0, ps[i as int].1.torn_down()),
                    ));
                }
                true
            },
            None => false,
        }
    }

    /// The registered names, in insertion order.
    pub fn names(&self) -> (r: Vec<String>)
        ensures
            r@.len() == self.pairs().len(),
            forall|i: int| 0 <= i < r@.len() ==> r@[i]@ == self.pairs()[i].0,
    {
        let n = self.entries.len();
        let mut r: Vec<String> = Vec::new();
        let mut i: usize = 0;
        while i < n
            invariant
                n == self.entries.len(),
                i <= n,
                r@.len() == i,
                forall|j: int| 0 <= j < i ==> r@[j]@ == self.pairs()[j].0,
            decreases n - i,
        {
            r.push(self.entries[i].0.clone());
            i = i + 1;
        }
        r
    }

    /// Read-only access to the pairs, for walking the whole registry.
    pub fn entries(&self) -> (r: &Vec<(String, ServiceRecord)>)
        ensures
            r@.len() == self.pairs().len(),
            forall|i: int|
                0 <= i < r@.len() ==> (#[trigger] r@[i]).0@ == self.pairs()[i].0 && r@[i].1@
                    == self.pairs()[i].1,
    {
        &self.entries
    }

    /// How many services are registered.
    pub fn len(&self) -> (r: usize)
        ensures
            r == self.pairs().len(),
    {
        self.entries.len()
    }
}

} // verus!
