use vstd::prelude::*;

use crate::jsonout::dec_digits;

verus! {

/// A value kept under a tag: the run log stores counters (in nanoseconds)
/// and free text.
#[derive(Debug, Clone, PartialEq, Eq)]
pub enum TagValue {
    Count(u64),
    Text(String),
}

/// Mathematical value of a [`TagValue`].
pub enum TagValueV {
    Count(u64),
    Text(Seq<char>),
}

impl View for TagValue {
    type V = TagValueV;

    open spec fn view(&self) -> TagValueV {
        match self {
            TagValue::Count(n) => TagValueV::Count(*n),
            TagValue::Text(t) => TagValueV::Text(t@),
        }
    }
}

/// The text a tag value displays as: a counter as its decimal digits, text
/// as itself.
pub open spec fn display_of(v: TagValueV) -> Seq<char> {
    match v {
        TagValueV::Count(n) => dec_digits(n as int),
        TagValueV::Text(t) => t,
    }
}

/// The tag pairs of the store, in insertion order.
pub type TagSeq = Seq<(Seq<char>, TagValueV)>;

/// The mapping a tag pair sequence denotes; a later pair wins.
pub open spec fn tag_map_of(ps: TagSeq) -> Map<Seq<char>, TagValueV>
    decreases ps.len(),
{
    if ps.len() == 0 {
        Map::empty()
    } else {
        tag_map_of(ps.drop_last()).insert(ps.last().0, ps.last().1)
    }
}

/// No two pairs share a tag.
pub open spec fn unique_tags(ps: TagSeq) -> bool {
    forall|i: int, j: int| 0 <= i < j < ps.len() ==> ps[i].0 != ps[j].0
}

proof fn lemma_tag_map_of_dom(ps: TagSeq, k: Seq<char>)
    ensures
        tag_map_of(ps).dom().contains(k) <==> exists|i: int| 0 <= i < ps.len() && ps[i].0 == k,
    decreases ps.len(),
{
    if ps.len() == 0 {
    } else {
        lemma_tag_map_of_dom(ps.drop_last(), k);
        if ps.last().0 == k {
            assert(ps[ps.len() - 1].0 == k);
        } else {
            if exists|i: int| 0 <= i < ps.len() && ps[i].0 == k {
                let i = choose|i: int| 0 <= i < ps.len() && ps[i].0 == k;
                assert(ps.drop_last()[i] == ps[i]);
            }
            if exists|i: int| 0 <= i < ps.len() - 1 && ps.drop_last()[i].0 == k {
                let i = choose|i: int| 0 <= i < ps.len() - 1 && ps.drop_last()[i].0 == k;
                assert(ps[i].0 == k);
            }
        }
    }
}

proof fn lemma_tag_map_of_index(ps: TagSeq, i: int)
    requires
        unique_tags(ps),
        0 <= i < ps.len(),
    ensures
        tag_map_of(ps).dom().contains(ps[i].0),
        tag_map_of(ps)[ps[i].0] == ps[i].1,
    decreases ps.len(),
{
    if i == ps.len() - 1 {
    } else {
        assert(ps.drop_last()[i] == ps[i]);
        lemma_tag_map_of_index(ps.drop_last(), i);
        assert(ps[i].0 != ps.last().0);
    }
}

proof fn lemma_tag_map_of_push(ps: TagSeq, p: (Seq<char>, TagValueV))
    ensures
        tag_map_of(ps.push(p)) == tag_map_of(ps).insert(p.0, p.1),
{
    assert(ps.push(p).drop_last() =~= ps);
    assert(ps.push(p).last() == p);
}

proof fn lemma_tag_map_of_update(ps: TagSeq, i: int, v: TagValueV)
    requires
        unique_tags(ps),
        0 <= i < ps.len(),
    ensures
        tag_map_of(ps.update(i, (ps[i].0, v))) == tag_map_of(ps).insert(ps[i].0, v),
    decreases ps.len(),
{
    let k = ps[i].0;
    let q = ps.update(i, (k, v));
    if i == ps.len() - 1 {
        assert(q.drop_last() =~= ps.drop_last());
        assert(q.last() == (k, v));
        assert(tag_map_of(ps.drop_last()).insert(k, ps[i].1).insert(k, v) =~= tag_map_of(
            ps.drop_last(),
        ).insert(k, v));
    } else {
        assert(q.drop_last() =~= ps.drop_last().update(i, (k, v)));
        assert(ps.drop_last()[i] == ps[i]);
        lemma_tag_map_of_update(ps.drop_last(), i, v);
        assert(q.last() == ps.last());
        assert(k != ps.last().0);
        assert(tag_map_of(ps.drop_last()).insert(k, v).insert(ps.last().0, ps.last().1)
            =~= tag_map_of(ps.drop_last()).insert(ps.last().0, ps.last().1).insert(k, v));
    }
}

/// A store of tagged values, unique by tag.
pub struct AnyMap {
    entries: Vec<(String, TagValue)>,
}

impl AnyMap {
    /// The tag pairs, in insertion order.
    pub closed spec fn pairs(self) -> TagSeq {
        Seq::new(self.entries@.len(), |i: int| (self.entries@[i].0@, self.entries@[i].1@))
    }

    /// Tags are unique.
    pub open spec fn wf(self) -> bool {
        unique_tags(self.pairs())
    }
}

impl View for AnyMap {
    type V = Map<Seq<char>, TagValueV>;

    closed spec fn view(&self) -> Map<Seq<char>, TagValueV> {
        tag_map_of(self.pairs())
    }
}

impl Default for AnyMap {
    /// An empty store.
    fn default() -> (r: AnyMap)
        ensures
            r@ == Map::<Seq<char>, TagValueV>::empty(),
            r.wf(),
    {
        let r = AnyMap { entries: Vec::new() };
        proof {
            assert(r.pairs() =~= Seq::<(Seq<char>, TagValueV)>::empty());
        }
        r
    }
}

impl AnyMap {
    /// Index of the pair carrying `key`, if any.
    fn index_of(&self, key: &String) -> (r: Option<usize>)
        ensures
            match r {
                Some(i) => i < self.pairs().len() && self.pairs()[i as int].0 == key@,
                None => forall|i: int| 0 <= i < self.pairs().len() ==> self.pairs()[i].0 != key@,
            },
    {
        let n = self.entries.len();
        let mut i: usize = 0;
        while i < n
            invariant
                n == self.entries.len(),
                i <= n,
                forall|j: int| 0 <= j < i ==> self.pairs()[j].0 != key@,
            decreases n - i,
        {
            if self.entries[i].0 == *key {
                return Some(i);
            }
            i = i + 1;
        }
        None
    }

    /// Whether a value is stored under this tag.
    pub fn contains_key(&self, key: &String) -> (r: bool)
        ensures
            r == self@.dom().contains(key@),
    {
        let found = self.index_of(key);
        proof {
            lemma_tag_map_of_dom(self.pairs(), key@);
            if let Some(i) = found {
                assert(self.pairs()[i as int].0 == key@);
            }
        }
        found.is_some()
    }

    /// Stores a value under the tag, replacing any previous value.
    pub fn insert(&mut self, key: String, value: TagValue)
        requires
            old(self).wf(),
        ensures
            final(self).wf(),
            final(self)@ == old(self)@.insert(key@, value@),
    {
        match self.index_of(&key) {
            Some(i) => {
                let ghost ps = self.pairs();
                proof {
                    lemma_tag_map_of_update(ps, i as int, value@);
                }
                self.entries[i] = (key, value);
                proof {
                    assert(self.pairs() =~= ps.update(i as int, (ps[i as int].0, value@)));
                }
            },
            None => {
                let ghost ps = self.pairs();
                proof {
                    lemma_tag_map_of_push(ps, (key@, value@));
                }
                self.entries.push((key, value));
                proof {
                    assert(self.pairs() =~= ps.push((key@, value@)));
                }
            },
        }
    }

    /// The value stored under a tag that is known to be present.
    pub fn get(&self, key: &String) -> (r: &TagValue)
        requires
            self.wf(),
            self@.dom().contains(key@),
        ensures
            r@ == self@[key@],
    {
        proof {
            lemma_tag_map_of_dom(self.pairs(), key@);
        }
        match self.index_of(key) {
            Some(i) => {
                proof {
                    lemma_tag_map_of_index(self.pairs(), i as int);
                }
                &self.entries[i].1
            },
            None => {
                proof {
                    assert(false);
                }
                &self.entries[0].1
            },
        }
    }

    /// The value stored under a tag, if any.
    pub fn get_untyped(&self, key: &String) -> (r: Option<&TagValue>)
        requires
            self.wf(),
        ensures
            match r {
                Some(v) => self@.dom().contains(key@) && v@ == self@[key@],
                None => !self@.dom().contains(key@),
            },
    {
        proof {
            lemma_tag_map_of_dom(self.pairs(), key@);
        }
        match self.index_of(key) {
            Some(i) => {
                proof {
                    lemma_tag_map_of_index(self.pairs(), i as int);
                }
                Some(&self.entries[i].1)
            },
            None => None,
        }
    }

    /// The display text of the value stored under a tag that is known to be
    /// present.
    pub fn get_display(&self, key: &String) -> (r: String)
        requires
            self.wf(),
            self@.dom().contains(key@),
        ensures
            r@ == display_of(self@[key@]),
    {
        match self.get(key) {
            TagValue::Count(n) => count_text(*n),
            TagValue::Text(t) => t.clone(),
        }
    }
}

/// The decimal text of a counter.
fn count_text(v: u64) -> (r: String)
    ensures
        r@ == dec_digits(v as int),
{
    let mut s = String::new();
    push_digits64(&mut s, v);
    proof {
        assert(s@ =~= dec_digits(v as int));
    }
    s
}

fn push_digits64(s: &mut String, v: u64)
    ensures
        final(s)@ == old(s)@ + dec_digits(v as int),
    decreases v,
{
    if v >= 10 {
        push_digits64(s, v / 10);
    }
    let c = ((48 + (v % 10)) as u8) as char;
    s.push(c);
    proof {
        assert(s@ =~= old(s)@ + dec_digits(v as int));
    }
}

} // verus!
