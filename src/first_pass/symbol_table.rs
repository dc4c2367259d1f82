//! The table of labels and the addresses they stand for.
use crate::text::str_eq;
use vstd::prelude::*;

verus! {

/// Labels with their addresses, kept in the order in which they were first
/// inserted. Each label occurs once.
#[derive(Debug, Clone)]
pub struct SymbolTable {
    labels: Vec<String>,
    addrs: Vec<u16>,
}

/// The mapping that a list of (label, address) entries describes; a later
/// entry for the same label wins.
pub open spec fn map_of(e: Seq<(Seq<char>, u16)>) -> Map<Seq<char>, u16>
    decreases e.len(),
{
    if e.len() == 0 {
        Map::empty()
    } else {
        map_of(e.drop_last()).insert(e.last().0, e.last().1)
    }
}

/// No label occurs twice in the entries.
pub open spec fn labels_unique(e: Seq<(Seq<char>, u16)>) -> bool {
    forall|i: int, j: int| 0 <= i < j < e.len() ==> e[i].0 != e[j].0
}

proof fn lemma_map_of_domain(e: Seq<(Seq<char>, u16)>, k: Seq<char>)
    ensures
        map_of(e).contains_key(k) <==> exists|i: int| 0 <= i < e.len() && e[i].0 == k,
    decreases e.len(),
{
    if e.len() > 0 {
        lemma_map_of_domain(e.drop_last(), k);
        if map_of(e).contains_key(k) && e.last().0 != k {
            let i = choose|i: int| 0 <= i < e.drop_last().len() && e.drop_last()[i].0 == k;
            assert(e[i].0 == k);
        }
        if exists|i: int| 0 <= i < e.len() && e[i].0 == k {
            let i = choose|i: int| 0 <= i < e.len() && e[i].0 == k;
            if i < e.len() - 1 {
                assert(e.drop_last()[i].0 == k);
            }
        }
    }
}

proof fn lemma_map_of_value(e: Seq<(Seq<char>, u16)>, i: int)
    requires
        labels_unique(e),
        0 <= i < e.len(),
    ensures
        map_of(e).contains_key(e[i].0),
        map_of(e)[e[i].0] == e[i].1,
    decreases e.len(),
{
    if i < e.len() - 1 {
        assert(e.drop_last()[i] == e[i]);
        lemma_map_of_value(e.drop_last(), i);
    }
}

impl View for SymbolTable {
    type V = Map<Seq<char>, u16>;

    open spec fn view(&self) -> Map<Seq<char>, u16> {
        map_of(self.entries())
    }
}

impl Default for SymbolTable {
    fn default() -> (r: Self)
        ensures
            r.wf(),
            r@ == Map::<Seq<char>, u16>::empty(),
            r.entries().len() == 0,
    {
        Self::new()
    }
}

impl SymbolTable {
    /// The entries in insertion order.
    pub closed spec fn entries(&self) -> Seq<(Seq<char>, u16)> {
        Seq::new(self.labels@.len(), |i: int| (self.labels@[i]@, self.addrs@[i]))
    }

    /// The labels in the order they were first inserted.
    pub closed spec fn order(&self) -> Seq<Seq<char>> {
        Seq::new(self.labels@.len(), |i: int| self.labels@[i]@)
    }

    /// What a well-formed table shows from outside: its order lists every
    /// bound label exactly once.
    pub proof fn lemma_order(&self)
        requires
            self.wf(),
        ensures
            self.order().len() == self@.len(),
            self@.dom().finite(),
            forall|i: int, j: int| 0 <= i < j < self.order().len() ==> self.order()[i] != self.order()[j],
            forall|i: int| 0 <= i < self.order().len() ==> self@.contains_key(#[trigger] self.order()[i]),
            forall|k: Seq<char>| self@.contains_key(k) ==> exists|i: int| 0 <= i < self.order().len() && self.order()[i] == k,
    {
        lemma_map_len(self.entries());
        assert forall|i: int, j: int| 0 <= i < j < self.order().len() implies self.order()[i] != self.order()[j] by {
            assert(self.order()[i] == self.entries()[i].0 && self.order()[j] == self.entries()[j].0);
        }
        assert forall|i: int| 0 <= i < self.order().len() implies self@.contains_key(#[trigger] self.order()[i]) by {
            lemma_map_of_value(self.entries(), i);
        }
        assert forall|k: Seq<char>| self@.contains_key(k) implies exists|i: int| 0 <= i < self.order().len() && self.order()[i] == k by {
            lemma_map_of_domain(self.entries(), k);
            let i = choose|i: int| 0 <= i < self.entries().len() && self.entries()[i].0 == k;
            assert(self.order()[i] == k);
        }
    }

    /// Well-formedness: one address per label, each label once.
    pub closed spec fn wf(&self) -> bool {
        &&& self.labels@.len() == self.addrs@.len()
        &&& labels_unique(self.entries())
    }

    /// An empty table.
    pub fn new() -> (r: Self)
        ensures
            r.wf(),
            r@ == Map::<Seq<char>, u16>::empty(),
            r.entries().len() == 0,
            r.order().len() == 0,
    {
        let r = SymbolTable { labels: Vec::new(), addrs: Vec::new() };
        assert(r.entries() =~= Seq::<(Seq<char>, u16)>::empty());
        r
    }

    fn index_of(&self, label: &str) -> (r: Option<usize>)
        requires
            self.wf(),
        ensures
            match r {
                Some(i) => i < self.labels@.len() && self.entries()[i as int].0 == label@,
                None => forall|i: int| 0 <= i < self.entries().len() ==> self.entries()[i].0 != label@,
            },
    {
        let mut i: usize = 0;
        while i < self.labels.len()
            invariant
                self.wf(),
                i <= self.labels@.len(),
                forall|j: int| 0 <= j < i ==> self.entries()[j].0 != label@,
            decreases self.labels@.len() - i,
        {
            if str_eq(self.labels[i].as_str(), label) {
                return Some(i);
            }
            i = i + 1;
        }
        None
    }

    /// Binds `label` to `address` unless it is bound already: the first
    /// binding wins and is never overwritten. A new label goes at the end of
    /// the order.
    pub fn insert(&mut self, label: String, address: u16)
        requires
            old(self).wf(),
        ensures
            final(self).wf(),
            old(self)@.contains_key(label@) ==> {
                &&& final(self)@ == old(self)@
                &&& final(self).order() == old(self).order()
                &&& final(self).entries() == old(self).entries()
            },
            !old(self)@.contains_key(label@) ==> {
                &&& final(self)@ == old(self)@.insert(label@, address)
                &&& final(self).order() == old(self).order().push(label@)
                &&& final(self).entries() == old(self).entries().push((label@, address))
            },
    {
        let ghost e = self.entries();
        proof {
            lemma_map_of_domain(e, label@);
        }
        match self.index_of(label.as_str()) {
            Some(_) => {},
            None => {
                self.labels.push(label);
                self.addrs.push(address);
                proof {
                    assert(self.entries() =~= e.push((label@, address)));
                    assert(self.entries().drop_last() =~= e);
                    assert(self.order() =~= old(self).order().push(label@));
                }
            },
        }
    }

    /// The address bound to `label`, if any.
    pub fn get(&self, label: &str) -> (r: Option<u16>)
        requires
            self.wf(),
        ensures
            r == (if self@.contains_key(label@) { Some(self@[label@]) } else { None::<u16> }),
    {
        proof {
            lemma_map_of_domain(self.entries(), label@);
        }
        match self.index_of(label) {
            Some(i) => {
                proof {
                    lemma_map_of_value(self.entries(), i as int);
                }
                Some(self.addrs[i])
            },
            None => None,
        }
    }

    /// Whether `label` is bound.
    pub fn contains(&self, label: &str) -> (r: bool)
        requires
            self.wf(),
        ensures
            r == self@.contains_key(label@),
    {
        self.get(label).is_some()
    }

    /// The number of labels.
    pub fn len(&self) -> (r: usize)
        requires
            self.wf(),
        ensures
            r == self.entries().len(),
            r == self@.len(),
    {
        proof {
            self.lemma_len();
        }
        self.labels.len()
    }

    /// Whether no label is bound.
    pub fn is_empty(&self) -> (r: bool)
        requires
            self.wf(),
        ensures
            r == (self@.len() == 0),
    {
        self.len() == 0
    }

    /// The labels with their addresses, in the order they were first
    /// inserted: every bound label once, each with its address.
    pub fn iter(&self) -> (r: Vec<(String, u16)>)
        requires
            self.wf(),
        ensures
            r@.len() == self.order().len(),
            r@.len() == self@.len(),
            forall|i: int| 0 <= i < r@.len() ==> (#[trigger] r@[i]).0@ == self.order()[i],
            forall|i: int| 0 <= i < r@.len() ==> self@.contains_key((#[trigger] r@[i]).0@) && self@[r@[i].0@] == r@[i].1,
            forall|i: int, j: int| 0 <= i < j < r@.len() ==> r@[i].0@ != r@[j].0@,
            forall|k: Seq<char>| self@.contains_key(k) ==> exists|i: int| 0 <= i < r@.len() && r@[i].0@ == k,
    {
        let mut r: Vec<(String, u16)> = Vec::new();
        let mut i: usize = 0;
        while i < self.labels.len()
            invariant
                self.wf(),
                i <= self.labels@.len(),
                r@.len() == i,
                forall|j: int| 0 <= j < i ==> (#[trigger] r@[j]).0@ == self.entries()[j].0 && r@[j].1
                    == self.entries()[j].1,
            decreases self.labels@.len() - i,
        {
            r.push((self.labels[i].clone(), self.addrs[i]));
            i = i + 1;
        }
        proof {
            self.lemma_order();
            assert forall|j: int| 0 <= j < r@.len() implies self@.contains_key((#[trigger] r@[j]).0@) && self@[r@[j].0@] == r@[j].1 by {
                lemma_map_of_value(self.entries(), j);
            }
            assert forall|k: Seq<char>| self@.contains_key(k) implies exists|j: int| 0 <= j < r@.len() && r@[j].0@ == k by {
                let j = choose|j: int| 0 <= j < self.order().len() && self.order()[j] == k;
                assert(r@[j].0@ == k);
            }
        }
        r
    }

    proof fn lemma_len(&self)
        requires
            self.wf(),
        ensures
            self@.len() == self.entries().len(),
    {
        lemma_map_len(self.entries());
    }
}

proof fn lemma_map_len(e: Seq<(Seq<char>, u16)>)
    requires
        labels_unique(e),
    ensures
        map_of(e).len() == e.len(),
        map_of(e).dom().finite(),
    decreases e.len(),
{
    if e.len() > 0 {
        lemma_map_len(e.drop_last());
        lemma_map_of_domain(e.drop_last(), e.last().0);
        assert(!map_of(e.drop_last()).contains_key(e.last().0));
    }
}

} // verus!
