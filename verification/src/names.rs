//! Ordered sets of names (paths, module names, identifiers).

use vstd::prelude::*;
use crate::graph::names;

verus! {

/// Whether a list of strings holds a name.
pub fn vec_contains(v: &Vec<String>, x: &str) -> (b: bool)
    ensures
        b == names(v@).contains(x@),
{
    let xs = String::from_str(x);
    let mut i: usize = 0;
    while i < v.len()
        invariant
            0 <= i <= v.len(),
            xs@ == x@,
            forall|k: int| 0 <= k < i ==> names(v@)[k] != x@,
        decreases v.len() - i,
    {
        if v[i] == xs {
            assert(names(v@)[i as int] == x@);
            return true;
        }
        i = i + 1;
    }
    false
}

/// A set of names that remembers the order in which names first arrived.
#[derive(Debug)]
pub struct NameSet {
    items: Vec<String>,
}

impl NameSet {
    /// The names, in arrival order, each once.
    pub closed spec fn elems(&self) -> Seq<Seq<char>> {
        names(self.items@)
    }

    /// The names, as a set.
    pub open spec fn view(&self) -> Set<Seq<char>> {
        self.elems().to_set()
    }

    pub closed spec fn wf(&self) -> bool {
        self.elems().no_duplicates()
    }

    /// An empty set.
    pub fn new() -> (s: Self)
        ensures
            s.elems() == Seq::<Seq<char>>::empty(),
            s.wf(),
    {
        let s = NameSet { items: Vec::new() };
        assert(s.elems() =~= Seq::<Seq<char>>::empty());
        s
    }

    /// Whether the set holds `x`.
    pub fn contains(&self, x: &str) -> (b: bool)
        ensures
            b == self.elems().contains(x@),
    {
        vec_contains(&self.items, x)
    }

    /// Adds `x`; true when it was not there before (`HashSet::insert`).
    pub fn insert(&mut self, x: String) -> (added: bool)
        ensures
            added == !old(self).elems().contains(x@),
            final(self).elems() == if added { old(self).elems().push(x@) } else { old(self).elems() },
            old(self).wf() ==> final(self).wf(),
    {
        if vec_contains(&self.items, x.as_str()) {
            false
        } else {
            let ghost e0 = self.elems();
            let ghost xv = x@;
            self.items.push(x);
            proof {
                assert(self.elems() =~= e0.push(xv));
                if e0.no_duplicates() {
                    assert forall|i: int, j: int| 0 <= i < j < e0.push(xv).len() implies e0.push(xv)[i] != e0.push(xv)[j] by {
                        if j == e0.len() {
                            assert(e0[i] != xv);
                        }
                    }
                }
            }
            true
        }
    }

    /// Number of names.
    pub fn len(&self) -> (n: usize)
        ensures
            n == self.elems().len(),
    {
        self.items.len()
    }

    /// Whether the set is empty.
    pub fn is_empty(&self) -> (b: bool)
        ensures
            b == (self.elems().len() == 0),
    {
        self.items.len() == 0
    }

    /// The names in arrival order.
    pub fn as_vec(&self) -> (v: &Vec<String>)
        ensures
            names(v@) == self.elems(),
    {
        &self.items
    }
}

} // verus!

verus! {

/// A copy of a list of strings.
pub fn clone_strings(v: &Vec<String>) -> (r: Vec<String>)
    ensures
        names(r@) == names(v@),
        r@ == v@,
{
    let mut r: Vec<String> = Vec::new();
    let mut i: usize = 0;
    while i < v.len()
        invariant
            0 <= i <= v.len(),
            r@ == v@.subrange(0, i as int),
        decreases v.len() - i,
    {
        r.push(v[i].clone());
        proof {
            assert(r@ =~= v@.subrange(0, i + 1));
        }
        i = i + 1;
    }
    proof {
        assert(v@.subrange(0, v.len() as int) =~= v@);
    }
    r
}

impl NameSet {
    /// A copy of the set.
    pub fn copy(&self) -> (r: Self)
        ensures
            r.elems() == self.elems(),
            self.wf() ==> r.wf(),
    {
        NameSet { items: clone_strings(&self.items) }
    }
}

} // verus!

verus! {

/// Index of the first entry with key `k`.
pub open spec fn find_key<V>(es: Seq<(Seq<char>, V)>, k: Seq<char>) -> Option<int>
    decreases es.len(),
{
    if es.len() == 0 {
        None
    } else if es[0].0 == k {
        Some(0)
    } else {
        match find_key(es.drop_first(), k) {
            Some(i) => Some(i + 1),
            None => None,
        }
    }
}

/// `find_key` gives the first index carrying the key, or `None` when no
/// entry carries it.
pub proof fn lemma_find_key<V>(es: Seq<(Seq<char>, V)>, k: Seq<char>)
    ensures
        match find_key(es, k) {
            Some(i) => 0 <= i < es.len() && es[i].0 == k && forall|j: int| 0 <= j < i ==> es[j].0 != k,
            None => forall|j: int| 0 <= j < es.len() ==> es[j].0 != k,
        },
    decreases es.len(),
{
    if es.len() > 0 && es[0].0 != k {
        lemma_find_key(es.drop_first(), k);
        match find_key(es.drop_first(), k) {
            Some(i) => {
                assert(es[i + 1] == es.drop_first()[i]);
                assert forall|j: int| 0 <= j < i + 1 implies es[j].0 != k by {
                    if j > 0 {
                        assert(es[j] == es.drop_first()[j - 1]);
                    }
                }
            },
            None => {
                assert forall|j: int| 0 <= j < es.len() implies es[j].0 != k by {
                    if j > 0 {
                        assert(es[j] == es.drop_first()[j - 1]);
                    }
                }
            },
        }
    }
}

/// The characterisation of `find_key` by indices.
pub proof fn lemma_find_key_at<V>(es: Seq<(Seq<char>, V)>, k: Seq<char>, i: int)
    requires
        0 <= i < es.len(),
        es[i].0 == k,
        forall|j: int| 0 <= j < i ==> es[j].0 != k,
    ensures
        find_key(es, k) == Some(i),
    decreases es.len(),
{
    if i > 0 {
        assert forall|j: int| 0 <= j < i - 1 implies es.drop_first()[j].0 != k by {
            assert(es.drop_first()[j] == es[j + 1]);
        }
        lemma_find_key_at(es.drop_first(), k, i - 1);
    }
}

/// No entry carries the key, so `find_key` finds none.
pub proof fn lemma_find_key_none<V>(es: Seq<(Seq<char>, V)>, k: Seq<char>)
    requires
        forall|j: int| 0 <= j < es.len() ==> es[j].0 != k,
    ensures
        find_key(es, k) is None,
    decreases es.len(),
{
    if es.len() > 0 {
        assert forall|j: int| 0 <= j < es.drop_first().len() implies es.drop_first()[j].0 != k by {
            assert(es.drop_first()[j] == es[j + 1]);
        }
        lemma_find_key_none(es.drop_first(), k);
    }
}

/// The entries after setting the value for `k` (`HashMap::insert`).
pub open spec fn put<V>(es: Seq<(Seq<char>, V)>, k: Seq<char>, v: V) -> Seq<(Seq<char>, V)> {
    match find_key(es, k) {
        Some(i) => es.update(i, (k, v)),
        None => es.push((k, v)),
    }
}

} // verus!
