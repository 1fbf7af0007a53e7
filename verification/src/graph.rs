//! Dependency graphs between named tasks, and cycle detection by
//! depth-first search.

use vstd::prelude::*;

verus! {

/// Names of a sequence of strings.
pub open spec fn names(v: Seq<String>) -> Seq<Seq<char>> {
    v.map_values(|s: String| s@)
}

/// One entry of a dependency map, as values.
pub type EntryView = (Seq<char>, Seq<Seq<char>>);

/// What a map associates with a name: the dependencies of its first entry
/// with that name (there is at most one entry per name after `insert`).
pub open spec fn lookup_in(es: Seq<EntryView>, k: Seq<char>) -> Option<Seq<Seq<char>>>
    decreases es.len(),
{
    if es.len() == 0 {
        None
    } else if es[0].0 == k {
        Some(es[0].1)
    } else {
        lookup_in(es.drop_first(), k)
    }
}

/// A map from task names to the names they depend on.
pub struct DependencyMap {
    entries: Vec<(String, Vec<String>)>,
}

impl DependencyMap {
    /// The entries, in insertion order, as values.
    pub closed spec fn entries_view(&self) -> Seq<EntryView> {
        self.entries@.map_values(|e: (String, Vec<String>)| (e.0@, names(e.1@)))
    }

    /// The dependencies recorded for a name, if any.
    pub open spec fn lookup(&self, k: Seq<char>) -> Option<Seq<Seq<char>>> {
        lookup_in(self.entries_view(), k)
    }

    /// The names that have an entry, in insertion order.
    pub open spec fn keys(&self) -> Seq<Seq<char>> {
        self.entries_view().map_values(|e: EntryView| e.0)
    }

    /// `a` depends directly on `b`.
    pub open spec fn edge(&self, a: Seq<char>, b: Seq<char>) -> bool {
        self.lookup(a) matches Some(d) && d.contains(b)
    }

    /// A walk that follows dependencies and returns to where it started.
    pub open spec fn is_closed_walk(&self, w: Seq<Seq<char>>) -> bool {
        &&& w.len() >= 2
        &&& w[0] == w.last()
        &&& forall|i: int| 0 <= i < w.len() - 1 ==> #[trigger] self.edge(w[i], w[i + 1])
    }

    /// Some chain of dependencies leads from a name back to itself.
    pub open spec fn has_cycle(&self) -> bool {
        exists|w: Seq<Seq<char>>| self.is_closed_walk(w)
    }

    /// A dependency path whose last name already occurs earlier on it.
    pub open spec fn is_cycle_path(&self, p: Seq<Seq<char>>) -> bool {
        &&& p.len() >= 2
        &&& exists|j: int| 0 <= j < p.len() - 1 && p[j] == p.last()
        &&& forall|i: int| 0 <= i < p.len() - 1 ==> #[trigger] self.edge(p[i], p[i + 1])
    }

    /// An empty map.
    pub fn new() -> (m: Self)
        ensures
            m.entries_view() == Seq::<EntryView>::empty(),
    {
        let m = DependencyMap { entries: Vec::new() };
        assert(m.entries_view() =~= Seq::<EntryView>::empty());
        m
    }

    /// Number of names with an entry.
    pub fn len(&self) -> (n: usize)
        ensures
            n == self.entries_view().len(),
    {
        self.entries.len()
    }

    /// The index of the first entry for `k`.
    fn find(&self, k: &String) -> (r: Option<usize>)
        ensures
            match r {
                Some(i) => i < self.entries_view().len() && self.entries_view()[i as int].0 == k@
                    && self.lookup(k@) == Some(self.entries_view()[i as int].1)
                    && forall|j: int| 0 <= j < i ==> self.entries_view()[j].0 != k@,
                None => self.lookup(k@) is None,
            },
    {
        let ghost es = self.entries_view();
        let mut i: usize = 0;
        assert(es.subrange(0, es.len() as int) =~= es);
        while i < self.entries.len()
            invariant
                0 <= i <= self.entries.len(),
                es == self.entries_view(),
                es.len() == self.entries.len(),
                lookup_in(es, k@) == lookup_in(es.subrange(i as int, es.len() as int), k@),
                forall|j: int| 0 <= j < i ==> es[j].0 != k@,
            decreases self.entries.len() - i,
        {
            let ghost rest = es.subrange(i as int, es.len() as int);
            proof {
                assert(rest[0] == es[i as int]);
                assert(rest.drop_first() =~= es.subrange(i + 1, es.len() as int));
            }
            assert(es[i as int].0 == self.entries@[i as int].0@);
            if self.entries[i].0 == *k {
                return Some(i);
            }
            i = i + 1;
        }
        proof {
            assert(es.subrange(es.len() as int, es.len() as int) =~= Seq::<EntryView>::empty());
        }
        None
    }

    /// Records the dependencies of `key`, replacing any earlier record.
    pub fn insert(&mut self, key: String, deps: Vec<String>)
        ensures
            forall|x: Seq<char>| #[trigger] final(self).lookup(x) == if x == key@ {
                Some(names(deps@))
            } else {
                old(self).lookup(x)
            },
            final(self).keys() == if old(self).lookup(key@) is Some {
                old(self).keys()
            } else {
                old(self).keys().push(key@)
            },
    {
        let ghost es0 = self.entries_view();
        let ghost kv = key@;
        let ghost dv = names(deps@);
        match self.find(&key) {
            Some(i) => {
                self.entries.set(i, (key, deps));
                proof {
                    let es1 = self.entries_view();
                    assert(es1 =~= es0.update(i as int, (kv, dv)));
                    assert forall|x: Seq<char>| #[trigger] lookup_in(es1, x) == if x == kv {
                        Some(dv)
                    } else {
                        lookup_in(es0, x)
                    } by {
                        lemma_lookup_update(es0, i as int, kv, dv, x);
                    }
                    assert(es1.map_values(|e: EntryView| e.0) =~= es0.map_values(|e: EntryView| e.0));
                }
            },
            None => {
                self.entries.push((key, deps));
                proof {
                    let es1 = self.entries_view();
                    assert(es1 =~= es0.push((kv, dv)));
                    assert forall|x: Seq<char>| #[trigger] lookup_in(es1, x) == if x == kv {
                        Some(dv)
                    } else {
                        lookup_in(es0, x)
                    } by {
                        lemma_lookup_push(es0, kv, dv, x);
                    }
                    assert(es1.map_values(|e: EntryView| e.0) =~= es0.map_values(|e: EntryView| e.0).push(kv));
                }
            },
        }
    }
}

/// Looking up after appending an entry for a name that had none.
proof fn lemma_lookup_push(es: Seq<EntryView>, k: Seq<char>, d: Seq<Seq<char>>, x: Seq<char>)
    requires
        lookup_in(es, k) is None,
    ensures
        lookup_in(es.push((k, d)), x) == if x == k { Some(d) } else { lookup_in(es, x) },
    decreases es.len(),
{
    if es.len() == 0 {
        assert(es.push((k, d)).drop_first() =~= Seq::<EntryView>::empty());
    } else {
        assert(es.push((k, d)).drop_first() =~= es.drop_first().push((k, d)));
        lemma_lookup_push(es.drop_first(), k, d, x);
    }
}

/// Looking up after replacing the first entry for a name.
proof fn lemma_lookup_update(es: Seq<EntryView>, i: int, k: Seq<char>, d: Seq<Seq<char>>, x: Seq<char>)
    requires
        0 <= i < es.len(),
        es[i].0 == k,
        lookup_in(es, k) == Some(es[i].1),
        forall|j: int| 0 <= j < i ==> es[j].0 != k,
    ensures
        lookup_in(es.update(i, (k, d)), x) == if x == k { Some(d) } else { lookup_in(es, x) },
    decreases es.len(),
{
    if i == 0 {
        assert(es.update(i, (k, d)).drop_first() =~= es.drop_first());
    } else {
        assert(es.update(i, (k, d))[0] == es[0]);
        assert(es.update(i, (k, d)).drop_first() =~= es.drop_first().update(i - 1, (k, d)));
        assert(es[0].0 != k);
        assert forall|j: int| 0 <= j < i - 1 implies es.drop_first()[j].0 != k by {
            assert(es.drop_first()[j] == es[j + 1]);
        }
        lemma_lookup_update(es.drop_first(), i - 1, k, d, x);
    }
}

} // verus!

verus! {

/// Finished during the search: visited and no longer on the current path.
pub open spec fn black(vis: Seq<Seq<char>>, path: Seq<Seq<char>>, x: Seq<char>) -> bool {
    vis.contains(x) && !path.contains(x)
}

/// Every finished name has a rank below `c`, and each of its dependencies
/// is finished with a smaller rank.
pub open spec fn ranked(
    g: &DependencyMap,
    vis: Seq<Seq<char>>,
    path: Seq<Seq<char>>,
    f: Map<Seq<char>, nat>,
    c: nat,
) -> bool {
    forall|x: Seq<char>| #[trigger] black(vis, path, x) ==> {
        &&& f.dom().contains(x)
        &&& f[x] < c
        &&& forall|y: Seq<char>| #[trigger] g.edge(x, y) ==> black(vis, path, y) && f[y] < f[x]
    }
}

pub open spec fn some_ranking(g: &DependencyMap, vis: Seq<Seq<char>>, path: Seq<Seq<char>>) -> bool {
    exists|f: Map<Seq<char>, nat>, c: nat| ranked(g, vis, path, f, c)
}

/// The current path follows dependencies and lies inside the visited names.
pub open spec fn path_ok(g: &DependencyMap, path: Seq<Seq<char>>, vis: Seq<Seq<char>>) -> bool {
    &&& forall|i: int| 0 <= i < path.len() - 1 ==> #[trigger] g.edge(path[i], path[i + 1])
    &&& forall|x: Seq<char>| #[trigger] path.contains(x) ==> vis.contains(x)
}

pub open spec fn includes(small: Seq<Seq<char>>, big: Seq<Seq<char>>) -> bool {
    forall|x: Seq<char>| #[trigger] small.contains(x) ==> big.contains(x)
}

/// Number of entries whose name has not been visited.
pub open spec fn unvisited(es: Seq<EntryView>, vis: Seq<Seq<char>>) -> nat
    decreases es.len(),
{
    if es.len() == 0 {
        0
    } else {
        (if vis.contains(es[0].0) { 0nat } else { 1nat }) + unvisited(es.drop_first(), vis)
    }
}

proof fn lemma_unvisited_mono(es: Seq<EntryView>, v1: Seq<Seq<char>>, v2: Seq<Seq<char>>)
    requires
        includes(v1, v2),
    ensures
        unvisited(es, v2) <= unvisited(es, v1),
    decreases es.len(),
{
    if es.len() > 0 {
        lemma_unvisited_mono(es.drop_first(), v1, v2);
    }
}

proof fn lemma_unvisited_strict(es: Seq<EntryView>, v1: Seq<Seq<char>>, v2: Seq<Seq<char>>, k: Seq<char>)
    requires
        includes(v1, v2),
        !v1.contains(k),
        v2.contains(k),
        lookup_in(es, k) is Some,
    ensures
        unvisited(es, v2) < unvisited(es, v1),
    decreases es.len(),
{
    lemma_unvisited_mono(es.drop_first(), v1, v2);
    if es[0].0 != k {
        lemma_unvisited_strict(es.drop_first(), v1, v2, k);
    }
}

proof fn lemma_lookup_some_key(es: Seq<EntryView>, k: Seq<char>)
    requires
        lookup_in(es, k) is Some,
    ensures
        exists|i: int| 0 <= i < es.len() && es[i].0 == k,
    decreases es.len(),
{
    if es[0].0 != k {
        lemma_lookup_some_key(es.drop_first(), k);
        let i = choose|i: int| 0 <= i < es.drop_first().len() && es.drop_first()[i].0 == k;
        assert(es[i + 1].0 == k);
    }
}

fn contains_name(v: &Vec<String>, x: &String) -> (b: bool)
    ensures
        b == names(v@).contains(x@),
{
    let mut i: usize = 0;
    while i < v.len()
        invariant
            0 <= i <= v.len(),
            forall|k: int| 0 <= k < i ==> names(v@)[k] != x@,
        decreases v.len() - i,
    {
        if v[i] == *x {
            assert(names(v@)[i as int] == x@);
            return true;
        }
        i = i + 1;
    }
    false
}

proof fn lemma_black_push(vis: Seq<Seq<char>>, path: Seq<Seq<char>>, n: Seq<char>)
    requires
        !vis.contains(n),
    ensures
        forall|x: Seq<char>| black(vis.push(n), path.push(n), x) == black(vis, path, x),
{
    assert forall|x: Seq<char>| black(vis.push(n), path.push(n), x) == black(vis, path, x) by {
        if x == n {
            assert(path.push(n).contains(n)) by {
                assert(path.push(n)[path.len() as int] == n);
            }
        } else {
            assert(vis.push(n).contains(x) == vis.contains(x)) by {
                if vis.push(n).contains(x) {
                    let i = choose|i: int| 0 <= i < vis.push(n).len() && vis.push(n)[i] == x;
                    assert(vis[i] == x);
                }
                if vis.contains(x) {
                    let i = choose|i: int| 0 <= i < vis.len() && vis[i] == x;
                    assert(vis.push(n)[i] == x);
                }
            }
            assert(path.push(n).contains(x) == path.contains(x)) by {
                if path.push(n).contains(x) {
                    let i = choose|i: int| 0 <= i < path.push(n).len() && path.push(n)[i] == x;
                    assert(path[i] == x);
                }
                if path.contains(x) {
                    let i = choose|i: int| 0 <= i < path.len() && path[i] == x;
                    assert(path.push(n)[i] == x);
                }
            }
        }
    }
}

/// Depth-first search from `node`; on finding a name already on the
/// current path, leaves that path with the repeated name appended.
fn dfs_cycle(
    node: &String,
    graph: &DependencyMap,
    visited: &mut Vec<String>,
    rec_stack: &mut Vec<String>,
    path: &mut Vec<String>,
) -> (found: bool)
    requires
        names(old(rec_stack)@) == names(old(path)@),
        path_ok(graph, names(old(path)@), names(old(visited)@)),
        names(old(path)@).len() > 0 ==> graph.edge(names(old(path)@).last(), node@),
        some_ranking(graph, names(old(visited)@), names(old(path)@)),
        names(old(path)@).no_duplicates(),
    ensures
        found ==> graph.is_cycle_path(names(final(path)@)),
        found ==> names(final(path)@).drop_last().no_duplicates(),
        !found ==> {
            &&& names(final(path)@) == names(old(path)@)
            &&& names(final(rec_stack)@) == names(old(path)@)
            &&& includes(names(old(visited)@), names(final(visited)@))
            &&& black(names(final(visited)@), names(old(path)@), node@)
            &&& path_ok(graph, names(old(path)@), names(final(visited)@))
            &&& some_ranking(graph, names(final(visited)@), names(old(path)@))
        },
    decreases unvisited(graph.entries_view(), names(old(visited)@)),
{
    let ghost es = graph.entries_view();
    let ghost p0 = names(path@);
    let ghost v0 = names(visited@);
    let ghost n = node@;
    if contains_name(rec_stack, node) {
        path.push(node.clone());
        proof {
            let p1 = names(path@);
            assert(p1 =~= p0.push(n));
            assert(p1.drop_last() =~= p0);
            let j = choose|j: int| 0 <= j < p0.len() && p0[j] == n;
            assert(p1[j] == p1.last());
            assert forall|i: int| 0 <= i < p1.len() - 1 implies #[trigger] graph.edge(p1[i], p1[i + 1]) by {
                if i < p0.len() - 1 {
                    assert(p1[i] == p0[i] && p1[i + 1] == p0[i + 1]);
                } else {
                    assert(p1[i] == p0.last() && p1[i + 1] == n);
                }
            }
        }
        return true;
    }
    if contains_name(visited, node) {
        return false;
    }
    visited.push(node.clone());
    rec_stack.push(node.clone());
    path.push(node.clone());
    let ghost v1 = names(visited@);
    let ghost p1 = names(path@);
    proof {
        assert(v1 =~= v0.push(n));
        assert(p1 =~= p0.push(n));
        assert(names(rec_stack@) =~= p1);
        assert(!p0.contains(n));
        assert forall|a: int, b: int| 0 <= a < p1.len() && 0 <= b < p1.len() && a != b implies p1[a] != p1[b] by {
            if a < p0.len() && b < p0.len() {
            } else if a == p0.len() {
                assert(p1[b] == p0[b]);
            } else {
                assert(p1[a] == p0[a]);
            }
        }
        lemma_black_push(v0, p0, n);
        let (f, c) = choose|f: Map<Seq<char>, nat>, c: nat| ranked(graph, v0, p0, f, c);
        assert forall|x: Seq<char>| #[trigger] black(v1, p1, x) implies {
            &&& f.dom().contains(x)
            &&& f[x] < c
            &&& forall|y: Seq<char>| #[trigger] graph.edge(x, y) ==> black(v1, p1, y) && f[y] < f[x]
        } by {
            assert(black(v0, p0, x));
            assert forall|y: Seq<char>| #[trigger] graph.edge(x, y) implies black(v1, p1, y) && f[y] < f[x] by {
                assert(black(v0, p0, y));
            }
        }
        assert(ranked(graph, v1, p1, f, c));
        assert forall|x: Seq<char>| #[trigger] v0.contains(x) implies v1.contains(x) by {
            let i = choose|i: int| 0 <= i < v0.len() && v0[i] == x;
            assert(v1[i] == x);
        }
        assert(v1[v0.len() as int] == n);
        assert(v1.contains(n));
        assert forall|x: Seq<char>| #[trigger] p1.contains(x) implies v1.contains(x) by {
            let i = choose|i: int| 0 <= i < p1.len() && p1[i] == x;
            if i < p0.len() {
                assert(p0[i] == x);
                assert(p0.contains(x));
                assert(v0.contains(x));
            } else {
                assert(x == n);
            }
        }
        assert forall|i: int| 0 <= i < p1.len() - 1 implies #[trigger] graph.edge(p1[i], p1[i + 1]) by {
            if i < p0.len() - 1 {
                assert(p1[i] == p0[i] && p1[i + 1] == p0[i + 1]);
            } else {
                assert(p1[i] == p0.last() && p1[i + 1] == n);
            }
        }
    }
    match graph.find(node) {
        Some(idx) => {
            let deps = &graph.entries[idx].1;
            let ghost dn = names(deps@);
            proof {
                assert(es[idx as int].1 == dn);
                lemma_lookup_some_key(es, n);
                lemma_unvisited_strict(es, v0, v1, n);
            }
            let mut j: usize = 0;
            while j < deps.len()
                invariant
                    0 <= j <= deps.len(),
                    es == graph.entries_view(),
                    dn == names(deps@),
                    graph.lookup(n) == Some(dn),
                    names(path@) == p1,
                    names(rec_stack@) == p1,
                    p1 == p0.push(n),
                    p1.no_duplicates(),
                    includes(v1, names(visited@)),
                    path_ok(graph, p1, names(visited@)),
                    some_ranking(graph, names(visited@), p1),
                    forall|k: int| 0 <= k < j ==> #[trigger] black(names(visited@), p1, dn[k]),
                    unvisited(es, names(visited@)) < unvisited(es, v0),
                    v0 == names(old(visited)@),
                decreases deps.len() - j,
            {
                let ghost vb = names(visited@);
                proof {
                    assert(dn.contains(dn[j as int]));
                    assert(p1.last() == n);
                    assert(dn[j as int] == deps@[j as int]@);
                }
                assert(unvisited(graph.entries_view(), names(visited@)) < unvisited(graph.entries_view(), v0));
                if dfs_cycle(&deps[j], graph, visited, rec_stack, path) {
                    return true;
                }
                proof {
                    let va = names(visited@);
                    lemma_unvisited_mono(es, vb, va);
                    assert forall|k: int| 0 <= k < j + 1 implies #[trigger] black(va, p1, dn[k]) by {
                        if k < j {
                            assert(black(vb, p1, dn[k]));
                        }
                    }
                }
                j = j + 1;
            }
            proof {
                let va = names(visited@);
                assert forall|y: Seq<char>| #[trigger] graph.edge(n, y) implies black(va, p1, y) by {
                    let k = choose|k: int| 0 <= k < dn.len() && dn[k] == y;
                    assert(black(va, p1, dn[k]));
                }
            }
        },
        None => {},
    }
    let ghost pb = path@;
    let ghost rb = rec_stack@;
    rec_stack.pop();
    path.pop();
    proof {
        let va = names(visited@);
        assert(names(pb) == p1);
        assert(path@ =~= pb.drop_last());
        assert(rec_stack@ =~= rb.drop_last());
        assert(p1.drop_last() =~= p0);
        assert forall|k: int| 0 <= k < names(path@).len() implies names(path@)[k] == p0[k] by {
            assert(path@[k] == pb[k]);
            assert(names(pb)[k] == p1[k]);
        }
        assert(names(path@) =~= p0);
        assert forall|k: int| 0 <= k < names(rec_stack@).len() implies names(rec_stack@)[k] == p0[k] by {
            assert(rec_stack@[k] == rb[k]);
            assert(names(rb)[k] == p1[k]);
        }
        assert(names(rec_stack@) =~= p0);
        assert(!p0.contains(n));
        let (f, c) = choose|f: Map<Seq<char>, nat>, c: nat| ranked(graph, va, p1, f, c);
        let f2 = f.insert(n, c);
        assert(va.contains(n));
        assert forall|x: Seq<char>| #[trigger] black(va, p0, x) && x != n implies black(va, p1, x) by {
            if p1.contains(x) {
                let i = choose|i: int| 0 <= i < p1.len() && p1[i] == x;
                if i < p0.len() {
                    assert(p0[i] == x);
                }
            }
        }
        assert forall|y: Seq<char>| #[trigger] black(va, p1, y) implies black(va, p0, y) && y != n by {
            assert(p1[p0.len() as int] == n);
            if p0.contains(y) {
                let i = choose|i: int| 0 <= i < p0.len() && p0[i] == y;
                assert(p1[i] == y);
            }
        }
        assert(ranked(graph, va, p0, f2, c + 1));
        assert(black(va, p0, n));
    }
    false
}

/// Looks for a dependency cycle; on success returns the search path, whose
/// last name repeats an earlier one.
pub fn detect_cycle(dependencies: &DependencyMap) -> (r: Option<Vec<String>>)
    ensures
        r is Some <==> dependencies.has_cycle(),
        r matches Some(p) ==> dependencies.is_cycle_path(names(p@)),
        r matches Some(p) ==> names(p@).drop_last().no_duplicates(),
{
    let mut visited: Vec<String> = Vec::new();
    let mut rec_stack: Vec<String> = Vec::new();
    let mut path: Vec<String> = Vec::new();
    let ghost es = dependencies.entries_view();
    proof {
        assert(names(path@) =~= Seq::<Seq<char>>::empty());
        assert(names(rec_stack@) =~= Seq::<Seq<char>>::empty());
        assert(names(visited@) =~= Seq::<Seq<char>>::empty());
        assert(ranked(dependencies, names(visited@), names(path@), Map::<Seq<char>, nat>::empty(), 0));
    }
    let mut i: usize = 0;
    while i < dependencies.entries.len()
        invariant
            0 <= i <= dependencies.entries.len(),
            es == dependencies.entries_view(),
            es.len() == dependencies.entries.len(),
            names(path@) == Seq::<Seq<char>>::empty(),
            names(rec_stack@) == Seq::<Seq<char>>::empty(),
            names(path@).no_duplicates(),
            path_ok(dependencies, names(path@), names(visited@)),
            some_ranking(dependencies, names(visited@), names(path@)),
            forall|k: int| 0 <= k < i ==> #[trigger] names(visited@).contains(es[k].0),
        decreases dependencies.entries.len() - i,
    {
        let ghost vb = names(visited@);
        proof {
            assert(es[i as int].0 == dependencies.entries@[i as int].0@);
        }
        if dfs_cycle(&dependencies.entries[i].0, dependencies, &mut visited, &mut rec_stack, &mut path) {
            let ghost p = names(path@);
            proof {
                let j = choose|j: int| 0 <= j < p.len() - 1 && p[j] == p.last();
                let w = p.subrange(j, p.len() as int);
                assert(w[0] == w.last());
                assert forall|k: int| 0 <= k < w.len() - 1 implies #[trigger] dependencies.edge(w[k], w[k + 1]) by {
                    assert(w[k] == p[j + k] && w[k + 1] == p[j + k + 1]);
                }
                assert(dependencies.is_closed_walk(w));
            }
            return Some(path);
        }
        proof {
            let va = names(visited@);
            assert forall|k: int| 0 <= k < i + 1 implies #[trigger] va.contains(es[k].0) by {
                if k < i {
                    assert(vb.contains(es[k].0));
                }
            }
        }
        i = i + 1;
    }
    proof {
        lemma_no_cycle(dependencies, names(visited@));
    }
    None
}

proof fn lemma_walk_descends(
    g: &DependencyMap,
    vis: Seq<Seq<char>>,
    path: Seq<Seq<char>>,
    f: Map<Seq<char>, nat>,
    c: nat,
    w: Seq<Seq<char>>,
    k: int,
)
    requires
        ranked(g, vis, path, f, c),
        1 <= k < w.len(),
        black(vis, path, w[0]),
        forall|i: int| 0 <= i < w.len() - 1 ==> #[trigger] g.edge(w[i], w[i + 1]),
    ensures
        black(vis, path, w[k]),
        f[w[k]] < f[w[0]],
    decreases k,
{
    assert(g.edge(w[k - 1], w[(k - 1) + 1]));
    if k > 1 {
        lemma_walk_descends(g, vis, path, f, c, w, k - 1);
    }
}

/// With every named entry finished and ranked, no dependency walk closes.
proof fn lemma_no_cycle(g: &DependencyMap, vis: Seq<Seq<char>>)
    requires
        some_ranking(g, vis, Seq::<Seq<char>>::empty()),
        forall|k: int| 0 <= k < g.entries_view().len() ==> #[trigger] vis.contains(g.entries_view()[k].0),
    ensures
        !g.has_cycle(),
{
    let path = Seq::<Seq<char>>::empty();
    if g.has_cycle() {
        let w = choose|w: Seq<Seq<char>>| g.is_closed_walk(w);
        let (f, c) = choose|f: Map<Seq<char>, nat>, c: nat| ranked(g, vis, path, f, c);
        assert(g.edge(w[0], w[0int + 1]));
        lemma_lookup_some_key(g.entries_view(), w[0]);
        let i = choose|i: int| 0 <= i < g.entries_view().len() && g.entries_view()[i].0 == w[0];
        assert(vis.contains(g.entries_view()[i].0));
        assert(black(vis, path, w[0]));
        lemma_walk_descends(g, vis, path, f, c, w, w.len() - 1);
    }
}

} // verus!
