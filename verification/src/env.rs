//! The single global environment: variable bindings and the procedure
//! registry, each seen abstractly as a map from a name to its content.

use vstd::prelude::*;
use crate::ast::Node;
use crate::ast::NodeAbs;
use crate::ast::Type;
use crate::ast::node_abs;

verus! {

/// The mapping a sequence of bindings denotes; a later entry for the
/// same name supersedes an earlier one.
pub open spec fn bindings_map_of(s: Seq<(String, Type, String)>) -> Map<Seq<char>, (Type, Seq<char>)>
    decreases s.len(),
{
    if s.len() == 0 {
        Map::empty()
    } else {
        bindings_map_of(s.drop_last()).insert(s.last().0@, (s.last().1, s.last().2@))
    }
}

/// No two entries carry the same name.
pub open spec fn distinct_names(s: Seq<(String, Type, String)>) -> bool {
    forall|i: int, j: int| 0 <= i < j < s.len() ==> s[i].0@ != s[j].0@
}

/// A name is bound exactly when some entry carries it.
proof fn lemma_bindings_contains(s: Seq<(String, Type, String)>, k: Seq<char>)
    ensures
        bindings_map_of(s).contains_key(k) <==> exists|i: int| 0 <= i < s.len() && s[i].0@ == k,
    decreases s.len(),
{
    if s.len() > 0 {
        lemma_bindings_contains(s.drop_last(), k);
        if s.last().0@ == k {
            assert(s[s.len() - 1].0@ == k);
        }
        if bindings_map_of(s.drop_last()).contains_key(k) {
            let w = choose|i: int| 0 <= i < s.drop_last().len() && s.drop_last()[i].0@ == k;
            assert(s[w].0@ == k);
        }
        if exists|i: int| 0 <= i < s.len() && s[i].0@ == k {
            let w = choose|i: int| 0 <= i < s.len() && s[i].0@ == k;
            if w < s.len() - 1 {
                assert(s.drop_last()[w].0@ == k);
            }
        }
    }
}

/// With distinct names, the entry carrying a name gives its value.
proof fn lemma_bindings_get(s: Seq<(String, Type, String)>, i: int)
    requires
        distinct_names(s),
        0 <= i < s.len(),
    ensures
        bindings_map_of(s).contains_key(s[i].0@),
        bindings_map_of(s)[s[i].0@] == (s[i].1, s[i].2@),
    decreases s.len(),
{
    if i < s.len() - 1 {
        lemma_bindings_get(s.drop_last(), i);
    }
}

/// With distinct names, dropping the entry that carries a name removes
/// exactly that name from the mapping.
proof fn lemma_bindings_remove(s: Seq<(String, Type, String)>, i: int)
    requires
        distinct_names(s),
        0 <= i < s.len(),
    ensures
        bindings_map_of(s.remove(i)) == bindings_map_of(s).remove(s[i].0@),
    decreases s.len(),
{
    let k = s[i].0@;
    if i == s.len() - 1 {
        assert(s.remove(i) =~= s.drop_last());
        lemma_bindings_contains(s.drop_last(), k);
        assert(bindings_map_of(s.drop_last()) =~= bindings_map_of(s).remove(k));
    } else {
        lemma_bindings_remove(s.drop_last(), i);
        assert(s.remove(i).drop_last() =~= s.drop_last().remove(i));
        assert(s.remove(i).last() == s.last());
        assert(bindings_map_of(s.drop_last()).remove(k).insert(s.last().0@, (s.last().1, s.last().2@))
            =~= bindings_map_of(s.drop_last()).insert(s.last().0@, (s.last().1, s.last().2@)).remove(
            k,
        ));
    }
}

/// Variable bindings: a flat mutable mapping from a name to a resolved
/// type and textual value, with copy semantics on assignment.
pub struct Bindings {
    entries: Vec<(String, Type, String)>,
}

impl View for Bindings {
    type V = Map<Seq<char>, (Type, Seq<char>)>;

    closed spec fn view(&self) -> Map<Seq<char>, (Type, Seq<char>)> {
        bindings_map_of(self.entries@)
    }
}

impl Bindings {
    /// Every entry carries a distinct name.
    pub closed spec fn wf(&self) -> bool {
        distinct_names(self.entries@)
    }

    /// How many names are bound.
    pub closed spec fn count(&self) -> nat {
        self.entries@.len()
    }

    /// An empty environment.
    pub fn new() -> (b: Bindings)
        ensures
            b@ == Map::<Seq<char>, (Type, Seq<char>)>::empty(),
            b.wf(),
            b.count() == 0,
    {
        Bindings { entries: Vec::new() }
    }

    /// The number of bound names.
    pub fn len(&self) -> (n: usize)
        ensures
            n == self.count(),
    {
        self.entries.len()
    }

    /// The index of the entry carrying a name, if any.
    fn find(&self, name: &String) -> (r: Option<usize>)
        ensures
            match r {
                Some(i) => i < self.entries@.len() && self.entries@[i as int].0@ == name@,
                Option::None => forall|idx: int|
                    0 <= idx < self.entries@.len() ==> self.entries@[idx].0@ != name@,
            },
    {
        let mut i: usize = 0;
        while i < self.entries.len()
            invariant
                i <= self.entries@.len(),
                forall|idx: int| 0 <= idx < i ==> self.entries@[idx].0@ != name@,
            decreases self.entries@.len() - i,
        {
            if self.entries[i].0 == *name {
                return Some(i);
            }
            i = i + 1;
        }
        Option::None
    }

    /// The type and value bound to a name, if any.
    pub fn get(&self, name: &String) -> (r: Option<(Type, String)>)
        requires
            self.wf(),
        ensures
            match r {
                Some(tv) => self@.contains_key(name@) && self@[name@] == (tv.0, tv.1@),
                Option::None => !self@.contains_key(name@),
            },
    {
        let mut i: usize = 0;
        while i < self.entries.len()
            invariant
                i <= self.entries@.len(),
                self.wf(),
                forall|idx: int| 0 <= idx < i ==> self.entries@[idx].0@ != name@,
            decreases self.entries@.len() - i,
        {
            let e = &self.entries[i];
            if e.0 == *name {
                proof {
                    lemma_bindings_get(self.entries@, i as int);
                }
                return Some((e.1.clone(), e.2.clone()));
            }
            i = i + 1;
        }
        proof {
            lemma_bindings_contains(self.entries@, name@);
        }
        Option::None
    }

    /// Binds a name to a type and value, superseding any earlier binding.
    pub fn set(&mut self, name: &String, t: Type, v: String)
        requires
            old(self).wf(),
        ensures
            final(self).wf(),
            final(self)@ == old(self)@.insert(name@, (t, v@)),
            final(self).count() == if old(self)@.contains_key(name@) {
                old(self).count()
            } else {
                old(self).count() + 1
            },
    {
        let ghost s0 = self.entries@;
        let pos = self.find(name);
        proof {
            lemma_bindings_contains(s0, name@);
        }
        if let Some(i) = pos {
            proof {
                lemma_bindings_remove(s0, i as int);
            }
            self.entries.remove(i);
            proof {
                assert(distinct_names(self.entries@)) by {
                    assert forall|a: int, b: int|
                        0 <= a < b < self.entries@.len() implies self.entries@[a].0@
                        != self.entries@[b].0@ by {
                        if b < i {
                            assert(self.entries@[a] == s0[a]);
                            assert(self.entries@[b] == s0[b]);
                        } else if a < i {
                            assert(self.entries@[a] == s0[a]);
                            assert(self.entries@[b] == s0[b + 1]);
                        } else {
                            assert(self.entries@[a] == s0[a + 1]);
                            assert(self.entries@[b] == s0[b + 1]);
                        }
                    }
                }
                assert forall|idx: int|
                    0 <= idx < self.entries@.len() implies self.entries@[idx].0@ != name@ by {
                    if idx < i {
                        assert(self.entries@[idx] == s0[idx]);
                    } else {
                        assert(self.entries@[idx] == s0[idx + 1]);
                    }
                }
            }
        }
        let ghost s1 = self.entries@;
        self.entries.push((name.clone(), t, v));
        proof {
            assert(self.entries@.drop_last() =~= s1);
            assert(self.entries@.last().0@ == name@);
            if pos is Some {
                assert(bindings_map_of(s1) == bindings_map_of(s0).remove(name@));
                assert(bindings_map_of(self.entries@) =~= bindings_map_of(s0).insert(
                    name@,
                    (t, v@),
                ));
            }
            assert forall|a: int, b: int|
                0 <= a < b < self.entries@.len() implies self.entries@[a].0@
                != self.entries@[b].0@ by {
                if b < self.entries@.len() - 1 {
                    assert(self.entries@[a] == s1[a]);
                    assert(self.entries@[b] == s1[b]);
                } else {
                    assert(self.entries@[b].0@ == name@);
                    assert(self.entries@[a] == s1[a]);
                }
            }
        }
    }

    /// A copy of every binding, for the closing state dump.
    pub fn snapshot(&self) -> (r: Vec<(String, Type, String)>)
        requires
            self.wf(),
        ensures
            bindings_map_of(r@) == self@,
    {
        let mut r: Vec<(String, Type, String)> = Vec::new();
        let mut i: usize = 0;
        while i < self.entries.len()
            invariant
                i <= self.entries@.len(),
                r@.len() == i,
                forall|idx: int| 0 <= idx < i ==> r@[idx] == self.entries@[idx],
            decreases self.entries@.len() - i,
        {
            let e = &self.entries[i];
            r.push((e.0.clone(), e.1.clone(), e.2.clone()));
            i = i + 1;
        }
        proof {
            assert(r@ =~= self.entries@);
        }
        r
    }
}

/// The mapping a sequence of stored procedures denotes; a later entry
/// for the same name supersedes an earlier one.
pub open spec fn procs_map_of(s: Seq<(String, Node)>) -> Map<Seq<char>, NodeAbs>
    decreases s.len(),
{
    if s.len() == 0 {
        Map::empty()
    } else {
        procs_map_of(s.drop_last()).insert(s.last().0@, node_abs(s.last().1))
    }
}

/// No two stored procedures carry the same name.
pub open spec fn distinct_proc_names(s: Seq<(String, Node)>) -> bool {
    forall|i: int, j: int| 0 <= i < j < s.len() ==> s[i].0@ != s[j].0@
}

/// A name is registered exactly when some entry carries it.
proof fn lemma_procs_contains(s: Seq<(String, Node)>, k: Seq<char>)
    ensures
        procs_map_of(s).contains_key(k) <==> exists|i: int| 0 <= i < s.len() && s[i].0@ == k,
    decreases s.len(),
{
    if s.len() > 0 {
        lemma_procs_contains(s.drop_last(), k);
        if s.last().0@ == k {
            assert(s[s.len() - 1].0@ == k);
        }
        if procs_map_of(s.drop_last()).contains_key(k) {
            let w = choose|i: int| 0 <= i < s.drop_last().len() && s.drop_last()[i].0@ == k;
            assert(s[w].0@ == k);
        }
        if exists|i: int| 0 <= i < s.len() && s[i].0@ == k {
            let w = choose|i: int| 0 <= i < s.len() && s[i].0@ == k;
            if w < s.len() - 1 {
                assert(s.drop_last()[w].0@ == k);
            }
        }
    }
}

/// With distinct names, the entry carrying a name gives its body.
proof fn lemma_procs_get(s: Seq<(String, Node)>, i: int)
    requires
        distinct_proc_names(s),
        0 <= i < s.len(),
    ensures
        procs_map_of(s).contains_key(s[i].0@),
        procs_map_of(s)[s[i].0@] == node_abs(s[i].1),
    decreases s.len(),
{
    if i < s.len() - 1 {
        lemma_procs_get(s.drop_last(), i);
    }
}

/// With distinct names, dropping the entry that carries a name removes
/// exactly that name from the mapping.
proof fn lemma_procs_remove(s: Seq<(String, Node)>, i: int)
    requires
        distinct_proc_names(s),
        0 <= i < s.len(),
    ensures
        procs_map_of(s.remove(i)) == procs_map_of(s).remove(s[i].0@),
    decreases s.len(),
{
    let k = s[i].0@;
    if i == s.len() - 1 {
        assert(s.remove(i) =~= s.drop_last());
        lemma_procs_contains(s.drop_last(), k);
        assert(procs_map_of(s.drop_last()) =~= procs_map_of(s).remove(k));
    } else {
        lemma_procs_remove(s.drop_last(), i);
        assert(s.remove(i).drop_last() =~= s.drop_last().remove(i));
        assert(s.remove(i).last() == s.last());
        assert(procs_map_of(s.drop_last()).remove(k).insert(s.last().0@, node_abs(s.last().1))
            =~= procs_map_of(s.drop_last()).insert(s.last().0@, node_abs(s.last().1)).remove(k));
    }
}

/// The procedure registry: a mapping from a name to its stored block,
/// populated by definition statements and read by calls.
pub struct ProcBodies {
    entries: Vec<(String, Node)>,
}

impl View for ProcBodies {
    type V = Map<Seq<char>, NodeAbs>;

    closed spec fn view(&self) -> Map<Seq<char>, NodeAbs> {
        procs_map_of(self.entries@)
    }
}

impl ProcBodies {
    /// Every entry carries a distinct name.
    pub closed spec fn wf(&self) -> bool {
        distinct_proc_names(self.entries@)
    }

    /// An empty registry.
    pub fn new() -> (p: ProcBodies)
        ensures
            p@ == Map::<Seq<char>, NodeAbs>::empty(),
            p.wf(),
    {
        ProcBodies { entries: Vec::new() }
    }

    /// Whether a name is registered.
    pub fn contains(&self, name: &String) -> (r: bool)
        requires
            self.wf(),
        ensures
            r == self@.contains_key(name@),
    {
        let mut i: usize = 0;
        while i < self.entries.len()
            invariant
                i <= self.entries@.len(),
                forall|idx: int| 0 <= idx < i ==> self.entries@[idx].0@ != name@,
            decreases self.entries@.len() - i,
        {
            if self.entries[i].0 == *name {
                proof {
                    lemma_procs_contains(self.entries@, name@);
                }
                return true;
            }
            i = i + 1;
        }
        proof {
            lemma_procs_contains(self.entries@, name@);
        }
        false
    }

    /// The index of the entry carrying a name, if any.
    fn find(&self, name: &String) -> (r: Option<usize>)
        ensures
            match r {
                Some(i) => i < self.entries@.len() && self.entries@[i as int].0@ == name@,
                Option::None => forall|idx: int|
                    0 <= idx < self.entries@.len() ==> self.entries@[idx].0@ != name@,
            },
    {
        let mut i: usize = 0;
        while i < self.entries.len()
            invariant
                i <= self.entries@.len(),
                forall|idx: int| 0 <= idx < i ==> self.entries@[idx].0@ != name@,
            decreases self.entries@.len() - i,
        {
            if self.entries[i].0 == *name {
                return Some(i);
            }
            i = i + 1;
        }
        Option::None
    }

    /// A copy of the body stored under a name, if any.
    pub fn get(&self, name: &String) -> (r: Option<Node>)
        requires
            self.wf(),
        ensures
            match r {
                Some(n) => self@.contains_key(name@) && node_abs(n) == self@[name@],
                Option::None => !self@.contains_key(name@),
            },
    {
        let mut i: usize = 0;
        while i < self.entries.len()
            invariant
                i <= self.entries@.len(),
                self.wf(),
                forall|idx: int| 0 <= idx < i ==> self.entries@[idx].0@ != name@,
            decreases self.entries@.len() - i,
        {
            let e = &self.entries[i];
            if e.0 == *name {
                proof {
                    lemma_procs_get(self.entries@, i as int);
                }
                return Some(e.1.clone());
            }
            i = i + 1;
        }
        proof {
            lemma_procs_contains(self.entries@, name@);
        }
        Option::None
    }

    /// Registers a body under a name, superseding any earlier body.
    pub fn set(&mut self, name: &String, body: Node)
        requires
            old(self).wf(),
        ensures
            final(self).wf(),
            final(self)@ == old(self)@.insert(name@, node_abs(body)),
    {
        let ghost s0 = self.entries@;
        let pos = self.find(name);
        proof {
            lemma_procs_contains(s0, name@);
        }
        if let Some(i) = pos {
            proof {
                lemma_procs_remove(s0, i as int);
            }
            self.entries.remove(i);
            proof {
                assert(distinct_proc_names(self.entries@)) by {
                    assert forall|a: int, b: int|
                        0 <= a < b < self.entries@.len() implies self.entries@[a].0@
                        != self.entries@[b].0@ by {
                        if b < i {
                            assert(self.entries@[a] == s0[a]);
                            assert(self.entries@[b] == s0[b]);
                        } else if a < i {
                            assert(self.entries@[a] == s0[a]);
                            assert(self.entries@[b] == s0[b + 1]);
                        } else {
                            assert(self.entries@[a] == s0[a + 1]);
                            assert(self.entries@[b] == s0[b + 1]);
                        }
                    }
                }
                assert forall|idx: int|
                    0 <= idx < self.entries@.len() implies self.entries@[idx].0@ != name@ by {
                    if idx < i {
                        assert(self.entries@[idx] == s0[idx]);
                    } else {
                        assert(self.entries@[idx] == s0[idx + 1]);
                    }
                }
            }
        }
        let ghost s1 = self.entries@;
        self.entries.push((name.clone(), body));
        proof {
            assert(self.entries@.drop_last() =~= s1);
            assert(self.entries@.last().0@ == name@);
            if pos is Some {
                assert(procs_map_of(s1) == procs_map_of(s0).remove(name@));
                assert(procs_map_of(self.entries@) =~= procs_map_of(s0).insert(
                    name@,
                    node_abs(body),
                ));
            }
            assert forall|a: int, b: int|
                0 <= a < b < self.entries@.len() implies self.entries@[a].0@
                != self.entries@[b].0@ by {
                if b < self.entries@.len() - 1 {
                    assert(self.entries@[a] == s1[a]);
                    assert(self.entries@[b] == s1[b]);
                } else {
                    assert(self.entries@[b].0@ == name@);
                    assert(self.entries@[a] == s1[a]);
                }
            }
        }
    }

    /// A copy of every stored procedure, for the closing state dump.
    pub fn snapshot(&self) -> (r: Vec<(String, Node)>)
        requires
            self.wf(),
        ensures
            procs_map_of(r@) == self@,
    {
        let mut r: Vec<(String, Node)> = Vec::new();
        let mut i: usize = 0;
        while i < self.entries.len()
            invariant
                i <= self.entries@.len(),
                r@.len() == i,
                forall|idx: int|
                    0 <= idx < i ==> r@[idx].0@ == self.entries@[idx].0@ && node_abs(r@[idx].1)
                        == node_abs(self.entries@[idx].1),
            decreases self.entries@.len() - i,
        {
            let e = &self.entries[i];
            r.push((e.0.clone(), e.1.clone()));
            i = i + 1;
        }
        proof {
            lemma_procs_snapshot(r@, self.entries@);
        }
        r
    }
}

/// Entry-wise equal names and abstractions give the same mapping.
proof fn lemma_procs_snapshot(a: Seq<(String, Node)>, b: Seq<(String, Node)>)
    requires
        a.len() == b.len(),
        forall|i: int| 0 <= i < a.len() ==> a[i].0@ == b[i].0@ && node_abs(a[i].1) == node_abs(b[i].1),
    ensures
        procs_map_of(a) == procs_map_of(b),
    decreases a.len(),
{
    if a.len() > 0 {
        lemma_procs_snapshot(a.drop_last(), b.drop_last());
        assert(procs_map_of(a) =~= procs_map_of(b));
    }
}

} // verus!
