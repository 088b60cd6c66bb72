use crate::copy::copy_names;
use vstd::prelude::*;

verus! {

/// What `entries` binds `node` to: the neighbours of the first entry that
/// names it.
pub open spec fn lookup(
    entries: Seq<(Seq<char>, Seq<Seq<char>>)>,
    node: Seq<char>,
) -> Option<Seq<Seq<char>>>
    decreases entries.len(),
{
    if entries.len() == 0 {
        None
    } else if entries[0].0 == node {
        Some(entries[0].1)
    } else {
        lookup(entries.drop_first(), node)
    }
}

/// A list of entries as plain values, in order.
pub open spec fn entry_views(entries: Seq<(String, Vec<String>)>) -> Seq<
    (Seq<char>, Seq<Seq<char>>),
> {
    Seq::new(entries.len(), |i: int| (entries[i].0@, entries[i].1.deep_view()))
}

/// Whether no two of `entries` name the same node.
pub open spec fn distinct_names(entries: Seq<(Seq<char>, Seq<Seq<char>>)>) -> bool {
    forall|i: int, j: int|
        0 <= i < j < entries.len() ==> (#[trigger] entries[i]).0 != (#[trigger] entries[j]).0
}

/// A lookup that finds nothing among the first `k` entries goes on with the
/// rest.
proof fn lemma_lookup_skips(entries: Seq<(Seq<char>, Seq<Seq<char>>)>, node: Seq<char>, k: int)
    requires
        0 <= k <= entries.len(),
        forall|j: int| 0 <= j < k ==> (#[trigger] entries[j]).0 != node,
    ensures
        lookup(entries, node) == lookup(entries.skip(k), node),
    decreases k,
{
    if k == 0 {
        assert(entries.skip(0) =~= entries);
    } else {
        let rest = entries.drop_first();
        assert(entries[0].0 != node);
        assert forall|j: int| 0 <= j < k - 1 implies (#[trigger] rest[j]).0 != node by {
            assert(rest[j] == entries[j + 1]);
        }
        lemma_lookup_skips(rest, node, k - 1);
        assert(rest.skip(k - 1) =~= entries.skip(k));
    }
}

/// Rebinding the first entry that names a node changes what that node is
/// bound to, and nothing else.
proof fn lemma_lookup_rebind(
    entries: Seq<(Seq<char>, Seq<Seq<char>>)>,
    at: int,
    neighbors: Seq<Seq<char>>,
    node: Seq<char>,
)
    requires
        0 <= at < entries.len(),
        forall|j: int| 0 <= j < at ==> (#[trigger] entries[j]).0 != entries[at].0,
    ensures
        lookup(entries.update(at, (entries[at].0, neighbors)), node) == if node == entries[at].0 {
            Some(neighbors)
        } else {
            lookup(entries, node)
        },
    decreases at,
{
    let changed = entries.update(at, (entries[at].0, neighbors));
    if at == 0 {
        assert(changed.drop_first() =~= entries.drop_first());
    } else {
        let rest = entries.drop_first();
        assert(entries[0].0 != entries[at].0);
        assert forall|j: int| 0 <= j < at - 1 implies (#[trigger] rest[j]).0 != rest[at - 1].0 by {
            assert(rest[j] == entries[j + 1]);
        }
        lemma_lookup_rebind(rest, at - 1, neighbors, node);
        assert(changed.drop_first() =~= rest.update(at - 1, (rest[at - 1].0, neighbors)));
    }
}

/// Appending an entry for a node that no entry names binds that node, and
/// changes nothing else.
proof fn lemma_lookup_append(
    entries: Seq<(Seq<char>, Seq<Seq<char>>)>,
    name: Seq<char>,
    neighbors: Seq<Seq<char>>,
    node: Seq<char>,
)
    requires
        forall|j: int| 0 <= j < entries.len() ==> (#[trigger] entries[j]).0 != name,
    ensures
        lookup(entries.push((name, neighbors)), node) == if node == name {
            Some(neighbors)
        } else {
            lookup(entries, node)
        },
    decreases entries.len(),
{
    let grown = entries.push((name, neighbors));
    if entries.len() == 0 {
        assert(grown.drop_first() =~= entries);
    } else {
        let rest = entries.drop_first();
        assert(grown[0] == entries[0] && entries[0].0 != name);
        assert forall|j: int| 0 <= j < rest.len() implies (#[trigger] rest[j]).0 != name by {
            assert(rest[j] == entries[j + 1]);
        }
        lemma_lookup_append(rest, name, neighbors, node);
        assert(grown.drop_first() =~= rest.push((name, neighbors)));
    }
}

/// Which nodes each node of the cluster forwards to: a map from a node's
/// identity to the ordered list of its neighbours.
#[derive(Debug)]
pub struct Topology {
    entries: Vec<(String, Vec<String>)>,
}

impl Topology {
    /// The entries as plain values, in the order in which they are searched.
    pub closed spec fn entries(&self) -> Seq<(Seq<char>, Seq<Seq<char>>)> {
        entry_views(self.entries@)
    }

    /// No node has two entries.
    #[verifier::type_invariant]
    spec fn well_formed(&self) -> bool {
        distinct_names(self.entries())
    }

    /// The neighbours that the map lists for `node`, if it lists any.
    pub open spec fn neighbors_of(&self, node: Seq<char>) -> Option<Seq<Seq<char>>> {
        lookup(self.entries(), node)
    }

    /// A map that lists no node.
    pub fn new() -> (topology: Self)
        ensures
            topology@ == Map::<Seq<char>, Seq<Seq<char>>>::empty(),
    {
        let topology = Topology { entries: Vec::new() };
        assert(topology.entries() =~= Seq::empty());
        assert(topology@ =~= Map::empty());
        topology
    }

    /// Lists `neighbors` for `node`, in place of whatever was listed for it.
    pub fn insert(&mut self, node: String, neighbors: Vec<String>)
        ensures
            final(self)@ == old(self)@.insert(node@, neighbors.deep_view()),
    {
        let ghost name = node@;
        let ghost list = neighbors.deep_view();
        let ghost before = self.entries();
        proof {
            use_type_invariant(&*self);
        }
        let mut taken = Topology::new();
        std::mem::swap(self, &mut taken);
        let mut entries = taken.entries;
        let mut at: usize = 0;
        while at < entries.len()
            invariant
                at <= entries@.len(),
                entry_views(entries@) == before,
                name == node@,
                list == neighbors.deep_view(),
                forall|j: int| 0 <= j < at ==> (#[trigger] before[j]).0 != name,
            ensures
                at < entries@.len() ==> before[at as int].0 == name,
            decreases entries@.len() - at,
        {
            assert(before[at as int].0 == entries@[at as int].0@);
            if entries[at].0 == node {
                break ;
            }
            at = at + 1;
        }
        if at < entries.len() {
            entries.set(at, (node, neighbors));
            proof {
                assert(entry_views(entries@) =~= before.update(at as int, (name, list)));
            }
        } else {
            entries.push((node, neighbors));
            proof {
                assert(entry_views(entries@) =~= before.push((name, list)));
            }
        }
        *self = Topology { entries };
        proof {
            assert forall|other: Seq<char>|
                self.neighbors_of(other) == if other == name {
                    Some(list)
                } else {
                    old(self).neighbors_of(other)
                } by {
                if at < before.len() {
                    lemma_lookup_rebind(before, at as int, list, other);
                } else {
                    lemma_lookup_append(before, name, list, other);
                }
            }
            assert(self@ =~= old(self)@.insert(name, list));
        }
    }

    /// The entries of the map, each node once with the neighbours listed
    /// for it.
    pub fn into_entries(self) -> (entries: Vec<(String, Vec<String>)>)
        ensures
            entry_views(entries@) == self.entries(),
            distinct_names(entry_views(entries@)),
    {
        proof {
            use_type_invariant(&self);
        }
        self.entries
    }

    /// The neighbours listed for `node`.
    pub fn get(&self, node: &String) -> (found: Option<&Vec<String>>)
        ensures
            match found {
                Some(neighbors) => self@.contains_key(node@) && self@[node@]
                    == neighbors.deep_view(),
                None => !self@.contains_key(node@),
            },
    {
        let ghost entries = self.entries();
        let mut at: usize = 0;
        while at < self.entries.len()
            invariant
                at <= self.entries@.len(),
                entries == self.entries(),
                forall|j: int| 0 <= j < at ==> (#[trigger] entries[j]).0 != node@,
            decreases self.entries@.len() - at,
        {
            assert(entries[at as int].0 == self.entries@[at as int].0@);
            if self.entries[at].0 == *node {
                proof {
                    lemma_lookup_skips(entries, node@, at as int);
                    assert(entries.skip(at as int)[0] == entries[at as int]);
                }
                return Some(&self.entries[at].1);
            }
            at = at + 1;
        }
        proof {
            lemma_lookup_skips(entries, node@, at as int);
            assert(entries.skip(at as int) =~= Seq::empty());
        }
        None
    }
}

impl Clone for Topology {
    fn clone(&self) -> (copy: Topology)
        ensures
            copy@ == self@,
    {
        let mut entries: Vec<(String, Vec<String>)> = Vec::new();
        let mut at: usize = 0;
        while at < self.entries.len()
            invariant
                at <= self.entries@.len(),
                entries@.len() == at,
                forall|j: int|
                    0 <= j < at ==> (#[trigger] entries@[j]).0@ == self.entries@[j].0@
                        && entries@[j].1.deep_view() == self.entries@[j].1.deep_view(),
            decreases self.entries@.len() - at,
        {
            let entry = &self.entries[at];
            entries.push((entry.0.clone(), copy_names(&entry.1)));
            at = at + 1;
        }
        proof {
            use_type_invariant(self);
            assert(entry_views(entries@) =~= self.entries());
        }
        Topology { entries }
    }
}

impl View for Topology {
    type V = Map<Seq<char>, Seq<Seq<char>>>;

    open spec fn view(&self) -> Map<Seq<char>, Seq<Seq<char>>> {
        Map::new(
            |node: Seq<char>| self.neighbors_of(node) is Some,
            |node: Seq<char>| self.neighbors_of(node).unwrap(),
        )
    }
}

} // verus!
