//! The dependency-graph data model: index-addressed nodes and edges with
//! optional string attribute maps, plus the lookup tables that query
//! construction reads and the matcher-output shape that canonicalization
//! consumes.

use vstd::prelude::*;
use crate::text::str_eq;

verus! {

/// First-match lookup in an association list: the single "present or absent"
/// step that every attribute and table access goes through. A missing list
/// and a missing key give the same absence outcome at the call sites.
pub open spec fn assoc_get<V>(entries: Seq<(String, V)>, key: Seq<char>) -> Option<V>
    decreases entries.len(),
{
    if entries.len() == 0 {
        None
    } else if entries[0].0@ == key {
        Some(entries[0].1)
    } else {
        assoc_get(entries.drop_first(), key)
    }
}

/// Scans for the first entry whose key reads as `key`.
pub fn assoc_find<'a, V>(entries: &'a Vec<(String, V)>, key: &str) -> (r: Option<&'a V>)
    ensures
        match r {
            Some(v) => assoc_get(entries@, key@) == Some(*v),
            None => assoc_get(entries@, key@) is None,
        },
{
    let mut i: usize = 0;
    proof {
        assert(entries@.skip(0) =~= entries@);
    }
    while i < entries.len()
        invariant
            i <= entries.len(),
            assoc_get(entries@, key@) == assoc_get(entries@.skip(i as int), key@),
        decreases entries.len() - i,
    {
        proof {
            assert(entries@.skip(i as int)[0] == entries@[i as int]);
        }
        if str_eq(entries[i].0.as_str(), key) {
            return Some(&entries[i].1);
        }
        proof {
            assert(entries@.skip(i as int).drop_first() =~= entries@.skip(i + 1));
        }
        i = i + 1;
    }
    None
}

/// A string-keyed attribute map. Lookup takes the first matching pair and
/// `insert` places the newest pair in front, so the newest binding wins.
#[derive(Clone)]
pub struct AttrMap {
    pub pairs: Vec<(String, String)>,
}

impl AttrMap {
    pub fn new() -> (r: AttrMap)
        ensures
            r.pairs@.len() == 0,
    {
        AttrMap { pairs: Vec::new() }
    }

    pub fn insert(&mut self, key: String, value: String)
        ensures
            final(self).pairs@ == seq![(key, value)] + old(self).pairs@,
            forall|k: Seq<char>| #[trigger]
                assoc_get(final(self).pairs@, k) == if k == key@ {
                    Some(value)
                } else {
                    assoc_get(old(self).pairs@, k)
                },
    {
        self.pairs.insert(0, (key, value));
        proof {
            assert(self.pairs@ =~= seq![(key, value)] + old(self).pairs@);
            assert forall|k: Seq<char>| #[trigger]
                assoc_get(self.pairs@, k) == if k == key@ {
                    Some(value)
                } else {
                    assoc_get(old(self).pairs@, k)
                } by {
                assert(self.pairs@[0] == (key, value));
                assert(self.pairs@.drop_first() =~= old(self).pairs@);
            }
        }
    }

    /// The attribute accessor: the value stored under `key`, or absence.
    pub fn get<'a>(&'a self, key: &str) -> (r: Option<&'a String>)
        ensures
            match r {
                Some(v) => assoc_get(self.pairs@, key@) == Some(*v),
                None => assoc_get(self.pairs@, key@) is None,
            },
    {
        assoc_find(&self.pairs, key)
    }
}

/// A graph node: an identifier and an optional attribute map.
#[derive(Clone)]
pub struct Node {
    pub identifier: String,
    pub attributes: Option<AttrMap>,
}

/// A graph edge: a string label and optional endpoint indices.
#[derive(Clone)]
pub struct Edge {
    pub identifier: String,
    pub source: Option<usize>,
    pub target: Option<usize>,
}

/// An ordered, index-addressed collection of nodes and edges.
#[derive(Clone)]
pub struct Graph {
    pub nodes: Vec<Node>,
    pub edges: Vec<Edge>,
}

/// The attribute named `key` on `node`, if the node has an attribute map and
/// the map has the key; both failures are the same absence.
pub open spec fn node_attr_of(node: Node, key: Seq<char>) -> Option<Seq<char>> {
    match node.attributes {
        None => None,
        Some(m) => match assoc_get(m.pairs@, key) {
            None => None,
            Some(v) => Some(v@),
        },
    }
}

/// The attribute named `key` on node `i` of `g`.
pub open spec fn node_attr(g: Graph, i: int, key: Seq<char>) -> Option<Seq<char>> {
    node_attr_of(g.nodes@[i], key)
}

impl Node {
    /// The attribute accessor on a node: a missing map and a missing key are
    /// one and the same absence.
    pub fn attribute<'a>(&'a self, key: &str) -> (r: Option<&'a String>)
        ensures
            match r {
                Some(v) => node_attr_of(*self, key@) == Some(v@),
                None => node_attr_of(*self, key@) is None,
            },
    {
        match &self.attributes {
            None => None,
            Some(m) => m.get(key),
        }
    }
}

impl Graph {
    pub fn new() -> (r: Graph)
        ensures
            r.nodes@.len() == 0,
            r.edges@.len() == 0,
    {
        Graph { nodes: Vec::new(), edges: Vec::new() }
    }

    /// Appends a node and returns its index.
    pub fn add_node(&mut self, identifier: String, attributes: Option<AttrMap>) -> (index: usize)
        ensures
            final(self).nodes@ == old(self).nodes@.push(
                (Node { identifier, attributes }),
            ),
            final(self).edges@ == old(self).edges@,
            index == old(self).nodes@.len(),
    {
        let index = self.nodes.len();
        self.nodes.push(Node { identifier, attributes });
        index
    }

    /// Appends an edge labelled `identifier` from `source` to `target`.
    pub fn add_edge(&mut self, source: usize, target: usize, identifier: String)
        ensures
            final(self).edges@ == old(self).edges@.push(
                (Edge { identifier, source: Some(source), target: Some(target) }),
            ),
            final(self).nodes@ == old(self).nodes@,
    {
        self.edges.push(Edge { identifier, source: Some(source), target: Some(target) });
    }
}

/// One node-to-query-node correspondence reported by the matching engine,
/// with the edge that reached it; the query root has no such edge.
#[derive(Clone, Copy)]
pub struct Component {
    pub node: usize,
    pub from_edge: Option<usize>,
}

/// The matching engine's output for one query: an unordered list of
/// components.
#[derive(Clone)]
pub struct MatchedComponents {
    pub list: Vec<Component>,
}

/// A frame definition: a root node index and the structured query graph.
/// Query construction only checks that one exists for a pattern.
#[derive(Clone)]
pub struct Frame {
    pub root: usize,
    pub graph: Graph,
}

/// Lemma to ordered candidate pattern identifiers; candidate order decides
/// emission order during query construction.
#[derive(Clone)]
pub struct VerbLemmaPatterns {
    pub entries: Vec<(String, Vec<String>)>,
}

impl VerbLemmaPatterns {
    pub fn new() -> (r: VerbLemmaPatterns)
        ensures
            r.entries@.len() == 0,
    {
        VerbLemmaPatterns { entries: Vec::new() }
    }

    pub fn insert(&mut self, lemma: String, patterns: Vec<String>)
        ensures
            final(self).entries@ == seq![(lemma, patterns)] + old(self).entries@,
            forall|k: Seq<char>| #[trigger]
                assoc_get(final(self).entries@, k) == if k == lemma@ {
                    Some(patterns)
                } else {
                    assoc_get(old(self).entries@, k)
                },
    {
        self.entries.insert(0, (lemma, patterns));
        proof {
            assert(self.entries@ =~= seq![(lemma, patterns)] + old(self).entries@);
            assert forall|k: Seq<char>| #[trigger]
                assoc_get(self.entries@, k) == if k == lemma@ {
                    Some(patterns)
                } else {
                    assoc_get(old(self).entries@, k)
                } by {
                assert(self.entries@[0] == (lemma, patterns));
                assert(self.entries@.drop_first() =~= old(self).entries@);
            }
        }
    }

    /// The candidate patterns stored for `lemma`, or absence.
    pub fn get<'a>(&'a self, lemma: &str) -> (r: Option<&'a Vec<String>>)
        ensures
            match r {
                Some(v) => assoc_get(self.entries@, lemma@) == Some(*v),
                None => assoc_get(self.entries@, lemma@) is None,
            },
    {
        assoc_find(&self.entries, lemma)
    }
}

/// Pattern identifier to frame definition.
#[derive(Clone)]
pub struct FrameTable {
    pub entries: Vec<(String, Frame)>,
}

/// A frame definition exists for the pattern identifier `pat`.
pub open spec fn frame_defined(frames: FrameTable, pat: Seq<char>) -> bool {
    assoc_get(frames.entries@, pat) is Some
}

impl FrameTable {
    pub fn new() -> (r: FrameTable)
        ensures
            r.entries@.len() == 0,
    {
        FrameTable { entries: Vec::new() }
    }

    pub fn insert(&mut self, pattern: String, frame: Frame)
        ensures
            frame_defined(*final(self), pattern@),
            forall|k: Seq<char>|
                #[trigger] frame_defined(*final(self), k) == (k == pattern@ || frame_defined(
                    *old(self),
                    k,
                )),
    {
        self.entries.insert(0, (pattern, frame));
        proof {
            assert forall|k: Seq<char>|
                #[trigger] frame_defined(*self, k) == (k == pattern@ || frame_defined(
                    *old(self),
                    k,
                )) by {
                assert(self.entries@[0].0 == pattern);
                assert(self.entries@.drop_first() =~= old(self).entries@);
            }
        }
    }

    /// A frame exists for the pattern identifier.
    pub fn contains(&self, pattern: &str) -> (r: bool)
        ensures
            r == frame_defined(*self, pattern@),
    {
        match assoc_find(&self.entries, pattern) {
            Some(_) => true,
            None => false,
        }
    }
}

} // verus!
