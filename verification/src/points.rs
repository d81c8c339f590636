//! The four-stage extraction pipeline: verb discovery, query construction,
//! match canonicalization, and surface-text reconstruction.

use vstd::prelude::*;
use crate::graph::Graph;
use crate::graph::Component;
use crate::graph::MatchedComponents;
use crate::graph::FrameTable;
use crate::graph::VerbLemmaPatterns;
use crate::graph::assoc_get;
use crate::graph::frame_defined;
use crate::graph::node_attr;
use crate::text::has_substring;
use crate::text::contains_substring;
use crate::order::sort_components_spec;
use crate::order::sort_components;
use crate::order::sort_indices_spec;
use crate::order::sort_indices;
use crate::text::collapse_double_spaces;
use crate::text::collapse_spaces;
use crate::text::str_eq;
use vstd::string::StringExecFns;

verus! {

/// Node `i` of `g` carries a part-of-speech attribute that contains `VB`.
pub open spec fn is_verb(g: Graph, i: int) -> bool {
    match node_attr(g, i, "pos"@) {
        Some(p) => has_substring(p, "VB"@),
        None => false,
    }
}

/// The ascending indices of verb nodes among the first `n` nodes of `g`.
pub open spec fn verbs_spec(g: Graph, n: int) -> Seq<usize>
    decreases n,
{
    if n <= 0 {
        Seq::empty()
    } else {
        verbs_spec(g, n - 1) + (if is_verb(g, n - 1) {
            seq![(n - 1) as usize]
        } else {
            Seq::empty()
        })
    }
}

/// Scans every node of the graph and returns, in ascending index order, the
/// indices whose part-of-speech attribute contains `VB`. Nodes without an
/// attribute map or without that attribute are skipped; the result is always
/// present, possibly empty.
pub fn find_verbs(graph: &Graph) -> (r: Option<Vec<usize>>)
    ensures
        (r matches Some(v) && v@ == verbs_spec(*graph, graph.nodes@.len() as int)),
{
    let mut verb_indices: Vec<usize> = Vec::new();
    let mut node_index: usize = 0;
    while node_index < graph.nodes.len()
        invariant
            node_index <= graph.nodes@.len(),
            verb_indices@ == verbs_spec(*graph, node_index as int),
        decreases graph.nodes@.len() - node_index,
    {
        let is_verb_here = match graph.nodes[node_index].attribute("pos") {
            Some(pos) => contains_substring(pos.as_str(), "VB"),
            None => false,
        };
        proof {
            assert(is_verb_here == is_verb(*graph, node_index as int));
        }
        if is_verb_here {
            verb_indices.push(node_index);
            proof {
                assert(verb_indices@ =~= verbs_spec(*graph, node_index as int) + seq![node_index]);
            }
        } else {
            proof {
                assert(verb_indices@ =~= verbs_spec(*graph, node_index as int)
                    + Seq::<usize>::empty());
            }
        }
        node_index = node_index + 1;
    }
    Some(verb_indices)
}

/// A query item list as contracts see it: each `(verb index, pattern id)`
/// pair with the pattern id read as its character sequence.
pub open spec fn pairs_view(q: Seq<(usize, String)>) -> Seq<(usize, Seq<char>)> {
    q.map_values(|p: (usize, String)| (p.0, p.1@))
}

/// The query items emitted for one verb from its candidate patterns, in the
/// stored pattern order, keeping exactly the patterns with a frame.
pub open spec fn queries_for_patterns(frames: FrameTable, vi: usize, pats: Seq<String>) -> Seq<
    (usize, Seq<char>),
>
    decreases pats.len(),
{
    if pats.len() == 0 {
        Seq::empty()
    } else {
        queries_for_patterns(frames, vi, pats.drop_last()) + (if frame_defined(
            frames,
            pats.last()@,
        ) {
            seq![(vi, pats.last()@)]
        } else {
            Seq::empty()
        })
    }
}

/// The query items one verb index contributes: none when the node has no
/// lemma or the lemma has no patterns, else its patterns' items.
pub open spec fn queries_for_verb(
    g: Graph,
    verbs: VerbLemmaPatterns,
    frames: FrameTable,
    vi: usize,
) -> Seq<(usize, Seq<char>)> {
    match node_attr(g, vi as int, "lemma"@) {
        None => Seq::empty(),
        Some(lemma) => match assoc_get(verbs.entries@, lemma) {
            None => Seq::empty(),
            Some(pats) => queries_for_patterns(frames, vi, pats@),
        },
    }
}

/// All query items for a verb-index sequence, verb by verb in order.
pub open spec fn queries_spec(
    g: Graph,
    verbs: VerbLemmaPatterns,
    frames: FrameTable,
    vis: Seq<usize>,
) -> Seq<(usize, Seq<char>)>
    decreases vis.len(),
{
    if vis.len() == 0 {
        Seq::empty()
    } else {
        queries_spec(g, verbs, frames, vis.drop_last()) + queries_for_verb(
            g,
            verbs,
            frames,
            vis.last(),
        )
    }
}

/// For each verb index in order, pairs the index with each candidate pattern
/// of the node's lemma, in the lemma's stored pattern order, keeping exactly
/// the patterns that have a frame definition. A verb without an attribute
/// map, without a lemma, or with an unknown lemma contributes nothing; a
/// missing frame drops only that candidate. The result is always present,
/// possibly empty.
pub fn build_queries(
    verb_indices: &Vec<usize>,
    graph: &Graph,
    verbs: &VerbLemmaPatterns,
    frames: &FrameTable,
) -> (r: Option<Vec<(usize, String)>>)
    requires
        forall|k: int|
            0 <= k < verb_indices@.len() ==> (verb_indices@[k] as int) < graph.nodes@.len(),
    ensures
        (r matches Some(q) && pairs_view(q@) == queries_spec(
            *graph,
            *verbs,
            *frames,
            verb_indices@,
        )),
{
    let mut queries: Vec<(usize, String)> = Vec::new();
    let mut i: usize = 0;
    proof {
        assert(verb_indices@.take(0) =~= Seq::<usize>::empty());
        assert(pairs_view(queries@) =~= queries_spec(
            *graph,
            *verbs,
            *frames,
            verb_indices@.take(0),
        ));
    }
    while i < verb_indices.len()
        invariant
            i <= verb_indices@.len(),
            forall|k: int|
                0 <= k < verb_indices@.len() ==> (verb_indices@[k] as int) < graph.nodes@.len(),
            pairs_view(queries@) == queries_spec(*graph, *verbs, *frames, verb_indices@.take(
                i as int,
            )),
        decreases verb_indices@.len() - i,
    {
        let verb_index = verb_indices[i];
        let ghost prior = queries_spec(*graph, *verbs, *frames, verb_indices@.take(i as int));
        match graph.nodes[verb_index].attribute("lemma") {
            None => {
                proof {
                    assert(pairs_view(queries@) =~= prior + Seq::<(usize, Seq<char>)>::empty());
                }
            },
            Some(lemma) => {
                match verbs.get(lemma.as_str()) {
                    None => {
                        proof {
                            assert(pairs_view(queries@) =~= prior + Seq::<
                                (usize, Seq<char>),
                            >::empty());
                        }
                    },
                    Some(patterns) => {
                        let mut j: usize = 0;
                        proof {
                            assert(patterns@.take(0) =~= Seq::<String>::empty());
                            assert(pairs_view(queries@) =~= prior + queries_for_patterns(
                                *frames,
                                verb_index,
                                patterns@.take(0),
                            ));
                        }
                        while j < patterns.len()
                            invariant
                                j <= patterns@.len(),
                                pairs_view(queries@) == prior + queries_for_patterns(
                                    *frames,
                                    verb_index,
                                    patterns@.take(j as int),
                                ),
                            decreases patterns@.len() - j,
                        {
                            let pattern = &patterns[j];
                            proof {
                                assert(patterns@.take(j + 1).drop_last() =~= patterns@.take(
                                    j as int,
                                ));
                                assert(patterns@.take(j + 1).last() == patterns@[j as int]);
                            }
                            if frames.contains(pattern.as_str()) {
                                let entry = (verb_index, pattern.clone());
                                proof {
                                    assert(pairs_view(queries@.push(entry)) =~= pairs_view(
                                        queries@,
                                    ).push((entry.0, entry.1@)));
                                }
                                queries.push(entry);
                                proof {
                                    assert(pairs_view(queries@) =~= prior + queries_for_patterns(
                                        *frames,
                                        verb_index,
                                        patterns@.take(j + 1),
                                    ));
                                }
                            } else {
                                proof {
                                    assert(pairs_view(queries@) =~= prior + queries_for_patterns(
                                        *frames,
                                        verb_index,
                                        patterns@.take(j + 1),
                                    ));
                                }
                            }
                            j = j + 1;
                        }
                        proof {
                            assert(patterns@.take(patterns@.len() as int) =~= patterns@);
                        }
                    },
                }
            },
        }
        proof {
            assert(verb_indices@.take(i + 1).drop_last() =~= verb_indices@.take(i as int));
            assert(verb_indices@.take(i + 1).last() == verb_indices@[i as int]);
            assert(pairs_view(queries@) =~= queries_spec(*graph, *verbs, *frames, verb_indices@.take(
                i + 1,
            )));
        }
        i = i + 1;
    }
    proof {
        assert(verb_indices@.take(verb_indices@.len() as int) =~= verb_indices@);
    }
    Some(queries)
}

/// The token label of one matched component: the node's lemma, or `BLANK`
/// when the node has no attribute map or no lemma, then `.`, then the
/// identifier of the connecting edge, or `root` when there is none.
pub open spec fn label_of(g: Graph, c: Component) -> Seq<char> {
    (match node_attr(g, c.node as int, "lemma"@) {
        Some(l) => l,
        None => "BLANK"@,
    }) + "."@ + (match c.from_edge {
        Some(e) => g.edges@[e as int].identifier@,
        None => "root"@,
    })
}

/// The labels of a component sequence joined with single spaces.
pub open spec fn join_labels(g: Graph, s: Seq<Component>) -> Seq<char>
    decreases s.len(),
{
    if s.len() == 0 {
        Seq::empty()
    } else if s.len() == 1 {
        label_of(g, s[0])
    } else {
        join_labels(g, s.drop_last()) + " "@ + label_of(g, s.last())
    }
}

/// The canonical pattern label of a matched-component list: its labels in
/// ascending node order, joined with single spaces.
pub open spec fn canonical_pattern(g: Graph, comps: Seq<Component>) -> Seq<char> {
    join_labels(g, sort_components_spec(comps))
}

/// Every component refers to a node of `g`, and its connecting edge, if any,
/// to an edge of `g`.
pub open spec fn components_in_bounds(g: Graph, s: Seq<Component>) -> bool {
    forall|k: int|
        0 <= k < s.len() ==> ((#[trigger] s[k]).node as int) < g.nodes@.len() && (match s[k].from_edge {
            Some(e) => (e as int) < g.edges@.len(),
            None => true,
        })
}

/// Bounds carry over to any sequence drawn from the same components.
proof fn lemma_bounds_carry(g: Graph, s: Seq<Component>, t: Seq<Component>)
    requires
        components_in_bounds(g, s),
        forall|k: int| 0 <= k < t.len() ==> s.contains(#[trigger] t[k]),
    ensures
        components_in_bounds(g, t),
{
    assert forall|k: int| 0 <= k < t.len() implies ((#[trigger] t[k]).node as int) < g.nodes@.len()
        && (match t[k].from_edge {
        Some(e) => (e as int) < g.edges@.len(),
        None => true,
    }) by {
        assert(s.contains(t[k]));
        let j = choose|j: int| 0 <= j < s.len() && s[j] == t[k];
        assert((s[j].node as int) < g.nodes@.len());
    }
}

/// Turns the matcher's unordered component list into one deterministic
/// string: one token label per component, ordered by node index ascending,
/// joined with single spaces. The matcher's emission order cannot affect the
/// result beyond the order of labels that share a node index.
pub fn matched_components_to_pattern(matched_components: &MatchedComponents, graph: &Graph) -> (r:
    String)
    requires
        components_in_bounds(*graph, matched_components.list@),
    ensures
        r@ == canonical_pattern(*graph, matched_components.list@),
{
    let sorted = sort_components(&matched_components.list);
    proof {
        lemma_bounds_carry(*graph, matched_components.list@, sorted@);
    }
    let mut pattern = String::new();
    let mut i: usize = 0;
    proof {
        assert(sorted@.take(0) =~= Seq::<Component>::empty());
        assert(pattern@ =~= join_labels(*graph, sorted@.take(0)));
    }
    while i < sorted.len()
        invariant
            i <= sorted@.len(),
            sorted@ == sort_components_spec(matched_components.list@),
            components_in_bounds(*graph, sorted@),
            pattern@ == join_labels(*graph, sorted@.take(i as int)),
        decreases sorted@.len() - i,
    {
        if i > 0 {
            pattern.append(" ");
        }
        let ghost opened = pattern@;
        let component = &sorted[i];
        match graph.nodes[component.node].attribute("lemma") {
            Some(lemma) => {
                pattern.append(lemma.as_str());
            },
            None => {
                pattern.append("BLANK");
            },
        }
        pattern.append(".");
        match component.from_edge {
            Some(edge) => {
                pattern.append(graph.edges[edge].identifier.as_str());
            },
            None => {
                pattern.append("root");
            },
        }
        proof {
            assert(pattern@ =~= opened + label_of(*graph, sorted@[i as int]));
            assert(sorted@.take(i + 1).drop_last() =~= sorted@.take(i as int));
            assert(sorted@.take(i + 1).last() == sorted@[i as int]);
            if i == 0 {
                assert(Seq::<char>::empty() + label_of(*graph, sorted@[0]) =~= label_of(
                    *graph,
                    sorted@[0],
                ));
            }
            assert(pattern@ =~= join_labels(*graph, sorted@.take(i + 1)));
        }
        i = i + 1;
    }
    proof {
        assert(sorted@.take(sorted@.len() as int) =~= sorted@);
    }
    pattern
}

/// The spacing marker an optional `before`/`after` attribute value stands
/// for: a space, nothing, a question mark for an unknown boundary, or the
/// three-character placeholder for an unrecognized value; absence adds
/// nothing.
pub open spec fn marker(v: Option<Seq<char>>) -> Seq<char> {
    match v {
        None => Seq::empty(),
        Some(x) => if x == "space"@ {
            " "@
        } else if x == "empty"@ {
            Seq::empty()
        } else if x == "unknown"@ {
            "?"@
        } else {
            "???"@
        },
    }
}

/// The text one node contributes: its pre-spacing marker, its surface word
/// if any, and its post-spacing marker. A node without an attribute map
/// contributes nothing.
pub open spec fn node_text(g: Graph, i: int) -> Seq<char> {
    match g.nodes@[i].attributes {
        None => Seq::empty(),
        Some(_) => marker(node_attr(g, i, "before"@)) + (match node_attr(g, i, "word"@) {
            Some(w) => w,
            None => Seq::empty(),
        }) + marker(node_attr(g, i, "after"@)),
    }
}

/// The node texts of an index sequence, concatenated in the given order.
pub open spec fn assemble(g: Graph, idxs: Seq<usize>) -> Seq<char>
    decreases idxs.len(),
{
    if idxs.len() == 0 {
        Seq::empty()
    } else {
        assemble(g, idxs.drop_last()) + node_text(g, idxs.last() as int)
    }
}

/// The reconstructed surface text for a set of node indices: node texts in
/// ascending index order, with one collapse pass over doubled spaces.
pub open spec fn extract_spec(g: Graph, idxs: Seq<usize>) -> Seq<char> {
    collapse_double_spaces(assemble(g, sort_indices_spec(idxs)))
}

/// Emits the marker for one optional spacing attribute value.
fn push_marker(out: &mut String, value: Option<&String>)
    ensures
        final(out)@ == old(out)@ + marker(
            match value {
                Some(v) => Some(v@),
                None => None,
            },
        ),
{
    match value {
        Some(v) => {
            if str_eq(v.as_str(), "space") {
                out.append(" ");
            } else if str_eq(v.as_str(), "empty") {
                proof {
                    assert(old(out)@ + Seq::<char>::empty() =~= old(out)@);
                }
            } else if str_eq(v.as_str(), "unknown") {
                out.append("?");
            } else {
                out.append("???");
            }
        },
        None => {
            proof {
                assert(old(out)@ + Seq::<char>::empty() =~= old(out)@);
            }
        },
    }
}

/// Reconstructs the original surface substring for an arbitrary sequence of
/// node indices: sorts them ascending (duplicates kept), emits each node's
/// pre-spacing marker, word and post-spacing marker, then collapses doubled
/// spaces in a single pass.
pub fn subgraph_nodes_to_extract_string(node_indexes: &Vec<usize>, graph: &Graph) -> (r: String)
    requires
        forall|k: int|
            0 <= k < node_indexes@.len() ==> (node_indexes@[k] as int) < graph.nodes@.len(),
    ensures
        r@ == extract_spec(*graph, node_indexes@),
{
    let sorted_node_indexes = sort_indices(node_indexes);
    proof {
        broadcast use vstd::seq_lib::group_to_multiset_ensures;

        assert forall|k: int| 0 <= k < sorted_node_indexes@.len() implies (
        #[trigger] sorted_node_indexes@[k] as int) < graph.nodes@.len() by {
            assert(node_indexes@.contains(sorted_node_indexes@[k]));
            let j = choose|j: int|
                0 <= j < node_indexes@.len() && node_indexes@[j] == sorted_node_indexes@[k];
        }
    }
    let mut extract_string = String::new();
    let mut i: usize = 0;
    proof {
        assert(sorted_node_indexes@.take(0) =~= Seq::<usize>::empty());
        assert(extract_string@ =~= assemble(*graph, sorted_node_indexes@.take(0)));
    }
    while i < sorted_node_indexes.len()
        invariant
            i <= sorted_node_indexes@.len(),
            sorted_node_indexes@ == sort_indices_spec(node_indexes@),
            forall|k: int|
                0 <= k < sorted_node_indexes@.len() ==> (#[trigger] sorted_node_indexes@[k] as int)
                    < graph.nodes@.len(),
            extract_string@ == assemble(*graph, sorted_node_indexes@.take(i as int)),
        decreases sorted_node_indexes@.len() - i,
    {
        let index = sorted_node_indexes[i];
        let ghost opened = extract_string@;
        match &graph.nodes[index].attributes {
            Some(attrs) => {
                push_marker(&mut extract_string, attrs.get("before"));
                match attrs.get("word") {
                    Some(value) => {
                        extract_string.append(value.as_str());
                    },
                    None => {
                        proof {
                            assert(extract_string@ + Seq::<char>::empty() =~= extract_string@);
                        }
                    },
                }
                push_marker(&mut extract_string, attrs.get("after"));
            },
            None => {
                proof {
                    assert(opened + Seq::<char>::empty() =~= opened);
                }
            },
        }
        proof {
            assert(extract_string@ =~= opened + node_text(*graph, index as int));
            assert(sorted_node_indexes@.take(i + 1).drop_last() =~= sorted_node_indexes@.take(
                i as int,
            ));
            assert(sorted_node_indexes@.take(i + 1).last() == sorted_node_indexes@[i as int]);
            assert(extract_string@ =~= assemble(*graph, sorted_node_indexes@.take(i + 1)));
        }
        i = i + 1;
    }
    proof {
        assert(sorted_node_indexes@.take(sorted_node_indexes@.len() as int)
            =~= sorted_node_indexes@);
    }
    collapse_spaces(extract_string.as_str())
}

} // verus!
