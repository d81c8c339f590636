//! The library-wide guarantees, proved over the same spec functions the
//! pipeline contracts use.

use vstd::prelude::*;
use vstd::relations::sorted_by;
use vstd::relations::total_ordering;
use vstd::seq_lib::lemma_sorted_unique;
use crate::graph::Component;
use crate::graph::FrameTable;
use crate::graph::Graph;
use crate::graph::VerbLemmaPatterns;
use crate::graph::frame_defined;
use crate::order::leq_component_node;
use crate::order::leq_index;
use crate::order::lemma_leq_index_total;
use crate::order::lemma_sort_components_multiset;
use crate::order::lemma_sort_components_sorted;
use crate::order::lemma_sort_indices_multiset;
use crate::order::lemma_sort_indices_sorted;
use crate::order::sort_components_spec;
use crate::order::sort_indices_spec;
use crate::points::canonical_pattern;
use crate::points::extract_spec;
use crate::points::is_verb;
use crate::points::queries_for_patterns;
use crate::points::queries_for_verb;
use crate::points::queries_spec;
use crate::points::verbs_spec;

verus! {

/// Verb discovery is exact: the indices it lists among the first `n` nodes
/// are strictly ascending, and an index appears exactly when its node's
/// part-of-speech attribute contains `VB`.
pub proof fn lemma_verb_locator_exact(g: Graph, n: int)
    requires
        n <= usize::MAX + 1,
    ensures
        forall|a: int, b: int|
            0 <= a < b < verbs_spec(g, n).len() ==> verbs_spec(g, n)[a] < verbs_spec(g, n)[b],
        forall|a: int|
            0 <= a < verbs_spec(g, n).len() ==> 0 <= (verbs_spec(g, n)[a] as int) < n && is_verb(
                g,
                verbs_spec(g, n)[a] as int,
            ),
        forall|i: int| 0 <= i < n && is_verb(g, i) ==> verbs_spec(g, n).contains(i as usize),
    decreases n,
{
    if n <= 0 {
    } else {
        lemma_verb_locator_exact(g, n - 1);
        let prefix = verbs_spec(g, n - 1);
        let whole = verbs_spec(g, n);
        if is_verb(g, n - 1) {
            assert(whole =~= prefix.push((n - 1) as usize));
        } else {
            assert(whole =~= prefix);
        }
        assert forall|a: int|
            0 <= a < whole.len() implies 0 <= (whole[a] as int) < n && is_verb(
            g,
            whole[a] as int,
        ) by {
            if a < prefix.len() {
                assert(whole[a] == prefix[a]);
            } else {
                assert(is_verb(g, n - 1));
                assert(whole[a] == (n - 1) as usize);
            }
        }
        assert forall|a: int, b: int| 0 <= a < b < whole.len() implies whole[a] < whole[b] by {
            if b < prefix.len() {
                assert(whole[a] == prefix[a]);
                assert(whole[b] == prefix[b]);
            } else {
                assert(is_verb(g, n - 1));
                assert(whole[b] == (n - 1) as usize);
                assert(whole[a] == prefix[a]);
                assert((prefix[a] as int) < n - 1);
            }
        }
        assert forall|i: int| 0 <= i < n && is_verb(g, i) implies whole.contains(i as usize) by {
            if i < n - 1 {
                let j = choose|j: int| 0 <= j < prefix.len() && prefix[j] == i as usize;
                assert(whole[j] == i as usize);
            } else {
                assert(whole[whole.len() - 1] == i as usize);
            }
        }
    }
}

/// Query construction for one verb keeps exactly the candidate patterns
/// with a frame definition, in the stored candidate order: it equals the
/// candidate list filtered by frame existence and paired with the verb.
/// In particular it never emits a pattern absent from the frame table and
/// never emits more pairs than there are candidates.
pub proof fn lemma_query_builder_exact(frames: FrameTable, vi: usize, pats: Seq<String>)
    ensures
        queries_for_patterns(frames, vi, pats) == pats.map_values(|p: String| p@).filter(
            |pv: Seq<char>| frame_defined(frames, pv),
        ).map_values(|pv: Seq<char>| (vi, pv)),
        queries_for_patterns(frames, vi, pats).len() <= pats.len(),
        forall|k: int|
            0 <= k < queries_for_patterns(frames, vi, pats).len() ==> (#[trigger] queries_for_patterns(
                frames,
                vi,
                pats,
            )[k]).0 == vi && frame_defined(frames, queries_for_patterns(frames, vi, pats)[k].1),
    decreases pats.len(),
{
    reveal(Seq::filter);
    let views = pats.map_values(|p: String| p@);
    let pred = |pv: Seq<char>| frame_defined(frames, pv);
    let pair = |pv: Seq<char>| (vi, pv);
    if pats.len() == 0 {
        assert(views.len() == 0);
        assert(queries_for_patterns(frames, vi, pats) =~= views.filter(pred).map_values(pair));
    } else {
        lemma_query_builder_exact(frames, vi, pats.drop_last());
        let shorter = pats.drop_last().map_values(|p: String| p@);
        assert(views.drop_last() =~= shorter);
        assert(views.last() == pats.last()@);
        if pred(views.last()) {
            assert(views.filter(pred) == shorter.filter(pred).push(views.last()));
            assert(views.filter(pred).map_values(pair) =~= shorter.filter(pred).map_values(
                pair,
            ).push((vi, pats.last()@)));
            assert(queries_for_patterns(frames, vi, pats) =~= queries_for_patterns(
                frames,
                vi,
                pats.drop_last(),
            ).push((vi, pats.last()@)));
        } else {
            assert(views.filter(pred) == shorter.filter(pred));
            assert(queries_for_patterns(frames, vi, pats) =~= queries_for_patterns(
                frames,
                vi,
                pats.drop_last(),
            ));
        }
    }
}

/// Query construction never emits a pair whose pattern id lacks a frame
/// definition, and every emitted pair carries one of the given verb
/// indices.
pub proof fn lemma_query_builder_sound(
    g: Graph,
    verbs: VerbLemmaPatterns,
    frames: FrameTable,
    vis: Seq<usize>,
)
    ensures
        forall|k: int|
            0 <= k < queries_spec(g, verbs, frames, vis).len() ==> frame_defined(
                frames,
                (#[trigger] queries_spec(g, verbs, frames, vis)[k]).1,
            ) && vis.contains(queries_spec(g, verbs, frames, vis)[k].0),
    decreases vis.len(),
{
    if vis.len() == 0 {
    } else {
        lemma_query_builder_sound(g, verbs, frames, vis.drop_last());
        let prefix = queries_spec(g, verbs, frames, vis.drop_last());
        let one = queries_for_verb(g, verbs, frames, vis.last());
        let whole = queries_spec(g, verbs, frames, vis);
        match crate::graph::node_attr(g, vis.last() as int, "lemma"@) {
            None => {},
            Some(lemma) => {
                match crate::graph::assoc_get(verbs.entries@, lemma) {
                    None => {},
                    Some(pats) => {
                        lemma_query_builder_exact(frames, vis.last(), pats@);
                    },
                }
            },
        }
        assert forall|k: int| 0 <= k < whole.len() implies frame_defined(
            frames,
            (#[trigger] whole[k]).1,
        ) && vis.contains(whole[k].0) by {
            if k < prefix.len() {
                assert(whole[k] == prefix[k]);
                assert(vis.drop_last().contains(prefix[k].0));
                let j = choose|j: int|
                    0 <= j < vis.drop_last().len() && vis.drop_last()[j] == prefix[k].0;
                assert(vis[j] == prefix[k].0);
            } else {
                assert(whole[k] == one[k - prefix.len()]);
                assert(one[k - prefix.len()].0 == vis.last());
                assert(vis[vis.len() - 1] == vis.last());
            }
        }
    }
}

/// Components compared by node index alone, all of whose nodes differ.
pub open spec fn distinct_nodes(s: Seq<Component>) -> bool {
    forall|a: int, b: int|
        0 <= a < s.len() && 0 <= b < s.len() && a != b ==> (#[trigger] s[a]).node != (
        #[trigger] s[b]).node
}

/// Order on the connecting edge, with the root before every edge.
pub open spec fn edge_leq(x: Option<usize>, y: Option<usize>) -> bool {
    match (x, y) {
        (Option::None, _) => true,
        (Option::Some(_), Option::None) => false,
        (Option::Some(a), Option::Some(b)) => a <= b,
    }
}

/// Order on components by node index, then by connecting edge.
pub open spec fn leq_component_full() -> spec_fn(Component, Component) -> bool {
    |a: Component, b: Component|
        a.node < b.node || (a.node == b.node && edge_leq(a.from_edge, b.from_edge))
}

proof fn lemma_leq_component_full_total()
    ensures
        total_ordering(leq_component_full()),
{
    let leq = leq_component_full();
    assert forall|a: Component, b: Component| #[trigger] leq(a, b) && #[trigger] leq(b, a) implies a
        == b by {
        assert(a.node == b.node);
        assert(edge_leq(a.from_edge, b.from_edge) && edge_leq(b.from_edge, a.from_edge));
        assert(a.from_edge == b.from_edge);
    }
}

/// A sequence with the same components as one whose node indices all differ
/// also has all node indices different.
proof fn lemma_distinct_transfer(s: Seq<Component>, t: Seq<Component>)
    requires
        distinct_nodes(s),
        t.to_multiset() == s.to_multiset(),
    ensures
        distinct_nodes(t),
{
    broadcast use vstd::seq_lib::group_to_multiset_ensures;

    assert forall|a: int, b: int| 0 <= a < s.len() && 0 <= b < s.len() && a != b implies s[a]
        != s[b] by {
        assert(s[a].node != s[b].node);
    }
    assert(s.no_duplicates());
    s.lemma_multiset_has_no_duplicates();
    t.lemma_multiset_has_no_duplicates_conv();
    assert forall|a: int, b: int|
        0 <= a < t.len() && 0 <= b < t.len() && a != b implies (#[trigger] t[a]).node != (
    #[trigger] t[b]).node by {
        assert(t[a] != t[b]);
        if t[a].node == t[b].node {
            assert(t.contains(t[a]));
            assert(t.contains(t[b]));
            assert(s.to_multiset().count(t[a]) > 0);
            assert(s.to_multiset().count(t[b]) > 0);
            assert(s.contains(t[a]));
            assert(s.contains(t[b]));
            let ia = choose|ia: int| 0 <= ia < s.len() && s[ia] == t[a];
            let ib = choose|ib: int| 0 <= ib < s.len() && s[ib] == t[b];
            assert(ia != ib);
            assert(s[ia].node != s[ib].node);
        }
    }
}

/// Canonicalization is invariant under any permutation of the matcher's
/// component list, provided the matched node indices are all different: the
/// sorted component sequence, and with it the pattern label, depends only on
/// which components were matched.
pub proof fn lemma_canonicalizer_permutation_invariant(
    g: Graph,
    s1: Seq<Component>,
    s2: Seq<Component>,
)
    requires
        distinct_nodes(s1),
        s1.to_multiset() == s2.to_multiset(),
    ensures
        sort_components_spec(s1) == sort_components_spec(s2),
        canonical_pattern(g, s1) == canonical_pattern(g, s2),
{
    let t1 = sort_components_spec(s1);
    let t2 = sort_components_spec(s2);
    lemma_sort_components_multiset(s1);
    lemma_sort_components_multiset(s2);
    lemma_sort_components_sorted(s1);
    lemma_sort_components_sorted(s2);
    lemma_distinct_transfer(s1, t1);
    lemma_distinct_transfer(s1, t2);
    assert forall|i: int, j: int| 0 <= i < j < t1.len() implies leq_component_full()(
        t1[i],
        t1[j],
    ) by {
        assert(leq_component_node()(t1[i], t1[j]));
        assert(t1[i].node != t1[j].node);
    }
    assert forall|i: int, j: int| 0 <= i < j < t2.len() implies leq_component_full()(
        t2[i],
        t2[j],
    ) by {
        assert(leq_component_node()(t2[i], t2[j]));
        assert(t2[i].node != t2[j].node);
    }
    assert(sorted_by(t1, leq_component_full()));
    assert(sorted_by(t2, leq_component_full()));
    lemma_leq_component_full_total();
    lemma_sorted_unique(t1, t2, leq_component_full());
    assert(t1 =~= t2);
}

/// Text reconstruction is invariant under any permutation of the given node
/// indices: the sorted index sequence, and with it the reconstructed text,
/// depends only on how often each index was given.
pub proof fn lemma_reconstructor_order_invariant(g: Graph, s1: Seq<usize>, s2: Seq<usize>)
    requires
        s1.to_multiset() == s2.to_multiset(),
    ensures
        sort_indices_spec(s1) == sort_indices_spec(s2),
        extract_spec(g, s1) == extract_spec(g, s2),
{
    lemma_sort_indices_multiset(s1);
    lemma_sort_indices_multiset(s2);
    lemma_sort_indices_sorted(s1);
    lemma_sort_indices_sorted(s2);
    lemma_leq_index_total();
    lemma_sorted_unique(sort_indices_spec(s1), sort_indices_spec(s2), leq_index());
    assert(sort_indices_spec(s1) =~= sort_indices_spec(s2));
}

/// Every stage is a pure function of its inputs: two runs on identical
/// inputs give identical outputs, since each stage's contract equates its
/// result with a spec-level function of the arguments alone.
pub proof fn lemma_stages_deterministic(
    g: Graph,
    verbs: VerbLemmaPatterns,
    frames: FrameTable,
    vis: Seq<usize>,
    comps: Seq<Component>,
    idxs: Seq<usize>,
    v1: Seq<usize>,
    v2: Seq<usize>,
    q1: Seq<(usize, Seq<char>)>,
    q2: Seq<(usize, Seq<char>)>,
    p1: Seq<char>,
    p2: Seq<char>,
    e1: Seq<char>,
    e2: Seq<char>,
)
    requires
        v1 == verbs_spec(g, g.nodes@.len() as int),
        v2 == verbs_spec(g, g.nodes@.len() as int),
        q1 == queries_spec(g, verbs, frames, vis),
        q2 == queries_spec(g, verbs, frames, vis),
        p1 == canonical_pattern(g, comps),
        p2 == canonical_pattern(g, comps),
        e1 == extract_spec(g, idxs),
        e2 == extract_spec(g, idxs),
    ensures
        v1 == v2,
        q1 == q2,
        p1 == p2,
        e1 == e2,
{
}

/// Empty inputs give empty outputs: no verb indices means no query items,
/// no matched components means the empty pattern label, and no node indices
/// means the empty reconstructed text.
pub proof fn lemma_empty_inputs(g: Graph, verbs: VerbLemmaPatterns, frames: FrameTable)
    ensures
        queries_spec(g, verbs, frames, Seq::empty()) == Seq::<(usize, Seq<char>)>::empty(),
        canonical_pattern(g, Seq::empty()) == Seq::<char>::empty(),
        extract_spec(g, Seq::empty()) == Seq::<char>::empty(),
{
    assert(sort_components_spec(Seq::empty()).len() == 0);
    assert(sort_indices_spec(Seq::empty()).len() == 0);
}

} // verus!
