//! Stable insertion sorts for node indices and matched components, with the
//! ordering facts the canonicalization proofs need.

use vstd::prelude::*;
use vstd::multiset::Multiset;
use crate::graph::Component;

verus! {

/// Inserts `v` after every element less than or equal to it.
pub open spec fn insert_index_sorted(v: usize, s: Seq<usize>) -> Seq<usize>
    decreases s.len(),
{
    if s.len() == 0 {
        seq![v]
    } else if v < s[0] {
        seq![v] + s
    } else {
        seq![s[0]] + insert_index_sorted(v, s.drop_first())
    }
}

/// Stable insertion sort of node indices, ascending.
pub open spec fn sort_indices_spec(s: Seq<usize>) -> Seq<usize>
    decreases s.len(),
{
    if s.len() == 0 {
        s
    } else {
        insert_index_sorted(s.last(), sort_indices_spec(s.drop_last()))
    }
}

proof fn lemma_insert_index_at(v: usize, s: Seq<usize>, p: int)
    requires
        0 <= p <= s.len(),
        forall|k: int| 0 <= k < p ==> s[k] <= v,
        p < s.len() ==> v < s[p],
    ensures
        insert_index_sorted(v, s) == s.insert(p, v),
    decreases s.len(),
{
    if p == 0 {
        if s.len() == 0 {
            assert(insert_index_sorted(v, s) =~= s.insert(0, v));
        } else {
            assert(insert_index_sorted(v, s) =~= s.insert(0, v));
        }
    } else {
        assert(s[0] <= v);
        lemma_insert_index_at(v, s.drop_first(), p - 1);
        assert(seq![s[0]] + s.drop_first().insert(p - 1, v) =~= s.insert(p, v));
    }
}

proof fn lemma_insert_index_multiset(v: usize, s: Seq<usize>)
    ensures
        insert_index_sorted(v, s).to_multiset() == s.to_multiset().insert(v),
    decreases s.len(),
{
    broadcast use vstd::seq_lib::group_to_multiset_ensures;

    if s.len() == 0 {
        assert(seq![v] =~= Seq::<usize>::empty().push(v));
        assert(s.to_multiset() =~= Multiset::<usize>::empty());
        assert(insert_index_sorted(v, s).to_multiset() =~= s.to_multiset().insert(v));
    } else if v < s[0] {
        vstd::seq_lib::lemma_multiset_commutative(seq![v], s);
        assert(seq![v] =~= Seq::<usize>::empty().push(v));
        assert(insert_index_sorted(v, s).to_multiset() =~= s.to_multiset().insert(v));
    } else {
        lemma_insert_index_multiset(v, s.drop_first());
        vstd::seq_lib::lemma_multiset_commutative(seq![s[0]], insert_index_sorted(v, s.drop_first()));
        vstd::seq_lib::lemma_multiset_commutative(seq![s[0]], s.drop_first());
        assert(seq![s[0]] + s.drop_first() =~= s);
        assert(seq![s[0]] =~= Seq::<usize>::empty().push(s[0]));
        assert(insert_index_sorted(v, s).to_multiset() =~= s.to_multiset().insert(v));
    }
}

/// Sorting preserves the multiset of indices.
pub proof fn lemma_sort_indices_multiset(s: Seq<usize>)
    ensures
        sort_indices_spec(s).to_multiset() == s.to_multiset(),
    decreases s.len(),
{
    broadcast use vstd::seq_lib::group_to_multiset_ensures;

    if s.len() == 0 {
    } else {
        lemma_sort_indices_multiset(s.drop_last());
        lemma_insert_index_multiset(s.last(), sort_indices_spec(s.drop_last()));
        assert(s.drop_last().push(s.last()) =~= s);
        assert(s.drop_last().push(s.last()).to_multiset() =~= s.drop_last().to_multiset().insert(
            s.last(),
        ));
    }
}

/// Ascending order on indices.
pub open spec fn leq_index() -> spec_fn(usize, usize) -> bool {
    |a: usize, b: usize| a <= b
}

proof fn lemma_insert_index_sorted_by(v: usize, s: Seq<usize>)
    requires
        vstd::relations::sorted_by(s, leq_index()),
    ensures
        vstd::relations::sorted_by(insert_index_sorted(v, s), leq_index()),
    decreases s.len(),
{
    if s.len() == 0 {
    } else if v < s[0] {
        let t = seq![v] + s;
        assert forall|i: int, j: int| 0 <= i < j < t.len() implies leq_index()(t[i], t[j]) by {
            if i == 0 {
                assert(t[j] == s[j - 1]);
                if j - 1 > 0 {
                    assert(leq_index()(s[0], s[j - 1]));
                }
            } else {
                assert(t[i] == s[i - 1]);
                assert(t[j] == s[j - 1]);
                assert(leq_index()(s[i - 1], s[j - 1]));
            }
        }
    } else {
        assert forall|i: int, j: int| 0 <= i < j < s.drop_first().len() implies leq_index()(
            s.drop_first()[i],
            s.drop_first()[j],
        ) by {
            assert(leq_index()(s[i + 1], s[j + 1]));
        }
        lemma_insert_index_sorted_by(v, s.drop_first());
        let t = seq![s[0]] + insert_index_sorted(v, s.drop_first());
        let u = insert_index_sorted(v, s.drop_first());
        assert forall|i: int, j: int| 0 <= i < j < t.len() implies leq_index()(t[i], t[j]) by {
            if i == 0 {
                lemma_insert_index_elements(v, s.drop_first(), j - 1);
                if u[j - 1] == v {
                    assert(s[0] <= v);
                } else {
                    assert(s.drop_first().contains(u[j - 1]));
                    let w = choose|w: int|
                        0 <= w < s.drop_first().len() && s.drop_first()[w] == u[j - 1];
                    assert(leq_index()(s[0], s[w + 1]));
                }
            } else {
                assert(leq_index()(u[i - 1], u[j - 1]));
            }
        }
    }
}

/// Every element of the inserted sequence is the new value or one of the old
/// elements.
proof fn lemma_insert_index_elements(v: usize, s: Seq<usize>, k: int)
    requires
        0 <= k < insert_index_sorted(v, s).len(),
    ensures
        insert_index_sorted(v, s)[k] == v || s.contains(insert_index_sorted(v, s)[k]),
    decreases s.len(),
{
    if s.len() == 0 {
    } else if v < s[0] {
        if k > 0 {
            assert(insert_index_sorted(v, s)[k] == s[k - 1]);
        }
    } else {
        if k == 0 {
            assert(insert_index_sorted(v, s)[0] == s[0]);
        } else {
            lemma_insert_index_elements(v, s.drop_first(), k - 1);
            if insert_index_sorted(v, s.drop_first())[k - 1] != v {
                let w = choose|w: int|
                    0 <= w < s.drop_first().len() && s.drop_first()[w] == insert_index_sorted(
                        v,
                        s.drop_first(),
                    )[k - 1];
                assert(s[w + 1] == insert_index_sorted(v, s)[k]);
            }
        }
    }
}

/// The sorted index sequence is ascending.
pub proof fn lemma_sort_indices_sorted(s: Seq<usize>)
    ensures
        vstd::relations::sorted_by(sort_indices_spec(s), leq_index()),
    decreases s.len(),
{
    if s.len() == 0 {
    } else {
        lemma_sort_indices_sorted(s.drop_last());
        lemma_insert_index_sorted_by(s.last(), sort_indices_spec(s.drop_last()));
    }
}

/// Ascending order on indices is a total ordering.
pub proof fn lemma_leq_index_total()
    ensures
        vstd::relations::total_ordering(leq_index()),
{
}

/// Sorts node indices ascending; the result is the stable insertion sort of
/// the input and carries the same indices.
pub fn sort_indices(v: &Vec<usize>) -> (r: Vec<usize>)
    ensures
        r@ == sort_indices_spec(v@),
        r@.to_multiset() == v@.to_multiset(),
        forall|k: int| 0 <= k < r@.len() ==> v@.contains(r@[k]),
{
    let mut r: Vec<usize> = Vec::new();
    let mut i: usize = 0;
    while i < v.len()
        invariant
            i <= v.len(),
            r@ == sort_indices_spec(v@.take(i as int)),
        decreases v.len() - i,
    {
        let x = v[i];
        let mut p: usize = 0;
        while p < r.len() && r[p] <= x
            invariant
                p <= r.len(),
                forall|k: int| 0 <= k < p ==> r@[k] <= x,
            decreases r.len() - p,
        {
            p = p + 1;
        }
        proof {
            lemma_insert_index_at(x, r@, p as int);
            assert(v@.take(i + 1).drop_last() =~= v@.take(i as int));
            assert(v@.take(i + 1).last() == v@[i as int]);
        }
        r.insert(p, x);
        i = i + 1;
    }
    proof {
        assert(v@.take(v@.len() as int) =~= v@);
        lemma_sort_indices_multiset(v@);
        broadcast use vstd::seq_lib::group_to_multiset_ensures;

        assert forall|k: int| 0 <= k < r@.len() implies v@.contains(r@[k]) by {
            assert(r@.to_multiset().contains(r@[k]));
            assert(v@.to_multiset().count(r@[k]) > 0);
        }
    }
    r
}

/// Inserts `c` after every component whose node index is not greater.
pub open spec fn insert_component_sorted(c: Component, s: Seq<Component>) -> Seq<Component>
    decreases s.len(),
{
    if s.len() == 0 {
        seq![c]
    } else if c.node < s[0].node {
        seq![c] + s
    } else {
        seq![s[0]] + insert_component_sorted(c, s.drop_first())
    }
}

/// Stable insertion sort of components by node index, ascending; components
/// with equal node indices keep their input order.
pub open spec fn sort_components_spec(s: Seq<Component>) -> Seq<Component>
    decreases s.len(),
{
    if s.len() == 0 {
        s
    } else {
        insert_component_sorted(s.last(), sort_components_spec(s.drop_last()))
    }
}

proof fn lemma_insert_component_at(c: Component, s: Seq<Component>, p: int)
    requires
        0 <= p <= s.len(),
        forall|k: int| 0 <= k < p ==> s[k].node <= c.node,
        p < s.len() ==> c.node < s[p].node,
    ensures
        insert_component_sorted(c, s) == s.insert(p, c),
    decreases s.len(),
{
    if p == 0 {
        assert(insert_component_sorted(c, s) =~= s.insert(0, c));
    } else {
        assert(s[0].node <= c.node);
        lemma_insert_component_at(c, s.drop_first(), p - 1);
        assert(seq![s[0]] + s.drop_first().insert(p - 1, c) =~= s.insert(p, c));
    }
}

proof fn lemma_insert_component_multiset(c: Component, s: Seq<Component>)
    ensures
        insert_component_sorted(c, s).to_multiset() == s.to_multiset().insert(c),
    decreases s.len(),
{
    broadcast use vstd::seq_lib::group_to_multiset_ensures;

    if s.len() == 0 {
        assert(seq![c] =~= Seq::<Component>::empty().push(c));
        assert(s.to_multiset() =~= Multiset::<Component>::empty());
        assert(insert_component_sorted(c, s).to_multiset() =~= s.to_multiset().insert(c));
    } else if c.node < s[0].node {
        vstd::seq_lib::lemma_multiset_commutative(seq![c], s);
        assert(seq![c] =~= Seq::<Component>::empty().push(c));
        assert(insert_component_sorted(c, s).to_multiset() =~= s.to_multiset().insert(c));
    } else {
        lemma_insert_component_multiset(c, s.drop_first());
        vstd::seq_lib::lemma_multiset_commutative(
            seq![s[0]],
            insert_component_sorted(c, s.drop_first()),
        );
        vstd::seq_lib::lemma_multiset_commutative(seq![s[0]], s.drop_first());
        assert(seq![s[0]] + s.drop_first() =~= s);
        assert(seq![s[0]] =~= Seq::<Component>::empty().push(s[0]));
        assert(insert_component_sorted(c, s).to_multiset() =~= s.to_multiset().insert(c));
    }
}

/// Sorting preserves the multiset of components.
pub proof fn lemma_sort_components_multiset(s: Seq<Component>)
    ensures
        sort_components_spec(s).to_multiset() == s.to_multiset(),
    decreases s.len(),
{
    broadcast use vstd::seq_lib::group_to_multiset_ensures;

    if s.len() == 0 {
    } else {
        lemma_sort_components_multiset(s.drop_last());
        lemma_insert_component_multiset(s.last(), sort_components_spec(s.drop_last()));
        assert(s.drop_last().push(s.last()) =~= s);
        assert(s.drop_last().push(s.last()).to_multiset() =~= s.drop_last().to_multiset().insert(
            s.last(),
        ));
    }
}

/// Ascending order on a component's node index.
pub open spec fn leq_component_node() -> spec_fn(Component, Component) -> bool {
    |a: Component, b: Component| a.node <= b.node
}

proof fn lemma_insert_component_elements(c: Component, s: Seq<Component>, k: int)
    requires
        0 <= k < insert_component_sorted(c, s).len(),
    ensures
        insert_component_sorted(c, s)[k] == c || s.contains(insert_component_sorted(c, s)[k]),
    decreases s.len(),
{
    if s.len() == 0 {
    } else if c.node < s[0].node {
        if k > 0 {
            assert(insert_component_sorted(c, s)[k] == s[k - 1]);
        }
    } else {
        if k == 0 {
            assert(insert_component_sorted(c, s)[0] == s[0]);
        } else {
            lemma_insert_component_elements(c, s.drop_first(), k - 1);
            if insert_component_sorted(c, s.drop_first())[k - 1] != c {
                let w = choose|w: int|
                    0 <= w < s.drop_first().len() && s.drop_first()[w] == insert_component_sorted(
                        c,
                        s.drop_first(),
                    )[k - 1];
                assert(s[w + 1] == insert_component_sorted(c, s)[k]);
            }
        }
    }
}

proof fn lemma_insert_component_sorted_by(c: Component, s: Seq<Component>)
    requires
        vstd::relations::sorted_by(s, leq_component_node()),
    ensures
        vstd::relations::sorted_by(insert_component_sorted(c, s), leq_component_node()),
    decreases s.len(),
{
    if s.len() == 0 {
    } else if c.node < s[0].node {
        let t = seq![c] + s;
        assert forall|i: int, j: int| 0 <= i < j < t.len() implies leq_component_node()(
            t[i],
            t[j],
        ) by {
            if i > 0 {
                assert(t[i] == s[i - 1]);
                assert(t[j] == s[j - 1]);
                if i - 1 < j - 1 {
                    assert(leq_component_node()(s[i - 1], s[j - 1]));
                }
            } else if j > 0 {
                assert(t[j] == s[j - 1]);
                if 0 < j - 1 {
                    assert(leq_component_node()(s[0], s[j - 1]));
                }
            }
        }
    } else {
        assert forall|i: int, j: int| 0 <= i < j < s.drop_first().len() implies leq_component_node()(
            s.drop_first()[i],
            s.drop_first()[j],
        ) by {
            assert(leq_component_node()(s[i + 1], s[j + 1]));
        }
        lemma_insert_component_sorted_by(c, s.drop_first());
        let u = insert_component_sorted(c, s.drop_first());
        let t = seq![s[0]] + u;
        assert forall|i: int, j: int| 0 <= i < j < t.len() implies leq_component_node()(
            t[i],
            t[j],
        ) by {
            if i == 0 {
                lemma_insert_component_elements(c, s.drop_first(), j - 1);
                if u[j - 1] == c {
                    assert(s[0].node <= c.node);
                } else {
                    assert(s.drop_first().contains(u[j - 1]));
                    let w = choose|w: int|
                        0 <= w < s.drop_first().len() && s.drop_first()[w] == u[j - 1];
                    assert(leq_component_node()(s[0], s[w + 1]));
                }
            } else {
                assert(leq_component_node()(u[i - 1], u[j - 1]));
            }
        }
    }
}

/// The sorted component sequence is ascending by node index.
pub proof fn lemma_sort_components_sorted(s: Seq<Component>)
    ensures
        vstd::relations::sorted_by(sort_components_spec(s), leq_component_node()),
    decreases s.len(),
{
    if s.len() == 0 {
    } else {
        lemma_sort_components_sorted(s.drop_last());
        lemma_insert_component_sorted_by(s.last(), sort_components_spec(s.drop_last()));
    }
}

/// Sorts matched components by node index; the result is the stable
/// insertion sort of the input list and carries the same components.
pub fn sort_components(v: &Vec<Component>) -> (r: Vec<Component>)
    ensures
        r@ == sort_components_spec(v@),
        r@.to_multiset() == v@.to_multiset(),
        forall|k: int| 0 <= k < r@.len() ==> v@.contains(r@[k]),
{
    let mut r: Vec<Component> = Vec::new();
    let mut i: usize = 0;
    while i < v.len()
        invariant
            i <= v.len(),
            r@ == sort_components_spec(v@.take(i as int)),
        decreases v.len() - i,
    {
        let x = v[i];
        let mut p: usize = 0;
        while p < r.len() && r[p].node <= x.node
            invariant
                p <= r.len(),
                forall|k: int| 0 <= k < p ==> r@[k].node <= x.node,
            decreases r.len() - p,
        {
            p = p + 1;
        }
        proof {
            lemma_insert_component_at(x, r@, p as int);
            assert(v@.take(i + 1).drop_last() =~= v@.take(i as int));
            assert(v@.take(i + 1).last() == v@[i as int]);
        }
        r.insert(p, x);
        i = i + 1;
    }
    proof {
        assert(v@.take(v@.len() as int) =~= v@);
        lemma_sort_components_multiset(v@);
        broadcast use vstd::seq_lib::group_to_multiset_ensures;

        assert forall|k: int| 0 <= k < r@.len() implies v@.contains(r@[k]) by {
            assert(r@.to_multiset().contains(r@[k]));
            assert(v@.to_multiset().count(r@[k]) > 0);
        }
    }
    r
}

} // verus!
