use point_extractor::graph::AttrMap;
use point_extractor::graph::Component;
use point_extractor::graph::Frame;
use point_extractor::graph::FrameTable;
use point_extractor::graph::Graph;
use point_extractor::graph::MatchedComponents;
use point_extractor::graph::VerbLemmaPatterns;
use point_extractor::points::build_queries;
use point_extractor::points::find_verbs;
use point_extractor::points::matched_components_to_pattern;
use point_extractor::points::subgraph_nodes_to_extract_string;

fn attrs(pairs: &[(&str, &str)]) -> AttrMap {
    let mut m = AttrMap::new();
    for (k, v) in pairs {
        m.insert(String::from(*k), String::from(*v));
    }
    m
}

#[test]
fn find_verbs_in_graph() {
    let mut graph = Graph::new();
    let verb_attrs = attrs(&[("pos", "VBD")]);
    let other_attrs = attrs(&[("pos", "NN")]);
    graph.add_node(String::from("node0"), Some(verb_attrs.clone()));
    graph.add_node(String::from("node1"), Some(other_attrs.clone()));
    graph.add_node(String::from("node2"), Some(verb_attrs.clone()));

    assert_eq!(vec![0, 2], find_verbs(&graph).unwrap());
}

#[test]
fn build_queries_for_verbs_in_graph() {
    let verb_indices = vec![0];
    let mut graph = Graph::new();

    let verb_attrs = attrs(&[("pos", "VBD"), ("lemma", "run")]);
    graph.add_node(String::from("node0"), Some(verb_attrs.clone()));

    let mut verbs = VerbLemmaPatterns::new();
    verbs.insert(String::from("run"), vec![String::from("NP V NP")]);
    let mut frames = FrameTable::new();

    let mut query_graph = Graph::new();
    query_graph.add_node(String::from("subj"), None);
    query_graph.add_node(String::from("verb"), Some(attrs(&[("pos", "VB")])));
    query_graph.add_node(String::from("obj"), None);
    query_graph.add_edge(1, 0, String::from("nsubj"));
    query_graph.add_edge(1, 2, String::from("dobj"));
    let frame = Frame { root: 1, graph: query_graph };
    frames.insert(String::from("NP V NP"), frame);
    let result = build_queries(&verb_indices, &graph, &verbs, &frames).unwrap();
    assert_eq!(vec![(0, String::from("NP V NP"))], result);
}

#[test]
fn matched_component_pattern() {
    let mut graph = Graph::new();
    let attributes = attrs(&[("lemma", "cat")]);
    graph.add_node(String::from("node1"), Some(attributes.clone()));
    graph.add_edge(0, 0, String::from("edge1"));
    let matched_components = MatchedComponents {
        list: vec![Component { from_edge: Some(0), node: 0 }],
    };
    assert_eq!(
        String::from("cat.edge1"),
        matched_components_to_pattern(&matched_components, &graph)
    );
}

#[test]
fn subgraph_string() {
    let mut graph = Graph::new();
    let attributes = attrs(&[("word", "cat"), ("before", "space"), ("after", "empty")]);
    graph.add_node(String::from("node1"), Some(attributes.clone()));
    assert_eq!(
        String::from(" cat"),
        subgraph_nodes_to_extract_string(&vec![0], &graph)
    );
}

#[test]
fn find_verbs_empty_graph() {
    let graph = Graph::new();
    assert_eq!(Vec::<usize>::new(), find_verbs(&graph).unwrap());
}

#[test]
fn find_verbs_skips_nodes_without_attributes_or_pos() {
    let mut graph = Graph::new();
    graph.add_node(String::from("bare"), None);
    graph.add_node(String::from("nopos"), Some(attrs(&[("word", "cat")])));
    graph.add_node(String::from("gerund"), Some(attrs(&[("pos", "VBG")])));
    assert_eq!(vec![2], find_verbs(&graph).unwrap());
}

#[test]
fn build_queries_empty_verb_list() {
    let graph = Graph::new();
    let verbs = VerbLemmaPatterns::new();
    let frames = FrameTable::new();
    let result = build_queries(&Vec::new(), &graph, &verbs, &frames).unwrap();
    assert_eq!(Vec::<(usize, String)>::new(), result);
}

#[test]
fn build_queries_skips_missing_frames_and_keeps_order() {
    let mut graph = Graph::new();
    graph.add_node(String::from("node0"), Some(attrs(&[("lemma", "run")])));

    let mut verbs = VerbLemmaPatterns::new();
    verbs.insert(
        String::from("run"),
        vec![
            String::from("NP V"),
            String::from("NP V NP"),
            String::from("NP V PP"),
        ],
    );
    let mut frames = FrameTable::new();
    frames.insert(String::from("NP V PP"), Frame { root: 0, graph: Graph::new() });
    frames.insert(String::from("NP V"), Frame { root: 0, graph: Graph::new() });

    let result = build_queries(&vec![0], &graph, &verbs, &frames).unwrap();
    assert_eq!(
        vec![(0, String::from("NP V")), (0, String::from("NP V PP"))],
        result
    );
}

#[test]
fn build_queries_skips_verbs_without_lemma_or_patterns() {
    let mut graph = Graph::new();
    graph.add_node(String::from("bare"), None);
    graph.add_node(String::from("nolemma"), Some(attrs(&[("pos", "VBD")])));
    graph.add_node(String::from("unknown"), Some(attrs(&[("lemma", "saunter")])));
    graph.add_node(String::from("known"), Some(attrs(&[("lemma", "run")])));

    let mut verbs = VerbLemmaPatterns::new();
    verbs.insert(String::from("run"), vec![String::from("NP V")]);
    let mut frames = FrameTable::new();
    frames.insert(String::from("NP V"), Frame { root: 0, graph: Graph::new() });

    let result = build_queries(&vec![0, 1, 2, 3], &graph, &verbs, &frames).unwrap();
    assert_eq!(vec![(3, String::from("NP V"))], result);
}

#[test]
fn matched_component_pattern_empty() {
    let graph = Graph::new();
    let matched_components = MatchedComponents { list: Vec::new() };
    assert_eq!(
        String::new(),
        matched_components_to_pattern(&matched_components, &graph)
    );
}

#[test]
fn matched_component_pattern_blank_and_root() {
    let mut graph = Graph::new();
    graph.add_node(String::from("node0"), None);
    let matched_components = MatchedComponents {
        list: vec![Component { from_edge: None, node: 0 }],
    };
    assert_eq!(
        String::from("BLANK.root"),
        matched_components_to_pattern(&matched_components, &graph)
    );
}

#[test]
fn matched_component_pattern_order_independent() {
    let mut graph = Graph::new();
    graph.add_node(String::from("node0"), Some(attrs(&[("lemma", "dog")])));
    graph.add_node(String::from("node1"), Some(attrs(&[("lemma", "chase")])));
    graph.add_node(String::from("node2"), Some(attrs(&[("lemma", "cat")])));
    graph.add_edge(1, 0, String::from("nsubj"));
    graph.add_edge(1, 2, String::from("dobj"));

    let one_order = MatchedComponents {
        list: vec![
            Component { from_edge: None, node: 1 },
            Component { from_edge: Some(0), node: 0 },
            Component { from_edge: Some(1), node: 2 },
        ],
    };
    let other_order = MatchedComponents {
        list: vec![
            Component { from_edge: Some(1), node: 2 },
            Component { from_edge: None, node: 1 },
            Component { from_edge: Some(0), node: 0 },
        ],
    };
    let expected = String::from("dog.nsubj chase.root cat.dobj");
    assert_eq!(expected, matched_components_to_pattern(&one_order, &graph));
    assert_eq!(expected, matched_components_to_pattern(&other_order, &graph));
}

#[test]
fn matched_component_pattern_equal_nodes_keep_emission_order() {
    let mut graph = Graph::new();
    graph.add_node(String::from("node0"), Some(attrs(&[("lemma", "cat")])));
    graph.add_edge(0, 0, String::from("edge1"));
    graph.add_edge(0, 0, String::from("edge2"));
    // The sort is stable: components on the same node keep the order the
    // matcher emitted them in.
    let matched = MatchedComponents {
        list: vec![
            Component { from_edge: Some(1), node: 0 },
            Component { from_edge: Some(0), node: 0 },
        ],
    };
    assert_eq!(
        String::from("cat.edge2 cat.edge1"),
        matched_components_to_pattern(&matched, &graph)
    );
}

#[test]
fn subgraph_string_empty_input() {
    let graph = Graph::new();
    assert_eq!(
        String::new(),
        subgraph_nodes_to_extract_string(&Vec::new(), &graph)
    );
}

#[test]
fn subgraph_string_order_independent() {
    let mut graph = Graph::new();
    graph.add_node(
        String::from("node0"),
        Some(attrs(&[("word", "the"), ("after", "space")])),
    );
    graph.add_node(
        String::from("node1"),
        Some(attrs(&[("word", "grey"), ("after", "space")])),
    );
    graph.add_node(String::from("node2"), Some(attrs(&[("word", "cat")])));

    let expected = String::from("the grey cat");
    assert_eq!(
        expected,
        subgraph_nodes_to_extract_string(&vec![0, 1, 2], &graph)
    );
    assert_eq!(
        expected,
        subgraph_nodes_to_extract_string(&vec![2, 0, 1], &graph)
    );
}

#[test]
fn subgraph_string_duplicates_kept() {
    let mut graph = Graph::new();
    graph.add_node(String::from("node0"), Some(attrs(&[("word", "ha")])));
    assert_eq!(
        String::from("haha"),
        subgraph_nodes_to_extract_string(&vec![0, 0], &graph)
    );
}

#[test]
fn subgraph_string_spacing_markers() {
    let mut graph = Graph::new();
    graph.add_node(
        String::from("node0"),
        Some(attrs(&[("word", "cat"), ("before", "unknown"), ("after", "tab")])),
    );
    graph.add_node(String::from("node1"), None);
    graph.add_node(String::from("node2"), Some(attrs(&[("before", "empty")])));
    assert_eq!(
        String::from("?cat???"),
        subgraph_nodes_to_extract_string(&vec![0, 1, 2], &graph)
    );
}

#[test]
fn subgraph_string_collapses_double_spaces_once() {
    let mut graph = Graph::new();
    graph.add_node(
        String::from("node0"),
        Some(attrs(&[("word", "a"), ("after", "space")])),
    );
    graph.add_node(
        String::from("node1"),
        Some(attrs(&[("before", "space"), ("word", "b")])),
    );
    assert_eq!(
        String::from("a b"),
        subgraph_nodes_to_extract_string(&vec![0, 1], &graph)
    );

    let mut triple = Graph::new();
    triple.add_node(
        String::from("node0"),
        Some(attrs(&[("word", "a"), ("after", "space")])),
    );
    triple.add_node(
        String::from("node1"),
        Some(attrs(&[("before", "space"), ("after", "space")])),
    );
    triple.add_node(
        String::from("node2"),
        Some(attrs(&[("word", "b")])),
    );
    // Three consecutive spaces collapse to two: the pass is single, not
    // iterated to a fixed point.
    assert_eq!(
        String::from("a  b"),
        subgraph_nodes_to_extract_string(&vec![0, 1, 2], &triple)
    );
}

#[test]
fn stages_repeat_identically() {
    let mut graph = Graph::new();
    graph.add_node(
        String::from("node0"),
        Some(attrs(&[("pos", "VBZ"), ("lemma", "run"), ("word", "runs")])),
    );
    graph.add_edge(0, 0, String::from("loop"));

    let mut verbs = VerbLemmaPatterns::new();
    verbs.insert(String::from("run"), vec![String::from("NP V")]);
    let mut frames = FrameTable::new();
    frames.insert(String::from("NP V"), Frame { root: 0, graph: Graph::new() });

    let v1 = find_verbs(&graph).unwrap();
    let v2 = find_verbs(&graph).unwrap();
    assert_eq!(v1, v2);

    let q1 = build_queries(&v1, &graph, &verbs, &frames).unwrap();
    let q2 = build_queries(&v2, &graph, &verbs, &frames).unwrap();
    assert_eq!(q1, q2);

    let matched = MatchedComponents {
        list: vec![Component { from_edge: Some(0), node: 0 }],
    };
    assert_eq!(
        matched_components_to_pattern(&matched, &graph),
        matched_components_to_pattern(&matched, &graph)
    );

    assert_eq!(
        subgraph_nodes_to_extract_string(&v1, &graph),
        subgraph_nodes_to_extract_string(&v2, &graph)
    );
}

#[test]
fn newest_attribute_binding_wins() {
    let mut m = AttrMap::new();
    m.insert(String::from("pos"), String::from("NN"));
    m.insert(String::from("pos"), String::from("VB"));
    assert_eq!(Some(&String::from("VB")), m.get("pos"));
    assert_eq!(None, m.get("lemma"));
}
