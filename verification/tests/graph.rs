use bodega::graph::{DepGraph, GraphError};
use bodega::order::OrdSet;

fn names(items: &[&str]) -> Vec<String> {
    items.iter().map(|s| s.to_string()).collect()
}

fn set(items: &[&str]) -> OrdSet<String> {
    OrdSet::of(names(items))
}

fn plan(nodes: &[(&str, &[&str])]) -> Result<DepGraph<String>, GraphError> {
    DepGraph::from_nodes(nodes.iter().map(|(n, deps)| (n.to_string(), names(deps))).collect())
}

#[test]
fn topo_order_is_deterministic_and_dependencies_first() {
    let g = plan(&[("ui", &["api"]), ("api", &["schema"]), ("schema", &[]), ("docs", &[])]).unwrap();
    assert_eq!(g.topo_order().unwrap(), ["docs", "schema", "api", "ui"]);
}

#[test]
fn ready_respects_done_and_active() {
    let g = plan(&[("a", &[]), ("b", &["a"]), ("c", &["a"]), ("d", &["b", "c"])]).unwrap();
    assert_eq!(g.ready(&set(&[]), &set(&[])), ["a"]);
    assert_eq!(g.ready(&set(&["a"]), &set(&["b"])), ["c"]);
    assert_eq!(g.ready(&set(&["a", "b"]), &set(&["c"])), Vec::<String>::new());
    assert_eq!(g.ready(&set(&["a", "b", "c"]), &set(&[])), ["d"]);
}

#[test]
fn transitive_dependents_follow_the_whole_chain() {
    let g = plan(&[("a", &[]), ("b", &["a"]), ("c", &["b"]), ("x", &[])]).unwrap();
    assert_eq!(g.transitive_dependents(&"a".to_string()), set(&["b", "c"]));
    assert!(g.transitive_dependents(&"x".to_string()).is_empty());
}

#[test]
fn rejects_unknown_and_self_dependencies() {
    assert_eq!(
        plan(&[("a", &["ghost"])]).unwrap_err(),
        GraphError::UnknownDependency { node: "a".into(), dependency: "ghost".into() }
    );
    assert_eq!(
        plan(&[("a", &["a"])]).unwrap_err(),
        GraphError::SelfDependency { node: "a".into() }
    );
}

#[test]
fn reports_the_cycle_even_when_scanning_starts_behind_it() {
    // "0" sorts first and sits two hops behind the loop b <-> c.
    let err = plan(&[("0", &["1"]), ("1", &["b"]), ("b", &["c"]), ("c", &["b"])]).unwrap_err();
    assert_eq!(err, GraphError::Cycle { path: vec!["b".into(), "c".into(), "b".into()] });
}

#[test]
fn every_node_of_a_reported_cycle_depends_on_the_next() {
    let nodes: [(&str, &[&str]); 6] = [
        ("a", &["f"]),
        ("b", &["c", "d"]),
        ("c", &["e"]),
        ("d", &["b"]),
        ("e", &["c"]),
        ("f", &["a", "b"]),
    ];
    let GraphError::Cycle { path } = plan(&nodes).unwrap_err() else {
        panic!("expected a cycle error");
    };
    assert_eq!(path.first(), path.last());
    for pair in path.windows(2) {
        let (_, deps) = nodes.iter().find(|(name, _)| *name == pair[0]).unwrap();
        assert!(deps.contains(&pair[1].as_str()), "{path:?}");
    }
    let inner = OrdSet::of(path[1..].to_vec());
    assert_eq!(inner.to_vec().len(), path.len() - 1, "{path:?}");
}

#[test]
fn reports_the_cycle() {
    let err = plan(&[("a", &["c"]), ("b", &["a"]), ("c", &["b"]), ("d", &["a"])]).unwrap_err();
    let GraphError::Cycle { path } = err else {
        panic!("expected a cycle error");
    };
    assert_eq!(path.first(), path.last());
    assert_eq!(path.len(), 4, "a 3-node loop plus the repeated start: {path:?}");
    for node in ["a", "b", "c"] {
        assert!(path.iter().any(|p| p == node), "{node} missing from {path:?}");
    }
}

#[test]
fn graph_errors_read_well() {
    assert_eq!(
        plan(&[("a", &["ghost"])]).unwrap_err().message(),
        "`a` depends on unknown node `ghost`"
    );
    assert_eq!(plan(&[("a", &["a"])]).unwrap_err().message(), "`a` depends on itself");
    assert_eq!(
        plan(&[("a", &["b"]), ("b", &["a"])]).unwrap_err().message(),
        "dependency cycle: a -> b -> a"
    );
}

#[test]
fn nodes_and_edges_are_listed_in_key_order() {
    let mut g: DepGraph<String> = DepGraph::new();
    assert!(g.is_empty());
    for key in ["b", "a", "c"] {
        g.add_node(key.to_string());
    }
    g.add_dependency(&"c".to_string(), "b".to_string()).unwrap();
    g.add_dependency(&"c".to_string(), "a".to_string()).unwrap();
    assert_eq!(g.len(), 3);
    assert!(g.contains(&"a".to_string()) && !g.contains(&"z".to_string()));
    assert_eq!(g.nodes(), ["a", "b", "c"]);
    assert_eq!(g.dependencies(&"c".to_string()), ["a", "b"]);
    assert_eq!(g.dependents(&"a".to_string()), ["c"]);
    assert_eq!(g.validate(), Ok(()));
    assert!(g.add_dependency(&"c".to_string(), "z".to_string()).is_err());
}

#[test]
fn text_keys_sort_by_their_bytes() {
    let g = plan(&[("é", &[]), ("z", &[]), ("Z", &[]), ("aa", &[]), ("a", &[])]).unwrap();
    assert_eq!(g.topo_order().unwrap(), ["Z", "a", "aa", "z", "é"]);
}
