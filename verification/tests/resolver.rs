use std::collections::HashMap;

use sysunit::engine::resolver::{DependencyFetcher, ResolvableNode, Resolver, Turn};
use sysunit::error::Error;

#[derive(Debug, Clone, Eq, PartialEq, Hash)]
struct Node {
    id: String,
    deps: Vec<String>,
}

impl ResolvableNode for Node {
    fn get_id(&self) -> String {
        self.id.clone()
    }
}

struct NodeLoader {
    nodes: HashMap<String, Node>,
}

impl NodeLoader {
    pub fn new() -> Self {
        Self { nodes: HashMap::new() }
    }

    pub fn add_node(&mut self, id: &str, deps: Vec<&str>) -> Node {
        let id = id.to_string();

        let node = Node { id: id.clone(), deps: deps.iter().map(|dep| dep.to_string()).collect() };

        self.nodes.insert(id.clone(), node.clone());

        node
    }

}

impl DependencyFetcher<Node> for NodeLoader {
    fn get_node_dependencies(&mut self, node: &Node) -> Result<Vec<Node>, Error> {
        node.deps
            .iter()
            .map(|dep_id| match self.nodes.get(dep_id) {
                Some(dep) => Ok(dep.clone()),
                None => Err(Error::NotFound { name: dep_id.clone(), search_paths: vec![] }),
            })
            .collect()
    }
}

/// Resolves a dependency graph starting from the initial node, turn by turn.
fn resolve(initial_node: Node, loader: &mut NodeLoader) -> Result<Vec<Node>, Error> {
    let mut resolver = Resolver::new(initial_node);
    loop {
        match resolver.turn(loader)? {
            Turn::More(next) => resolver = next,
            Turn::Done(order) => return Ok(order),
        }
    }
}

fn ids(nodes: &[Node]) -> Vec<String> {
    nodes.iter().map(|node| node.id.clone()).collect()
}

#[test]
fn resolver_test_basic() {
    let mut loader = NodeLoader::new();

    let top_node = loader.add_node("a", vec!["b", "c"]);
    loader.add_node("b", vec!["c"]);
    loader.add_node("c", vec![]);

    let result = resolve(top_node, &mut loader).unwrap();

    let expected = vec!["c", "b", "a"];
    let result: Vec<String> = result.iter().map(|node| node.id.clone()).collect();
    assert_eq!(result, expected);
}

#[test]
fn test_cycle() {
    let mut loader = NodeLoader::new();

    let top_node = loader.add_node("a", vec!["b", "c"]);
    loader.add_node("b", vec!["c"]);
    loader.add_node("c", vec!["a"]);

    assert!(resolve(top_node, &mut loader).is_err());
}

#[test]
fn test_complex() {
    let mut loader = NodeLoader::new();

    let top_node = loader.add_node("a", vec!["b", "c"]);
    loader.add_node("b", vec!["c", "d"]);
    loader.add_node("c", vec!["d"]);
    loader.add_node("d", vec![]);

    let result = resolve(top_node, &mut loader).unwrap();

    let expected = vec!["d", "c", "b", "a"];
    let result: Vec<String> = result.iter().map(|node| node.id.clone()).collect();
    assert_eq!(result, expected);
}

#[test]
fn a_single_node_is_its_own_order() {
    let mut loader = NodeLoader::new();
    let top_node = loader.add_node("only", vec![]);
    assert_eq!(ids(&resolve(top_node, &mut loader).unwrap()), vec!["only"]);
}

#[test]
fn every_dependency_comes_before_its_dependent() {
    let mut loader = NodeLoader::new();
    let top_node = loader.add_node("app", vec!["db", "cache"]);
    loader.add_node("db", vec!["disk"]);
    loader.add_node("cache", vec!["net"]);
    loader.add_node("disk", vec![]);
    loader.add_node("net", vec![]);

    let order = ids(&resolve(top_node, &mut loader).unwrap());
    assert_eq!(order.len(), 5);
    let position = |id: &str| order.iter().position(|other| other == id).unwrap();
    assert!(position("disk") < position("db"));
    assert!(position("net") < position("cache"));
    assert!(position("db") < position("app"));
    assert!(position("cache") < position("app"));
    assert_eq!(order, vec!["net", "cache", "disk", "db", "app"]);
}

#[test]
fn the_same_graph_resolves_to_the_same_order() {
    let mut loader = NodeLoader::new();
    let top_node = loader.add_node("a", vec!["b", "c"]);
    loader.add_node("b", vec!["d"]);
    loader.add_node("c", vec!["d"]);
    loader.add_node("d", vec![]);

    let first = ids(&resolve(top_node.clone(), &mut loader).unwrap());
    let second = ids(&resolve(top_node, &mut loader).unwrap());
    assert_eq!(first, second);
    assert_eq!(first, vec!["d", "c", "b", "a"]);
}

#[test]
fn a_cycle_is_reported_with_the_node_that_closes_it() {
    let mut loader = NodeLoader::new();
    let top_node = loader.add_node("x", vec!["y"]);
    loader.add_node("y", vec!["z"]);
    loader.add_node("z", vec!["x"]);

    let mut resolver = Resolver::new(top_node);
    let mut found = None;
    while resolver.next() {
        let node = resolver.node().unwrap().clone();
        let dependencies = loader.get_node_dependencies(&node).unwrap();
        match resolver.supply(dependencies) {
            Ok(next) => resolver = next,
            Err(error) => {
                found = Some(error);
                break;
            }
        }
    }
    let error = found.unwrap();
    assert_eq!(error.node_id, "x");
    assert_eq!(error.preceeding_nodes, Vec::<String>::new());
    assert_eq!(error.to_string(), "Circular dependency detected: x. stack: ");
}

#[test]
fn a_cycle_error_lists_the_nodes_ordered_before_it() {
    let mut loader = NodeLoader::new();
    let top_node = loader.add_node("a", vec!["b", "c"]);
    loader.add_node("b", vec!["c"]);
    loader.add_node("c", vec!["a"]);
    let message = resolve(top_node, &mut loader).unwrap_err().to_string();
    assert!(message.contains("Circular dependency"));
    assert_eq!(message, "Circular dependency detected: a. stack: ");

    let mut loader = NodeLoader::new();
    let top_node = loader.add_node("a", vec!["b", "c"]);
    loader.add_node("b", vec!["a"]);
    loader.add_node("c", vec!["d"]);
    loader.add_node("d", vec![]);
    let message = resolve(top_node, &mut loader).unwrap_err().to_string();
    assert_eq!(message, "Circular dependency detected: a. stack: d -> c");
}

#[test]
fn a_node_that_depends_on_itself_is_a_cycle() {
    let mut loader = NodeLoader::new();
    let top_node = loader.add_node("a", vec!["a"]);
    assert!(resolve(top_node, &mut loader).is_err());
}

#[test]
fn a_node_met_again_while_it_waits_enters_the_order_twice() {
    let mut loader = NodeLoader::new();
    let top_node = loader.add_node("a", vec!["b", "c"]);
    loader.add_node("c", vec!["b"]);
    loader.add_node("b", vec!["d"]);
    loader.add_node("d", vec![]);

    let order = ids(&resolve(top_node, &mut loader).unwrap());
    assert_eq!(order, vec!["b", "c", "d", "b", "a"]);
}

#[test]
fn a_failure_to_load_dependencies_ends_the_resolution() {
    let mut loader = NodeLoader::new();
    let top_node = loader.add_node("a", vec!["missing"]);
    assert_eq!(
        resolve(top_node, &mut loader),
        Err(Error::NotFound { name: "missing".to_string(), search_paths: vec![] })
    );
}

#[test]
fn a_cycle_through_a_node_met_again_while_it_waits_goes_unnoticed() {
    let mut loader = NodeLoader::new();
    let top_node = loader.add_node("a", vec!["b", "c"]);
    loader.add_node("c", vec!["b"]);
    loader.add_node("b", vec!["c"]);

    let order = ids(&resolve(top_node, &mut loader).unwrap());
    assert_eq!(order, vec!["b", "c", "b", "a"]);
}
