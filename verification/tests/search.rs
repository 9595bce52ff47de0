use codeball::search::{reconstruct_sequence, Identifiable, Search, State, Visitor};

#[derive(Clone, Debug, PartialEq)]
struct Node {
    id: i32,
    value: i32,
    depth: i32,
}

impl Identifiable for Node {
    fn spec_id(&self) -> i32 {
        self.id
    }

    fn id(&self) -> i32 {
        self.spec_id()
    }
}

/// Steps of 1 or 2 from 0 up to 4; reaching 4 is final, shorter paths score higher.
#[derive(Clone)]
struct Steps {
    last_id: i32,
    applied: usize,
}

impl Visitor<Node, i32> for Steps {
    fn spec_is_final(state: Node) -> bool {
        state.value == 4
    }

    fn spec_score(state: Node) -> i32 {
        if state.value == 4 {
            100 - state.depth
        } else {
            0
        }
    }

    fn spec_transitions(visitor: Self, state: Node) -> (Self, Vec<i32>) {
        let transitions = if state.value < 4 { vec![1, 2] } else { Vec::new() };
        (visitor, transitions)
    }

    fn spec_apply(visitor: Self, _iteration: usize, state: Node, transition: i32) -> (Self, Node) {
        let next = Steps { last_id: visitor.last_id + 1, applied: visitor.applied + 1 };
        let node = Node { id: next.last_id, value: state.value + transition, depth: state.depth + 1 };
        (next, node)
    }

    fn spec_transition_cost(visitor: Self, _source: Node, _destination: Node, transition: i32) -> (Self, i32) {
        (visitor, transition)
    }

    fn is_final(&self, state: &Node) -> bool {
        Self::spec_is_final(state.clone())
    }

    fn get_transitions(&mut self, state: &Node) -> Vec<i32> {
        let (visitor, transitions) = Self::spec_transitions(self.clone(), state.clone());
        *self = visitor;
        transitions
    }

    fn apply(&mut self, iteration: usize, state: &Node, transition: &i32) -> Node {
        let (visitor, node) = Self::spec_apply(self.clone(), iteration, state.clone(), *transition);
        *self = visitor;
        node
    }

    fn get_transition_cost(&mut self, source: &Node, destination: &Node, transition: &i32) -> i32 {
        let (visitor, cost) = Self::spec_transition_cost(self.clone(), source.clone(), destination.clone(), *transition);
        *self = visitor;
        cost
    }

    fn get_score(&self, state: &Node) -> i32 {
        Self::spec_score(state.clone())
    }
}

fn run(max_iterations: usize) -> (Vec<i32>, Option<Node>, usize) {
    let mut visitor = Steps { last_id: 1, applied: 0 };
    Search { max_iterations }.perform(Node { id: 1, value: 0, depth: 0 }, &mut visitor)
}

#[test]
fn test_search_finds_shortest_path() {
    let (transitions, state, iterations) = run(100);
    assert_eq!(transitions, vec![2, 2]);
    assert_eq!(state, Some(Node { id: 7, value: 4, depth: 2 }));
    assert_eq!(iterations, 15);
}

#[test]
fn test_search_respects_iteration_limit() {
    for max in [0usize, 1, 3, 5] {
        let (transitions, state, iterations) = run(max);
        assert!(transitions.is_empty());
        assert_eq!(state, None);
        assert_eq!(iterations, max);
    }
    let (transitions, state, iterations) = run(10);
    assert_eq!(transitions, vec![2, 2]);
    assert_eq!(state, Some(Node { id: 7, value: 4, depth: 2 }));
    assert_eq!(iterations, 10);
}

#[test]
fn test_search_path_no_longer_than_iterations() {
    for max in 0..30usize {
        let (transitions, _, iterations) = run(max);
        assert!(iterations <= max);
        assert!(transitions.len() <= iterations);
    }
}

#[test]
fn test_reconstruct_sequence() {
    let transitions = vec![(None, 'a'), (Some(0), 'b'), (None, 'c'), (Some(1), 'd')];
    let end = Some(State { id: 9, cost: 0, score: 0, state: (), transition: Some(3) });
    assert_eq!(reconstruct_sequence(&transitions, &end), vec!['a', 'b', 'd']);
    let start = Some(State { id: 1, cost: 0, score: 0, state: (), transition: None });
    assert!(reconstruct_sequence(&transitions, &start).is_empty());
    let nothing: Option<State<()>> = None;
    assert!(reconstruct_sequence(&transitions, &nothing).is_empty());
}

#[test]
fn test_search_from_final_state() {
    let mut visitor = Steps { last_id: 1, applied: 0 };
    let start = Node { id: 1, value: 4, depth: 0 };
    let (transitions, state, iterations) = Search { max_iterations: 0 }.perform(start.clone(), &mut visitor);
    assert!(transitions.is_empty());
    assert_eq!(state, Some(start.clone()));
    assert_eq!(iterations, 0);
    let (transitions, state, iterations) = Search { max_iterations: 5 }.perform(start.clone(), &mut visitor);
    assert!(transitions.is_empty());
    assert_eq!(state, Some(start));
    assert_eq!(iterations, 1);
}

#[test]
fn test_search_without_iterations_leaves_visitor() {
    let mut visitor = Steps { last_id: 1, applied: 0 };
    let (transitions, state, iterations) =
        Search { max_iterations: 0 }.perform(Node { id: 1, value: 0, depth: 0 }, &mut visitor);
    assert!(transitions.is_empty());
    assert_eq!(state, None);
    assert_eq!(iterations, 0);
    assert_eq!((visitor.last_id, visitor.applied), (1, 0));
    let mut visitor = Steps { last_id: 1, applied: 0 };
    Search { max_iterations: 1 }.perform(Node { id: 1, value: 0, depth: 0 }, &mut visitor);
    assert_eq!((visitor.last_id, visitor.applied), (3, 2));
}
