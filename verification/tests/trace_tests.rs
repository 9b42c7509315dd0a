//! Tracing: the mark set is the reachable set, and nothing else.

use lxr::trace::full_trace;

/// Running a full trace twice over one heap state produces an
/// identical mark set.
#[test]
fn full_trace_twice_marks_the_same_set() {
    let graph: Vec<Vec<usize>> = vec![
        vec![1, 2],
        vec![3],
        vec![3, 4],
        vec![],
        vec![0],
        vec![6],
        vec![5],
    ];
    let roots: Vec<usize> = vec![0];
    let first = full_trace(&graph, &roots);
    let second = full_trace(&graph, &roots);
    assert_eq!(first, second);
    assert_eq!(first, vec![true, true, true, true, true, false, false]);
}

#[test]
fn only_reachable_nodes_are_marked() {
    let graph: Vec<Vec<usize>> = vec![vec![1], vec![], vec![1], vec![3]];
    let marked = full_trace(&graph, &vec![0]);
    assert_eq!(marked, vec![true, true, false, false]);
}

#[test]
fn empty_roots_mark_nothing() {
    let graph: Vec<Vec<usize>> = vec![vec![0], vec![0]];
    let marked = full_trace(&graph, &vec![]);
    assert_eq!(marked, vec![false, false]);
}

#[test]
fn cycles_terminate_and_mark_once() {
    let graph: Vec<Vec<usize>> = vec![vec![1], vec![2], vec![0]];
    let marked = full_trace(&graph, &vec![2]);
    assert_eq!(marked, vec![true, true, true]);
}
