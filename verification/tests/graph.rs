use std::cell::Cell;

use cellrune::graph::{schedule, schedule_cancellable, DependencyGraph};

#[test]
fn distinguishes_cycle_members_from_downstream_cells() {
    let a = (0, 1, 1);
    let b = (0, 1, 2);
    let downstream = (0, 1, 3);
    let independent = (0, 1, 4);
    let mut dependencies = DependencyGraph::new();
    dependencies.insert(a, vec![b]);
    dependencies.insert(b, vec![a]);
    dependencies.insert(downstream, vec![a]);
    dependencies.insert(independent, Vec::new());

    let result = schedule(&dependencies);

    assert_eq!(result.order, vec![independent]);
    assert_eq!(result.cycle_cells, vec![a, b]);
    assert_eq!(result.blocked_cells, vec![downstream]);
}

#[test]
fn large_cycle_is_classified_without_recursive_graph_walks() {
    let cell_count = 10_000_u32;
    let mut dependencies = DependencyGraph::new();
    for column in 1..=cell_count {
        let current = (0, 1, column);
        let next = (0, 1, if column == cell_count { 1 } else { column + 1 });
        dependencies.insert(current, vec![next]);
    }

    let result = schedule(&dependencies);

    assert_eq!(result.cycle_cells.len(), cell_count as usize);
    assert!(result.blocked_cells.is_empty());
    assert!(result.order.is_empty());
}

#[test]
fn scheduling_polls_cancellation_while_building_edges() {
    let mut dependencies = DependencyGraph::new();
    dependencies.insert((0, 1, 1), vec![(0, 1, 2), (0, 1, 3)]);
    dependencies.insert((0, 1, 2), Vec::new());
    dependencies.insert((0, 1, 3), Vec::new());
    let polls = Cell::new(0_u32);
    let cancelled = || {
        let next = polls.get() + 1;
        polls.set(next);
        next >= 3
    };

    assert!(schedule_cancellable(&dependencies, &cancelled).is_err());
    assert_eq!(polls.get(), 3);
}

#[test]
fn dependencies_come_first_and_self_reads_are_cycles() {
    let mut dependencies = DependencyGraph::new();
    dependencies.insert((0, 2, 1), vec![(0, 1, 1), (5, 5, 5)]);
    dependencies.insert((0, 1, 1), vec![(0, 1, 2)]);
    dependencies.insert((0, 1, 2), Vec::new());
    dependencies.insert((1, 1, 1), vec![(1, 1, 1)]);
    dependencies.insert((1, 1, 2), vec![(1, 1, 1)]);

    let result = schedule(&dependencies);

    assert_eq!(result.order, vec![(0, 1, 2), (0, 1, 1), (0, 2, 1)]);
    assert_eq!(result.cycle_cells, vec![(1, 1, 1)]);
    assert_eq!(result.blocked_cells, vec![(1, 1, 2)]);
}

#[test]
fn inserting_a_cell_again_replaces_its_dependencies() {
    let mut dependencies = DependencyGraph::new();
    dependencies.insert((0, 1, 1), vec![(0, 1, 2)]);
    dependencies.insert((0, 1, 2), vec![(0, 1, 1)]);
    dependencies.insert((0, 1, 2), Vec::new());
    assert_eq!(dependencies.len(), 2);
    let result = schedule(&dependencies);
    assert_eq!(result.order, vec![(0, 1, 2), (0, 1, 1)]);
    assert!(result.cycle_cells.is_empty());
}

#[test]
fn a_cell_between_two_cycles_is_blocked_not_a_cycle_member() {
    let a = (0, 1, 1);
    let b = (0, 1, 2);
    let between = (0, 1, 3);
    let own = (0, 1, 4);
    let mut dependencies = DependencyGraph::new();
    dependencies.insert(a, vec![b, between]);
    dependencies.insert(b, vec![a]);
    dependencies.insert(between, vec![own]);
    dependencies.insert(own, vec![own]);

    let result = schedule(&dependencies);

    assert!(result.order.is_empty());
    assert_eq!(result.cycle_cells, vec![a, b, own]);
    assert_eq!(result.blocked_cells, vec![between]);
}

#[test]
fn the_lowest_ready_cell_comes_next() {
    let mut dependencies = DependencyGraph::new();
    dependencies.insert((0, 1, 1), vec![(0, 1, 2)]);
    dependencies.insert((0, 1, 2), Vec::new());
    dependencies.insert((0, 1, 3), vec![(9, 9, 9)]);

    let result = schedule(&dependencies);

    assert_eq!(result.order, vec![(0, 1, 2), (0, 1, 1), (0, 1, 3)]);
}
