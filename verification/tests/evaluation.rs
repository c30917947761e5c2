use bellande_node_importance::error::{ImportanceError, Parameter};
use bellande_node_importance::evaluator::{
    decide, evaluate, ImportanceResult, Reason, BRIDGE_WEIGHT, NOVELTY_SCORE, STALE_WEIGHT,
};
use bellande_node_importance::model::{Adjacency, Node, SegmentId, SegmentNodes};
use bellande_node_importance::warnings::unknown_segment_references;

// Lengths in the tests count thousandths.
fn length(x: f64) -> i64 {
    (x * 1000.0).round() as i64
}

// Ratios count millionths.
fn ratio(x: f64) -> i64 {
    (x * 1_000_000.0).round() as i64
}

fn name(text: &str) -> SegmentId {
    SegmentId::Name(text.to_string())
}

fn node(coords: &[f64], segment: &str) -> Node {
    Node { coords: coords.iter().map(|c| length(*c)).collect(), segment: name(segment) }
}

fn unit_grid() -> Vec<i64> {
    vec![length(1.0), length(1.0)]
}

fn novel() -> ImportanceResult {
    ImportanceResult { important: true, score: NOVELTY_SCORE, reason: Reason::NovelCell }
}

fn redundant() -> ImportanceResult {
    ImportanceResult { important: false, score: 0, reason: Reason::Redundant }
}

#[test]
fn empty_history_makes_the_cell_novel() {
    let result = evaluate(&node(&[0.4, 0.4], "A"), &vec![], &vec![], &vec![], &unit_grid(), ratio(0.5));
    assert_eq!(result, Ok(novel()));
    assert_eq!(result.unwrap().reason.name(), "NovelCell");
}

#[test]
fn important_node_in_the_same_cell_makes_the_candidate_redundant() {
    let important = vec![SegmentNodes { segment: name("A"), nodes: vec![node(&[0.1, 0.1], "A")] }];
    let result =
        evaluate(&node(&[0.4, 0.4], "A"), &vec![], &important, &vec![], &unit_grid(), ratio(0.5));
    assert_eq!(result, Ok(redundant()));
    assert_eq!(result.unwrap().reason.name(), "Redundant");
}

#[test]
fn candidate_with_too_few_coordinates_is_refused() {
    let result = evaluate(&node(&[0.4], "A"), &vec![], &vec![], &vec![], &unit_grid(), ratio(0.5));
    assert_eq!(result, Err(ImportanceError::DimensionMismatch { expected: 2 }));
}

#[test]
fn candidate_with_too_many_coordinates_is_refused() {
    let result =
        evaluate(&node(&[0.4, 0.4, 0.4], "A"), &vec![], &vec![], &vec![], &unit_grid(), ratio(1.0));
    assert_eq!(result, Err(ImportanceError::DimensionMismatch { expected: 2 }));
}

#[test]
fn recent_node_with_wrong_dimension_is_refused() {
    let recent = vec![node(&[0.4, 0.4], "A"), node(&[0.4], "B")];
    let result = evaluate(&node(&[0.4, 0.4], "A"), &recent, &vec![], &vec![], &unit_grid(), ratio(0.5));
    assert_eq!(result, Err(ImportanceError::DimensionMismatch { expected: 2 }));
}

#[test]
fn important_node_with_wrong_dimension_is_refused() {
    let important = vec![
        SegmentNodes { segment: name("A"), nodes: vec![node(&[0.1, 0.1], "A")] },
        SegmentNodes { segment: name("B"), nodes: vec![node(&[0.1, 0.1, 0.1], "B")] },
    ];
    let result =
        evaluate(&node(&[0.4, 0.4], "A"), &vec![], &important, &vec![], &unit_grid(), ratio(0.5));
    assert_eq!(result, Err(ImportanceError::DimensionMismatch { expected: 2 }));
}

#[test]
fn coverage_below_zero_is_refused() {
    let result = evaluate(&node(&[0.4, 0.4], "A"), &vec![], &vec![], &vec![], &unit_grid(), -1);
    assert_eq!(result, Err(ImportanceError::InvalidParameter(Parameter::MinSegmentCoverage)));
}

#[test]
fn coverage_above_one_is_refused() {
    let result =
        evaluate(&node(&[0.4, 0.4], "A"), &vec![], &vec![], &vec![], &unit_grid(), 1_000_001);
    assert_eq!(result, Err(ImportanceError::InvalidParameter(Parameter::MinSegmentCoverage)));
}

#[test]
fn coverage_is_checked_before_the_dimensions() {
    let result = evaluate(&node(&[0.4], "A"), &vec![], &vec![], &vec![], &unit_grid(), ratio(1.5));
    assert_eq!(result, Err(ImportanceError::InvalidParameter(Parameter::MinSegmentCoverage)));
}

#[test]
fn coverage_of_zero_and_of_one_are_accepted() {
    let candidate = node(&[0.4, 0.4], "A");
    assert_eq!(evaluate(&candidate, &vec![], &vec![], &vec![], &unit_grid(), 0), Ok(novel()));
    assert_eq!(evaluate(&candidate, &vec![], &vec![], &vec![], &unit_grid(), 1_000_000), Ok(novel()));
}

#[test]
fn grid_step_of_zero_is_refused() {
    let steps = vec![length(1.0), 0];
    let result = evaluate(&node(&[0.4, 0.4], "A"), &vec![], &vec![], &vec![], &steps, ratio(0.5));
    assert_eq!(result, Err(ImportanceError::InvalidParameter(Parameter::GridSteps)));
}

#[test]
fn negative_grid_step_is_refused() {
    let steps = vec![-length(1.0), length(1.0)];
    let result = evaluate(&node(&[0.4, 0.4], "A"), &vec![], &vec![], &vec![], &steps, ratio(0.5));
    assert_eq!(result, Err(ImportanceError::InvalidParameter(Parameter::GridSteps)));
}

#[test]
fn dimensions_are_checked_before_the_grid_steps() {
    let steps = vec![0, 0];
    let result = evaluate(&node(&[0.4], "A"), &vec![], &vec![], &vec![], &steps, ratio(0.5));
    assert_eq!(result, Err(ImportanceError::DimensionMismatch { expected: 2 }));
}

#[test]
fn evaluating_twice_gives_the_same_result() {
    let recent = vec![node(&[0.2, 0.2], "A"), node(&[3.5, 0.1], "A")];
    let important = vec![SegmentNodes { segment: name("B"), nodes: vec![node(&[7.0, 7.0], "B")] }];
    let adjacent = vec![Adjacency { segment: name("A"), neighbors: vec![name("B"), name("C")] }];
    let candidate = node(&[0.4, 0.4], "A");
    let first = evaluate(&candidate, &recent, &important, &adjacent, &unit_grid(), ratio(0.75));
    let second = evaluate(&candidate, &recent, &important, &adjacent, &unit_grid(), ratio(0.75));
    assert_eq!(first, second);
    assert!(first.is_ok());
}

#[test]
fn unoccupied_cell_is_novel_even_in_a_covered_segment() {
    let recent = vec![node(&[0.2, 0.2], "A")];
    let result = evaluate(&node(&[1.4, 0.4], "A"), &recent, &vec![], &vec![], &unit_grid(), 0);
    assert_eq!(result, Ok(novel()));
}

#[test]
fn cell_occupied_in_another_segment_is_still_novel() {
    let recent = vec![node(&[0.2, 0.2], "B")];
    let important = vec![SegmentNodes { segment: name("B"), nodes: vec![node(&[0.3, 0.3], "B")] }];
    let result =
        evaluate(&node(&[0.4, 0.4], "A"), &recent, &important, &vec![], &unit_grid(), ratio(0.5));
    assert_eq!(result, Ok(novel()));
}

#[test]
fn revisited_cell_in_a_covered_segment_is_redundant() {
    let recent = vec![node(&[0.2, 0.2], "A"), node(&[1.5, 0.5], "A")];
    let adjacent = vec![Adjacency { segment: name("A"), neighbors: vec![name("B")] }];
    let result =
        evaluate(&node(&[0.4, 0.4], "A"), &recent, &vec![], &adjacent, &unit_grid(), ratio(0.5));
    assert_eq!(result, Ok(redundant()));
}

#[test]
fn important_nodes_are_found_by_the_key_of_their_entry() {
    // The node says "B", but it is recorded under "A".
    let important = vec![SegmentNodes { segment: name("A"), nodes: vec![node(&[0.1, 0.1], "B")] }];
    let result =
        evaluate(&node(&[0.4, 0.4], "A"), &vec![], &important, &vec![], &unit_grid(), ratio(0.5));
    assert_eq!(result, Ok(redundant()));
}

#[test]
fn a_name_is_not_a_number() {
    let recent = vec![Node { coords: vec![length(0.2), length(0.2)], segment: SegmentId::Number(1) }];
    let by_name = Node { coords: vec![length(0.4), length(0.4)], segment: name("1") };
    let by_number = Node { coords: vec![length(0.4), length(0.4)], segment: SegmentId::Number(1) };
    assert_eq!(evaluate(&by_name, &recent, &vec![], &vec![], &unit_grid(), ratio(0.5)), Ok(novel()));
    assert_eq!(
        evaluate(&by_number, &recent, &vec![], &vec![], &unit_grid(), ratio(0.5)),
        Ok(redundant())
    );
    assert!(!name("1").same_as(&SegmentId::Number(1)));
    assert!(name("1").same_as(&name("1")));
    assert!(SegmentId::Number(1).same_as(&SegmentId::Number(1)));
    assert!(!SegmentId::Number(1).same_as(&SegmentId::Number(2)));
    assert_eq!(name("x").duplicate(), name("x"));
    assert_eq!(SegmentId::Number(-3).duplicate(), SegmentId::Number(-3));
}

#[test]
fn negative_coordinates_are_floored() {
    // -0.4 lies in cell -1, not in cell 0.
    let recent = vec![node(&[0.4, 0.4], "A")];
    let result = evaluate(&node(&[-0.4, 0.4], "A"), &recent, &vec![], &vec![], &unit_grid(), 0);
    assert_eq!(result, Ok(novel()));
    let recent = vec![node(&[-0.9, 0.4], "A")];
    let result = evaluate(&node(&[-0.4, 0.4], "A"), &recent, &vec![], &vec![], &unit_grid(), 0);
    assert_eq!(result, Ok(redundant()));
}

// Two of the four cells of the bounding box are occupied: a coverage of one half.
fn half_covered() -> Vec<SegmentNodes> {
    vec![SegmentNodes {
        segment: name("A"),
        nodes: vec![node(&[0.1, 0.1], "A"), node(&[3.1, 0.1], "A")],
    }]
}

#[test]
fn coverage_at_the_minimum_is_enough() {
    let result =
        evaluate(&node(&[0.4, 0.4], "A"), &vec![], &half_covered(), &vec![], &unit_grid(), ratio(0.5));
    assert_eq!(result, Ok(redundant()));
}

#[test]
fn occupied_cell_without_neighbours_or_history_is_redundant() {
    let result = evaluate(
        &node(&[0.4, 0.4], "A"),
        &vec![],
        &half_covered(),
        &vec![],
        &unit_grid(),
        ratio(0.500001),
    );
    assert_eq!(result, Ok(redundant()));
}

#[test]
fn neighbour_short_of_coverage_makes_the_candidate_a_bridge() {
    let adjacent = vec![Adjacency { segment: name("A"), neighbors: vec![name("B")] }];
    let result = evaluate(
        &node(&[0.4, 0.4], "A"),
        &vec![],
        &half_covered(),
        &adjacent,
        &unit_grid(),
        ratio(0.75),
    );
    assert_eq!(
        result,
        Ok(ImportanceResult { important: true, score: 500_000, reason: Reason::BridgesSegment })
    );
    assert_eq!(result.unwrap().reason.name(), "BridgesSegment");
}

#[test]
fn covered_neighbour_is_no_bridge() {
    let mut important = half_covered();
    important.push(SegmentNodes { segment: name("B"), nodes: vec![node(&[9.0, 9.0], "B")] });
    let adjacent = vec![Adjacency { segment: name("A"), neighbors: vec![name("B"), name("A")] }];
    let result = evaluate(
        &node(&[0.4, 0.4], "A"),
        &vec![],
        &important,
        &adjacent,
        &unit_grid(),
        ratio(0.75),
    );
    assert_eq!(result, Ok(redundant()));
}

#[test]
fn adjacency_counts_only_from_the_candidates_segment() {
    let adjacent = vec![Adjacency { segment: name("B"), neighbors: vec![name("A"), name("C")] }];
    let result = evaluate(
        &node(&[0.4, 0.4], "A"),
        &vec![],
        &half_covered(),
        &adjacent,
        &unit_grid(),
        ratio(0.75),
    );
    assert_eq!(result, Ok(redundant()));
}

#[test]
fn older_visit_makes_the_candidate_a_replacement() {
    let recent = vec![node(&[0.2, 0.2], "A"), node(&[3.5, 0.5], "A")];
    let result =
        evaluate(&node(&[0.4, 0.4], "A"), &recent, &vec![], &vec![], &unit_grid(), ratio(0.75));
    assert_eq!(
        result,
        Ok(ImportanceResult { important: true, score: 250_000, reason: Reason::ReplacesStale })
    );
    assert_eq!(result.unwrap().reason.name(), "ReplacesStale");
}

#[test]
fn latest_visit_makes_the_candidate_redundant() {
    let recent = vec![node(&[3.5, 0.5], "A"), node(&[0.2, 0.2], "A")];
    let result =
        evaluate(&node(&[0.4, 0.4], "A"), &recent, &vec![], &vec![], &unit_grid(), ratio(0.75));
    assert_eq!(result, Ok(redundant()));
}

#[test]
fn cell_never_visited_recently_is_as_old_as_the_history() {
    let recent = vec![node(&[5.5, 5.5], "B")];
    let result = evaluate(
        &node(&[0.4, 0.4], "A"),
        &recent,
        &half_covered(),
        &vec![],
        &unit_grid(),
        ratio(0.75),
    );
    assert_eq!(
        result,
        Ok(ImportanceResult { important: true, score: 500_000, reason: Reason::ReplacesStale })
    );
}

#[test]
fn bridge_and_age_add_up() {
    let recent = vec![node(&[0.2, 0.2], "A"), node(&[3.5, 0.5], "A")];
    let adjacent = vec![Adjacency { segment: name("A"), neighbors: vec![name("B")] }];
    let result =
        evaluate(&node(&[0.4, 0.4], "A"), &recent, &vec![], &adjacent, &unit_grid(), ratio(0.75));
    assert_eq!(
        result,
        Ok(ImportanceResult { important: true, score: 750_000, reason: Reason::BridgesSegment })
    );
}

#[test]
fn no_dimension_is_one_cell() {
    let candidate = Node { coords: vec![], segment: name("A") };
    let visited = Node { coords: vec![], segment: name("A") };
    assert_eq!(evaluate(&candidate, &vec![], &vec![], &vec![], &vec![], ratio(0.5)), Ok(novel()));
    assert_eq!(
        evaluate(&candidate, &vec![visited], &vec![], &vec![], &vec![], ratio(1.0)),
        Ok(redundant())
    );
}

#[test]
fn decide_follows_the_table() {
    assert_eq!(decide(true, true, true, 3, 4), novel());
    assert_eq!(decide(true, false, false, 0, 0), novel());
    assert_eq!(decide(false, true, true, 4, 4), redundant());
    assert_eq!(
        decide(false, false, true, 0, 4),
        ImportanceResult { important: true, score: BRIDGE_WEIGHT, reason: Reason::BridgesSegment }
    );
    assert_eq!(
        decide(false, false, true, 4, 4),
        ImportanceResult {
            important: true,
            score: BRIDGE_WEIGHT + STALE_WEIGHT,
            reason: Reason::BridgesSegment
        }
    );
    assert_eq!(
        decide(false, false, false, 1, 3),
        ImportanceResult { important: true, score: 166_667, reason: Reason::ReplacesStale }
    );
    assert_eq!(
        decide(false, false, false, 1, 1_000_000_000),
        ImportanceResult { important: true, score: 1, reason: Reason::ReplacesStale }
    );
    assert_eq!(decide(false, false, false, 0, 3), redundant());
    assert_eq!(decide(false, false, false, 0, 0), redundant());
}

#[test]
fn unknown_segments_are_reported_in_order() {
    let important = vec![SegmentNodes { segment: name("B"), nodes: vec![] }];
    let adjacent = vec![
        Adjacency { segment: name("A"), neighbors: vec![name("B"), name("C")] },
        Adjacency { segment: name("D"), neighbors: vec![name("A"), name("C"), SegmentId::Number(7)] },
    ];
    assert_eq!(
        unknown_segment_references(&name("A"), &important, &adjacent),
        vec![name("C"), name("D"), name("C"), SegmentId::Number(7)]
    );
    assert_eq!(unknown_segment_references(&name("A"), &important, &vec![]), vec![]);
}

#[test]
fn unknown_segments_refuse_nothing() {
    let adjacent = vec![Adjacency { segment: name("X"), neighbors: vec![name("Y")] }];
    let result = evaluate(&node(&[0.4, 0.4], "A"), &vec![], &vec![], &adjacent, &unit_grid(), ratio(0.5));
    assert_eq!(result, Ok(novel()));
}
