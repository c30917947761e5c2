//! Checks on the JSON texts of a request before it is handed on.

use vstd::prelude::*;
use crate::error::Field;
use crate::error::ImportanceError;
use crate::json::items;
use crate::json::json_document;
use crate::json::json_items;
use crate::json::json_member;
use crate::json::member;
use crate::json::parse_document;

verus! {

/// Whether a text is valid JSON.
pub open spec fn is_json(text: Seq<char>) -> bool {
    json_document(text) is Some
}

/// The number of items of a JSON value, if it is an array.
pub open spec fn item_count(value: serde_json::Value) -> Option<nat> {
    match json_items(value) {
        Some(list) => Some(list.len()),
        None => None,
    }
}

/// The number of coordinates of a node's JSON value, if it has a member `coords` that is
/// an array.
pub open spec fn coordinate_count(node: serde_json::Value) -> Option<nat> {
    match json_member(node, "coords"@) {
        Some(coords) => item_count(coords),
        None => None,
    }
}

/// What the dimension check makes of the two counts: the node and the grid disagree
/// when both counts are known and differ.
pub open spec fn dimension_verdict(coords: Option<nat>, steps: Option<nat>) -> Result<
    (),
    ImportanceError,
> {
    match (coords, steps) {
        (Some(c), Some(s)) => if c != s {
            Err(ImportanceError::DimensionMismatch { expected: s as usize })
        } else {
            Ok(())
        },
        _ => Ok(()),
    }
}

/// What the check of a node's text against the grid steps' text gives: the first text
/// that is not JSON is reported, then a disagreement of the dimensions.
pub open spec fn dimensions_verdict(node: Seq<char>, grid_steps: Seq<char>) -> Result<
    (),
    ImportanceError,
> {
    match json_document(node) {
        None => Err(ImportanceError::MalformedInput(Field::Node)),
        Some(node_value) => match json_document(grid_steps) {
            None => Err(ImportanceError::MalformedInput(Field::GridSteps)),
            Some(steps_value) => dimension_verdict(
                coordinate_count(node_value),
                item_count(steps_value),
            ),
        },
    }
}

/// What the check of the five texts gives: the first one that is not JSON is reported.
pub open spec fn texts_verdict(
    node: Seq<char>,
    recent_nodes: Seq<char>,
    important_nodes: Seq<char>,
    adjacent_segments: Seq<char>,
    grid_steps: Seq<char>,
) -> Result<(), ImportanceError> {
    if !is_json(node) {
        Err(ImportanceError::MalformedInput(Field::Node))
    } else if !is_json(recent_nodes) {
        Err(ImportanceError::MalformedInput(Field::RecentNodes))
    } else if !is_json(important_nodes) {
        Err(ImportanceError::MalformedInput(Field::ImportantNodes))
    } else if !is_json(adjacent_segments) {
        Err(ImportanceError::MalformedInput(Field::AdjacentSegments))
    } else if !is_json(grid_steps) {
        Err(ImportanceError::MalformedInput(Field::GridSteps))
    } else {
        Ok(())
    }
}

/// Compares the number of coordinates of a node with the number of grid steps, where
/// both are known.
pub fn check_dimensions(coords: Option<usize>, steps: Option<usize>) -> (checked: Result<
    (),
    ImportanceError,
>)
    ensures
        checked == dimension_verdict(
            match coords {
                Some(c) => Some(c as nat),
                None => None,
            },
            match steps {
                Some(s) => Some(s as nat),
                None => None,
            },
        ),
{
    match coords {
        Some(c) => match steps {
            Some(s) => if c != s {
                Err(ImportanceError::DimensionMismatch { expected: s })
            } else {
                Ok(())
            },
            None => Ok(()),
        },
        None => Ok(()),
    }
}

fn count_items(value: &serde_json::Value) -> (count: Option<usize>)
    ensures
        count is Some <==> item_count(*value) is Some,
        count matches Some(n) ==> item_count(*value) == Some(n as nat),
{
    match items(value) {
        Some(list) => Some(list.len()),
        None => None,
    }
}

fn count_coordinates(node: &serde_json::Value) -> (count: Option<usize>)
    ensures
        count is Some <==> coordinate_count(*node) is Some,
        count matches Some(n) ==> coordinate_count(*node) == Some(n as nat),
{
    match member(node, "coords") {
        Some(coords) => count_items(coords),
        None => None,
    }
}

/// Whether a text is valid JSON.
pub fn text_is_json(text: &str) -> (valid: bool)
    ensures
        valid == is_json(text@),
{
    parse_document(text).is_ok()
}

/// Checks that the node's text and the grid steps' text are JSON, and that the node has
/// as many coordinates as there are grid steps where both are arrays.
pub fn validate_dimensions(node: &str, grid_steps: &str) -> (checked: Result<(), ImportanceError>)
    ensures
        checked == dimensions_verdict(node@, grid_steps@),
{
    let node_value = match parse_document(node) {
        Ok(value) => value,
        Err(_) => {
            return Err(ImportanceError::MalformedInput(Field::Node));
        },
    };
    let steps_value = match parse_document(grid_steps) {
        Ok(value) => value,
        Err(_) => {
            return Err(ImportanceError::MalformedInput(Field::GridSteps));
        },
    };
    check_dimensions(count_coordinates(&node_value), count_items(&steps_value))
}

/// Checks that each of the five texts of a request is JSON.
pub fn validate_texts(
    node: &str,
    recent_nodes: &str,
    important_nodes: &str,
    adjacent_segments: &str,
    grid_steps: &str,
) -> (checked: Result<(), ImportanceError>)
    ensures
        checked == texts_verdict(
            node@,
            recent_nodes@,
            important_nodes@,
            adjacent_segments@,
            grid_steps@,
        ),
{
    if !text_is_json(node) {
        Err(ImportanceError::MalformedInput(Field::Node))
    } else if !text_is_json(recent_nodes) {
        Err(ImportanceError::MalformedInput(Field::RecentNodes))
    } else if !text_is_json(important_nodes) {
        Err(ImportanceError::MalformedInput(Field::ImportantNodes))
    } else if !text_is_json(adjacent_segments) {
        Err(ImportanceError::MalformedInput(Field::AdjacentSegments))
    } else if !text_is_json(grid_steps) {
        Err(ImportanceError::MalformedInput(Field::GridSteps))
    } else {
        Ok(())
    }
}

} // verus!
