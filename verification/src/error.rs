//! The ways in which a request is refused.

use vstd::prelude::*;
use vstd::string::*;
use crate::decimal::append_digits;
use crate::decimal::digits;

verus! {

/// One of the five texts of a request.
#[derive(Clone, Copy, Debug, PartialEq, Eq, Structural)]
pub enum Field {
    Node,
    RecentNodes,
    ImportantNodes,
    AdjacentSegments,
    GridSteps,
}

/// A numeric parameter of an evaluation.
#[derive(Clone, Copy, Debug, PartialEq, Eq, Structural)]
pub enum Parameter {
    MinSegmentCoverage,
    GridSteps,
}

/// Why a request was refused.
#[derive(Clone, Copy, Debug, PartialEq, Eq, Structural)]
pub enum ImportanceError {
    /// A node does not have one coordinate per grid step; `expected` is the number of
    /// grid steps.
    DimensionMismatch { expected: usize },
    /// A parameter is outside its range.
    InvalidParameter(Parameter),
    /// A text of the request is not valid JSON.
    MalformedInput(Field),
}

impl Field {
    /// The name of the field as it is shown to people.
    pub open spec fn label(self) -> Seq<char> {
        match self {
            Field::Node => "node"@,
            Field::RecentNodes => "recent nodes"@,
            Field::ImportantNodes => "important nodes"@,
            Field::AdjacentSegments => "adjacent segments"@,
            Field::GridSteps => "grid steps"@,
        }
    }

    /// The name of the field as it is shown to people.
    pub fn name(&self) -> (text: &'static str)
        ensures
            text@ == self.label(),
    {
        match self {
            Field::Node => "node",
            Field::RecentNodes => "recent nodes",
            Field::ImportantNodes => "important nodes",
            Field::AdjacentSegments => "adjacent segments",
            Field::GridSteps => "grid steps",
        }
    }
}

impl ImportanceError {
    /// The text of the message that describes the error.
    pub open spec fn message_text(self) -> Seq<char> {
        match self {
            ImportanceError::DimensionMismatch { expected } => {
                "Node coordinates must match grid steps dimensions ("@ + digits(expected as nat)
                    + ")"@
            },
            ImportanceError::InvalidParameter(Parameter::MinSegmentCoverage) => {
                "Minimum segment coverage must lie between 0 and 1"@
            },
            ImportanceError::InvalidParameter(Parameter::GridSteps) => {
                "Grid steps must be positive"@
            },
            ImportanceError::MalformedInput(field) => "Error parsing "@ + field.label(),
        }
    }

    /// The message that describes the error.
    pub fn message(&self) -> (text: String)
        ensures
            text@ == self.message_text(),
    {
        match self {
            ImportanceError::DimensionMismatch { expected } => {
                let mut text = String::from_str("Node coordinates must match grid steps dimensions (");
                append_digits(&mut text, *expected as u64);
                text.append(")");
                text
            },
            ImportanceError::InvalidParameter(Parameter::MinSegmentCoverage) => {
                String::from_str("Minimum segment coverage must lie between 0 and 1")
            },
            ImportanceError::InvalidParameter(Parameter::GridSteps) => {
                String::from_str("Grid steps must be positive")
            },
            ImportanceError::MalformedInput(field) => {
                let mut text = String::from_str("Error parsing ");
                text.append(field.name());
                text
            },
        }
    }
}

} // verus!
