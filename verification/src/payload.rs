//! The JSON texts that go to and come from an evaluation service.

use vstd::prelude::*;
use vstd::string::*;
use crate::decimal::append_digits;
use crate::decimal::append_fraction;
use crate::decimal::append_millionths;
use crate::decimal::digits;
use crate::decimal::fraction_digits;
use crate::decimal::MILLION;
use crate::decimal::millionths_text;
use crate::error::ImportanceError;
use crate::evaluator::ImportanceResult;
use crate::validate::texts_verdict;
use crate::validate::validate_texts;

verus! {

/// The key that the remote service asks for.
pub const AUTHORIZATION_KEY: &'static str = "bellande_web_api_opensource";

/// The text of a request: a JSON object that holds the five texts under their names,
/// the minimum coverage as a decimal number, and the authorization.
pub open spec fn request_text(
    node: Seq<char>,
    recent_nodes: Seq<char>,
    important_nodes: Seq<char>,
    adjacent_segments: Seq<char>,
    grid_steps: Seq<char>,
    min_segment_coverage: int,
) -> Seq<char> {
    "{\"node\":"@ + node + ",\"nodes\":"@ + recent_nodes + ",\"important_nodes\":"@
        + important_nodes + ",\"adjacent_segments\":"@ + adjacent_segments + ",\"grid_steps\":"@
        + grid_steps + ",\"min_segment_coverage\":"@ + millionths_text(min_segment_coverage)
        + ",\"auth\":{\"authorization_key\":\""@ + AUTHORIZATION_KEY@ + "\"}}"@
}

/// Frames the request for the remote service, once each of the five texts has been
/// found to be JSON. `min_segment_coverage` counts millionths.
pub fn request_payload(
    node: &str,
    recent_nodes: &str,
    important_nodes: &str,
    adjacent_segments: &str,
    grid_steps: &str,
    min_segment_coverage: i64,
) -> (payload: Result<String, ImportanceError>)
    ensures
        match texts_verdict(
            node@,
            recent_nodes@,
            important_nodes@,
            adjacent_segments@,
            grid_steps@,
        ) {
            Err(error) => payload == Err::<String, ImportanceError>(error),
            Ok(_) => payload is Ok && payload->Ok_0@ == request_text(
                node@,
                recent_nodes@,
                important_nodes@,
                adjacent_segments@,
                grid_steps@,
                min_segment_coverage as int,
            ),
        },
{
    match validate_texts(node, recent_nodes, important_nodes, adjacent_segments, grid_steps) {
        Err(error) => Err(error),
        Ok(_) => {
            let mut text = String::from_str("{\"node\":");
            text.append(node);
            text.append(",\"nodes\":");
            text.append(recent_nodes);
            text.append(",\"important_nodes\":");
            text.append(important_nodes);
            text.append(",\"adjacent_segments\":");
            text.append(adjacent_segments);
            text.append(",\"grid_steps\":");
            text.append(grid_steps);
            text.append(",\"min_segment_coverage\":");
            append_millionths(&mut text, min_segment_coverage);
            text.append(",\"auth\":{\"authorization_key\":\"");
            text.append(AUTHORIZATION_KEY);
            text.append("\"}}");
            Ok(text)
        },
    }
}

/// The text of a response: a JSON object that holds the judgement, the score as a
/// decimal number, and the name of the reason.
pub open spec fn response_text(result: ImportanceResult) -> Seq<char> {
    "{\"important\":"@ + (if result.important {
        "true"@
    } else {
        "false"@
    }) + ",\"score\":"@ + millionths_text(result.score as int) + ",\"reason\":\""@
        + result.reason.label() + "\"}"@
}

/// Frames the response that reports a judgement.
pub fn response_payload(result: &ImportanceResult) -> (payload: String)
    ensures
        payload@ == response_text(*result),
{
    let mut text = String::from_str("{\"important\":");
    if result.important {
        text.append("true");
    } else {
        text.append("false");
    }
    text.append(",\"score\":");
    append_digits(&mut text, result.score / MILLION);
    text.append(".");
    append_fraction(&mut text, result.score % MILLION);
    text.append(",\"reason\":\"");
    text.append(result.reason.name());
    text.append("\"}");
    proof {
        reveal_strlit(".");
        assert(millionths_text(result.score as int) =~= digits((result.score / MILLION) as nat)
            + seq!['.'] + fraction_digits((result.score % MILLION) as nat));
    }
    assert(text@ =~= response_text(*result));
    text
}

} // verus!
