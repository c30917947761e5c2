use bellande_node_importance::decimal::{render, render_millionths};
use bellande_node_importance::error::{Field, ImportanceError, Parameter};
use bellande_node_importance::evaluator::{ImportanceResult, Reason};
use bellande_node_importance::executable::{
    executable_arguments, get_executable_path, ExecutablePath, PASSCODE,
};
use bellande_node_importance::payload::{request_payload, response_payload, AUTHORIZATION_KEY};
use bellande_node_importance::validate::{
    check_dimensions, text_is_json, validate_dimensions, validate_texts,
};

#[test]
fn render_writes_decimal_digits() {
    assert_eq!(render(0), "0");
    assert_eq!(render(7), "7");
    assert_eq!(render(10), "10");
    assert_eq!(render(1203), "1203");
    assert_eq!(render(u64::MAX), "18446744073709551615");
}

#[test]
fn render_millionths_writes_six_fraction_digits() {
    assert_eq!(render_millionths(500_000), "0.500000");
    assert_eq!(render_millionths(0), "0.000000");
    assert_eq!(render_millionths(1_000_000), "1.000000");
    assert_eq!(render_millionths(12_000_045), "12.000045");
    assert_eq!(render_millionths(-250_000), "-0.250000");
    assert_eq!(render_millionths(-1), "-0.000001");
    assert_eq!(render_millionths(i64::MAX), "9223372036854.775807");
    assert_eq!(render_millionths(i64::MIN), "-9223372036854.775808");
}

#[test]
fn messages_name_what_went_wrong() {
    assert_eq!(
        ImportanceError::DimensionMismatch { expected: 3 }.message(),
        "Node coordinates must match grid steps dimensions (3)"
    );
    assert_eq!(
        ImportanceError::DimensionMismatch { expected: 12 }.message(),
        "Node coordinates must match grid steps dimensions (12)"
    );
    assert_eq!(
        ImportanceError::InvalidParameter(Parameter::MinSegmentCoverage).message(),
        "Minimum segment coverage must lie between 0 and 1"
    );
    assert_eq!(
        ImportanceError::InvalidParameter(Parameter::GridSteps).message(),
        "Grid steps must be positive"
    );
    assert_eq!(ImportanceError::MalformedInput(Field::Node).message(), "Error parsing node");
    assert_eq!(
        ImportanceError::MalformedInput(Field::RecentNodes).message(),
        "Error parsing recent nodes"
    );
    assert_eq!(
        ImportanceError::MalformedInput(Field::ImportantNodes).message(),
        "Error parsing important nodes"
    );
    assert_eq!(
        ImportanceError::MalformedInput(Field::AdjacentSegments).message(),
        "Error parsing adjacent segments"
    );
    assert_eq!(
        ImportanceError::MalformedInput(Field::GridSteps).message(),
        "Error parsing grid steps"
    );
    assert_eq!(Field::GridSteps.name(), "grid steps");
}

#[test]
fn json_texts_are_told_from_others() {
    assert!(text_is_json("{\"coords\": [0.4, 0.4], \"segment\": \"A\"}"));
    assert!(text_is_json("[]"));
    assert!(text_is_json(" 0.5 "));
    assert!(text_is_json("null"));
    assert!(!text_is_json(""));
    assert!(!text_is_json("{"));
    assert!(!text_is_json("[1, 2,]"));
    assert!(!text_is_json("[1] [2]"));
    assert!(!text_is_json("{coords: 1}"));
}

#[test]
fn first_malformed_text_is_reported() {
    assert_eq!(validate_texts("{}", "[]", "{}", "{}", "[]"), Ok(()));
    assert_eq!(
        validate_texts("{", "[", "{", "{", "["),
        Err(ImportanceError::MalformedInput(Field::Node))
    );
    assert_eq!(
        validate_texts("{}", "[", "{", "{", "["),
        Err(ImportanceError::MalformedInput(Field::RecentNodes))
    );
    assert_eq!(
        validate_texts("{}", "[]", "{", "{", "["),
        Err(ImportanceError::MalformedInput(Field::ImportantNodes))
    );
    assert_eq!(
        validate_texts("{}", "[]", "{}", "{", "["),
        Err(ImportanceError::MalformedInput(Field::AdjacentSegments))
    );
    assert_eq!(
        validate_texts("{}", "[]", "{}", "{}", "["),
        Err(ImportanceError::MalformedInput(Field::GridSteps))
    );
}

#[test]
fn counts_are_compared_where_both_are_known() {
    assert_eq!(check_dimensions(Some(2), Some(2)), Ok(()));
    assert_eq!(check_dimensions(Some(2), Some(3)), Err(ImportanceError::DimensionMismatch { expected: 3 }));
    assert_eq!(check_dimensions(Some(0), Some(1)), Err(ImportanceError::DimensionMismatch { expected: 1 }));
    assert_eq!(check_dimensions(None, Some(3)), Ok(()));
    assert_eq!(check_dimensions(Some(2), None), Ok(()));
    assert_eq!(check_dimensions(None, None), Ok(()));
}

#[test]
fn coordinates_are_counted_against_grid_steps() {
    let node = "{\"coords\": [0.4, 0.4], \"segment\": \"A\"}";
    assert_eq!(validate_dimensions(node, "[1.0, 1.0]"), Ok(()));
    assert_eq!(
        validate_dimensions(node, "[1.0, 1.0, 1.0]"),
        Err(ImportanceError::DimensionMismatch { expected: 3 })
    );
    assert_eq!(
        validate_dimensions(node, "[]"),
        Err(ImportanceError::DimensionMismatch { expected: 0 })
    );
    assert_eq!(
        validate_dimensions("{\"coords\": [], \"segment\": 4}", "[1.0]"),
        Err(ImportanceError::DimensionMismatch { expected: 1 })
    );
}

#[test]
fn dimensions_are_not_compared_where_a_count_is_missing() {
    assert_eq!(validate_dimensions("{\"segment\": \"A\"}", "[1.0]"), Ok(()));
    assert_eq!(validate_dimensions("{\"coords\": 3}", "[1.0]"), Ok(()));
    assert_eq!(validate_dimensions("{\"position\": [1, 2, 3]}", "[1.0]"), Ok(()));
    assert_eq!(validate_dimensions("[1, 2, 3]", "[1.0]"), Ok(()));
    assert_eq!(validate_dimensions("{\"coords\": [1, 2]}", "{\"x\": 1.0}"), Ok(()));
    assert_eq!(validate_dimensions("{\"coords\": [1, 2]}", "7"), Ok(()));
}

#[test]
fn malformed_node_or_grid_steps_stop_the_dimension_check() {
    assert_eq!(
        validate_dimensions("{\"coords\": [1, 2]", "[1.0]"),
        Err(ImportanceError::MalformedInput(Field::Node))
    );
    assert_eq!(
        validate_dimensions("{\"coords\": [1, 2]}", "[1.0"),
        Err(ImportanceError::MalformedInput(Field::GridSteps))
    );
    assert_eq!(
        validate_dimensions("", ""),
        Err(ImportanceError::MalformedInput(Field::Node))
    );
}

#[test]
fn executable_is_found_beside_the_manifest() {
    assert_eq!(
        get_executable_path("/opt/tool", false),
        ExecutablePath {
            directory: "/opt/tool".to_string(),
            file_name: "Bellande_Node_Importance".to_string()
        }
    );
    assert_eq!(
        get_executable_path("C:\\tool", true),
        ExecutablePath {
            directory: "C:\\tool".to_string(),
            file_name: "Bellande_Node_Importance.exe".to_string()
        }
    );
    assert_eq!(get_executable_path("", false).directory, "");
}

#[test]
fn executable_arguments_start_with_the_passcode() {
    let node = "{\"coords\": [0.4, 0.4], \"segment\": \"A\"}";
    let arguments =
        executable_arguments(node, "[]", "{}", "{\"A\": []}", "[1.0, 1.0]", 500_000).unwrap();
    assert_eq!(
        arguments,
        vec![
            PASSCODE.to_string(),
            node.to_string(),
            "[]".to_string(),
            "{}".to_string(),
            "{\"A\": []}".to_string(),
            "[1.0, 1.0]".to_string(),
            "0.500000".to_string(),
        ]
    );
    assert_eq!(arguments[0], "bellande_node_importance_executable_access_key");
}

#[test]
fn executable_arguments_need_matching_dimensions() {
    let node = "{\"coords\": [0.4, 0.4], \"segment\": \"A\"}";
    assert_eq!(
        executable_arguments(node, "[]", "{}", "{}", "[1.0]", 500_000),
        Err(ImportanceError::DimensionMismatch { expected: 1 })
    );
    assert_eq!(
        executable_arguments("{", "[]", "{}", "{}", "[1.0]", 500_000),
        Err(ImportanceError::MalformedInput(Field::Node))
    );
    assert_eq!(
        executable_arguments(node, "[]", "{}", "{}", "]", 500_000),
        Err(ImportanceError::MalformedInput(Field::GridSteps))
    );
    // The other texts are handed on as they are.
    assert!(executable_arguments(node, "[", "{", "{", "[1, 1]", 500_000).is_ok());
}

#[test]
fn request_payload_frames_the_texts() {
    let node = "{\"coords\": [0.4, 0.4], \"segment\": \"A\"}";
    let payload = request_payload(node, "[]", "{}", "{\"A\": [\"B\"]}", "[1.0, 1.0]", 500_000).unwrap();
    assert_eq!(
        payload,
        "{\"node\":{\"coords\": [0.4, 0.4], \"segment\": \"A\"},\"nodes\":[],\
         \"important_nodes\":{},\"adjacent_segments\":{\"A\": [\"B\"]},\
         \"grid_steps\":[1.0, 1.0],\"min_segment_coverage\":0.500000,\
         \"auth\":{\"authorization_key\":\"bellande_web_api_opensource\"}}"
    );
    let value: serde_json::Value = serde_json::from_str(&payload).unwrap();
    assert_eq!(value["node"]["segment"].as_str(), Some("A"));
    assert_eq!(value["node"]["coords"].as_array().map(|a| a.len()), Some(2));
    assert_eq!(value["nodes"].as_array().map(|a| a.len()), Some(0));
    assert!(value["important_nodes"].is_object());
    assert_eq!(value["adjacent_segments"]["A"][0].as_str(), Some("B"));
    assert_eq!(value["grid_steps"][1].as_f64(), Some(1.0));
    assert_eq!(value["min_segment_coverage"].as_f64(), Some(0.5));
    assert_eq!(value["auth"]["authorization_key"].as_str(), Some(AUTHORIZATION_KEY));
}

#[test]
fn request_payload_needs_json_texts() {
    assert_eq!(
        request_payload("{}", "[]", "{}", "{]", "[]", 500_000),
        Err(ImportanceError::MalformedInput(Field::AdjacentSegments))
    );
    assert_eq!(
        request_payload("nope", "[]", "{}", "{}", "[]", 500_000),
        Err(ImportanceError::MalformedInput(Field::Node))
    );
}

#[test]
fn response_payload_frames_the_judgement() {
    let novel = ImportanceResult { important: true, score: 1_000_000, reason: Reason::NovelCell };
    assert_eq!(
        response_payload(&novel),
        "{\"important\":true,\"score\":1.000000,\"reason\":\"NovelCell\"}"
    );
    let redundant = ImportanceResult { important: false, score: 0, reason: Reason::Redundant };
    assert_eq!(
        response_payload(&redundant),
        "{\"important\":false,\"score\":0.000000,\"reason\":\"Redundant\"}"
    );
    let stale = ImportanceResult { important: true, score: 166_667, reason: Reason::ReplacesStale };
    let value: serde_json::Value = serde_json::from_str(&response_payload(&stale)).unwrap();
    assert_eq!(value["important"].as_bool(), Some(true));
    assert_eq!(value["score"].as_f64(), Some(0.166667));
    assert_eq!(value["reason"].as_str(), Some("ReplacesStale"));
}
