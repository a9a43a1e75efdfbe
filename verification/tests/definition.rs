use pathfinder::definition::{
    definition_params, execute_on_replies, normalize_targets, DefinitionTool, NormalizeError,
    TextRange, MAX_RETRIES, RETRY_DELAY_MS,
};
use pathfinder::json::JsonValue;

fn obj(fields: Vec<(&str, JsonValue)>) -> JsonValue {
    JsonValue::Object(fields.into_iter().map(|(k, v)| (k.to_string(), v)).collect())
}

fn range_value() -> JsonValue {
    obj(vec![
        (
            "start",
            obj(vec![("line", JsonValue::Int(1)), ("character", JsonValue::Int(0))]),
        ),
        (
            "end",
            obj(vec![("line", JsonValue::Int(1)), ("character", JsonValue::Int(3))]),
        ),
    ])
}

fn location() -> JsonValue {
    obj(vec![
        ("uri", JsonValue::Str("file:///a.rs".to_string())),
        ("range", range_value()),
    ])
}

fn location_link() -> JsonValue {
    obj(vec![
        ("targetUri", JsonValue::Str("file:///a.rs".to_string())),
        ("targetRange", range_value()),
    ])
}

fn expected_range() -> TextRange {
    TextRange { start_line: 1, start_character: 0, end_line: 1, end_character: 3 }
}

#[test]
fn null_normalizes_to_empty() {
    let ts = normalize_targets(&JsonValue::Null).unwrap();
    assert!(ts.is_empty());
}

#[test]
fn single_location_list_and_link_agree() {
    let a = normalize_targets(&location()).unwrap();
    let b = normalize_targets(&JsonValue::Array(vec![location()])).unwrap();
    let c = normalize_targets(&location_link()).unwrap();
    for ts in [&a, &b, &c] {
        assert_eq!(ts.len(), 1);
        assert_eq!(ts[0].uri, "file:///a.rs");
        assert_eq!(ts[0].range, expected_range());
    }
}

#[test]
fn list_keeps_server_order() {
    let other = obj(vec![
        ("uri", JsonValue::Str("file:///b.rs".to_string())),
        ("range", range_value()),
    ]);
    let ts = normalize_targets(&JsonValue::Array(vec![location(), other])).unwrap();
    assert_eq!(ts.len(), 2);
    assert_eq!(ts[0].uri, "file:///a.rs");
    assert_eq!(ts[1].uri, "file:///b.rs");
}

#[test]
fn unexpected_formats_are_fatal() {
    assert_eq!(
        normalize_targets(&JsonValue::Bool(true)).unwrap_err(),
        NormalizeError::UnexpectedFormat
    );
    assert_eq!(
        normalize_targets(&JsonValue::Array(vec![JsonValue::Bool(true)])).unwrap_err(),
        NormalizeError::EntryNotObject
    );
    assert_eq!(
        normalize_targets(&obj(vec![])).unwrap_err(),
        NormalizeError::MissingTargetFields
    );
}

#[test]
fn bad_uri_or_range_is_fatal() {
    let bad_uri = obj(vec![("uri", JsonValue::Int(5)), ("range", range_value())]);
    assert_eq!(normalize_targets(&bad_uri).unwrap_err(), NormalizeError::UriNotString);

    let no_range = obj(vec![("uri", JsonValue::Str("file:///a.rs".to_string()))]);
    assert_eq!(normalize_targets(&no_range).unwrap_err(), NormalizeError::RangeMissing);

    let bad_range = obj(vec![
        ("uri", JsonValue::Str("file:///a.rs".to_string())),
        ("range", JsonValue::Int(4)),
    ]);
    assert_eq!(normalize_targets(&bad_range).unwrap_err(), NormalizeError::RangeNotObject);

    let no_start = obj(vec![
        ("uri", JsonValue::Str("file:///a.rs".to_string())),
        ("range", obj(vec![("end", obj(vec![]))])),
    ]);
    assert_eq!(normalize_targets(&no_start).unwrap_err(), NormalizeError::StartMissing);

    let no_end = obj(vec![
        ("uri", JsonValue::Str("file:///a.rs".to_string())),
        ("range", obj(vec![("start", obj(vec![]))])),
    ]);
    assert_eq!(normalize_targets(&no_end).unwrap_err(), NormalizeError::EndMissing);

    let bad_coord = obj(vec![
        ("uri", JsonValue::Str("file:///a.rs".to_string())),
        (
            "range",
            obj(vec![
                (
                    "start",
                    obj(vec![("line", JsonValue::Int(-1)), ("character", JsonValue::Int(0))]),
                ),
                (
                    "end",
                    obj(vec![("line", JsonValue::Int(1)), ("character", JsonValue::Int(3))]),
                ),
            ]),
        ),
    ]);
    assert_eq!(normalize_targets(&bad_coord).unwrap_err(), NormalizeError::CoordNotUnsigned);

    let float_coord = obj(vec![
        ("uri", JsonValue::Str("file:///a.rs".to_string())),
        (
            "range",
            obj(vec![
                (
                    "start",
                    obj(vec![("line", JsonValue::NonIntNum), ("character", JsonValue::Int(0))]),
                ),
                (
                    "end",
                    obj(vec![("line", JsonValue::Int(1)), ("character", JsonValue::Int(3))]),
                ),
            ]),
        ),
    ]);
    assert_eq!(normalize_targets(&float_coord).unwrap_err(), NormalizeError::CoordNotUnsigned);
}

#[test]
fn retry_returns_first_nonempty() {
    let replies = vec![JsonValue::Null, JsonValue::Null, JsonValue::Array(vec![location()])];
    let ts = execute_on_replies(replies).unwrap();
    assert_eq!(ts.len(), 1);
    assert_eq!(ts[0].uri, "file:///a.rs");
}

#[test]
fn nonempty_first_attempt_wins_immediately() {
    let replies = vec![location(), JsonValue::Null, JsonValue::Null];
    let ts = execute_on_replies(replies).unwrap();
    assert_eq!(ts.len(), 1);
}

#[test]
fn all_empty_is_a_valid_empty_result() {
    let replies = vec![JsonValue::Null, JsonValue::Null, JsonValue::Null];
    let ts = execute_on_replies(replies).unwrap();
    assert!(ts.is_empty());
}

#[test]
fn retry_aborts_on_malformed_reply() {
    let replies = vec![JsonValue::Null, JsonValue::Bool(false), location()];
    assert_eq!(
        execute_on_replies(replies).unwrap_err(),
        NormalizeError::UnexpectedFormat
    );
}

#[test]
fn retry_constants() {
    assert_eq!(MAX_RETRIES, 3);
    assert_eq!(RETRY_DELAY_MS, 150);
}

#[test]
fn query_params_shape() {
    let p = definition_params("file:///a.rs", 9, 4);
    match p {
        JsonValue::Object(f) => {
            assert_eq!(f[0].0, "textDocument");
            assert_eq!(f[1].0, "position");
            match &f[1].1 {
                JsonValue::Object(pos) => {
                    assert!(matches!(pos[0].1, JsonValue::Int(9)));
                    assert!(matches!(pos[1].1, JsonValue::Int(4)));
                }
                _ => panic!("position is an object"),
            }
        }
        _ => panic!("params are an object"),
    }
}

#[test]
fn coordinates_are_copied_exactly_up_to_their_range() {
    let at_limit = obj(vec![
        ("uri", JsonValue::Str("file:///a.rs".to_string())),
        (
            "range",
            obj(vec![
                (
                    "start",
                    obj(vec![
                        ("line", JsonValue::Int(u32::MAX as i128)),
                        ("character", JsonValue::Int(0)),
                    ]),
                ),
                (
                    "end",
                    obj(vec![("line", JsonValue::Int(1)), ("character", JsonValue::Int(3))]),
                ),
            ]),
        ),
    ]);
    let ts = normalize_targets(&at_limit).unwrap();
    assert_eq!(ts[0].range.start_line, u32::MAX);
}

#[test]
fn oversized_coordinates_are_rejected_not_truncated() {
    let big = obj(vec![
        ("uri", JsonValue::Str("file:///a.rs".to_string())),
        (
            "range",
            obj(vec![
                (
                    "start",
                    obj(vec![
                        ("line", JsonValue::Int(0x1_0000_0001)),
                        ("character", JsonValue::Int(0)),
                    ]),
                ),
                (
                    "end",
                    obj(vec![("line", JsonValue::Int(1)), ("character", JsonValue::Int(3))]),
                ),
            ]),
        ),
    ]);
    assert_eq!(normalize_targets(&big).unwrap_err(), NormalizeError::CoordNotUnsigned);
}

#[test]
fn tool_description_and_schema() {
    assert_eq!(
        DefinitionTool::description(),
        "Return LSP-backed jump-to-definition targets for a given URI and position"
    );
    match DefinitionTool::schema() {
        JsonValue::Object(f) => {
            assert_eq!(f[0].0, "type");
            assert!(matches!(&f[0].1, JsonValue::Str(s) if s == "object"));
            assert_eq!(f[1].0, "properties");
            assert_eq!(f[2].0, "required");
        }
        _ => panic!("the schema is an object"),
    }
    match DefinitionTool::descriptor() {
        JsonValue::Object(f) => {
            assert!(matches!(&f[0].1, JsonValue::Str(s) if s == "definition"));
        }
        _ => panic!("the descriptor is an object"),
    }
}
