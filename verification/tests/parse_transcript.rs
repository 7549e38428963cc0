//! Decoder tests: the error taxonomy and the structural rules.

use zen404::{parse_transcript_from_str, ParseError};

#[test]
fn parse_empty_json_input_string() {
    let result = parse_transcript_from_str("");
    assert!(result.is_err(), "Parsing an empty string should result in an error.");
    if let Err(e) = result {
        println!("Correctly failed to parse empty string: {:?}", e);
        match e {
            ParseError::Json(json_err) => {
                assert!(json_err.is_eof(), "Error for empty string should be EOF")
            }
            _ => panic!("Unexpected error type for empty string parsing"),
        }
    }
}

#[test]
fn parse_malformed_json_string() {
    let malformed_json = r#"{"wireMagic": "pb3", "events": [ { "tStartMs": 0, "dDurationMs": 100, "segs": [{"utf8": "test"}]  }"#; // Missing closing bracket and brace
    let result = parse_transcript_from_str(malformed_json);
    assert!(result.is_err(), "Parsing malformed JSON should result in an error.");
    if let Err(e) = result {
        println!("Correctly failed to parse malformed JSON: {:?}", e);
        match e {
            ParseError::Json(json_err) => assert!(
                json_err.is_eof() || json_err.is_syntax(),
                "Error for malformed JSON should be EOF or Syntax"
            ),
            _ => panic!("Unexpected error type for malformed JSON parsing"),
        }
    }
}

#[test]
fn parse_json_with_unexpected_fields_at_root() {
    // Unknown fields are ignored. This test confirms that behavior.
    let json_with_extra_field = r#"{
        "wireMagic": "pb3",
        "pens": [],
        "wsWinStyles": [],
        "wpWinPositions": [],
        "events": [{ "tStartMs": 0, "dDurationMs": 100, "segs": [{"utf8": "test"}] }],
        "unexpectedField": "some_value"
    }"#;
    let result = parse_transcript_from_str(json_with_extra_field);
    assert!(
        result.is_ok(),
        "Parsing JSON with an extra (unexpected) field should still succeed. Error: {:?}",
        result.err()
    );
    if let Ok(transcript) = result {
        assert_eq!(transcript.wire_magic, "pb3");
        assert_eq!(transcript.events.len(), 1);
    }
}

#[test]
fn parse_json_with_missing_required_field_wire_magic() {
    // `wireMagic` is a required field.
    let json_missing_field = r#"{
        "pens": [],
        "wsWinStyles": [],
        "wpWinPositions": [],
        "events": [{ "tStartMs": 0, "dDurationMs": 100, "segs": [{"utf8": "test"}] }]
    }"#;
    let result = parse_transcript_from_str(json_missing_field);
    assert!(result.is_err(), "Parsing JSON missing a required field (wireMagic) should fail.");
    if let Err(e) = result {
        println!("Correctly failed to parse JSON with missing wireMagic: {:?}", e);
        match e {
            ParseError::Json(json_err) => {
                assert!(json_err.is_data(), "Error for missing field should be a data error")
            }
            _ => panic!("Unexpected error type for missing field parsing"),
        }
    }
}

#[test]
fn parse_json_with_incorrect_type_for_field() {
    let json_wrong_type = r#"{
        "wireMagic": "pb3",
        "pens": [],
        "wsWinStyles": [],
        "wpWinPositions": [],
        "events": [{ "tStartMs": "not_a_number", "dDurationMs": 100, "segs": [{"utf8": "test"}] }]
    }"#;
    let result = parse_transcript_from_str(json_wrong_type);
    assert!(result.is_err(), "Parsing JSON with incorrect type for tStartMs should fail.");
    if let Err(e) = result {
        println!("Correctly failed to parse JSON with incorrect type: {:?}", e);
        match e {
            ParseError::Json(json_err) => {
                assert!(json_err.is_data(), "Error for type mismatch should be a data error")
            }
            _ => panic!("Unexpected error type for type mismatch parsing"),
        }
    }
}

#[test]
fn parse_concrete_scenario() {
    let input = r#"{"wireMagic":"pb3","pens":[],"wsWinStyles":[],"wpWinPositions":[],"events":[{"tStartMs":0,"dDurationMs":100,"segs":[{"utf8":"hello"}]}]}"#;
    let t = parse_transcript_from_str(input).expect("the concrete scenario must decode");
    assert_eq!(t.wire_magic, "pb3");
    assert_eq!(t.pens.len(), 0);
    assert_eq!(t.ws_win_styles.len(), 0);
    assert_eq!(t.wp_win_positions.len(), 0);
    assert_eq!(t.events.len(), 1);
    let ev = &t.events[0];
    assert_eq!(ev.t_start_ms, 0);
    assert_eq!(ev.d_duration_ms, 100);
    assert_eq!(ev.id, None);
    assert_eq!(ev.a_append, None);
    let segs = ev.segs.as_ref().expect("segs must be present");
    assert_eq!(segs.len(), 1);
    assert_eq!(segs[0].utf8, "hello");
    assert_eq!(segs[0].ac_asr_conf, None);
    assert_eq!(segs[0].t_offset_ms, None);
}

#[test]
fn parse_whitespace_only_is_eof() {
    let result = parse_transcript_from_str("  \t\n\r  ");
    match result {
        Err(ParseError::Json(e)) => assert!(e.is_eof()),
        _ => panic!("whitespace-only input must fail as EOF"),
    }
}

#[test]
fn parse_unclosed_object_is_eof_or_syntax() {
    let result = parse_transcript_from_str(r#"{"wireMagic":"pb3""#);
    match result {
        Err(ParseError::Json(e)) => assert!(e.is_eof() || e.is_syntax()),
        _ => panic!("an unclosed object must fail"),
    }
}

#[test]
fn parse_trailing_garbage_is_syntax() {
    let result = parse_transcript_from_str(
        r#"{"wireMagic":"pb3","pens":[],"wsWinStyles":[],"wpWinPositions":[],"events":[]} x"#,
    );
    match result {
        Err(ParseError::Json(e)) => assert!(e.is_syntax()),
        _ => panic!("trailing characters must fail as a syntax error"),
    }
}

#[test]
fn parse_duplicate_known_key_is_data_error() {
    let result = parse_transcript_from_str(
        r#"{"wireMagic":"pb3","wireMagic":"pb3","pens":[],"wsWinStyles":[],"wpWinPositions":[],"events":[]}"#,
    );
    match result {
        Err(ParseError::Json(e)) => assert!(e.is_data()),
        _ => panic!("a duplicated known key must fail as a data error"),
    }
}

#[test]
fn parse_null_optionals_mean_unset() {
    let input = r#"{"wireMagic":"pb3","pens":[],"wsWinStyles":[],"wpWinPositions":[],
        "events":[{"tStartMs":1,"dDurationMs":2,"id":null,"segs":null}]}"#;
    let t = parse_transcript_from_str(input).expect("null optionals must decode");
    let ev = &t.events[0];
    assert_eq!(ev.id, None);
    assert!(ev.segs.is_none(), "a null segs means no segment list at all");
}

#[test]
fn parse_segs_empty_is_distinct_from_absent() {
    let with_empty = r#"{"wireMagic":"pb3","pens":[],"wsWinStyles":[],"wpWinPositions":[],
        "events":[{"tStartMs":1,"dDurationMs":2,"segs":[]}]}"#;
    let t1 = parse_transcript_from_str(with_empty).unwrap();
    assert_eq!(t1.events[0].segs.as_ref().map(|s| s.len()), Some(0));

    let without = r#"{"wireMagic":"pb3","pens":[],"wsWinStyles":[],"wpWinPositions":[],
        "events":[{"tStartMs":1,"dDurationMs":2}]}"#;
    let t2 = parse_transcript_from_str(without).unwrap();
    assert!(t2.events[0].segs.is_none());
}

#[test]
fn parse_wrong_type_for_optional_is_data_error() {
    let result = parse_transcript_from_str(
        r#"{"wireMagic":"pb3","pens":[],"wsWinStyles":[],"wpWinPositions":[],
        "events":[{"tStartMs":1,"dDurationMs":2,"id":"seven"}]}"#,
    );
    match result {
        Err(ParseError::Json(e)) => assert!(e.is_data()),
        _ => panic!("a string in an optional integer field must fail as a data error"),
    }
}

#[test]
fn parse_float_in_required_int_is_data_error() {
    let result = parse_transcript_from_str(
        r#"{"wireMagic":"pb3","pens":[],"wsWinStyles":[],"wpWinPositions":[],
        "events":[{"tStartMs":1.5,"dDurationMs":2}]}"#,
    );
    match result {
        Err(ParseError::Json(e)) => assert!(e.is_data()),
        _ => panic!("a fractional number where an integer is required must fail as a data error"),
    }
}

#[test]
fn parse_float_in_unknown_field_is_ignored() {
    let input = r#"{"wireMagic":"pb3","pens":[],"wsWinStyles":[],"wpWinPositions":[],
        "events":[],"confidenceAvg":0.875}"#;
    let t = parse_transcript_from_str(input).expect("a float in an ignored field must not fail");
    assert_eq!(t.wire_magic, "pb3");
}

#[test]
fn parse_extreme_integers() {
    let input = r#"{"wireMagic":"pb3","pens":[],"wsWinStyles":[],"wpWinPositions":[],
        "events":[{"tStartMs":9223372036854775807,"dDurationMs":-9223372036854775808}]}"#;
    let t = parse_transcript_from_str(input).unwrap();
    assert_eq!(t.events[0].t_start_ms, i64::MAX);
    assert_eq!(t.events[0].d_duration_ms, i64::MIN);

    let too_big = r#"{"wireMagic":"pb3","pens":[],"wsWinStyles":[],"wpWinPositions":[],
        "events":[{"tStartMs":9223372036854775808,"dDurationMs":0}]}"#;
    match parse_transcript_from_str(too_big) {
        Err(ParseError::Json(e)) => assert!(e.is_data()),
        _ => panic!("an integer beyond i64 must fail as a data error where an i64 is required"),
    }
}

#[test]
fn parse_rejects_too_deep_nesting() {
    let mut input = String::from(
        r#"{"wireMagic":"pb3","pens":[],"wsWinStyles":[],"wpWinPositions":[],"events":[],"x":"#,
    );
    for _ in 0..200 {
        input.push('[');
    }
    for _ in 0..200 {
        input.push(']');
    }
    input.push('}');
    match parse_transcript_from_str(&input) {
        Err(ParseError::Json(e)) => assert!(e.is_syntax()),
        _ => panic!("nesting beyond the depth bound must fail as a syntax error"),
    }
}

#[test]
fn parse_error_kinds_are_distinguishable() {
    let io = ParseError::Io { path: String::from("captions.json3"), cause: String::from("gone") };
    assert!(io.is_io());
    assert!(!io.is_json());
    match parse_transcript_from_str("") {
        Err(e) => {
            assert!(e.is_json());
            assert!(!e.is_io());
        }
        Ok(_) => panic!("empty input must not decode"),
    }
}

#[test]
fn parse_tolerates_whitespace_everywhere() {
    let spaced = " {\n  \"wireMagic\" : \"pb3\" ,\n  \"pens\" : [ ] ,\n  \"wsWinStyles\" : [ ] ,\n  \"wpWinPositions\" : [ ] ,\n  \"events\" : [ { \"tStartMs\" : 3 , \"dDurationMs\" : 4 } ]\n}\r\n"; 
    let t = parse_transcript_from_str(spaced).expect("whitespace around tokens must be fine");
    assert_eq!(t.wire_magic, "pb3");
    assert_eq!(t.events[0].t_start_ms, 3);
    assert_eq!(t.events[0].d_duration_ms, 4);
}

#[test]
fn parse_non_object_collection_element_is_data_error() {
    let result = parse_transcript_from_str(
        r#"{"wireMagic":"pb3","pens":[5],"wsWinStyles":[],"wpWinPositions":[],"events":[]}"#,
    );
    match result {
        Err(ParseError::Json(e)) => assert!(e.is_data()),
        _ => panic!("a non-object pen must fail as a data error"),
    }
}

#[test]
fn parse_wrong_type_for_wire_magic_is_data_error() {
    let result = parse_transcript_from_str(
        r#"{"wireMagic":3,"pens":[],"wsWinStyles":[],"wpWinPositions":[],"events":[]}"#,
    );
    match result {
        Err(ParseError::Json(e)) => assert!(e.is_data()),
        _ => panic!("a numeric wireMagic must fail as a data error"),
    }
}

#[test]
fn parse_missing_collection_is_data_error() {
    let result = parse_transcript_from_str(
        r#"{"wireMagic":"pb3","pens":[],"wsWinStyles":[],"events":[]}"#,
    );
    match result {
        Err(ParseError::Json(e)) => assert!(e.is_data()),
        _ => panic!("a missing wpWinPositions must fail as a data error"),
    }
}

#[test]
fn parse_null_for_collection_is_data_error() {
    let result = parse_transcript_from_str(
        r#"{"wireMagic":"pb3","pens":null,"wsWinStyles":[],"wpWinPositions":[],"events":[]}"#,
    );
    match result {
        Err(ParseError::Json(e)) => assert!(e.is_data()),
        _ => panic!("a null collection must fail as a data error"),
    }
}

#[test]
fn parse_unknown_keys_in_nested_records_are_ignored() {
    let input = r#"{"wireMagic":"pb3","pens":[{"pParentId":0}],"wsWinStyles":[{"mhModeHint":2,"newStyleBit":true}],
        "wpWinPositions":[],"events":[{"tStartMs":0,"dDurationMs":1,"futureFlag":"x",
        "segs":[{"utf8":"a","newSegField":[1,2]}]}]}"#;
    let t = parse_transcript_from_str(input).expect("unknown nested keys must be ignored");
    assert_eq!(t.pens.len(), 1);
    assert_eq!(t.ws_win_styles[0].mh_mode_hint, Some(2));
    assert_eq!(t.events[0].segs.as_ref().unwrap()[0].utf8, "a");
}
