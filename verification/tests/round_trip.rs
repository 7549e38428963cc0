//! Serialization tests: exact wire text, the round trip, and string
//! escape handling in both directions.

use zen404::parse_transcript_from_str;
use zen404::print::transcript_to_json_string;
use zen404::{Event, Pen, Seg, Transcript, WpWinPosition, WsWinStyle};

fn sample_transcript() -> Transcript {
    Transcript {
        wire_magic: String::from("pb3"),
        pens: vec![Pen {}],
        ws_win_styles: vec![WsWinStyle {
            mh_mode_hint: Some(2),
            ju_justif_code: None,
            sd_scroll_dir: Some(-1),
        }],
        wp_win_positions: vec![WpWinPosition {
            ap_point: Some(6),
            ah_hor_pos: Some(20),
            av_ver_pos: Some(100),
            rc_rows: None,
            cc_cols: None,
        }],
        events: vec![
            Event {
                t_start_ms: 0,
                d_duration_ms: 100,
                id: Some(1),
                wp_win_pos_id: Some(0),
                ws_win_style_id: Some(0),
                w_win_id: None,
                segs: Some(vec![
                    Seg { utf8: String::from("hello"), ac_asr_conf: Some(95), t_offset_ms: None },
                    Seg { utf8: String::from(" world"), ac_asr_conf: None, t_offset_ms: Some(40) },
                ]),
                a_append: None,
            },
            Event {
                t_start_ms: 100,
                d_duration_ms: 50,
                id: None,
                wp_win_pos_id: None,
                ws_win_style_id: None,
                w_win_id: Some(3),
                segs: None,
                a_append: Some(1),
            },
        ],
    }
}

#[test]
fn serialize_writes_exact_wire_text() {
    let t = Transcript {
        wire_magic: String::from("pb3"),
        pens: vec![],
        ws_win_styles: vec![],
        wp_win_positions: vec![],
        events: vec![Event {
            t_start_ms: 0,
            d_duration_ms: 100,
            id: None,
            wp_win_pos_id: None,
            ws_win_style_id: None,
            w_win_id: None,
            segs: Some(vec![Seg {
                utf8: String::from("hello"),
                ac_asr_conf: None,
                t_offset_ms: None,
            }]),
            a_append: None,
        }],
    };
    let s = transcript_to_json_string(&t);
    let expected = r#"{"wireMagic":"pb3","pens":[],"wsWinStyles":[],"wpWinPositions":[],"events":[{"tStartMs":0,"dDurationMs":100,"id":null,"wpWinPosId":null,"wsWinStyleId":null,"wWinId":null,"segs":[{"utf8":"hello","acAsrConf":null,"tOffsetMs":null}],"aAppend":null}]}"#;
    assert_eq!(s, expected);
}

#[test]
fn round_trip_preserves_the_transcript() {
    let t = sample_transcript();
    let s1 = transcript_to_json_string(&t);
    let back = parse_transcript_from_str(&s1).expect("own wire text must decode");
    // Serialization of the re-decoded value reproduces the text exactly:
    // serialize-then-decode is the identity on decoded transcripts.
    let s2 = transcript_to_json_string(&back);
    assert_eq!(s1, s2);
    // And the decoded value matches the starting one, field by field.
    assert_eq!(back.wire_magic, t.wire_magic);
    assert_eq!(back.pens.len(), t.pens.len());
    assert_eq!(back.ws_win_styles.len(), 1);
    assert_eq!(back.ws_win_styles[0].mh_mode_hint, Some(2));
    assert_eq!(back.ws_win_styles[0].ju_justif_code, None);
    assert_eq!(back.ws_win_styles[0].sd_scroll_dir, Some(-1));
    assert_eq!(back.wp_win_positions[0].ah_hor_pos, Some(20));
    assert_eq!(back.events.len(), 2);
    assert_eq!(back.events[0].t_start_ms, 0);
    assert_eq!(back.events[0].id, Some(1));
    let segs = back.events[0].segs.as_ref().unwrap();
    assert_eq!(segs.len(), 2);
    assert_eq!(segs[0].utf8, "hello");
    assert_eq!(segs[0].ac_asr_conf, Some(95));
    assert_eq!(segs[1].utf8, " world");
    assert_eq!(segs[1].t_offset_ms, Some(40));
    assert_eq!(back.events[1].w_win_id, Some(3));
    assert_eq!(back.events[1].a_append, Some(1));
    assert!(back.events[1].segs.is_none(), "an absent segs must stay absent across a round trip");
}

#[test]
fn round_trip_after_decoding_wire_input() {
    let input = r#" {"wireMagic" : "pb3", "pens": [{}, {}], "wsWinStyles": [{}],
        "wpWinPositions": [{"apPoint": 6}],
        "events": [ {"tStartMs": 7, "dDurationMs": 8, "segs": [{"utf8": "a"}, {"utf8": "b", "tOffsetMs": 3}]} ]} "#;
    let t1 = parse_transcript_from_str(input).unwrap();
    let s1 = transcript_to_json_string(&t1);
    let t2 = parse_transcript_from_str(&s1).unwrap();
    let s2 = transcript_to_json_string(&t2);
    assert_eq!(s1, s2);
    assert_eq!(t2.pens.len(), 2);
    assert_eq!(t2.wp_win_positions[0].ap_point, Some(6));
    assert_eq!(t2.events[0].segs.as_ref().unwrap().len(), 2);
}

#[test]
fn string_escapes_decode_and_reencode() {
    let input = r#"{"wireMagic":"pb3","pens":[],"wsWinStyles":[],"wpWinPositions":[],"events":[{"tStartMs":0,"dDurationMs":1,"segs":[{"utf8":"a\"b\\c\/d\n\t\r\b\fAé"}]}]}"#;
    let t = parse_transcript_from_str(input).unwrap();
    let got = &t.events[0].segs.as_ref().unwrap()[0].utf8;
    assert_eq!(got, "a\"b\\c/d\n\t\r\u{8}\u{c}A\u{e9}");
    // Re-encoding writes the short escapes and keeps other characters plain.
    let s = transcript_to_json_string(&t);
    assert!(s.contains(r#""utf8":"a\"b\\c/d\n\t\r\b\f"#));
    let t2 = parse_transcript_from_str(&s).unwrap();
    assert_eq!(&t2.events[0].segs.as_ref().unwrap()[0].utf8, got);
}

#[test]
fn surrogate_pair_escapes_decode_to_one_character() {
    let input = r#"{"wireMagic":"pb3","pens":[],"wsWinStyles":[],"wpWinPositions":[],"events":[{"tStartMs":0,"dDurationMs":1,"segs":[{"utf8":"😀"}]}]}"#;
    let t = parse_transcript_from_str(input).unwrap();
    assert_eq!(&t.events[0].segs.as_ref().unwrap()[0].utf8, "\u{1F600}");
}

#[test]
fn lone_surrogate_escape_is_syntax_error() {
    let input = r#"{"wireMagic":"pb3","pens":[],"wsWinStyles":[],"wpWinPositions":[],"events":[{"tStartMs":0,"dDurationMs":1,"segs":[{"utf8":"\uD83D"}]}]}"#;
    match parse_transcript_from_str(input) {
        Err(zen404::ParseError::Json(e)) => assert!(e.is_eof() || e.is_syntax()),
        _ => panic!("a lone high surrogate escape must fail"),
    }
}

#[test]
fn control_characters_reencode_as_escapes() {
    let t = Transcript {
        wire_magic: String::from("pb3"),
        pens: vec![],
        ws_win_styles: vec![],
        wp_win_positions: vec![],
        events: vec![Event {
            t_start_ms: -5,
            d_duration_ms: 0,
            id: None,
            wp_win_pos_id: None,
            ws_win_style_id: None,
            w_win_id: None,
            segs: Some(vec![Seg {
                utf8: String::from("\u{1}x\u{1f}"),
                ac_asr_conf: None,
                t_offset_ms: None,
            }]),
            a_append: None,
        }],
    };
    let s = transcript_to_json_string(&t);
    assert!(s.contains(r#""utf8":"\u0001x\u001f""#));
    assert!(s.contains(r#""tStartMs":-5"#));
    let back = parse_transcript_from_str(&s).unwrap();
    assert_eq!(&back.events[0].segs.as_ref().unwrap()[0].utf8, "\u{1}x\u{1f}");
    assert_eq!(back.events[0].t_start_ms, -5);
}

#[test]
fn extreme_integers_survive_the_round_trip() {
    let t = Transcript {
        wire_magic: String::from("pb3"),
        pens: vec![],
        ws_win_styles: vec![],
        wp_win_positions: vec![],
        events: vec![Event {
            t_start_ms: i64::MIN,
            d_duration_ms: i64::MAX,
            id: Some(0),
            wp_win_pos_id: None,
            ws_win_style_id: None,
            w_win_id: None,
            segs: None,
            a_append: None,
        }],
    };
    let s = transcript_to_json_string(&t);
    assert!(s.contains(r#""tStartMs":-9223372036854775808"#));
    assert!(s.contains(r#""dDurationMs":9223372036854775807"#));
    let back = parse_transcript_from_str(&s).unwrap();
    assert_eq!(back.events[0].t_start_ms, i64::MIN);
    assert_eq!(back.events[0].d_duration_ms, i64::MAX);
    assert_eq!(back.events[0].id, Some(0));
}
