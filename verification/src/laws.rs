//! The library's laws: proved statements that relate the decoders and
//! encoders to each other.
//!
//! The central one is the round trip: every transcript value decodes back,
//! unchanged, from its own encoding.  Beside it stand the field rules the
//! decoder enforces: a missing or mistyped required field fails the decode,
//! an unknown key never affects it, and an event's absent segment list stays
//! absent across a round trip.

use vstd::prelude::*;

use crate::decode::{
    key_a_append, key_ac_asr_conf, key_ah_hor_pos, key_ap_point, key_av_ver_pos, key_cc_cols,
    key_d_duration_ms, key_events, key_id, key_ju_justif_code, key_mh_mode_hint, key_pens,
    key_rc_rows, key_sd_scroll_dir, key_segs, key_t_offset_ms, key_t_start_ms, key_utf8,
    key_w_win_id, key_wire_magic, key_wp_win_pos_id, key_wp_win_positions, key_ws_win_style_id,
    key_ws_win_styles, spec_event_from_json, spec_events_from_json, spec_pen_from_json,
    spec_pens_from_json, spec_position_from_json, spec_positions_from_json, spec_seg_from_json,
    spec_segs_from_json, spec_style_from_json, spec_styles_from_json, spec_transcript_from_json,
};
use crate::encode::{
    spec_event_to_json, spec_events_to_json, spec_pen_to_json, spec_pens_to_json,
    spec_position_to_json, spec_positions_to_json, spec_seg_to_json, spec_segs_to_json,
    spec_style_to_json, spec_styles_to_json, spec_transcript_to_json,
};
use crate::fields::{arr_field, arr_field_ok, lemma_obj_unique, obj_count, obj_first};
use crate::json::JsonRep;
use crate::model::{EventRep, PenRep, SegRep, TranscriptRep, WpWinPositionRep, WsWinStyleRep};

verus! {

/// The three segment keys are pairwise distinct.
proof fn lemma_seg_keys_distinct()
    ensures
        key_utf8() != key_ac_asr_conf(),
        key_utf8() != key_t_offset_ms(),
        key_ac_asr_conf() != key_t_offset_ms(),
{
    reveal_strlit("utf8");
    reveal_strlit("acAsrConf");
    reveal_strlit("tOffsetMs");
    assert(key_utf8().len() == 4);
    assert(key_ac_asr_conf().len() == 9);
    assert(key_t_offset_ms().len() == 9);
    assert(key_ac_asr_conf()[0] == 'a');
    assert(key_t_offset_ms()[0] == 't');
}

/// A segment decodes back, unchanged, from its own encoding.
pub proof fn lemma_seg_round_trip(s: SegRep)
    ensures
        spec_seg_from_json(spec_seg_to_json(s)) == Some(s),
{
    let o = spec_seg_to_json(s)->Obj_0;
    lemma_seg_keys_distinct();
    lemma_obj_unique(o, key_utf8(), 0);
    lemma_obj_unique(o, key_ac_asr_conf(), 1);
    lemma_obj_unique(o, key_t_offset_ms(), 2);
}


/// A segment list decodes back, unchanged, from its own encoding.
pub proof fn lemma_segs_round_trip(ss: Seq<SegRep>)
    ensures
        spec_segs_from_json(spec_segs_to_json(ss)) == Some(ss),
    decreases ss.len(),
{
    let a = spec_segs_to_json(ss);
    if ss.len() == 0 {
        assert(ss =~= Seq::<SegRep>::empty());
    } else {
        lemma_segs_round_trip(ss.drop_last());
        lemma_seg_round_trip(ss.last());
        assert(a.drop_last() =~= spec_segs_to_json(ss.drop_last()));
        assert(a.last() == spec_seg_to_json(ss.last()));
        assert(ss.drop_last().push(ss.last()) =~= ss);
    }
}

/// The eight event keys are pairwise distinct (their lengths or first
/// characters differ).
proof fn lemma_event_keys_distinct()
    ensures
        key_t_start_ms().len() == 8,
        key_d_duration_ms().len() == 11,
        key_id().len() == 2,
        key_wp_win_pos_id().len() == 10,
        key_ws_win_style_id().len() == 12,
        key_w_win_id().len() == 6,
        key_segs().len() == 4,
        key_a_append().len() == 7,
{
    reveal_strlit("tStartMs");
    reveal_strlit("dDurationMs");
    reveal_strlit("id");
    reveal_strlit("wpWinPosId");
    reveal_strlit("wsWinStyleId");
    reveal_strlit("wWinId");
    reveal_strlit("segs");
    reveal_strlit("aAppend");
}

/// An event decodes back, unchanged, from its own encoding; in particular
/// an absent segment list stays absent, and a present one keeps its
/// segments.
pub proof fn lemma_event_round_trip(e: EventRep)
    ensures
        spec_event_from_json(spec_event_to_json(e)) == Some(e),
{
    let o = spec_event_to_json(e)->Obj_0;
    lemma_event_keys_distinct();
    lemma_obj_unique(o, key_t_start_ms(), 0);
    lemma_obj_unique(o, key_d_duration_ms(), 1);
    lemma_obj_unique(o, key_id(), 2);
    lemma_obj_unique(o, key_wp_win_pos_id(), 3);
    lemma_obj_unique(o, key_ws_win_style_id(), 4);
    lemma_obj_unique(o, key_w_win_id(), 5);
    lemma_obj_unique(o, key_segs(), 6);
    lemma_obj_unique(o, key_a_append(), 7);
    match e.segs {
        Some(ss) => {
            lemma_segs_round_trip(ss);
        },
        None => {
        },
    }
}

/// An event list decodes back, unchanged, from its own encoding.
pub proof fn lemma_events_round_trip(es: Seq<EventRep>)
    ensures
        spec_events_from_json(spec_events_to_json(es)) == Some(es),
    decreases es.len(),
{
    let a = spec_events_to_json(es);
    if es.len() == 0 {
        assert(es =~= Seq::<EventRep>::empty());
    } else {
        lemma_events_round_trip(es.drop_last());
        lemma_event_round_trip(es.last());
        assert(a.drop_last() =~= spec_events_to_json(es.drop_last()));
        assert(a.last() == spec_event_to_json(es.last()));
        assert(es.drop_last().push(es.last()) =~= es);
    }
}

/// A pen decodes back, unchanged, from its own encoding.
pub proof fn lemma_pen_round_trip(p: PenRep)
    ensures
        spec_pen_from_json(spec_pen_to_json(p)) == Some(p),
{
}

/// A pen list decodes back, unchanged, from its own encoding.
pub proof fn lemma_pens_round_trip(ps: Seq<PenRep>)
    ensures
        spec_pens_from_json(spec_pens_to_json(ps)) == Some(ps),
    decreases ps.len(),
{
    let a = spec_pens_to_json(ps);
    if ps.len() == 0 {
        assert(ps =~= Seq::<PenRep>::empty());
    } else {
        lemma_pens_round_trip(ps.drop_last());
        lemma_pen_round_trip(ps.last());
        assert(a.drop_last() =~= spec_pens_to_json(ps.drop_last()));
        assert(a.last() == spec_pen_to_json(ps.last()));
        assert(ps.drop_last().push(ps.last()) =~= ps);
    }
}

/// The three window style keys are pairwise distinct.
proof fn lemma_style_keys_distinct()
    ensures
        key_mh_mode_hint().len() == 10,
        key_ju_justif_code().len() == 12,
        key_sd_scroll_dir().len() == 11,
{
    reveal_strlit("mhModeHint");
    reveal_strlit("juJustifCode");
    reveal_strlit("sdScrollDir");
}

/// A window style decodes back, unchanged, from its own encoding.
pub proof fn lemma_style_round_trip(w: WsWinStyleRep)
    ensures
        spec_style_from_json(spec_style_to_json(w)) == Some(w),
{
    let o = spec_style_to_json(w)->Obj_0;
    lemma_style_keys_distinct();
    lemma_obj_unique(o, key_mh_mode_hint(), 0);
    lemma_obj_unique(o, key_ju_justif_code(), 1);
    lemma_obj_unique(o, key_sd_scroll_dir(), 2);
}

/// A window style list decodes back, unchanged, from its own encoding.
pub proof fn lemma_styles_round_trip(ws: Seq<WsWinStyleRep>)
    ensures
        spec_styles_from_json(spec_styles_to_json(ws)) == Some(ws),
    decreases ws.len(),
{
    let a = spec_styles_to_json(ws);
    if ws.len() == 0 {
        assert(ws =~= Seq::<WsWinStyleRep>::empty());
    } else {
        lemma_styles_round_trip(ws.drop_last());
        lemma_style_round_trip(ws.last());
        assert(a.drop_last() =~= spec_styles_to_json(ws.drop_last()));
        assert(a.last() == spec_style_to_json(ws.last()));
        assert(ws.drop_last().push(ws.last()) =~= ws);
    }
}

/// The five window position keys are pairwise distinct (by length, or by
/// their first or second character).
proof fn lemma_position_keys_distinct()
    ensures
        key_ap_point().len() == 7,
        key_ah_hor_pos().len() == 8,
        key_av_ver_pos().len() == 8,
        key_rc_rows().len() == 6,
        key_cc_cols().len() == 6,
        key_ah_hor_pos() != key_av_ver_pos(),
        key_rc_rows() != key_cc_cols(),
{
    reveal_strlit("apPoint");
    reveal_strlit("ahHorPos");
    reveal_strlit("avVerPos");
    reveal_strlit("rcRows");
    reveal_strlit("ccCols");
    assert(key_ah_hor_pos()[1] == 'h');
    assert(key_av_ver_pos()[1] == 'v');
    assert(key_rc_rows()[0] == 'r');
    assert(key_cc_cols()[0] == 'c');
}

/// A window position decodes back, unchanged, from its own encoding.
pub proof fn lemma_position_round_trip(w: WpWinPositionRep)
    ensures
        spec_position_from_json(spec_position_to_json(w)) == Some(w),
{
    let o = spec_position_to_json(w)->Obj_0;
    lemma_position_keys_distinct();
    lemma_obj_unique(o, key_ap_point(), 0);
    lemma_obj_unique(o, key_ah_hor_pos(), 1);
    lemma_obj_unique(o, key_av_ver_pos(), 2);
    lemma_obj_unique(o, key_rc_rows(), 3);
    lemma_obj_unique(o, key_cc_cols(), 4);
}

/// A window position list decodes back, unchanged, from its own encoding.
pub proof fn lemma_positions_round_trip(ws: Seq<WpWinPositionRep>)
    ensures
        spec_positions_from_json(spec_positions_to_json(ws)) == Some(ws),
    decreases ws.len(),
{
    let a = spec_positions_to_json(ws);
    if ws.len() == 0 {
        assert(ws =~= Seq::<WpWinPositionRep>::empty());
    } else {
        lemma_positions_round_trip(ws.drop_last());
        lemma_position_round_trip(ws.last());
        assert(a.drop_last() =~= spec_positions_to_json(ws.drop_last()));
        assert(a.last() == spec_position_to_json(ws.last()));
        assert(ws.drop_last().push(ws.last()) =~= ws);
    }
}

/// The five root keys are pairwise distinct.
proof fn lemma_root_keys_distinct()
    ensures
        key_wire_magic().len() == 9,
        key_pens().len() == 4,
        key_ws_win_styles().len() == 11,
        key_wp_win_positions().len() == 14,
        key_events().len() == 6,
{
    reveal_strlit("wireMagic");
    reveal_strlit("pens");
    reveal_strlit("wsWinStyles");
    reveal_strlit("wpWinPositions");
    reveal_strlit("events");
}

/// The round trip: every transcript value decodes back, unchanged, from its
/// own encoding.
pub proof fn lemma_transcript_round_trip(t: TranscriptRep)
    ensures
        spec_transcript_from_json(spec_transcript_to_json(t)) == Some(t),
{
    let o = spec_transcript_to_json(t)->Obj_0;
    lemma_root_keys_distinct();
    lemma_obj_unique(o, key_wire_magic(), 0);
    lemma_obj_unique(o, key_pens(), 1);
    lemma_obj_unique(o, key_ws_win_styles(), 2);
    lemma_obj_unique(o, key_wp_win_positions(), 3);
    lemma_obj_unique(o, key_events(), 4);
    lemma_pens_round_trip(t.pens);
    lemma_styles_round_trip(t.ws_win_styles);
    lemma_positions_round_trip(t.wp_win_positions);
    lemma_events_round_trip(t.events);
}

/// Required-field enforcement, failing side: an object in which `wireMagic`
/// does not occur never decodes to a transcript.
pub proof fn lemma_missing_wire_magic_fails(o: Seq<(Seq<char>, JsonRep)>)
    requires
        obj_count(o, key_wire_magic()) == 0,
    ensures
        spec_transcript_from_json(JsonRep::Obj(o)) is None,
{
}

/// Appending a member with a different key changes neither a key's count nor
/// its first occurrence.
proof fn lemma_obj_push_other(
    o: Seq<(Seq<char>, JsonRep)>,
    e: (Seq<char>, JsonRep),
    k: Seq<char>,
)
    requires
        e.0 != k,
    ensures
        obj_count(o.push(e), k) == obj_count(o, k),
        obj_first(o.push(e), k) == obj_first(o, k),
{
    assert(o.push(e).drop_last() =~= o);
    assert(o.push(e).last() == e);
}

/// Required-field enforcement, succeeding side: an object that fails to
/// decode only for want of `wireMagic` decodes once a `wireMagic` string
/// member is added.
pub proof fn lemma_wire_magic_present_succeeds(
    o: Seq<(Seq<char>, JsonRep)>,
    w: Seq<char>,
)
    requires
        obj_count(o, key_wire_magic()) == 0,
        arr_field_ok(o, key_pens()),
        arr_field_ok(o, key_ws_win_styles()),
        arr_field_ok(o, key_wp_win_positions()),
        arr_field_ok(o, key_events()),
        spec_pens_from_json(arr_field(o, key_pens())) is Some,
        spec_styles_from_json(arr_field(o, key_ws_win_styles())) is Some,
        spec_positions_from_json(arr_field(o, key_wp_win_positions())) is Some,
        spec_events_from_json(arr_field(o, key_events())) is Some,
    ensures
        spec_transcript_from_json(JsonRep::Obj(o)) is None,
        spec_transcript_from_json(
            JsonRep::Obj(o.push((key_wire_magic(), JsonRep::Str(w)))),
        ) is Some,
{
    lemma_root_keys_distinct();
    let o2 = o.push((key_wire_magic(), JsonRep::Str(w)));
    assert(o2.drop_last() =~= o);
    assert(o2.last() == (key_wire_magic(), JsonRep::Str(w)));
    crate::fields::lemma_obj_first_none(o, key_wire_magic());
    lemma_obj_push_other(o, (key_wire_magic(), JsonRep::Str(w)), key_pens());
    lemma_obj_push_other(o, (key_wire_magic(), JsonRep::Str(w)), key_ws_win_styles());
    lemma_obj_push_other(o, (key_wire_magic(), JsonRep::Str(w)), key_wp_win_positions());
    lemma_obj_push_other(o, (key_wire_magic(), JsonRep::Str(w)), key_events());
}

/// Type enforcement: an event whose `tStartMs` holds a string never decodes.
pub proof fn lemma_event_start_string_fails(o: Seq<(Seq<char>, JsonRep)>, v: JsonRep)
    requires
        obj_first(o, key_t_start_ms()) == Some(v),
        !(v is Int),
    ensures
        spec_event_from_json(JsonRep::Obj(o)) is None,
{
}

/// Type enforcement, lifted to the root: a transcript whose event list
/// holds an undecodable event never decodes.
pub proof fn lemma_bad_event_fails_transcript(o: Seq<(Seq<char>, JsonRep)>, j: int)
    requires
        arr_field_ok(o, key_events()),
        0 <= j < arr_field(o, key_events()).len(),
        spec_event_from_json(arr_field(o, key_events())[j]) is None,
    ensures
        spec_transcript_from_json(JsonRep::Obj(o)) is None,
{
    crate::decode::lemma_events_elem_none(arr_field(o, key_events()), j);
}

/// Forward compatibility: adding a member with an unknown key to the root
/// object changes nothing about the decode.
pub proof fn lemma_unknown_root_key_ignored(
    o: Seq<(Seq<char>, JsonRep)>,
    e: (Seq<char>, JsonRep),
)
    requires
        e.0 != key_wire_magic(),
        e.0 != key_pens(),
        e.0 != key_ws_win_styles(),
        e.0 != key_wp_win_positions(),
        e.0 != key_events(),
    ensures
        spec_transcript_from_json(JsonRep::Obj(o.push(e))) == spec_transcript_from_json(
            JsonRep::Obj(o),
        ),
{
    lemma_obj_push_other(o, e, key_wire_magic());
    lemma_obj_push_other(o, e, key_pens());
    lemma_obj_push_other(o, e, key_ws_win_styles());
    lemma_obj_push_other(o, e, key_wp_win_positions());
    lemma_obj_push_other(o, e, key_events());
}

/// Optional-field independence: an event without `segs` decodes from its
/// own encoding, and its segment list is still absent, not empty.
pub proof fn lemma_segs_absent_round_trip(e: EventRep)
    requires
        e.segs is None,
    ensures
        spec_event_from_json(spec_event_to_json(e)) == Some(e),
        spec_event_from_json(spec_event_to_json(e))->0.segs is None,
{
    lemma_event_round_trip(e);
}

} // verus!
