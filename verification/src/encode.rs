//! Structural encode: from the typed transcript model back to a JSON tree.
//!
//! The encoders write every field of every record, in the wire format's
//! declaration order, rendering an unset optional field as `null`; an
//! event's absent `segs` therefore stays observably absent across a round
//! trip.  The spec functions state the produced tree exactly, and the
//! executable encoders are proved to agree with them.

use vstd::prelude::*;

use crate::decode::{
    key_a_append, key_ac_asr_conf, key_ah_hor_pos, key_ap_point, key_av_ver_pos, key_cc_cols,
    key_d_duration_ms, key_events, key_id, key_ju_justif_code, key_mh_mode_hint, key_pens,
    key_rc_rows, key_sd_scroll_dir, key_segs, key_t_offset_ms, key_t_start_ms, key_utf8,
    key_w_win_id, key_wire_magic, key_wp_win_pos_id, key_wp_win_positions, key_ws_win_style_id,
    key_ws_win_styles,
};
use crate::json::{
    jsons_rep, lemma_jsons_rep_push, lemma_members_rep_push, members_rep, JsonRep, JsonValue,
};
use crate::json::{
    arr_jdepth, ints_in_range, jdepth, lemma_arr_agg, lemma_members_agg, num_free, nums_free,
};
use crate::model::{
    event_rep_wf, opt_int, opt_int_wf, position_rep_wf, seg_rep_wf, segs_rep, style_rep_wf,
    transcript_rep_wf, Event, EventRep, Pen, PenRep, Seg, SegRep, Transcript, TranscriptRep,
    WpWinPosition, WpWinPositionRep, WsWinStyle, WsWinStyleRep,
};

verus! {

/// An optional integer on the wire: the integer, or `null` for unset.
pub open spec fn spec_opt_int_to_json(o: Option<int>) -> JsonRep {
    match o {
        Some(n) => JsonRep::Int(n),
        None => JsonRep::Null,
    }
}

/// The tree a segment encodes to.
pub open spec fn spec_seg_to_json(s: SegRep) -> JsonRep {
    JsonRep::Obj(
        seq![
            (key_utf8(), JsonRep::Str(s.utf8)),
            (key_ac_asr_conf(), spec_opt_int_to_json(s.ac_asr_conf)),
            (key_t_offset_ms(), spec_opt_int_to_json(s.t_offset_ms)),
        ],
    )
}

/// The trees a segment list encodes to.
pub open spec fn spec_segs_to_json(ss: Seq<SegRep>) -> Seq<JsonRep> {
    ss.map_values(|s: SegRep| spec_seg_to_json(s))
}

/// The tree an event encodes to.
pub open spec fn spec_event_to_json(e: EventRep) -> JsonRep {
    JsonRep::Obj(
        seq![
            (key_t_start_ms(), JsonRep::Int(e.t_start_ms)),
            (key_d_duration_ms(), JsonRep::Int(e.d_duration_ms)),
            (key_id(), spec_opt_int_to_json(e.id)),
            (key_wp_win_pos_id(), spec_opt_int_to_json(e.wp_win_pos_id)),
            (key_ws_win_style_id(), spec_opt_int_to_json(e.ws_win_style_id)),
            (key_w_win_id(), spec_opt_int_to_json(e.w_win_id)),
            (
                key_segs(),
                match e.segs {
                    Some(ss) => JsonRep::Arr(spec_segs_to_json(ss)),
                    None => JsonRep::Null,
                },
            ),
            (key_a_append(), spec_opt_int_to_json(e.a_append)),
        ],
    )
}

/// The trees an event list encodes to.
pub open spec fn spec_events_to_json(es: Seq<EventRep>) -> Seq<JsonRep> {
    es.map_values(|e: EventRep| spec_event_to_json(e))
}

/// The tree a pen encodes to: an empty object.
pub open spec fn spec_pen_to_json(p: PenRep) -> JsonRep {
    JsonRep::Obj(Seq::empty())
}

/// The trees a pen list encodes to.
pub open spec fn spec_pens_to_json(ps: Seq<PenRep>) -> Seq<JsonRep> {
    ps.map_values(|p: PenRep| spec_pen_to_json(p))
}

/// The tree a window style encodes to.
pub open spec fn spec_style_to_json(w: WsWinStyleRep) -> JsonRep {
    JsonRep::Obj(
        seq![
            (key_mh_mode_hint(), spec_opt_int_to_json(w.mh_mode_hint)),
            (key_ju_justif_code(), spec_opt_int_to_json(w.ju_justif_code)),
            (key_sd_scroll_dir(), spec_opt_int_to_json(w.sd_scroll_dir)),
        ],
    )
}

/// The trees a window style list encodes to.
pub open spec fn spec_styles_to_json(ws: Seq<WsWinStyleRep>) -> Seq<JsonRep> {
    ws.map_values(|w: WsWinStyleRep| spec_style_to_json(w))
}

/// The tree a window position encodes to.
pub open spec fn spec_position_to_json(w: WpWinPositionRep) -> JsonRep {
    JsonRep::Obj(
        seq![
            (key_ap_point(), spec_opt_int_to_json(w.ap_point)),
            (key_ah_hor_pos(), spec_opt_int_to_json(w.ah_hor_pos)),
            (key_av_ver_pos(), spec_opt_int_to_json(w.av_ver_pos)),
            (key_rc_rows(), spec_opt_int_to_json(w.rc_rows)),
            (key_cc_cols(), spec_opt_int_to_json(w.cc_cols)),
        ],
    )
}

/// The trees a window position list encodes to.
pub open spec fn spec_positions_to_json(ws: Seq<WpWinPositionRep>) -> Seq<JsonRep> {
    ws.map_values(|w: WpWinPositionRep| spec_position_to_json(w))
}

/// The tree a transcript encodes to: the five root fields in wire order.
pub open spec fn spec_transcript_to_json(t: TranscriptRep) -> JsonRep {
    JsonRep::Obj(
        seq![
            (key_wire_magic(), JsonRep::Str(t.wire_magic)),
            (key_pens(), JsonRep::Arr(spec_pens_to_json(t.pens))),
            (key_ws_win_styles(), JsonRep::Arr(spec_styles_to_json(t.ws_win_styles))),
            (key_wp_win_positions(), JsonRep::Arr(spec_positions_to_json(t.wp_win_positions))),
            (key_events(), JsonRep::Arr(spec_events_to_json(t.events))),
        ],
    )
}

/// Encodes an optional machine integer.
fn opt_int_to_json(o: &Option<i64>) -> (r: JsonValue)
    ensures
        r@ == spec_opt_int_to_json(opt_int(*o)),
{
    match o {
        Some(n) => JsonValue::Int(*n),
        None => JsonValue::Null,
    }
}

/// Encodes one segment.
pub fn seg_to_json(s: &Seg) -> (r: JsonValue)
    ensures
        r@ == spec_seg_to_json(s@),
{
    let mut m: Vec<(String, JsonValue)> = Vec::new();
    m.push((String::from_str("utf8"), JsonValue::Str(s.utf8.clone())));
    m.push((String::from_str("acAsrConf"), opt_int_to_json(&s.ac_asr_conf)));
    m.push((String::from_str("tOffsetMs"), opt_int_to_json(&s.t_offset_ms)));
    proof {
        lemma_members_seq3(m@);
    }
    JsonValue::Obj(m)
}

/// The member views of a three-element member vector, spelled out.
proof fn lemma_members_seq3(s: Seq<(String, JsonValue)>)
    requires
        s.len() == 3,
    ensures
        members_rep(s) =~= seq![
            (s[0].0@, s[0].1@),
            (s[1].0@, s[1].1@),
            (s[2].0@, s[2].1@),
        ],
{
    crate::json::lemma_members_rep(s);
}

/// The member views of a member vector, element-wise.
proof fn lemma_members_pointwise(s: Seq<(String, JsonValue)>)
    ensures
        members_rep(s).len() == s.len(),
        forall|i: int| 0 <= i < s.len() ==> #[trigger] members_rep(s)[i] == (s[i].0@, s[i].1@),
{
    crate::json::lemma_members_rep(s);
    assert forall|i: int| 0 <= i < s.len() implies #[trigger] members_rep(s)[i] == (
    s[i].0@,
    s[i].1@,
    ) by {
        assert(members_rep(s)[i] == (s[i].0@, s[i].1@));
    }
}

/// Encodes a list of segments, in order.
pub fn segs_to_json(ss: &Vec<Seg>) -> (r: Vec<JsonValue>)
    ensures
        jsons_rep(r@) == spec_segs_to_json(segs_rep(ss@)),
{
    let n = ss.len();
    let mut out: Vec<JsonValue> = Vec::new();
    let mut i: usize = 0;
    while i < n
        invariant
            i <= n,
            n == ss@.len(),
            jsons_rep(out@) == spec_segs_to_json(segs_rep(ss@.take(i as int))),
        decreases n - i,
    {
        let v = seg_to_json(&ss[i]);
        proof {
            lemma_jsons_rep_push(out@, v);
            assert(segs_rep(ss@.take(i + 1int)) =~= segs_rep(ss@.take(i as int)).push(
                ss@[i as int]@,
            ));
            assert(spec_segs_to_json(segs_rep(ss@.take(i as int)).push(ss@[i as int]@))
                =~= spec_segs_to_json(segs_rep(ss@.take(i as int))).push(
                spec_seg_to_json(ss@[i as int]@),
            ));
        }
        out.push(v);
        i = i + 1;
    }
    proof {
        assert(ss@.take(n as int) == ss@);
    }
    out
}

/// Encodes one event, every field present, unset options as `null`.
pub fn event_to_json(e: &Event) -> (r: JsonValue)
    ensures
        r@ == spec_event_to_json(e@),
{
    let segs: JsonValue = match &e.segs {
        Some(ss) => JsonValue::Arr(segs_to_json(ss)),
        None => JsonValue::Null,
    };
    let mut m: Vec<(String, JsonValue)> = Vec::new();
    m.push((String::from_str("tStartMs"), JsonValue::Int(e.t_start_ms)));
    m.push((String::from_str("dDurationMs"), JsonValue::Int(e.d_duration_ms)));
    m.push((String::from_str("id"), opt_int_to_json(&e.id)));
    m.push((String::from_str("wpWinPosId"), opt_int_to_json(&e.wp_win_pos_id)));
    m.push((String::from_str("wsWinStyleId"), opt_int_to_json(&e.ws_win_style_id)));
    m.push((String::from_str("wWinId"), opt_int_to_json(&e.w_win_id)));
    m.push((String::from_str("segs"), segs));
    m.push((String::from_str("aAppend"), opt_int_to_json(&e.a_append)));
    proof {
        lemma_members_pointwise(m@);
        assert(members_rep(m@) =~= spec_event_to_json(e@)->Obj_0);
    }
    JsonValue::Obj(m)
}

/// Encodes a list of events, in order.
pub fn events_to_json(es: &Vec<Event>) -> (r: Vec<JsonValue>)
    ensures
        jsons_rep(r@) == spec_events_to_json(es@.map_values(|x: Event| x@)),
{
    let n = es.len();
    let mut out: Vec<JsonValue> = Vec::new();
    let mut i: usize = 0;
    while i < n
        invariant
            i <= n,
            n == es@.len(),
            jsons_rep(out@) == spec_events_to_json(es@.take(i as int).map_values(|x: Event| x@)),
        decreases n - i,
    {
        let v = event_to_json(&es[i]);
        proof {
            lemma_jsons_rep_push(out@, v);
            assert(es@.take(i + 1int).map_values(|x: Event| x@) =~= es@.take(
                i as int,
            ).map_values(|x: Event| x@).push(es@[i as int]@));
            assert(spec_events_to_json(
                es@.take(i as int).map_values(|x: Event| x@).push(es@[i as int]@),
            ) =~= spec_events_to_json(es@.take(i as int).map_values(|x: Event| x@)).push(
                spec_event_to_json(es@[i as int]@),
            ));
        }
        out.push(v);
        i = i + 1;
    }
    proof {
        assert(es@.take(n as int) == es@);
    }
    out
}

/// Encodes one pen: an empty object.
pub fn pen_to_json(p: &Pen) -> (r: JsonValue)
    ensures
        r@ == spec_pen_to_json(p@),
{
    let m: Vec<(String, JsonValue)> = Vec::new();
    JsonValue::Obj(m)
}

/// Encodes a list of pens, in order.
pub fn pens_to_json(ps: &Vec<Pen>) -> (r: Vec<JsonValue>)
    ensures
        jsons_rep(r@) == spec_pens_to_json(ps@.map_values(|x: Pen| x@)),
{
    let n = ps.len();
    let mut out: Vec<JsonValue> = Vec::new();
    let mut i: usize = 0;
    while i < n
        invariant
            i <= n,
            n == ps@.len(),
            jsons_rep(out@) == spec_pens_to_json(ps@.take(i as int).map_values(|x: Pen| x@)),
        decreases n - i,
    {
        let v = pen_to_json(&ps[i]);
        proof {
            lemma_jsons_rep_push(out@, v);
            assert(ps@.take(i + 1int).map_values(|x: Pen| x@) =~= ps@.take(i as int).map_values(
                |x: Pen| x@,
            ).push(ps@[i as int]@));
            assert(spec_pens_to_json(
                ps@.take(i as int).map_values(|x: Pen| x@).push(ps@[i as int]@),
            ) =~= spec_pens_to_json(ps@.take(i as int).map_values(|x: Pen| x@)).push(
                spec_pen_to_json(ps@[i as int]@),
            ));
        }
        out.push(v);
        i = i + 1;
    }
    proof {
        assert(ps@.take(n as int) == ps@);
    }
    out
}

/// Encodes one window style.
pub fn style_to_json(w: &WsWinStyle) -> (r: JsonValue)
    ensures
        r@ == spec_style_to_json(w@),
{
    let mut m: Vec<(String, JsonValue)> = Vec::new();
    m.push((String::from_str("mhModeHint"), opt_int_to_json(&w.mh_mode_hint)));
    m.push((String::from_str("juJustifCode"), opt_int_to_json(&w.ju_justif_code)));
    m.push((String::from_str("sdScrollDir"), opt_int_to_json(&w.sd_scroll_dir)));
    proof {
        lemma_members_seq3(m@);
    }
    JsonValue::Obj(m)
}

/// Encodes a list of window styles, in order.
pub fn styles_to_json(ws: &Vec<WsWinStyle>) -> (r: Vec<JsonValue>)
    ensures
        jsons_rep(r@) == spec_styles_to_json(ws@.map_values(|x: WsWinStyle| x@)),
{
    let n = ws.len();
    let mut out: Vec<JsonValue> = Vec::new();
    let mut i: usize = 0;
    while i < n
        invariant
            i <= n,
            n == ws@.len(),
            jsons_rep(out@) == spec_styles_to_json(
                ws@.take(i as int).map_values(|x: WsWinStyle| x@),
            ),
        decreases n - i,
    {
        let v = style_to_json(&ws[i]);
        proof {
            lemma_jsons_rep_push(out@, v);
            assert(ws@.take(i + 1int).map_values(|x: WsWinStyle| x@) =~= ws@.take(
                i as int,
            ).map_values(|x: WsWinStyle| x@).push(ws@[i as int]@));
            assert(spec_styles_to_json(
                ws@.take(i as int).map_values(|x: WsWinStyle| x@).push(ws@[i as int]@),
            ) =~= spec_styles_to_json(ws@.take(i as int).map_values(|x: WsWinStyle| x@)).push(
                spec_style_to_json(ws@[i as int]@),
            ));
        }
        out.push(v);
        i = i + 1;
    }
    proof {
        assert(ws@.take(n as int) == ws@);
    }
    out
}

/// Encodes one window position.
pub fn position_to_json(w: &WpWinPosition) -> (r: JsonValue)
    ensures
        r@ == spec_position_to_json(w@),
{
    let mut m: Vec<(String, JsonValue)> = Vec::new();
    m.push((String::from_str("apPoint"), opt_int_to_json(&w.ap_point)));
    m.push((String::from_str("ahHorPos"), opt_int_to_json(&w.ah_hor_pos)));
    m.push((String::from_str("avVerPos"), opt_int_to_json(&w.av_ver_pos)));
    m.push((String::from_str("rcRows"), opt_int_to_json(&w.rc_rows)));
    m.push((String::from_str("ccCols"), opt_int_to_json(&w.cc_cols)));
    proof {
        lemma_members_pointwise(m@);
        assert(members_rep(m@) =~= spec_position_to_json(w@)->Obj_0);
    }
    JsonValue::Obj(m)
}

/// Encodes a list of window positions, in order.
pub fn positions_to_json(ws: &Vec<WpWinPosition>) -> (r: Vec<JsonValue>)
    ensures
        jsons_rep(r@) == spec_positions_to_json(ws@.map_values(|x: WpWinPosition| x@)),
{
    let n = ws.len();
    let mut out: Vec<JsonValue> = Vec::new();
    let mut i: usize = 0;
    while i < n
        invariant
            i <= n,
            n == ws@.len(),
            jsons_rep(out@) == spec_positions_to_json(
                ws@.take(i as int).map_values(|x: WpWinPosition| x@),
            ),
        decreases n - i,
    {
        let v = position_to_json(&ws[i]);
        proof {
            lemma_jsons_rep_push(out@, v);
            assert(ws@.take(i + 1int).map_values(|x: WpWinPosition| x@) =~= ws@.take(
                i as int,
            ).map_values(|x: WpWinPosition| x@).push(ws@[i as int]@));
            assert(spec_positions_to_json(
                ws@.take(i as int).map_values(|x: WpWinPosition| x@).push(ws@[i as int]@),
            ) =~= spec_positions_to_json(ws@.take(i as int).map_values(|x: WpWinPosition| x@)).push(
                spec_position_to_json(ws@[i as int]@),
            ));
        }
        out.push(v);
        i = i + 1;
    }
    proof {
        assert(ws@.take(n as int) == ws@);
    }
    out
}

/// Encodes a whole transcript to a JSON tree, the five root fields in wire
/// order.
pub fn transcript_to_json(t: &Transcript) -> (r: JsonValue)
    ensures
        r@ == spec_transcript_to_json(t@),
{
    let mut m: Vec<(String, JsonValue)> = Vec::new();
    m.push((String::from_str("wireMagic"), JsonValue::Str(t.wire_magic.clone())));
    m.push((String::from_str("pens"), JsonValue::Arr(pens_to_json(&t.pens))));
    m.push((String::from_str("wsWinStyles"), JsonValue::Arr(styles_to_json(&t.ws_win_styles))));
    m.push(
        (String::from_str("wpWinPositions"), JsonValue::Arr(positions_to_json(&t.wp_win_positions))),
    );
    m.push((String::from_str("events"), JsonValue::Arr(events_to_json(&t.events))));
    proof {
        lemma_members_pointwise(m@);
        assert(members_rep(m@) =~= spec_transcript_to_json(t@)->Obj_0);
    }
    JsonValue::Obj(m)
}


/// An encoded optional integer is a plain leaf.
proof fn lemma_opt_int_canonical(o: Option<int>)
    requires
        opt_int_wf(o),
    ensures
        num_free(spec_opt_int_to_json(o)),
        ints_in_range(spec_opt_int_to_json(o)),
        jdepth(spec_opt_int_to_json(o)) == 0,
{
}

/// An encoded segment is a flat object of leaves.
proof fn lemma_seg_canonical(s: SegRep)
    requires
        seg_rep_wf(s),
    ensures
        num_free(spec_seg_to_json(s)),
        ints_in_range(spec_seg_to_json(s)),
        jdepth(spec_seg_to_json(s)) <= 1,
{
    let o = spec_seg_to_json(s)->Obj_0;
    lemma_opt_int_canonical(s.ac_asr_conf);
    lemma_opt_int_canonical(s.t_offset_ms);
    assert forall|j: int| 0 <= j < o.len() implies num_free((#[trigger] o[j]).1) && ints_in_range(
        o[j].1,
    ) && jdepth(o[j].1) <= 0 by {}
    lemma_members_agg(o, 0);
}

/// An encoded segment list nests one level.
proof fn lemma_segs_canonical(ss: Seq<SegRep>)
    requires
        forall|j: int| 0 <= j < ss.len() ==> seg_rep_wf(#[trigger] ss[j]),
    ensures
        nums_free(spec_segs_to_json(ss)),
        crate::json::arr_ints_in_range(spec_segs_to_json(ss)),
        arr_jdepth(spec_segs_to_json(ss)) <= 1,
{
    let a = spec_segs_to_json(ss);
    assert forall|j: int| 0 <= j < a.len() implies num_free(#[trigger] a[j]) && ints_in_range(
        a[j],
    ) && jdepth(a[j]) <= 1 by {
        assert(a[j] == spec_seg_to_json(ss[j]));
        lemma_seg_canonical(ss[j]);
    }
    lemma_arr_agg(a, 1);
}

/// An encoded event nests at most three levels.
proof fn lemma_event_canonical(e: EventRep)
    requires
        event_rep_wf(e),
    ensures
        num_free(spec_event_to_json(e)),
        ints_in_range(spec_event_to_json(e)),
        jdepth(spec_event_to_json(e)) <= 3,
{
    let o = spec_event_to_json(e)->Obj_0;
    lemma_opt_int_canonical(e.id);
    lemma_opt_int_canonical(e.wp_win_pos_id);
    lemma_opt_int_canonical(e.ws_win_style_id);
    lemma_opt_int_canonical(e.w_win_id);
    lemma_opt_int_canonical(e.a_append);
    match e.segs {
        Some(ss) => {
            lemma_segs_canonical(ss);
        },
        None => {
        },
    }
    assert forall|j: int| 0 <= j < o.len() implies num_free((#[trigger] o[j]).1) && ints_in_range(
        o[j].1,
    ) && jdepth(o[j].1) <= 2 by {}
    lemma_members_agg(o, 2);
}

/// An encoded pen is an empty object.
proof fn lemma_pen_canonical(p: PenRep)
    ensures
        num_free(spec_pen_to_json(p)),
        ints_in_range(spec_pen_to_json(p)),
        jdepth(spec_pen_to_json(p)) <= 1,
{
    lemma_members_agg(Seq::empty(), 0);
}

/// An encoded window style is a flat object of leaves.
proof fn lemma_style_canonical(w: WsWinStyleRep)
    requires
        style_rep_wf(w),
    ensures
        num_free(spec_style_to_json(w)),
        ints_in_range(spec_style_to_json(w)),
        jdepth(spec_style_to_json(w)) <= 1,
{
    let o = spec_style_to_json(w)->Obj_0;
    lemma_opt_int_canonical(w.mh_mode_hint);
    lemma_opt_int_canonical(w.ju_justif_code);
    lemma_opt_int_canonical(w.sd_scroll_dir);
    assert forall|j: int| 0 <= j < o.len() implies num_free((#[trigger] o[j]).1) && ints_in_range(
        o[j].1,
    ) && jdepth(o[j].1) <= 0 by {}
    lemma_members_agg(o, 0);
}

/// An encoded window position is a flat object of leaves.
proof fn lemma_position_canonical(w: WpWinPositionRep)
    requires
        position_rep_wf(w),
    ensures
        num_free(spec_position_to_json(w)),
        ints_in_range(spec_position_to_json(w)),
        jdepth(spec_position_to_json(w)) <= 1,
{
    let o = spec_position_to_json(w)->Obj_0;
    lemma_opt_int_canonical(w.ap_point);
    lemma_opt_int_canonical(w.ah_hor_pos);
    lemma_opt_int_canonical(w.av_ver_pos);
    lemma_opt_int_canonical(w.rc_rows);
    lemma_opt_int_canonical(w.cc_cols);
    assert forall|j: int| 0 <= j < o.len() implies num_free((#[trigger] o[j]).1) && ints_in_range(
        o[j].1,
    ) && jdepth(o[j].1) <= 0 by {}
    lemma_members_agg(o, 0);
}

/// The encoding of a well-formed transcript is a tree the reader is proved
/// to invert: number-free, integers in range, nested within the bound.
pub proof fn lemma_transcript_to_json_canonical(t: TranscriptRep)
    requires
        transcript_rep_wf(t),
    ensures
        num_free(spec_transcript_to_json(t)),
        ints_in_range(spec_transcript_to_json(t)),
        jdepth(spec_transcript_to_json(t)) <= 5,
{
    let o = spec_transcript_to_json(t)->Obj_0;
    let pens = spec_pens_to_json(t.pens);
    assert forall|j: int| 0 <= j < pens.len() implies num_free(#[trigger] pens[j])
        && ints_in_range(pens[j]) && jdepth(pens[j]) <= 1 by {
        assert(pens[j] == spec_pen_to_json(t.pens[j]));
        lemma_pen_canonical(t.pens[j]);
    }
    lemma_arr_agg(pens, 1);
    let styles = spec_styles_to_json(t.ws_win_styles);
    assert forall|j: int| 0 <= j < styles.len() implies num_free(#[trigger] styles[j])
        && ints_in_range(styles[j]) && jdepth(styles[j]) <= 1 by {
        assert(styles[j] == spec_style_to_json(t.ws_win_styles[j]));
        lemma_style_canonical(t.ws_win_styles[j]);
    }
    lemma_arr_agg(styles, 1);
    let positions = spec_positions_to_json(t.wp_win_positions);
    assert forall|j: int| 0 <= j < positions.len() implies num_free(#[trigger] positions[j])
        && ints_in_range(positions[j]) && jdepth(positions[j]) <= 1 by {
        assert(positions[j] == spec_position_to_json(t.wp_win_positions[j]));
        lemma_position_canonical(t.wp_win_positions[j]);
    }
    lemma_arr_agg(positions, 1);
    let events = spec_events_to_json(t.events);
    assert forall|j: int| 0 <= j < events.len() implies num_free(#[trigger] events[j])
        && ints_in_range(events[j]) && jdepth(events[j]) <= 3 by {
        assert(events[j] == spec_event_to_json(t.events[j]));
        lemma_event_canonical(t.events[j]);
    }
    lemma_arr_agg(events, 3);
    assert forall|j: int| 0 <= j < o.len() implies num_free((#[trigger] o[j]).1) && ints_in_range(
        o[j].1,
    ) && jdepth(o[j].1) <= 4 by {}
    lemma_members_agg(o, 4);
}

} // verus!
