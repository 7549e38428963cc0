//! Structural decode: from a JSON tree to the typed transcript model.
//!
//! Each decoder enforces the wire format's field-presence and type contract
//! and fails fast with a data-violation error; unknown keys at any nesting
//! level are ignored for forward compatibility.  The spec functions here
//! state exactly which trees decode, and to what; each executable decoder is
//! proved to agree with them.

use vstd::prelude::*;

use crate::error::JsonError;
use crate::fields::{
    arr_field, arr_field_ok, data_err, get_field, int_field, int_field_ok, obj_count, obj_first,
    opt_arr_field, opt_arr_field_ok, opt_int_field, opt_int_field_ok, str_field, str_field_ok,
};
use crate::json::{jsons_rep, members_rep, JsonRep, JsonValue};
use crate::model::{
    opt_int, segs_rep, Event, EventRep, Pen, PenRep, Seg, SegRep, Transcript, TranscriptRep,
    WpWinPosition, WpWinPositionRep, WsWinStyle, WsWinStyleRep,
};

verus! {

/// The wire key of a segment's text.
pub open spec fn key_utf8() -> Seq<char> {
    "utf8"@
}

/// The wire key of a segment's recognition confidence.
pub open spec fn key_ac_asr_conf() -> Seq<char> {
    "acAsrConf"@
}

/// The wire key of a segment's timing offset.
pub open spec fn key_t_offset_ms() -> Seq<char> {
    "tOffsetMs"@
}

/// Which trees decode to a segment, and to what: an object whose `utf8` is a
/// string occurring exactly once, and whose optional integer fields are
/// each absent, `null`, or an integer occurring once.
pub open spec fn spec_seg_from_json(v: JsonRep) -> Option<SegRep> {
    match v {
        JsonRep::Obj(o) => if str_field_ok(o, key_utf8()) && opt_int_field_ok(o, key_ac_asr_conf())
            && opt_int_field_ok(o, key_t_offset_ms()) {
            Some(
                SegRep {
                    utf8: str_field(o, key_utf8()),
                    ac_asr_conf: opt_int_field(o, key_ac_asr_conf()),
                    t_offset_ms: opt_int_field(o, key_t_offset_ms()),
                },
            )
        } else {
            None
        },
        _ => None,
    }
}

/// Reads an optional integer field: absent or `null` is unset; anything but
/// an integer is a data violation, as is a duplicated key.
fn get_opt_int(o: &Vec<(String, JsonValue)>, k: &str) -> (r: Result<Option<i64>, JsonError>)
    ensures
        match r {
            Ok(n) => opt_int_field_ok(members_rep(o@), k@) && opt_int_field(members_rep(o@), k@)
                == opt_int(n),
            Err(e) => !opt_int_field_ok(members_rep(o@), k@) && e.kind is Data,
        },
{
    match get_field(o, k) {
        Err(e) => Err(e),
        Ok(None) => Ok(None),
        Ok(Some(v)) => match v {
            JsonValue::Int(n) => Ok(Some(*n)),
            JsonValue::Null => Ok(None),
            _ => Err(data_err()),
        },
    }
}

/// Decodes one segment from a JSON tree.
pub fn seg_from_json(v: &JsonValue) -> (r: Result<Seg, JsonError>)
    ensures
        match r {
            Ok(s) => spec_seg_from_json(v@) == Some(s@),
            Err(e) => spec_seg_from_json(v@) is None && e.kind is Data,
        },
{
    let o = match v {
        JsonValue::Obj(o) => o,
        _ => {
            return Err(data_err());
        },
    };
    let utf8: String = match get_field(o, "utf8") {
        Err(e) => {
            return Err(e);
        },
        Ok(None) => {
            return Err(data_err());
        },
        Ok(Some(f)) => match f {
            JsonValue::Str(s) => s.clone(),
            _ => {
                return Err(data_err());
            },
        },
    };
    let ac_asr_conf = match get_opt_int(o, "acAsrConf") {
        Ok(n) => n,
        Err(e) => {
            return Err(e);
        },
    };
    let t_offset_ms = match get_opt_int(o, "tOffsetMs") {
        Ok(n) => n,
        Err(e) => {
            return Err(e);
        },
    };
    Ok(Seg { utf8, ac_asr_conf, t_offset_ms })
}

/// Which element sequences decode to segment lists: all of them must decode.
pub open spec fn spec_segs_from_json(a: Seq<JsonRep>) -> Option<Seq<SegRep>>
    decreases a.len(),
{
    if a.len() == 0 {
        Some(Seq::empty())
    } else {
        match (spec_segs_from_json(a.drop_last()), spec_seg_from_json(a.last())) {
            (Some(rest), Some(s)) => Some(rest.push(s)),
            _ => None,
        }
    }
}

/// If any element fails to decode as a segment, the whole list fails.
pub proof fn lemma_segs_elem_none(a: Seq<JsonRep>, j: int)
    requires
        0 <= j < a.len(),
        spec_seg_from_json(a[j]) is None,
    ensures
        spec_segs_from_json(a) is None,
    decreases a.len(),
{
    if j < a.len() - 1 {
        assert(a.drop_last()[j] == a[j]);
        lemma_segs_elem_none(a.drop_last(), j);
    }
}

/// Decodes an array of segments, in order, failing fast.
pub fn segs_from_json(a: &Vec<JsonValue>) -> (r: Result<Vec<Seg>, JsonError>)
    ensures
        match r {
            Ok(ss) => spec_segs_from_json(jsons_rep(a@)) == Some(segs_rep(ss@)),
            Err(e) => spec_segs_from_json(jsons_rep(a@)) is None && e.kind is Data,
        },
{
    let n = a.len();
    let mut out: Vec<Seg> = Vec::new();
    let mut i: usize = 0;
    while i < n
        invariant
            i <= n,
            n == a@.len(),
            spec_segs_from_json(jsons_rep(a@.take(i as int))) == Some(segs_rep(out@)),
        decreases n - i,
    {
        proof {
            assert(a@.take(i + 1int).drop_last() =~= a@.take(i as int));
            assert(a@.take(i + 1int).last() == a@[i as int]);
            assert(jsons_rep(a@.take(i + 1int)) == jsons_rep(a@.take(i as int)).push(
                a@[i as int]@,
            ));
            assert(jsons_rep(a@.take(i as int)).push(a@[i as int]@).drop_last() =~= jsons_rep(
                a@.take(i as int),
            ));
            assert(jsons_rep(a@.take(i + 1int)).last() == a@[i as int]@);
        }
        match seg_from_json(&a[i]) {
            Ok(s) => {
                out.push(s);
                proof {
                    assert(segs_rep(out@).drop_last() =~= segs_rep(out@.drop_last()));
                    assert(segs_rep(out@) =~= segs_rep(out@.drop_last()).push(out@.last()@));
                }
            },
            Err(e) => {
                proof {
                    crate::json::lemma_jsons_rep(a@);
                    lemma_segs_elem_none(jsons_rep(a@), i as int);
                }
                return Err(e);
            },
        }
        i = i + 1;
    }
    proof {
        assert(a@.take(n as int) == a@);
    }
    Ok(out)
}

/// Which trees decode to a pen: any object.  The format defines no pen
/// fields yet, so every member is an ignored unknown key.
pub open spec fn spec_pen_from_json(v: JsonRep) -> Option<PenRep> {
    match v {
        JsonRep::Obj(_) => Some(PenRep {}),
        _ => None,
    }
}

/// Decodes one pen from a JSON tree.
pub fn pen_from_json(v: &JsonValue) -> (r: Result<Pen, JsonError>)
    ensures
        match r {
            Ok(p) => spec_pen_from_json(v@) == Some(p@),
            Err(e) => spec_pen_from_json(v@) is None && e.kind is Data,
        },
{
    match v {
        JsonValue::Obj(_) => Ok(Pen {}),
        _ => Err(data_err()),
    }
}

/// The wire key of a window style's mode hint.
pub open spec fn key_mh_mode_hint() -> Seq<char> {
    "mhModeHint"@
}

/// The wire key of a window style's justification code.
pub open spec fn key_ju_justif_code() -> Seq<char> {
    "juJustifCode"@
}

/// The wire key of a window style's scroll direction.
pub open spec fn key_sd_scroll_dir() -> Seq<char> {
    "sdScrollDir"@
}

/// Which trees decode to a window style: an object whose three integer
/// fields are each optional.
pub open spec fn spec_style_from_json(v: JsonRep) -> Option<WsWinStyleRep> {
    match v {
        JsonRep::Obj(o) => if opt_int_field_ok(o, key_mh_mode_hint()) && opt_int_field_ok(
            o,
            key_ju_justif_code(),
        ) && opt_int_field_ok(o, key_sd_scroll_dir()) {
            Some(
                WsWinStyleRep {
                    mh_mode_hint: opt_int_field(o, key_mh_mode_hint()),
                    ju_justif_code: opt_int_field(o, key_ju_justif_code()),
                    sd_scroll_dir: opt_int_field(o, key_sd_scroll_dir()),
                },
            )
        } else {
            None
        },
        _ => None,
    }
}

/// Decodes one window style from a JSON tree.
pub fn style_from_json(v: &JsonValue) -> (r: Result<WsWinStyle, JsonError>)
    ensures
        match r {
            Ok(w) => spec_style_from_json(v@) == Some(w@),
            Err(e) => spec_style_from_json(v@) is None && e.kind is Data,
        },
{
    let o = match v {
        JsonValue::Obj(o) => o,
        _ => {
            return Err(data_err());
        },
    };
    let mh_mode_hint = match get_opt_int(o, "mhModeHint") {
        Ok(n) => n,
        Err(e) => {
            return Err(e);
        },
    };
    let ju_justif_code = match get_opt_int(o, "juJustifCode") {
        Ok(n) => n,
        Err(e) => {
            return Err(e);
        },
    };
    let sd_scroll_dir = match get_opt_int(o, "sdScrollDir") {
        Ok(n) => n,
        Err(e) => {
            return Err(e);
        },
    };
    Ok(WsWinStyle { mh_mode_hint, ju_justif_code, sd_scroll_dir })
}

/// The wire key of a window position's anchor point.
pub open spec fn key_ap_point() -> Seq<char> {
    "apPoint"@
}

/// The wire key of a window position's horizontal position.
pub open spec fn key_ah_hor_pos() -> Seq<char> {
    "ahHorPos"@
}

/// The wire key of a window position's vertical position.
pub open spec fn key_av_ver_pos() -> Seq<char> {
    "avVerPos"@
}

/// The wire key of a window position's row count.
pub open spec fn key_rc_rows() -> Seq<char> {
    "rcRows"@
}

/// The wire key of a window position's column count.
pub open spec fn key_cc_cols() -> Seq<char> {
    "ccCols"@
}

/// Which trees decode to a window position: an object whose five integer
/// fields are each optional.
pub open spec fn spec_position_from_json(v: JsonRep) -> Option<WpWinPositionRep> {
    match v {
        JsonRep::Obj(o) => if opt_int_field_ok(o, key_ap_point()) && opt_int_field_ok(
            o,
            key_ah_hor_pos(),
        ) && opt_int_field_ok(o, key_av_ver_pos()) && opt_int_field_ok(o, key_rc_rows())
            && opt_int_field_ok(o, key_cc_cols()) {
            Some(
                WpWinPositionRep {
                    ap_point: opt_int_field(o, key_ap_point()),
                    ah_hor_pos: opt_int_field(o, key_ah_hor_pos()),
                    av_ver_pos: opt_int_field(o, key_av_ver_pos()),
                    rc_rows: opt_int_field(o, key_rc_rows()),
                    cc_cols: opt_int_field(o, key_cc_cols()),
                },
            )
        } else {
            None
        },
        _ => None,
    }
}

/// Decodes one window position from a JSON tree.
pub fn position_from_json(v: &JsonValue) -> (r: Result<WpWinPosition, JsonError>)
    ensures
        match r {
            Ok(w) => spec_position_from_json(v@) == Some(w@),
            Err(e) => spec_position_from_json(v@) is None && e.kind is Data,
        },
{
    let o = match v {
        JsonValue::Obj(o) => o,
        _ => {
            return Err(data_err());
        },
    };
    let ap_point = match get_opt_int(o, "apPoint") {
        Ok(n) => n,
        Err(e) => {
            return Err(e);
        },
    };
    let ah_hor_pos = match get_opt_int(o, "ahHorPos") {
        Ok(n) => n,
        Err(e) => {
            return Err(e);
        },
    };
    let av_ver_pos = match get_opt_int(o, "avVerPos") {
        Ok(n) => n,
        Err(e) => {
            return Err(e);
        },
    };
    let rc_rows = match get_opt_int(o, "rcRows") {
        Ok(n) => n,
        Err(e) => {
            return Err(e);
        },
    };
    let cc_cols = match get_opt_int(o, "ccCols") {
        Ok(n) => n,
        Err(e) => {
            return Err(e);
        },
    };
    Ok(WpWinPosition { ap_point, ah_hor_pos, av_ver_pos, rc_rows, cc_cols })
}


/// The wire key of an event's start time.
pub open spec fn key_t_start_ms() -> Seq<char> {
    "tStartMs"@
}

/// The wire key of an event's duration.
pub open spec fn key_d_duration_ms() -> Seq<char> {
    "dDurationMs"@
}

/// The wire key of an event's id.
pub open spec fn key_id() -> Seq<char> {
    "id"@
}

/// The wire key of an event's window-position reference.
pub open spec fn key_wp_win_pos_id() -> Seq<char> {
    "wpWinPosId"@
}

/// The wire key of an event's window-style reference.
pub open spec fn key_ws_win_style_id() -> Seq<char> {
    "wsWinStyleId"@
}

/// The wire key of an event's window reference.
pub open spec fn key_w_win_id() -> Seq<char> {
    "wWinId"@
}

/// The wire key of an event's segment list.
pub open spec fn key_segs() -> Seq<char> {
    "segs"@
}

/// The wire key of an event's append flag.
pub open spec fn key_a_append() -> Seq<char> {
    "aAppend"@
}

/// Which trees decode to an event: an object with integer `tStartMs` and
/// `dDurationMs` each occurring exactly once, five independently optional
/// integer fields, and an optional `segs` array whose elements all decode to
/// segments.  An absent (or `null`) `segs` is kept distinct from an empty
/// one.
pub open spec fn spec_event_from_json(v: JsonRep) -> Option<EventRep> {
    match v {
        JsonRep::Obj(o) => if int_field_ok(o, key_t_start_ms()) && int_field_ok(
            o,
            key_d_duration_ms(),
        ) && opt_int_field_ok(o, key_id()) && opt_int_field_ok(o, key_wp_win_pos_id())
            && opt_int_field_ok(o, key_ws_win_style_id()) && opt_int_field_ok(o, key_w_win_id())
            && opt_int_field_ok(o, key_a_append()) && opt_arr_field_ok(o, key_segs()) && (match
        opt_arr_field(o, key_segs()) {
            Some(a) => spec_segs_from_json(a) is Some,
            None => true,
        }) {
            Some(
                EventRep {
                    t_start_ms: int_field(o, key_t_start_ms()),
                    d_duration_ms: int_field(o, key_d_duration_ms()),
                    id: opt_int_field(o, key_id()),
                    wp_win_pos_id: opt_int_field(o, key_wp_win_pos_id()),
                    ws_win_style_id: opt_int_field(o, key_ws_win_style_id()),
                    w_win_id: opt_int_field(o, key_w_win_id()),
                    segs: match opt_arr_field(o, key_segs()) {
                        Some(a) => Some(spec_segs_from_json(a)->0),
                        None => None,
                    },
                    a_append: opt_int_field(o, key_a_append()),
                },
            )
        } else {
            None
        },
        _ => None,
    }
}

/// Reads a required integer field: it must occur exactly once, as an
/// integer; anything else is a data violation.
fn get_req_int(o: &Vec<(String, JsonValue)>, k: &str) -> (r: Result<i64, JsonError>)
    ensures
        match r {
            Ok(n) => int_field_ok(members_rep(o@), k@) && int_field(members_rep(o@), k@)
                == n as int,
            Err(e) => !int_field_ok(members_rep(o@), k@) && e.kind is Data,
        },
{
    match get_field(o, k) {
        Err(e) => Err(e),
        Ok(None) => Err(data_err()),
        Ok(Some(v)) => match v {
            JsonValue::Int(n) => Ok(*n),
            _ => Err(data_err()),
        },
    }
}

/// Decodes one event from a JSON tree.
pub fn event_from_json(v: &JsonValue) -> (r: Result<Event, JsonError>)
    ensures
        match r {
            Ok(e) => spec_event_from_json(v@) == Some(e@),
            Err(e) => spec_event_from_json(v@) is None && e.kind is Data,
        },
{
    let o = match v {
        JsonValue::Obj(o) => o,
        _ => {
            return Err(data_err());
        },
    };
    let t_start_ms = match get_req_int(o, "tStartMs") {
        Ok(n) => n,
        Err(e) => {
            return Err(e);
        },
    };
    let d_duration_ms = match get_req_int(o, "dDurationMs") {
        Ok(n) => n,
        Err(e) => {
            return Err(e);
        },
    };
    let id = match get_opt_int(o, "id") {
        Ok(n) => n,
        Err(e) => {
            return Err(e);
        },
    };
    let wp_win_pos_id = match get_opt_int(o, "wpWinPosId") {
        Ok(n) => n,
        Err(e) => {
            return Err(e);
        },
    };
    let ws_win_style_id = match get_opt_int(o, "wsWinStyleId") {
        Ok(n) => n,
        Err(e) => {
            return Err(e);
        },
    };
    let w_win_id = match get_opt_int(o, "wWinId") {
        Ok(n) => n,
        Err(e) => {
            return Err(e);
        },
    };
    let a_append = match get_opt_int(o, "aAppend") {
        Ok(n) => n,
        Err(e) => {
            return Err(e);
        },
    };
    let segs: Option<Vec<Seg>> = match get_field(o, "segs") {
        Err(e) => {
            return Err(e);
        },
        Ok(None) => None,
        Ok(Some(f)) => match f {
            JsonValue::Null => None,
            JsonValue::Arr(a) => match segs_from_json(a) {
                Ok(ss) => Some(ss),
                Err(e) => {
                    return Err(e);
                },
            },
            _ => {
                return Err(data_err());
            },
        },
    };
    Ok(
        Event {
            t_start_ms,
            d_duration_ms,
            id,
            wp_win_pos_id,
            ws_win_style_id,
            w_win_id,
            segs,
            a_append,
        },
    )
}

/// Which element sequences decode to LOWER_pens lists: all of them must decode.
pub open spec fn spec_pens_from_json(a: Seq<JsonRep>) -> Option<Seq<PenRep>>
    decreases a.len(),
{
    if a.len() == 0 {
        Some(Seq::empty())
    } else {
        match (spec_pens_from_json(a.drop_last()), spec_pen_from_json(a.last())) {
            (Some(rest), Some(x)) => Some(rest.push(x)),
            _ => None,
        }
    }
}

/// If any element fails to decode, the whole list fails.
pub proof fn lemma_pens_elem_none(a: Seq<JsonRep>, j: int)
    requires
        0 <= j < a.len(),
        spec_pen_from_json(a[j]) is None,
    ensures
        spec_pens_from_json(a) is None,
    decreases a.len(),
{
    if j < a.len() - 1 {
        assert(a.drop_last()[j] == a[j]);
        lemma_pens_elem_none(a.drop_last(), j);
    }
}

/// Decodes an array of LOWER_pens, in order, failing fast.
pub fn pens_from_json(a: &Vec<JsonValue>) -> (r: Result<Vec<Pen>, JsonError>)
    ensures
        match r {
            Ok(xs) => spec_pens_from_json(jsons_rep(a@)) == Some(
                xs@.map_values(|x: Pen| x@),
            ),
            Err(e) => spec_pens_from_json(jsons_rep(a@)) is None && e.kind is Data,
        },
{
    let n = a.len();
    let mut out: Vec<Pen> = Vec::new();
    let mut i: usize = 0;
    while i < n
        invariant
            i <= n,
            n == a@.len(),
            spec_pens_from_json(jsons_rep(a@.take(i as int))) == Some(
                out@.map_values(|x: Pen| x@),
            ),
        decreases n - i,
    {
        proof {
            assert(a@.take(i + 1int).drop_last() =~= a@.take(i as int));
            assert(a@.take(i + 1int).last() == a@[i as int]);
            assert(jsons_rep(a@.take(i + 1int)) == jsons_rep(a@.take(i as int)).push(
                a@[i as int]@,
            ));
            assert(jsons_rep(a@.take(i as int)).push(a@[i as int]@).drop_last() =~= jsons_rep(
                a@.take(i as int),
            ));
            assert(jsons_rep(a@.take(i + 1int)).last() == a@[i as int]@);
        }
        match pen_from_json(&a[i]) {
            Ok(x) => {
                out.push(x);
                proof {
                    assert(out@.map_values(|x: Pen| x@).drop_last() =~= out@.drop_last().map_values(
                        |x: Pen| x@,
                    ));
                    assert(out@.map_values(|x: Pen| x@) =~= out@.drop_last().map_values(
                        |x: Pen| x@,
                    ).push(out@.last()@));
                }
            },
            Err(e) => {
                proof {
                    crate::json::lemma_jsons_rep(a@);
                    lemma_pens_elem_none(jsons_rep(a@), i as int);
                }
                return Err(e);
            },
        }
        i = i + 1;
    }
    proof {
        assert(a@.take(n as int) == a@);
    }
    Ok(out)
}

/// Which element sequences decode to LOWER_styles lists: all of them must decode.
pub open spec fn spec_styles_from_json(a: Seq<JsonRep>) -> Option<Seq<WsWinStyleRep>>
    decreases a.len(),
{
    if a.len() == 0 {
        Some(Seq::empty())
    } else {
        match (spec_styles_from_json(a.drop_last()), spec_style_from_json(a.last())) {
            (Some(rest), Some(x)) => Some(rest.push(x)),
            _ => None,
        }
    }
}

/// If any element fails to decode, the whole list fails.
pub proof fn lemma_styles_elem_none(a: Seq<JsonRep>, j: int)
    requires
        0 <= j < a.len(),
        spec_style_from_json(a[j]) is None,
    ensures
        spec_styles_from_json(a) is None,
    decreases a.len(),
{
    if j < a.len() - 1 {
        assert(a.drop_last()[j] == a[j]);
        lemma_styles_elem_none(a.drop_last(), j);
    }
}

/// Decodes an array of LOWER_styles, in order, failing fast.
pub fn styles_from_json(a: &Vec<JsonValue>) -> (r: Result<Vec<WsWinStyle>, JsonError>)
    ensures
        match r {
            Ok(xs) => spec_styles_from_json(jsons_rep(a@)) == Some(
                xs@.map_values(|x: WsWinStyle| x@),
            ),
            Err(e) => spec_styles_from_json(jsons_rep(a@)) is None && e.kind is Data,
        },
{
    let n = a.len();
    let mut out: Vec<WsWinStyle> = Vec::new();
    let mut i: usize = 0;
    while i < n
        invariant
            i <= n,
            n == a@.len(),
            spec_styles_from_json(jsons_rep(a@.take(i as int))) == Some(
                out@.map_values(|x: WsWinStyle| x@),
            ),
        decreases n - i,
    {
        proof {
            assert(a@.take(i + 1int).drop_last() =~= a@.take(i as int));
            assert(a@.take(i + 1int).last() == a@[i as int]);
            assert(jsons_rep(a@.take(i + 1int)) == jsons_rep(a@.take(i as int)).push(
                a@[i as int]@,
            ));
            assert(jsons_rep(a@.take(i as int)).push(a@[i as int]@).drop_last() =~= jsons_rep(
                a@.take(i as int),
            ));
            assert(jsons_rep(a@.take(i + 1int)).last() == a@[i as int]@);
        }
        match style_from_json(&a[i]) {
            Ok(x) => {
                out.push(x);
                proof {
                    assert(out@.map_values(|x: WsWinStyle| x@).drop_last() =~= out@.drop_last().map_values(
                        |x: WsWinStyle| x@,
                    ));
                    assert(out@.map_values(|x: WsWinStyle| x@) =~= out@.drop_last().map_values(
                        |x: WsWinStyle| x@,
                    ).push(out@.last()@));
                }
            },
            Err(e) => {
                proof {
                    crate::json::lemma_jsons_rep(a@);
                    lemma_styles_elem_none(jsons_rep(a@), i as int);
                }
                return Err(e);
            },
        }
        i = i + 1;
    }
    proof {
        assert(a@.take(n as int) == a@);
    }
    Ok(out)
}

/// Which element sequences decode to LOWER_positions lists: all of them must decode.
pub open spec fn spec_positions_from_json(a: Seq<JsonRep>) -> Option<Seq<WpWinPositionRep>>
    decreases a.len(),
{
    if a.len() == 0 {
        Some(Seq::empty())
    } else {
        match (spec_positions_from_json(a.drop_last()), spec_position_from_json(a.last())) {
            (Some(rest), Some(x)) => Some(rest.push(x)),
            _ => None,
        }
    }
}

/// If any element fails to decode, the whole list fails.
pub proof fn lemma_positions_elem_none(a: Seq<JsonRep>, j: int)
    requires
        0 <= j < a.len(),
        spec_position_from_json(a[j]) is None,
    ensures
        spec_positions_from_json(a) is None,
    decreases a.len(),
{
    if j < a.len() - 1 {
        assert(a.drop_last()[j] == a[j]);
        lemma_positions_elem_none(a.drop_last(), j);
    }
}

/// Decodes an array of LOWER_positions, in order, failing fast.
pub fn positions_from_json(a: &Vec<JsonValue>) -> (r: Result<Vec<WpWinPosition>, JsonError>)
    ensures
        match r {
            Ok(xs) => spec_positions_from_json(jsons_rep(a@)) == Some(
                xs@.map_values(|x: WpWinPosition| x@),
            ),
            Err(e) => spec_positions_from_json(jsons_rep(a@)) is None && e.kind is Data,
        },
{
    let n = a.len();
    let mut out: Vec<WpWinPosition> = Vec::new();
    let mut i: usize = 0;
    while i < n
        invariant
            i <= n,
            n == a@.len(),
            spec_positions_from_json(jsons_rep(a@.take(i as int))) == Some(
                out@.map_values(|x: WpWinPosition| x@),
            ),
        decreases n - i,
    {
        proof {
            assert(a@.take(i + 1int).drop_last() =~= a@.take(i as int));
            assert(a@.take(i + 1int).last() == a@[i as int]);
            assert(jsons_rep(a@.take(i + 1int)) == jsons_rep(a@.take(i as int)).push(
                a@[i as int]@,
            ));
            assert(jsons_rep(a@.take(i as int)).push(a@[i as int]@).drop_last() =~= jsons_rep(
                a@.take(i as int),
            ));
            assert(jsons_rep(a@.take(i + 1int)).last() == a@[i as int]@);
        }
        match position_from_json(&a[i]) {
            Ok(x) => {
                out.push(x);
                proof {
                    assert(out@.map_values(|x: WpWinPosition| x@).drop_last() =~= out@.drop_last().map_values(
                        |x: WpWinPosition| x@,
                    ));
                    assert(out@.map_values(|x: WpWinPosition| x@) =~= out@.drop_last().map_values(
                        |x: WpWinPosition| x@,
                    ).push(out@.last()@));
                }
            },
            Err(e) => {
                proof {
                    crate::json::lemma_jsons_rep(a@);
                    lemma_positions_elem_none(jsons_rep(a@), i as int);
                }
                return Err(e);
            },
        }
        i = i + 1;
    }
    proof {
        assert(a@.take(n as int) == a@);
    }
    Ok(out)
}

/// Which element sequences decode to LOWER_events lists: all of them must decode.
pub open spec fn spec_events_from_json(a: Seq<JsonRep>) -> Option<Seq<EventRep>>
    decreases a.len(),
{
    if a.len() == 0 {
        Some(Seq::empty())
    } else {
        match (spec_events_from_json(a.drop_last()), spec_event_from_json(a.last())) {
            (Some(rest), Some(x)) => Some(rest.push(x)),
            _ => None,
        }
    }
}

/// If any element fails to decode, the whole list fails.
pub proof fn lemma_events_elem_none(a: Seq<JsonRep>, j: int)
    requires
        0 <= j < a.len(),
        spec_event_from_json(a[j]) is None,
    ensures
        spec_events_from_json(a) is None,
    decreases a.len(),
{
    if j < a.len() - 1 {
        assert(a.drop_last()[j] == a[j]);
        lemma_events_elem_none(a.drop_last(), j);
    }
}

/// Decodes an array of LOWER_events, in order, failing fast.
pub fn events_from_json(a: &Vec<JsonValue>) -> (r: Result<Vec<Event>, JsonError>)
    ensures
        match r {
            Ok(xs) => spec_events_from_json(jsons_rep(a@)) == Some(
                xs@.map_values(|x: Event| x@),
            ),
            Err(e) => spec_events_from_json(jsons_rep(a@)) is None && e.kind is Data,
        },
{
    let n = a.len();
    let mut out: Vec<Event> = Vec::new();
    let mut i: usize = 0;
    while i < n
        invariant
            i <= n,
            n == a@.len(),
            spec_events_from_json(jsons_rep(a@.take(i as int))) == Some(
                out@.map_values(|x: Event| x@),
            ),
        decreases n - i,
    {
        proof {
            assert(a@.take(i + 1int).drop_last() =~= a@.take(i as int));
            assert(a@.take(i + 1int).last() == a@[i as int]);
            assert(jsons_rep(a@.take(i + 1int)) == jsons_rep(a@.take(i as int)).push(
                a@[i as int]@,
            ));
            assert(jsons_rep(a@.take(i as int)).push(a@[i as int]@).drop_last() =~= jsons_rep(
                a@.take(i as int),
            ));
            assert(jsons_rep(a@.take(i + 1int)).last() == a@[i as int]@);
        }
        match event_from_json(&a[i]) {
            Ok(x) => {
                out.push(x);
                proof {
                    assert(out@.map_values(|x: Event| x@).drop_last() =~= out@.drop_last().map_values(
                        |x: Event| x@,
                    ));
                    assert(out@.map_values(|x: Event| x@) =~= out@.drop_last().map_values(
                        |x: Event| x@,
                    ).push(out@.last()@));
                }
            },
            Err(e) => {
                proof {
                    crate::json::lemma_jsons_rep(a@);
                    lemma_events_elem_none(jsons_rep(a@), i as int);
                }
                return Err(e);
            },
        }
        i = i + 1;
    }
    proof {
        assert(a@.take(n as int) == a@);
    }
    Ok(out)
}


/// The wire key of the transcript's format tag.
pub open spec fn key_wire_magic() -> Seq<char> {
    "wireMagic"@
}

/// The wire key of the transcript's pens.
pub open spec fn key_pens() -> Seq<char> {
    "pens"@
}

/// The wire key of the transcript's window styles.
pub open spec fn key_ws_win_styles() -> Seq<char> {
    "wsWinStyles"@
}

/// The wire key of the transcript's window positions.
pub open spec fn key_wp_win_positions() -> Seq<char> {
    "wpWinPositions"@
}

/// The wire key of the transcript's timeline.
pub open spec fn key_events() -> Seq<char> {
    "events"@
}

/// Which trees decode to a transcript, and to what: an object whose
/// `wireMagic` is a string (any string: format-variant branching is the
/// caller's business) and whose four collections are each present exactly
/// once as arrays, possibly empty, with every element decoding.  Unknown
/// keys are ignored.
pub open spec fn spec_transcript_from_json(v: JsonRep) -> Option<TranscriptRep> {
    match v {
        JsonRep::Obj(o) => if str_field_ok(o, key_wire_magic()) && arr_field_ok(o, key_pens())
            && arr_field_ok(o, key_ws_win_styles()) && arr_field_ok(o, key_wp_win_positions())
            && arr_field_ok(o, key_events()) && spec_pens_from_json(
            arr_field(o, key_pens()),
        ) is Some && spec_styles_from_json(arr_field(o, key_ws_win_styles())) is Some
            && spec_positions_from_json(arr_field(o, key_wp_win_positions())) is Some
            && spec_events_from_json(arr_field(o, key_events())) is Some {
            Some(
                TranscriptRep {
                    wire_magic: str_field(o, key_wire_magic()),
                    pens: spec_pens_from_json(arr_field(o, key_pens()))->0,
                    ws_win_styles: spec_styles_from_json(arr_field(o, key_ws_win_styles()))->0,
                    wp_win_positions: spec_positions_from_json(
                        arr_field(o, key_wp_win_positions()),
                    )->0,
                    events: spec_events_from_json(arr_field(o, key_events()))->0,
                },
            )
        } else {
            None
        },
        _ => None,
    }
}

/// Reads a required string field: it must occur exactly once, as a string.
fn get_req_str(o: &Vec<(String, JsonValue)>, k: &str) -> (r: Result<String, JsonError>)
    ensures
        match r {
            Ok(w) => str_field_ok(members_rep(o@), k@) && str_field(members_rep(o@), k@) == w@,
            Err(e) => !str_field_ok(members_rep(o@), k@) && e.kind is Data,
        },
{
    match get_field(o, k) {
        Err(e) => Err(e),
        Ok(None) => Err(data_err()),
        Ok(Some(v)) => match v {
            JsonValue::Str(w) => Ok(w.clone()),
            _ => Err(data_err()),
        },
    }
}

/// Reads a required array field: it must occur exactly once, as an array.
fn get_req_arr<'a>(o: &'a Vec<(String, JsonValue)>, k: &str) -> (r: Result<
    &'a Vec<JsonValue>,
    JsonError,
>)
    ensures
        match r {
            Ok(a) => arr_field_ok(members_rep(o@), k@) && arr_field(members_rep(o@), k@)
                == jsons_rep(a@),
            Err(e) => !arr_field_ok(members_rep(o@), k@) && e.kind is Data,
        },
{
    match get_field(o, k) {
        Err(e) => Err(e),
        Ok(None) => Err(data_err()),
        Ok(Some(v)) => match v {
            JsonValue::Arr(a) => Ok(a),
            _ => Err(data_err()),
        },
    }
}

/// Decodes a whole transcript from a JSON tree, enforcing the root
/// contract: `wireMagic` a string, `pens`, `wsWinStyles`, `wpWinPositions`
/// and `events` arrays, each exactly once, every element well-formed.
pub fn transcript_from_json(v: &JsonValue) -> (r: Result<Transcript, JsonError>)
    ensures
        match r {
            Ok(t) => spec_transcript_from_json(v@) == Some(t@),
            Err(e) => spec_transcript_from_json(v@) is None && e.kind is Data,
        },
{
    let o = match v {
        JsonValue::Obj(o) => o,
        _ => {
            return Err(data_err());
        },
    };
    let wire_magic = match get_req_str(o, "wireMagic") {
        Ok(w) => w,
        Err(e) => {
            return Err(e);
        },
    };
    let pens = match get_req_arr(o, "pens") {
        Ok(a) => match pens_from_json(a) {
            Ok(xs) => xs,
            Err(e) => {
                return Err(e);
            },
        },
        Err(e) => {
            return Err(e);
        },
    };
    let ws_win_styles = match get_req_arr(o, "wsWinStyles") {
        Ok(a) => match styles_from_json(a) {
            Ok(xs) => xs,
            Err(e) => {
                return Err(e);
            },
        },
        Err(e) => {
            return Err(e);
        },
    };
    let wp_win_positions = match get_req_arr(o, "wpWinPositions") {
        Ok(a) => match positions_from_json(a) {
            Ok(xs) => xs,
            Err(e) => {
                return Err(e);
            },
        },
        Err(e) => {
            return Err(e);
        },
    };
    let events = match get_req_arr(o, "events") {
        Ok(a) => match events_from_json(a) {
            Ok(xs) => xs,
            Err(e) => {
                return Err(e);
            },
        },
        Err(e) => {
            return Err(e);
        },
    };
    Ok(Transcript { wire_magic, pens, ws_win_styles, wp_win_positions, events })
}

} // verus!
