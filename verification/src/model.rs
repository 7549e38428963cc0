//! The typed transcript model.
//!
//! All records are immutable value aggregates: the decoder constructs them
//! exactly once from one input source and never mutates them afterwards.
//! Optional integer fields distinguish "unset / inherit" (`None`) from zero;
//! an event's `segs` distinguishes "no caption payload at all" (`None`) from
//! "an empty list of segments" (`Some` of an empty vector).
//!
//! `Event.wp_win_pos_id`, `ws_win_style_id` and `w_win_id` are unvalidated
//! references into the corresponding collections: the decoder does not check
//! that they resolve, and dangling references are representable.

use vstd::prelude::*;

verus! {

/// A caption text fragment within an event.
pub struct Seg {
    /// The fragment's text; required, possibly empty.
    pub utf8: String,
    /// Automatic-speech-recognition confidence, when the source supplies it.
    pub ac_asr_conf: Option<i64>,
    /// Millisecond offset of this fragment within its parent event.
    pub t_offset_ms: Option<i64>,
}

/// A timed caption event.
pub struct Event {
    /// Start time in milliseconds; required, any integer.
    pub t_start_ms: i64,
    /// Duration in milliseconds; required, any integer.
    pub d_duration_ms: i64,
    pub id: Option<i64>,
    /// Unvalidated reference into the window positions.
    pub wp_win_pos_id: Option<i64>,
    /// Unvalidated reference into the window styles.
    pub ws_win_style_id: Option<i64>,
    pub w_win_id: Option<i64>,
    /// The caption text payload; `None` means the event carries none at all,
    /// which is distinct from an empty list.
    pub segs: Option<Vec<Seg>>,
    pub a_append: Option<i64>,
}

/// A pen record.  The format currently defines no pen fields; the record is
/// a placeholder aggregate kept for forward compatibility.
pub struct Pen {}

/// A window position record; rendering metadata, all fields optional.
pub struct WpWinPosition {
    pub ap_point: Option<i64>,
    pub ah_hor_pos: Option<i64>,
    pub av_ver_pos: Option<i64>,
    pub rc_rows: Option<i64>,
    pub cc_cols: Option<i64>,
}

/// A window style record; rendering metadata, all fields optional.
pub struct WsWinStyle {
    pub mh_mode_hint: Option<i64>,
    pub ju_justif_code: Option<i64>,
    pub sd_scroll_dir: Option<i64>,
}

/// The root aggregate: one decoded transcript.
pub struct Transcript {
    /// The wire-format variant tag; required.  The decoder accepts any
    /// string value here; restricting it to known variants is the caller's
    /// business.
    pub wire_magic: String,
    /// Pens, in source order.
    pub pens: Vec<Pen>,
    /// Window styles, in source order.
    pub ws_win_styles: Vec<WsWinStyle>,
    /// Window positions, in source order.
    pub wp_win_positions: Vec<WpWinPosition>,
    /// The timeline, in source order (not necessarily sorted by start time).
    pub events: Vec<Event>,
}

/// The mathematical value of an optional machine integer.
pub open spec fn opt_int(o: Option<i64>) -> Option<int> {
    match o {
        Some(n) => Some(n as int),
        None => None,
    }
}

/// The mathematical shape of a [`Seg`].
pub struct SegRep {
    pub utf8: Seq<char>,
    pub ac_asr_conf: Option<int>,
    pub t_offset_ms: Option<int>,
}

impl View for Seg {
    type V = SegRep;

    open spec fn view(&self) -> SegRep {
        SegRep {
            utf8: self.utf8@,
            ac_asr_conf: opt_int(self.ac_asr_conf),
            t_offset_ms: opt_int(self.t_offset_ms),
        }
    }
}

/// The mathematical shape of an [`Event`].
pub struct EventRep {
    pub t_start_ms: int,
    pub d_duration_ms: int,
    pub id: Option<int>,
    pub wp_win_pos_id: Option<int>,
    pub ws_win_style_id: Option<int>,
    pub w_win_id: Option<int>,
    pub segs: Option<Seq<SegRep>>,
    pub a_append: Option<int>,
}

/// The views of a sequence of segments.
pub open spec fn segs_rep(s: Seq<Seg>) -> Seq<SegRep> {
    s.map_values(|x: Seg| x@)
}

impl View for Event {
    type V = EventRep;

    open spec fn view(&self) -> EventRep {
        EventRep {
            t_start_ms: self.t_start_ms as int,
            d_duration_ms: self.d_duration_ms as int,
            id: opt_int(self.id),
            wp_win_pos_id: opt_int(self.wp_win_pos_id),
            ws_win_style_id: opt_int(self.ws_win_style_id),
            w_win_id: opt_int(self.w_win_id),
            segs: match self.segs {
                Some(v) => Some(segs_rep(v@)),
                None => None,
            },
            a_append: opt_int(self.a_append),
        }
    }
}

/// The mathematical shape of a [`Pen`].
pub struct PenRep {}

impl View for Pen {
    type V = PenRep;

    open spec fn view(&self) -> PenRep {
        PenRep {}
    }
}

/// The mathematical shape of a [`WpWinPosition`].
pub struct WpWinPositionRep {
    pub ap_point: Option<int>,
    pub ah_hor_pos: Option<int>,
    pub av_ver_pos: Option<int>,
    pub rc_rows: Option<int>,
    pub cc_cols: Option<int>,
}

impl View for WpWinPosition {
    type V = WpWinPositionRep;

    open spec fn view(&self) -> WpWinPositionRep {
        WpWinPositionRep {
            ap_point: opt_int(self.ap_point),
            ah_hor_pos: opt_int(self.ah_hor_pos),
            av_ver_pos: opt_int(self.av_ver_pos),
            rc_rows: opt_int(self.rc_rows),
            cc_cols: opt_int(self.cc_cols),
        }
    }
}

/// The mathematical shape of a [`WsWinStyle`].
pub struct WsWinStyleRep {
    pub mh_mode_hint: Option<int>,
    pub ju_justif_code: Option<int>,
    pub sd_scroll_dir: Option<int>,
}

impl View for WsWinStyle {
    type V = WsWinStyleRep;

    open spec fn view(&self) -> WsWinStyleRep {
        WsWinStyleRep {
            mh_mode_hint: opt_int(self.mh_mode_hint),
            ju_justif_code: opt_int(self.ju_justif_code),
            sd_scroll_dir: opt_int(self.sd_scroll_dir),
        }
    }
}

/// The mathematical shape of a [`Transcript`].
pub struct TranscriptRep {
    pub wire_magic: Seq<char>,
    pub pens: Seq<PenRep>,
    pub ws_win_styles: Seq<WsWinStyleRep>,
    pub wp_win_positions: Seq<WpWinPositionRep>,
    pub events: Seq<EventRep>,
}

impl View for Transcript {
    type V = TranscriptRep;

    open spec fn view(&self) -> TranscriptRep {
        TranscriptRep {
            wire_magic: self.wire_magic@,
            pens: self.pens@.map_values(|x: Pen| x@),
            ws_win_styles: self.ws_win_styles@.map_values(|x: WsWinStyle| x@),
            wp_win_positions: self.wp_win_positions@.map_values(|x: WpWinPosition| x@),
            events: self.events@.map_values(|x: Event| x@),
        }
    }
}


/// An optional integer that fits the machine's `i64`.
pub open spec fn opt_int_wf(o: Option<int>) -> bool {
    o matches Some(n) ==> i64::MIN <= n <= i64::MAX
}

/// A segment shape whose integers fit `i64`.
pub open spec fn seg_rep_wf(s: SegRep) -> bool {
    opt_int_wf(s.ac_asr_conf) && opt_int_wf(s.t_offset_ms)
}

/// An event shape whose integers fit `i64`.
pub open spec fn event_rep_wf(e: EventRep) -> bool {
    &&& i64::MIN <= e.t_start_ms <= i64::MAX
    &&& i64::MIN <= e.d_duration_ms <= i64::MAX
    &&& opt_int_wf(e.id)
    &&& opt_int_wf(e.wp_win_pos_id)
    &&& opt_int_wf(e.ws_win_style_id)
    &&& opt_int_wf(e.w_win_id)
    &&& opt_int_wf(e.a_append)
    &&& (e.segs matches Some(ss) ==> forall|j: int|
        0 <= j < ss.len() ==> seg_rep_wf(#[trigger] ss[j]))
}

/// A window style shape whose integers fit `i64`.
pub open spec fn style_rep_wf(w: WsWinStyleRep) -> bool {
    opt_int_wf(w.mh_mode_hint) && opt_int_wf(w.ju_justif_code) && opt_int_wf(w.sd_scroll_dir)
}

/// A window position shape whose integers fit `i64`.
pub open spec fn position_rep_wf(w: WpWinPositionRep) -> bool {
    &&& opt_int_wf(w.ap_point)
    &&& opt_int_wf(w.ah_hor_pos)
    &&& opt_int_wf(w.av_ver_pos)
    &&& opt_int_wf(w.rc_rows)
    &&& opt_int_wf(w.cc_cols)
}

/// A transcript shape whose integers fit `i64`.  The view of every
/// [`Transcript`] value is of this shape.
pub open spec fn transcript_rep_wf(t: TranscriptRep) -> bool {
    &&& (forall|i: int| 0 <= i < t.ws_win_styles.len() ==> style_rep_wf(
        #[trigger] t.ws_win_styles[i],
    ))
    &&& (forall|i: int| 0 <= i < t.wp_win_positions.len() ==> position_rep_wf(
        #[trigger] t.wp_win_positions[i],
    ))
    &&& (forall|i: int| 0 <= i < t.events.len() ==> event_rep_wf(#[trigger] t.events[i]))
}

/// The view of a machine transcript always fits: its integers came from
/// `i64` fields.
pub proof fn lemma_transcript_view_wf(t: Transcript)
    ensures
        transcript_rep_wf(t@),
{
    assert forall|i: int| 0 <= i < t@.events.len() implies event_rep_wf(
        #[trigger] t@.events[i],
    ) by {
        assert(t@.events[i] == t.events@[i]@);
        let e = t.events@[i];
        match e.segs {
            Some(v) => {
                assert forall|j: int| 0 <= j < e@.segs.unwrap().len() implies seg_rep_wf(
                    #[trigger] e@.segs.unwrap()[j],
                ) by {
                    assert(e@.segs.unwrap()[j] == v@[j]@);
                }
            },
            None => {
            },
        }
    }
    assert forall|i: int| 0 <= i < t@.ws_win_styles.len() implies style_rep_wf(
        #[trigger] t@.ws_win_styles[i],
    ) by {
        assert(t@.ws_win_styles[i] == t.ws_win_styles@[i]@);
    }
    assert forall|i: int| 0 <= i < t@.wp_win_positions.len() implies position_rep_wf(
        #[trigger] t@.wp_win_positions[i],
    ) by {
        assert(t@.wp_win_positions[i] == t.wp_win_positions@[i]@);
    }
}

} // verus!
