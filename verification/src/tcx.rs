//! The TCX dialect: `<TrainingCenterDatabase>` / `<Activity>` / `<Lap>` /
//! `<Track>` / `<Trackpoint>` / `<Position>`.
//!
//! Same shape as the GPX parser: one forward pass, an explicit stack of
//! recognized containers, unrecognized elements transparent.  A
//! `<Trackpoint>` whose nearest recognized container is not a `<Track>` is a
//! structural violation; a record whose `<Position>` lacks a latitude or
//! longitude is dropped; a malformed coordinate or time token is fatal.
//!
//! Filtering short-circuits on the `Sport` attribute of `<Activity>` and on
//! the `StartTime` attribute of `<Lap>`: a mismatch skips the rest of that
//! activity or lap without validating it.  Within one document the points of
//! the last completed track of the last completed lap of the last completed
//! activity are the result.

use vstd::prelude::*;

use crate::model::ParseError;
use crate::model::Point;
use crate::model::TrkPt;
use crate::num::parse_decimal;
use crate::num::spec_parse_decimal;
use crate::xml::XmlEvent;
use crate::xml::XmlEventV;
use crate::xml::find_attr;
use crate::xml::parse_timestamp;
use crate::xml::spec_find_attr;
use crate::xml::str_eq;
use crate::xml::utc_seconds_of;
use crate::gpx::spec_toks;
use crate::gpx::spec_token_match;
use crate::gpx::token_match;

verus! {

broadcast use vstd::string::group_string_axioms;

/// A recognized open container of the TCX grammar.
#[derive(Clone, Copy, Debug, PartialEq, Eq, Structural)]
pub enum TcxCtx {
    Activity,
    Lap,
    Track,
    Trackpoint,
    Position,
    LatDeg,
    LngDeg,
    TimePoint,
}

/// How the parser proceeds after an event.
#[derive(Clone, Copy, Debug, PartialEq, Eq, Structural)]
pub enum TcxMode {
    /// Reading normally.
    Running,
    /// The current activity failed the sport filter: skipped to its end.
    SkipActivity,
    /// The current lap fell outside the time window: skipped to its end.
    SkipLap,
    /// A fatal error; the first one wins.
    Failed(ParseError),
}

/// The parser's whole state between two events.
pub struct TcxState {
    /// Stack of recognized open containers.
    pub ctx: Vec<TcxCtx>,
    /// Points of the currently open track.
    pub track: Vec<TrkPt>,
    /// Points of the last track completed within the current lap.
    pub lap: Vec<TrkPt>,
    /// Points of the last lap completed within the current activity.
    pub act: Vec<TrkPt>,
    /// Points of the last activity completed within the document.
    pub doc: Vec<TrkPt>,
    /// Latitude inside the currently open position, when seen and valid.
    pub pos_lat: Option<i64>,
    /// Longitude inside the currently open position.
    pub pos_lng: Option<i64>,
    /// The completed position of the currently open point record.
    pub pending_pos: Option<Point>,
    /// The timestamp of the currently open point record.
    pub pending_time: Option<i64>,
    /// The mode.
    pub mode: TcxMode,
}

/// The mathematical image of a `TcxState`.
pub struct TcxStateV {
    pub ctx: Seq<TcxCtx>,
    pub track: Seq<TrkPt>,
    pub lap: Seq<TrkPt>,
    pub act: Seq<TrkPt>,
    pub doc: Seq<TrkPt>,
    pub pos_lat: Option<i64>,
    pub pos_lng: Option<i64>,
    pub pending_pos: Option<Point>,
    pub pending_time: Option<i64>,
    pub mode: TcxMode,
}

impl View for TcxState {
    type V = TcxStateV;

    open spec fn view(&self) -> TcxStateV {
        TcxStateV {
            ctx: self.ctx@,
            track: self.track@,
            lap: self.lap@,
            act: self.act@,
            doc: self.doc@,
            pos_lat: self.pos_lat,
            pos_lng: self.pos_lng,
            pending_pos: self.pending_pos,
            pending_time: self.pending_time,
            mode: self.mode,
        }
    }
}

/// The state before any event.
pub open spec fn spec_tcx_init() -> TcxStateV {
    TcxStateV {
        ctx: Seq::empty(),
        track: Seq::empty(),
        lap: Seq::empty(),
        act: Seq::empty(),
        doc: Seq::empty(),
        pos_lat: None,
        pos_lng: None,
        pending_pos: None,
        pending_time: None,
        mode: TcxMode::Running,
    }
}

/// The recognized container the parser currently stands in, if any.
pub open spec fn spec_tcx_top(s: TcxStateV) -> Option<TcxCtx> {
    if s.ctx.len() > 0 {
        Some(s.ctx.last())
    } else {
        None
    }
}

/// Fails the parse with `e`.
pub open spec fn spec_tcx_fail(s: TcxStateV, e: ParseError) -> TcxStateV {
    TcxStateV { mode: TcxMode::Failed(e), ..s }
}

/// One step of the TCX state machine.
pub open spec fn spec_tcx_step(
    s: TcxStateV,
    e: XmlEventV,
    toks: Option<Seq<Seq<char>>>,
    start: Option<i64>,
    end: Option<i64>,
) -> TcxStateV {
    match s.mode {
        TcxMode::Failed(_) => s,
        TcxMode::SkipActivity => match e {
            XmlEventV::Malformed => spec_tcx_fail(s, ParseError::StructuralViolation),
            XmlEventV::End(name) => if name == "Activity"@ {
                TcxStateV { mode: TcxMode::Running, ..s }
            } else {
                s
            },
            _ => s,
        },
        TcxMode::SkipLap => match e {
            XmlEventV::Malformed => spec_tcx_fail(s, ParseError::StructuralViolation),
            XmlEventV::End(name) => if name == "Lap"@ {
                TcxStateV { mode: TcxMode::Running, ..s }
            } else {
                s
            },
            _ => s,
        },
        TcxMode::Running => match e {
            XmlEventV::Decl => s,
            XmlEventV::Other => s,
            XmlEventV::Malformed => spec_tcx_fail(s, ParseError::StructuralViolation),
            XmlEventV::Start(name, attrs) => spec_tcx_start(s, name, attrs, toks, start, end),
            XmlEventV::Text(t) => spec_tcx_text(s, t),
            XmlEventV::End(name) => spec_tcx_end(s, name),
        },
    }
}

/// A start tag while running.
pub open spec fn spec_tcx_start(
    s: TcxStateV,
    name: Seq<char>,
    attrs: Seq<(Seq<char>, Seq<char>)>,
    toks: Option<Seq<Seq<char>>>,
    start: Option<i64>,
    end: Option<i64>,
) -> TcxStateV {
    if name == "Activity"@ {
        if s.ctx.len() == 0 {
            let entered = TcxStateV { ctx: s.ctx.push(TcxCtx::Activity), act: Seq::empty(), ..s };
            match toks {
                None => entered,
                Some(tk) => match spec_find_attr(attrs, "Sport"@) {
                    None => entered,
                    Some(sport) => if spec_token_match(tk, sport) {
                        entered
                    } else {
                        TcxStateV { doc: Seq::empty(), mode: TcxMode::SkipActivity, ..s }
                    },
                },
            }
        } else {
            s
        }
    } else if name == "Lap"@ {
        if spec_tcx_top(s) == Some(TcxCtx::Lap) || spec_tcx_top(s) != Some(TcxCtx::Activity) {
            s
        } else {
            let entered = TcxStateV { ctx: s.ctx.push(TcxCtx::Lap), lap: Seq::empty(), ..s };
            if start is Some || end is Some {
                match spec_find_attr(attrs, "StartTime"@) {
                    None => entered,
                    Some(t) => match utc_seconds_of(t) {
                        None => spec_tcx_fail(s, ParseError::NumericFormat),
                        Some(v) => {
                            let before = match start {
                                Some(lo) => v < lo,
                                None => false,
                            };
                            let after = match end {
                                Some(hi) => v > hi,
                                None => false,
                            };
                            if before || after {
                                TcxStateV { act: Seq::empty(), mode: TcxMode::SkipLap, ..s }
                            } else {
                                entered
                            }
                        },
                    },
                }
            } else {
                entered
            }
        }
    } else if name == "Track"@ {
        if spec_tcx_top(s) == Some(TcxCtx::Lap) {
            TcxStateV { ctx: s.ctx.push(TcxCtx::Track), track: Seq::empty(), ..s }
        } else {
            s
        }
    } else if name == "Trackpoint"@ {
        if spec_tcx_top(s) == Some(TcxCtx::Track) {
            TcxStateV {
                ctx: s.ctx.push(TcxCtx::Trackpoint),
                pending_pos: None,
                pending_time: None,
                ..s
            }
        } else {
            spec_tcx_fail(s, ParseError::StructuralViolation)
        }
    } else if name == "Position"@ {
        if spec_tcx_top(s) == Some(TcxCtx::Trackpoint) {
            TcxStateV { ctx: s.ctx.push(TcxCtx::Position), pos_lat: None, pos_lng: None, ..s }
        } else {
            s
        }
    } else if name == "LatitudeDegrees"@ {
        if spec_tcx_top(s) == Some(TcxCtx::Position) {
            TcxStateV { ctx: s.ctx.push(TcxCtx::LatDeg), ..s }
        } else {
            s
        }
    } else if name == "LongitudeDegrees"@ {
        if spec_tcx_top(s) == Some(TcxCtx::Position) {
            TcxStateV { ctx: s.ctx.push(TcxCtx::LngDeg), ..s }
        } else {
            s
        }
    } else if name == "Time"@ {
        if spec_tcx_top(s) == Some(TcxCtx::Trackpoint) {
            TcxStateV { ctx: s.ctx.push(TcxCtx::TimePoint), ..s }
        } else {
            s
        }
    } else {
        s
    }
}

/// A text node while running.
pub open spec fn spec_tcx_text(s: TcxStateV, t: Seq<char>) -> TcxStateV {
    if spec_tcx_top(s) == Some(TcxCtx::LatDeg) {
        match spec_parse_decimal(t) {
            None => spec_tcx_fail(s, ParseError::NumericFormat),
            Some(v) => TcxStateV { pos_lat: Some(v), ..s },
        }
    } else if spec_tcx_top(s) == Some(TcxCtx::LngDeg) {
        match spec_parse_decimal(t) {
            None => spec_tcx_fail(s, ParseError::NumericFormat),
            Some(v) => TcxStateV { pos_lng: Some(v), ..s },
        }
    } else if spec_tcx_top(s) == Some(TcxCtx::TimePoint) {
        match utc_seconds_of(t) {
            None => spec_tcx_fail(s, ParseError::NumericFormat),
            Some(v) => TcxStateV { pending_time: Some(v), ..s },
        }
    } else {
        s
    }
}

/// An end tag while running.
pub open spec fn spec_tcx_end(s: TcxStateV, name: Seq<char>) -> TcxStateV {
    if spec_tcx_top(s) == Some(TcxCtx::LatDeg) && name == "LatitudeDegrees"@ {
        TcxStateV { ctx: s.ctx.drop_last(), ..s }
    } else if spec_tcx_top(s) == Some(TcxCtx::LngDeg) && name == "LongitudeDegrees"@ {
        TcxStateV { ctx: s.ctx.drop_last(), ..s }
    } else if spec_tcx_top(s) == Some(TcxCtx::TimePoint) && name == "Time"@ {
        TcxStateV { ctx: s.ctx.drop_last(), ..s }
    } else if spec_tcx_top(s) == Some(TcxCtx::Position) && name == "Position"@ {
        let pos = match (s.pos_lat, s.pos_lng) {
            (Some(lat), Some(lng)) => Some(Point { lat, lng }),
            _ => None,
        };
        TcxStateV {
            ctx: s.ctx.drop_last(),
            pending_pos: pos,
            pos_lat: None,
            pos_lng: None,
            ..s
        }
    } else if spec_tcx_top(s) == Some(TcxCtx::Trackpoint) && name == "Trackpoint"@ {
        let popped = TcxStateV {
            ctx: s.ctx.drop_last(),
            pending_pos: None,
            pending_time: None,
            ..s
        };
        match s.pending_pos {
            Some(p) => TcxStateV {
                track: s.track.push(TrkPt { center: p, time: s.pending_time }),
                ..popped
            },
            None => popped,
        }
    } else if spec_tcx_top(s) == Some(TcxCtx::Track) && name == "Track"@ {
        TcxStateV { ctx: s.ctx.drop_last(), lap: s.track, track: Seq::empty(), ..s }
    } else if spec_tcx_top(s) == Some(TcxCtx::Lap) && name == "Lap"@ {
        TcxStateV { ctx: s.ctx.drop_last(), act: s.lap, lap: Seq::empty(), ..s }
    } else if spec_tcx_top(s) == Some(TcxCtx::Activity) && name == "Activity"@ {
        TcxStateV { ctx: s.ctx.drop_last(), doc: s.act, act: Seq::empty(), ..s }
    } else {
        s
    }
}

/// What the whole document yields once every event is consumed.
pub open spec fn spec_tcx_finalize(s: TcxStateV) -> Result<Seq<TrkPt>, ParseError> {
    match s.mode {
        TcxMode::Failed(e) => Err(e),
        TcxMode::SkipActivity => Err(ParseError::Truncated),
        TcxMode::SkipLap => Err(ParseError::Truncated),
        TcxMode::Running => if s.ctx.len() > 0 {
            Err(ParseError::Truncated)
        } else {
            Ok(s.doc)
        },
    }
}

/// Folds the state machine over `events[i..]` and finalizes.
pub open spec fn spec_tcx_run(
    events: Seq<XmlEventV>,
    i: int,
    s: TcxStateV,
    toks: Option<Seq<Seq<char>>>,
    start: Option<i64>,
    end: Option<i64>,
) -> Result<Seq<TrkPt>, ParseError>
    decreases events.len() - i,
{
    if i < 0 || i >= events.len() {
        spec_tcx_finalize(s)
    } else {
        spec_tcx_run(events, i + 1, spec_tcx_step(s, events[i], toks, start, end), toks, start, end)
    }
}

/// What parsing a TCX event stream from position `from` yields.
pub open spec fn spec_parse_tcx(
    events: Seq<XmlEventV>,
    from: int,
    toks: Option<Seq<Seq<char>>>,
    start: Option<i64>,
    end: Option<i64>,
) -> Result<Seq<TrkPt>, ParseError> {
    spec_tcx_run(events, from, spec_tcx_init(), toks, start, end)
}

/// The recognized container the parser currently stands in, if any.
fn tcx_top_of(ctx: &Vec<TcxCtx>) -> (r: Option<TcxCtx>)
    ensures
        r == (if ctx@.len() > 0 {
            Some(ctx@.last())
        } else {
            None::<TcxCtx>
        }),
{
    if ctx.len() > 0 {
        Some(ctx[ctx.len() - 1])
    } else {
        None
    }
}

/// One exec step of the TCX state machine, mirroring `spec_tcx_step`.
pub(crate) fn tcx_step(
    s: TcxState,
    e: &XmlEvent,
    toks: &Option<Vec<String>>,
    start: Option<i64>,
    end: Option<i64>,
) -> (t: TcxState)
    ensures
        t@ == spec_tcx_step(s@, e@, spec_toks(toks), start, end),
{
    let mut s = s;
    match s.mode {
        TcxMode::Failed(_) => s,
        TcxMode::SkipActivity => {
            match e {
                XmlEvent::Malformed => {
                    s.mode = TcxMode::Failed(ParseError::StructuralViolation);
                    s
                },
                XmlEvent::End(name) => {
                    if str_eq(name, "Activity") {
                        s.mode = TcxMode::Running;
                    }
                    s
                },
                _ => s,
            }
        },
        TcxMode::SkipLap => {
            match e {
                XmlEvent::Malformed => {
                    s.mode = TcxMode::Failed(ParseError::StructuralViolation);
                    s
                },
                XmlEvent::End(name) => {
                    if str_eq(name, "Lap") {
                        s.mode = TcxMode::Running;
                    }
                    s
                },
                _ => s,
            }
        },
        TcxMode::Running => {
            match e {
                XmlEvent::Decl => s,
                XmlEvent::Other => s,
                XmlEvent::Malformed => {
                    s.mode = TcxMode::Failed(ParseError::StructuralViolation);
                    s
                },
                XmlEvent::Start(name, attrs) => tcx_start(s, name, attrs, toks, start, end),
                XmlEvent::Text(t) => tcx_text(s, t),
                XmlEvent::End(name) => tcx_end(s, name),
            }
        },
    }
}

/// A start tag while running; mirrors `spec_tcx_start`.
fn tcx_start(
    s: TcxState,
    name: &String,
    attrs: &Vec<(String, String)>,
    toks: &Option<Vec<String>>,
    start: Option<i64>,
    end: Option<i64>,
) -> (t: TcxState)
    ensures
        t@ == spec_tcx_start(s@, name@, attrs.deep_view(), spec_toks(toks), start, end),
{
    let mut s = s;
    let top = tcx_top_of(&s.ctx);
    if str_eq(name, "Activity") {
        if s.ctx.len() == 0 {
            let mut skip = false;
            match toks {
                None => {},
                Some(tk) => match find_attr(attrs, "Sport") {
                    None => {},
                    Some(sport) => {
                        if !token_match(tk, &sport) {
                            skip = true;
                        }
                    },
                },
            }
            if skip {
                s.doc.clear();
                s.mode = TcxMode::SkipActivity;
            } else {
                s.ctx.push(TcxCtx::Activity);
                s.act.clear();
            }
        }
        s
    } else if str_eq(name, "Lap") {
        if top == Some(TcxCtx::Activity) {
            let mut bad = false;
            let mut skip = false;
            if start.is_some() || end.is_some() {
                match find_attr(attrs, "StartTime") {
                    None => {},
                    Some(t) => match parse_timestamp(t.as_str()) {
                        None => {
                            bad = true;
                        },
                        Some(v) => {
                            let before = match start {
                                Some(lo) => v < lo,
                                None => false,
                            };
                            let after = match end {
                                Some(hi) => v > hi,
                                None => false,
                            };
                            if before || after {
                                skip = true;
                            }
                        },
                    },
                }
            }
            if bad {
                s.mode = TcxMode::Failed(ParseError::NumericFormat);
            } else if skip {
                s.act.clear();
                s.mode = TcxMode::SkipLap;
            } else {
                s.ctx.push(TcxCtx::Lap);
                s.lap.clear();
            }
        }
        s
    } else if str_eq(name, "Track") {
        if top == Some(TcxCtx::Lap) {
            s.ctx.push(TcxCtx::Track);
            s.track.clear();
        }
        s
    } else if str_eq(name, "Trackpoint") {
        if top == Some(TcxCtx::Track) {
            s.ctx.push(TcxCtx::Trackpoint);
            s.pending_pos = None;
            s.pending_time = None;
        } else {
            s.mode = TcxMode::Failed(ParseError::StructuralViolation);
        }
        s
    } else if str_eq(name, "Position") {
        if top == Some(TcxCtx::Trackpoint) {
            s.ctx.push(TcxCtx::Position);
            s.pos_lat = None;
            s.pos_lng = None;
        }
        s
    } else if str_eq(name, "LatitudeDegrees") {
        if top == Some(TcxCtx::Position) {
            s.ctx.push(TcxCtx::LatDeg);
        }
        s
    } else if str_eq(name, "LongitudeDegrees") {
        if top == Some(TcxCtx::Position) {
            s.ctx.push(TcxCtx::LngDeg);
        }
        s
    } else if str_eq(name, "Time") {
        if top == Some(TcxCtx::Trackpoint) {
            s.ctx.push(TcxCtx::TimePoint);
        }
        s
    } else {
        s
    }
}

/// A text node while running; mirrors `spec_tcx_text`.
fn tcx_text(s: TcxState, t: &String) -> (r: TcxState)
    ensures
        r@ == spec_tcx_text(s@, t@),
{
    let mut s = s;
    let top = tcx_top_of(&s.ctx);
    if top == Some(TcxCtx::LatDeg) {
        match parse_decimal(t.as_str()) {
            None => {
                s.mode = TcxMode::Failed(ParseError::NumericFormat);
            },
            Some(v) => {
                s.pos_lat = Some(v);
            },
        }
        s
    } else if top == Some(TcxCtx::LngDeg) {
        match parse_decimal(t.as_str()) {
            None => {
                s.mode = TcxMode::Failed(ParseError::NumericFormat);
            },
            Some(v) => {
                s.pos_lng = Some(v);
            },
        }
        s
    } else if top == Some(TcxCtx::TimePoint) {
        match parse_timestamp(t.as_str()) {
            None => {
                s.mode = TcxMode::Failed(ParseError::NumericFormat);
            },
            Some(v) => {
                s.pending_time = Some(v);
            },
        }
        s
    } else {
        s
    }
}

/// An end tag while running; mirrors `spec_tcx_end`.
fn tcx_end(s: TcxState, name: &String) -> (r: TcxState)
    ensures
        r@ == spec_tcx_end(s@, name@),
{
    let mut s = s;
    let top = tcx_top_of(&s.ctx);
    if top == Some(TcxCtx::LatDeg) && str_eq(name, "LatitudeDegrees") {
        let _ = s.ctx.pop();
        s
    } else if top == Some(TcxCtx::LngDeg) && str_eq(name, "LongitudeDegrees") {
        let _ = s.ctx.pop();
        s
    } else if top == Some(TcxCtx::TimePoint) && str_eq(name, "Time") {
        let _ = s.ctx.pop();
        s
    } else if top == Some(TcxCtx::Position) && str_eq(name, "Position") {
        let _ = s.ctx.pop();
        s.pending_pos = match (s.pos_lat, s.pos_lng) {
            (Some(lat), Some(lng)) => Some(Point { lat, lng }),
            _ => None,
        };
        s.pos_lat = None;
        s.pos_lng = None;
        s
    } else if top == Some(TcxCtx::Trackpoint) && str_eq(name, "Trackpoint") {
        let _ = s.ctx.pop();
        match s.pending_pos {
            Some(p) => {
                s.track.push(TrkPt { center: p, time: s.pending_time });
            },
            None => {},
        }
        s.pending_pos = None;
        s.pending_time = None;
        s
    } else if top == Some(TcxCtx::Track) && str_eq(name, "Track") {
        let _ = s.ctx.pop();
        let track = s.track;
        s.track = Vec::new();
        s.lap = track;
        s
    } else if top == Some(TcxCtx::Lap) && str_eq(name, "Lap") {
        let _ = s.ctx.pop();
        let lap = s.lap;
        s.lap = Vec::new();
        s.act = lap;
        s
    } else if top == Some(TcxCtx::Activity) && str_eq(name, "Activity") {
        let _ = s.ctx.pop();
        let act = s.act;
        s.act = Vec::new();
        s.doc = act;
        s
    } else {
        s
    }
}

/// The ten events one point record contributes to a minimal document.
pub open spec fn trackpoint_events(lat: Seq<char>, lng: Seq<char>) -> Seq<XmlEventV> {
    seq![
        XmlEventV::Start("Trackpoint"@, Seq::empty()),
        XmlEventV::Start("Position"@, Seq::empty()),
        XmlEventV::Start("LatitudeDegrees"@, Seq::empty()),
        XmlEventV::Text(lat),
        XmlEventV::End("LatitudeDegrees"@),
        XmlEventV::Start("LongitudeDegrees"@, Seq::empty()),
        XmlEventV::Text(lng),
        XmlEventV::End("LongitudeDegrees"@),
        XmlEventV::End("Position"@),
        XmlEventV::End("Trackpoint"@),
    ]
}

/// The event run of a whole record list.
pub open spec fn trackpoint_events_all(recs: Seq<(Seq<char>, Seq<char>)>) -> Seq<XmlEventV>
    decreases recs.len(),
{
    if recs.len() == 0 {
        Seq::empty()
    } else {
        trackpoint_events(recs[0].0, recs[0].1) + trackpoint_events_all(recs.drop_first())
    }
}

/// The tag names a minimal document runs through are pairwise distinct.
proof fn lemma_tcx_tags_distinct()
    ensures
        "Lap"@ != "Activity"@,
        "Track"@ != "Activity"@,
        "Track"@ != "Lap"@,
        "Trackpoint"@ != "Activity"@,
        "Trackpoint"@ != "Lap"@,
        "Trackpoint"@ != "Track"@,
        "Position"@ != "Activity"@,
        "Position"@ != "Lap"@,
        "Position"@ != "Track"@,
        "Position"@ != "Trackpoint"@,
        "LatitudeDegrees"@ != "Activity"@,
        "LatitudeDegrees"@ != "Lap"@,
        "LatitudeDegrees"@ != "Track"@,
        "LatitudeDegrees"@ != "Trackpoint"@,
        "LatitudeDegrees"@ != "Position"@,
        "LongitudeDegrees"@ != "Activity"@,
        "LongitudeDegrees"@ != "Lap"@,
        "LongitudeDegrees"@ != "Track"@,
        "LongitudeDegrees"@ != "Trackpoint"@,
        "LongitudeDegrees"@ != "Position"@,
        "LongitudeDegrees"@ != "LatitudeDegrees"@,
{
    reveal_strlit("Activity");
    reveal_strlit("Lap");
    reveal_strlit("Track");
    reveal_strlit("Trackpoint");
    reveal_strlit("Position");
    reveal_strlit("LatitudeDegrees");
    reveal_strlit("LongitudeDegrees");
    assert("Activity"@.len() == 8);
    assert("Lap"@.len() == 3);
    assert("Track"@.len() == 5);
    assert("Trackpoint"@.len() == 10);
    assert("Position"@.len() == 8);
    assert("LatitudeDegrees"@.len() == 15);
    assert("LongitudeDegrees"@.len() == 16);
    assert("Activity"@[0] != "Position"@[0]);
}

/// The record section's events, ten per record.
proof fn lemma_trackpoint_events_all_shape(recs: Seq<(Seq<char>, Seq<char>)>)
    ensures
        trackpoint_events_all(recs).len() == 10 * recs.len(),
        forall|k: int|
            0 <= k < recs.len() ==> trackpoint_events_all(recs).subrange(10 * k, 10 * k + 10)
                =~= trackpoint_events((#[trigger] recs[k]).0, recs[k].1),
    decreases recs.len(),
{
    if recs.len() > 0 {
        let rest = recs.drop_first();
        lemma_trackpoint_events_all_shape(rest);
        assert(forall|k: int| 0 <= k < rest.len() ==> #[trigger] rest[k] == recs[k + 1]);
        let head = trackpoint_events(recs[0].0, recs[0].1);
        let all = trackpoint_events_all(recs);
        assert(all == head + trackpoint_events_all(rest));
        assert forall|k: int|
            0 <= k < recs.len() implies all.subrange(10 * k, 10 * k + 10) =~= trackpoint_events(
            (#[trigger] recs[k]).0,
            recs[k].1,
        ) by {
            if k == 0 {
                assert(all.subrange(0, 10) =~= head);
            } else {
                assert(rest[k - 1] == recs[k]);
                assert(all.subrange(10 * k, 10 * k + 10) =~= trackpoint_events_all(rest).subrange(
                    10 * (k - 1),
                    10 * (k - 1) + 10,
                ));
            }
        }
    }
}

/// Inside an open track, a run of valid point records extends the track by
/// exactly their samples, in source order.
proof fn lemma_tcx_records_run(
    events: Seq<XmlEventV>,
    i: int,
    recs: Seq<(Seq<char>, Seq<char>)>,
    s: TcxStateV,
)
    requires
        s.mode == TcxMode::Running,
        s.ctx == seq![TcxCtx::Activity, TcxCtx::Lap, TcxCtx::Track],
        s.pos_lat is None,
        s.pos_lng is None,
        s.pending_pos is None,
        s.pending_time is None,
        crate::gpx::recs_valid(recs),
        0 <= i,
        i + 10 * recs.len() <= events.len(),
        forall|k: int|
            0 <= k < recs.len() ==> events.subrange(i + 10 * k, i + 10 * k + 10)
                == trackpoint_events((#[trigger] recs[k]).0, recs[k].1),
    ensures
        spec_tcx_run(events, i, s, None, None, None) == spec_tcx_run(
            events,
            i + 10 * recs.len(),
            TcxStateV { track: s.track + crate::gpx::trkpt_samples(recs), ..s },
            None,
            None,
            None,
        ),
    decreases recs.len(),
{
    lemma_tcx_tags_distinct();
    if recs.len() == 0 {
        assert(s.track + crate::gpx::trkpt_samples(recs) =~= s.track);
        assert(TcxStateV { track: s.track + crate::gpx::trkpt_samples(recs), ..s } == s);
    } else {
        let lat = recs[0].0;
        let lng = recs[0].1;
        let head = trackpoint_events(lat, lng);
        assert(events.subrange(i, i + 10) == head);
        assert(forall|j: int| 0 <= j < 10 ==> events[i + j] == #[trigger] head[j]) by {
            assert(forall|j: int|
                0 <= j < 10 ==> #[trigger] events.subrange(i, i + 10)[j] == events[i + j]);
        }
        let s1 = spec_tcx_step(s, events[i], None, None, None);
        assert(s1.ctx =~= s.ctx.push(TcxCtx::Trackpoint));
        let s2 = spec_tcx_step(s1, events[i + 1], None, None, None);
        assert(s2.ctx =~= s1.ctx.push(TcxCtx::Position));
        let s3 = spec_tcx_step(s2, events[i + 2], None, None, None);
        assert(s3.ctx =~= s2.ctx.push(TcxCtx::LatDeg));
        let s4 = spec_tcx_step(s3, events[i + 3], None, None, None);
        assert(s4 == TcxStateV { pos_lat: spec_parse_decimal(lat), ..s3 });
        let s5 = spec_tcx_step(s4, events[i + 4], None, None, None);
        assert(s5.ctx =~= s2.ctx);
        let s6 = spec_tcx_step(s5, events[i + 5], None, None, None);
        assert(s6.ctx =~= s5.ctx.push(TcxCtx::LngDeg));
        let s7 = spec_tcx_step(s6, events[i + 6], None, None, None);
        assert(s7 == TcxStateV { pos_lng: spec_parse_decimal(lng), ..s6 });
        let s8 = spec_tcx_step(s7, events[i + 7], None, None, None);
        assert(s8.ctx =~= s2.ctx);
        let s9 = spec_tcx_step(s8, events[i + 8], None, None, None);
        assert(s9.ctx =~= s1.ctx);
        let pt = crate::gpx::trkpt_sample(lat, lng);
        assert(s9.pending_pos == Some(pt.center));
        let s10 = spec_tcx_step(s9, events[i + 9], None, None, None);
        assert(s10 == TcxStateV { track: s.track.push(pt), ..s }) by {
            assert(s9.ctx.drop_last() =~= s.ctx);
        }
        let rest = recs.drop_first();
        assert(crate::gpx::recs_valid(rest)) by {
            assert(forall|k: int| 0 <= k < rest.len() ==> #[trigger] rest[k] == recs[k + 1]);
        }
        assert(forall|k: int|
            0 <= k < rest.len() ==> events.subrange(i + 10 + 10 * k, i + 10 + 10 * k + 10)
                == trackpoint_events((#[trigger] rest[k]).0, rest[k].1)) by {
            assert(forall|k: int| 0 <= k < rest.len() ==> #[trigger] rest[k] == recs[k + 1]);
        }
        lemma_tcx_records_run(events, i + 10, rest, s10);
        assert(s.track.push(pt) + crate::gpx::trkpt_samples(rest) =~= s.track
            + crate::gpx::trkpt_samples(recs));
        assert(spec_tcx_run(events, i, s, None, None, None) == spec_tcx_run(
            events, i + 1, s1, None, None, None));
        assert(spec_tcx_run(events, i + 1, s1, None, None, None) == spec_tcx_run(
            events, i + 2, s2, None, None, None));
        assert(spec_tcx_run(events, i + 2, s2, None, None, None) == spec_tcx_run(
            events, i + 3, s3, None, None, None));
        assert(spec_tcx_run(events, i + 3, s3, None, None, None) == spec_tcx_run(
            events, i + 4, s4, None, None, None));
        assert(spec_tcx_run(events, i + 4, s4, None, None, None) == spec_tcx_run(
            events, i + 5, s5, None, None, None));
        assert(spec_tcx_run(events, i + 5, s5, None, None, None) == spec_tcx_run(
            events, i + 6, s6, None, None, None));
        assert(spec_tcx_run(events, i + 6, s6, None, None, None) == spec_tcx_run(
            events, i + 7, s7, None, None, None));
        assert(spec_tcx_run(events, i + 7, s7, None, None, None) == spec_tcx_run(
            events, i + 8, s8, None, None, None));
        assert(spec_tcx_run(events, i + 8, s8, None, None, None) == spec_tcx_run(
            events, i + 9, s9, None, None, None));
        assert(spec_tcx_run(events, i + 9, s9, None, None, None) == spec_tcx_run(
            events, i + 10, s10, None, None, None));
    }
}

/// A well-formed minimal document with any number of valid, untimed point
/// records and no filters yields exactly those records' samples, in source
/// order: the declaration, root, one activity, lap and track around the
/// records parse to `Ok` of their coordinate values.
pub proof fn lemma_minimal_document_yields_every_record(recs: Seq<(Seq<char>, Seq<char>)>)
    requires
        crate::gpx::recs_valid(recs),
    ensures
        ({
            let events = seq![
                XmlEventV::Decl,
                XmlEventV::Start("TrainingCenterDatabase"@, Seq::empty()),
                XmlEventV::Start("Activity"@, Seq::empty()),
                XmlEventV::Start("Lap"@, Seq::empty()),
                XmlEventV::Start("Track"@, Seq::empty()),
            ] + trackpoint_events_all(recs) + seq![
                XmlEventV::End("Track"@),
                XmlEventV::End("Lap"@),
                XmlEventV::End("Activity"@),
                XmlEventV::End("TrainingCenterDatabase"@),
            ];
            crate::parse::spec_parse_events(events, None, None, None) == Ok::<
                Seq<TrkPt>,
                ParseError,
            >(crate::gpx::trkpt_samples(recs))
        }),
{
    lemma_tcx_tags_distinct();
    lemma_trackpoint_events_all_shape(recs);
    reveal_strlit("gpx");
    reveal_strlit("TrainingCenterDatabase");
    assert("TrainingCenterDatabase"@ != "gpx"@) by {
        assert("gpx"@.len() == 3);
        assert("TrainingCenterDatabase"@.len() == 22);
    }
    let events = seq![
        XmlEventV::Decl,
        XmlEventV::Start("TrainingCenterDatabase"@, Seq::empty()),
        XmlEventV::Start("Activity"@, Seq::empty()),
        XmlEventV::Start("Lap"@, Seq::empty()),
        XmlEventV::Start("Track"@, Seq::empty()),
    ] + trackpoint_events_all(recs) + seq![
        XmlEventV::End("Track"@),
        XmlEventV::End("Lap"@),
        XmlEventV::End("Activity"@),
        XmlEventV::End("TrainingCenterDatabase"@),
    ];
    let n = recs.len() as int;
    assert(events.len() == 9 + 10 * n);
    assert(events[0] is Decl);
    assert(events[1] == XmlEventV::Start(
        "TrainingCenterDatabase"@,
        Seq::<(Seq<char>, Seq<char>)>::empty(),
    ));
    let s0 = spec_tcx_init();
    assert(events[2] == XmlEventV::Start("Activity"@, Seq::<(Seq<char>, Seq<char>)>::empty()));
    let s1 = spec_tcx_step(s0, events[2], None, None, None);
    assert(s1.ctx =~= seq![TcxCtx::Activity]);
    assert(events[3] == XmlEventV::Start("Lap"@, Seq::<(Seq<char>, Seq<char>)>::empty()));
    let s2 = spec_tcx_step(s1, events[3], None, None, None);
    assert(s2.ctx =~= seq![TcxCtx::Activity, TcxCtx::Lap]);
    assert(events[4] == XmlEventV::Start("Track"@, Seq::<(Seq<char>, Seq<char>)>::empty()));
    let s3 = spec_tcx_step(s2, events[4], None, None, None);
    assert(s3.ctx =~= seq![TcxCtx::Activity, TcxCtx::Lap, TcxCtx::Track]);
    assert(forall|k: int|
        0 <= k < n ==> events.subrange(5 + 10 * k, 5 + 10 * k + 10) == trackpoint_events(
            (#[trigger] recs[k]).0,
            recs[k].1,
        )) by {
        assert forall|k: int|
            0 <= k < n implies events.subrange(5 + 10 * k, 5 + 10 * k + 10) == trackpoint_events(
            (#[trigger] recs[k]).0,
            recs[k].1,
        ) by {
            assert(events.subrange(5 + 10 * k, 5 + 10 * k + 10) =~= trackpoint_events_all(
                recs,
            ).subrange(10 * k, 10 * k + 10));
        }
    }
    lemma_tcx_records_run(events, 5, recs, s3);
    let samples = crate::gpx::trkpt_samples(recs);
    let s4 = TcxStateV { track: s3.track + samples, ..s3 };
    assert(s3.track + samples =~= samples);
    assert(events[5 + 10 * n] == XmlEventV::End("Track"@));
    let s5 = spec_tcx_step(s4, events[5 + 10 * n], None, None, None);
    assert(s4.ctx.drop_last() =~= seq![TcxCtx::Activity, TcxCtx::Lap]);
    assert(s5.lap == samples);
    assert(events[6 + 10 * n] == XmlEventV::End("Lap"@));
    let s6 = spec_tcx_step(s5, events[6 + 10 * n], None, None, None);
    assert(s5.ctx.drop_last() =~= seq![TcxCtx::Activity]);
    assert(s6.act == samples);
    assert(events[7 + 10 * n] == XmlEventV::End("Activity"@));
    let s7 = spec_tcx_step(s6, events[7 + 10 * n], None, None, None);
    assert(s6.ctx.drop_last() =~= Seq::<TcxCtx>::empty());
    assert(s7.doc == samples && s7.ctx.len() == 0);
    assert(events[8 + 10 * n] == XmlEventV::End("TrainingCenterDatabase"@));
    let s8 = spec_tcx_step(s7, events[8 + 10 * n], None, None, None);
    assert(s8 == s7);
    assert(spec_tcx_run(events, 9 + 10 * n, s8, None, None, None) == spec_tcx_finalize(s8));
    assert(spec_tcx_run(events, 2, s0, None, None, None) == spec_tcx_run(
        events,
        3,
        s1,
        None,
        None,
        None,
    ));
    assert(spec_tcx_run(events, 3, s1, None, None, None) == spec_tcx_run(
        events,
        4,
        s2,
        None,
        None,
        None,
    ));
    assert(spec_tcx_run(events, 4, s2, None, None, None) == spec_tcx_run(
        events,
        5,
        s3,
        None,
        None,
        None,
    ));
    assert(spec_tcx_run(events, 5 + 10 * n, s4, None, None, None) == spec_tcx_run(
        events,
        6 + 10 * n,
        s5,
        None,
        None,
        None,
    ));
    assert(spec_tcx_run(events, 6 + 10 * n, s5, None, None, None) == spec_tcx_run(
        events,
        7 + 10 * n,
        s6,
        None,
        None,
        None,
    ));
    assert(spec_tcx_run(events, 7 + 10 * n, s6, None, None, None) == spec_tcx_run(
        events,
        8 + 10 * n,
        s7,
        None,
        None,
        None,
    ));
    assert(spec_tcx_run(events, 8 + 10 * n, s7, None, None, None) == spec_tcx_run(
        events,
        9 + 10 * n,
        s8,
        None,
        None,
        None,
    ));
}

/// Parses a TCX event stream, starting after the root tag.
///
/// Returns exactly `spec_parse_tcx` on the stream's image: the points of the
/// last completed track of the last completed lap of the last completed
/// activity, the empty sequence on a filter exit, or the first fatal error.
#[verifier::loop_isolation(false)]
pub fn parse_tcx_events(
    events: &Vec<XmlEvent>,
    from: usize,
    toks: &Option<Vec<String>>,
    start: Option<i64>,
    end: Option<i64>,
) -> (r: Result<Vec<TrkPt>, ParseError>)
    ensures
        match r {
            Ok(v) => spec_parse_tcx(events.deep_view(), from as int, spec_toks(toks), start, end)
                == Ok::<Seq<TrkPt>, ParseError>(v@),
            Err(e) => spec_parse_tcx(events.deep_view(), from as int, spec_toks(toks), start, end)
                == Err::<Seq<TrkPt>, ParseError>(e),
        },
{
    let ghost ev = events.deep_view();
    let mut s = TcxState {
        ctx: Vec::new(),
        track: Vec::new(),
        lap: Vec::new(),
        act: Vec::new(),
        doc: Vec::new(),
        pos_lat: None,
        pos_lng: None,
        pending_pos: None,
        pending_time: None,
        mode: TcxMode::Running,
    };
    proof {
        assert(s@ == spec_tcx_init());
    }
    let mut i = from;
    if from > events.len() {
        i = events.len();
        proof {
            assert(spec_tcx_run(ev, from as int, s@, spec_toks(toks), start, end)
                == spec_tcx_finalize(s@));
            assert(spec_tcx_run(ev, i as int, s@, spec_toks(toks), start, end)
                == spec_tcx_finalize(s@));
        }
    }
    while i < events.len()
        invariant
            i <= events.len(),
            spec_tcx_run(ev, i as int, s@, spec_toks(toks), start, end) == spec_parse_tcx(
                ev,
                from as int,
                spec_toks(toks),
                start,
                end,
            ),
        decreases events.len() - i,
    {
        proof {
            assert(ev[i as int] == events@[i as int]@);
        }
        s = tcx_step(s, &events[i], toks, start, end);
        i = i + 1;
    }
    let r = if let TcxMode::Failed(e) = s.mode {
        Err(e)
    } else if let TcxMode::SkipActivity = s.mode {
        Err(ParseError::Truncated)
    } else if let TcxMode::SkipLap = s.mode {
        Err(ParseError::Truncated)
    } else if s.ctx.len() > 0 {
        Err(ParseError::Truncated)
    } else {
        Ok(s.doc)
    };
    r
}

} // verus!
