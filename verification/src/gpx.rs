//! The GPX dialect: `<gpx>` / `<metadata>` / `<trk>` / `<trkseg>` / `<trkpt>`.
//!
//! The parser is a single forward pass over the token stream, driven by an
//! explicit stack of recognized open containers.  Unrecognized elements are
//! transparent.  A `<trkpt>` whose nearest recognized container is not a
//! `<trkseg>` is a structural violation; a record missing its latitude or
//! longitude is dropped; a coordinate or time token that does not parse is
//! fatal for the whole document.
//!
//! Filtering short-circuits: when `<trk>`'s declared `<type>` token is not
//! among the requested tokens, or `<metadata>`'s time falls outside the
//! requested window, the rest of the document contributes nothing and is not
//! validated further.  Within one document the points of the last completed
//! `<trkseg>` of the last completed `<trk>` are the result.

use vstd::prelude::*;

use crate::model::ParseError;
use crate::model::Point;
use crate::model::TrkPt;
use crate::num::parse_decimal;
use crate::num::spec_parse_decimal;
use crate::xml::XmlEvent;
use crate::xml::XmlEventV;
use crate::xml::find_attr;
use crate::xml::parse_timestamp;
use crate::xml::spec_find_attr;
use crate::xml::str_eq;
use crate::xml::utc_seconds_of;

verus! {

broadcast use vstd::string::group_string_axioms;

/// A recognized open container of the GPX grammar.
#[derive(Clone, Copy, Debug, PartialEq, Eq, Structural)]
pub enum GpxCtx {
    /// `<metadata>` directly under the root.
    Metadata,
    /// `<trk>` directly under the root.
    Trk,
    /// `<trkseg>` whose nearest recognized container is a track.
    Trkseg,
    /// `<trkpt>` whose nearest recognized container is a segment.
    Trkpt,
    /// `<time>` inside the metadata.
    TimeMeta,
    /// `<time>` inside a point record.
    TimePoint,
    /// `<type>` inside a track, tracked only when a filter is active.
    TypeTrk,
}

/// How the parser proceeds after an event.
#[derive(Clone, Copy, Debug, PartialEq, Eq, Structural)]
pub enum GpxMode {
    /// Reading normally.
    Running,
    /// The current track failed the type filter: its remaining content is
    /// skipped without validation, until the track closes.
    SkipTrk,
    /// The whole document was discarded early by the time window.
    Done,
    /// A fatal error; the first one wins.
    Failed(ParseError),
}

/// The parser's whole state between two events.
pub struct GpxState {
    /// Stack of recognized open containers.
    pub ctx: Vec<GpxCtx>,
    /// Points of the currently open segment.
    pub seg: Vec<TrkPt>,
    /// Points of the last segment completed within the current track.
    pub trk: Vec<TrkPt>,
    /// Points of the last track completed within the document.
    pub doc: Vec<TrkPt>,
    /// Latitude of the currently open point record, when present and valid.
    pub pending_lat: Option<i64>,
    /// Longitude of the currently open point record.
    pub pending_lng: Option<i64>,
    /// Timestamp of the currently open point record.
    pub pending_time: Option<i64>,
    /// The metadata time, once seen.
    pub meta_time: Option<i64>,
    /// The mode.
    pub mode: GpxMode,
}

/// The mathematical image of a `GpxState`.
pub struct GpxStateV {
    pub ctx: Seq<GpxCtx>,
    pub seg: Seq<TrkPt>,
    pub trk: Seq<TrkPt>,
    pub doc: Seq<TrkPt>,
    pub pending_lat: Option<i64>,
    pub pending_lng: Option<i64>,
    pub pending_time: Option<i64>,
    pub meta_time: Option<i64>,
    pub mode: GpxMode,
}

impl View for GpxState {
    type V = GpxStateV;

    open spec fn view(&self) -> GpxStateV {
        GpxStateV {
            ctx: self.ctx@,
            seg: self.seg@,
            trk: self.trk@,
            doc: self.doc@,
            pending_lat: self.pending_lat,
            pending_lng: self.pending_lng,
            pending_time: self.pending_time,
            meta_time: self.meta_time,
            mode: self.mode,
        }
    }
}

/// The state before any event.
pub open spec fn spec_gpx_init() -> GpxStateV {
    GpxStateV {
        ctx: Seq::empty(),
        seg: Seq::empty(),
        trk: Seq::empty(),
        doc: Seq::empty(),
        pending_lat: None,
        pending_lng: None,
        pending_time: None,
        meta_time: None,
        mode: GpxMode::Running,
    }
}

/// Is `t` one of the requested tokens?
pub open spec fn spec_token_match(toks: Seq<Seq<char>>, t: Seq<char>) -> bool {
    exists|i: int| 0 <= i < toks.len() && toks[i] == t
}

/// The recognized container the parser currently stands in, if any.
pub open spec fn spec_top(s: GpxStateV) -> Option<GpxCtx> {
    if s.ctx.len() > 0 {
        Some(s.ctx.last())
    } else {
        None
    }
}

/// A coordinate attribute: absent, present and valid, or malformed.
pub open spec fn spec_attr_coord(attrs: Seq<(Seq<char>, Seq<char>)>, key: Seq<char>) -> Result<
    Option<i64>,
    (),
> {
    match spec_find_attr(attrs, key) {
        None => Ok(None),
        Some(t) => match spec_parse_decimal(t) {
            None => Err(()),
            Some(v) => Ok(Some(v)),
        },
    }
}

/// Fails the parse with `e`.
pub open spec fn spec_gpx_fail(s: GpxStateV, e: ParseError) -> GpxStateV {
    GpxStateV { mode: GpxMode::Failed(e), ..s }
}

/// One step of the GPX state machine.
pub open spec fn spec_gpx_step(
    s: GpxStateV,
    e: XmlEventV,
    toks: Option<Seq<Seq<char>>>,
    start: Option<i64>,
    end: Option<i64>,
) -> GpxStateV {
    match s.mode {
        GpxMode::Failed(_) => s,
        GpxMode::Done => s,
        GpxMode::SkipTrk => match e {
            XmlEventV::Malformed => spec_gpx_fail(s, ParseError::StructuralViolation),
            XmlEventV::End(name) => if name == "trk"@ {
                GpxStateV { ctx: Seq::empty(), mode: GpxMode::Running, ..s }
            } else {
                s
            },
            _ => s,
        },
        GpxMode::Running => match e {
            XmlEventV::Decl => s,
            XmlEventV::Other => s,
            XmlEventV::Malformed => spec_gpx_fail(s, ParseError::StructuralViolation),
            XmlEventV::Start(name, attrs) => spec_gpx_start(s, name, attrs, toks),
            XmlEventV::Text(t) => spec_gpx_text(s, t, toks),
            XmlEventV::End(name) => spec_gpx_end(s, name, start, end),
        },
    }
}

/// A start tag while running.
pub open spec fn spec_gpx_start(
    s: GpxStateV,
    name: Seq<char>,
    attrs: Seq<(Seq<char>, Seq<char>)>,
    toks: Option<Seq<Seq<char>>>,
) -> GpxStateV {
    if name == "metadata"@ {
        if s.ctx.len() == 0 {
            GpxStateV { ctx: s.ctx.push(GpxCtx::Metadata), ..s }
        } else {
            s
        }
    } else if name == "trk"@ {
        if s.ctx.len() == 0 {
            GpxStateV { ctx: s.ctx.push(GpxCtx::Trk), trk: Seq::empty(), ..s }
        } else {
            s
        }
    } else if name == "trkseg"@ {
        if spec_top(s) == Some(GpxCtx::Trk) {
            GpxStateV { ctx: s.ctx.push(GpxCtx::Trkseg), seg: Seq::empty(), ..s }
        } else {
            s
        }
    } else if name == "trkpt"@ {
        if spec_top(s) == Some(GpxCtx::Trkseg) {
            let latr = spec_attr_coord(attrs, "lat"@);
            let lngr = spec_attr_coord(attrs, "lon"@);
            match (latr, lngr) {
                (Ok(plat), Ok(plng)) => GpxStateV {
                    ctx: s.ctx.push(GpxCtx::Trkpt),
                    pending_lat: plat,
                    pending_lng: plng,
                    pending_time: None,
                    ..s
                },
                _ => spec_gpx_fail(s, ParseError::NumericFormat),
            }
        } else {
            spec_gpx_fail(s, ParseError::StructuralViolation)
        }
    } else if name == "time"@ {
        if spec_top(s) == Some(GpxCtx::Metadata) {
            GpxStateV { ctx: s.ctx.push(GpxCtx::TimeMeta), ..s }
        } else if spec_top(s) == Some(GpxCtx::Trkpt) {
            GpxStateV { ctx: s.ctx.push(GpxCtx::TimePoint), ..s }
        } else {
            s
        }
    } else if name == "type"@ {
        if spec_top(s) == Some(GpxCtx::Trk) && toks is Some {
            GpxStateV { ctx: s.ctx.push(GpxCtx::TypeTrk), ..s }
        } else {
            s
        }
    } else {
        s
    }
}

/// A text node while running.
pub open spec fn spec_gpx_text(s: GpxStateV, t: Seq<char>, toks: Option<Seq<Seq<char>>>) -> GpxStateV {
    if spec_top(s) == Some(GpxCtx::TimeMeta) {
        match utc_seconds_of(t) {
            None => spec_gpx_fail(s, ParseError::NumericFormat),
            Some(v) => GpxStateV { meta_time: Some(v), ..s },
        }
    } else if spec_top(s) == Some(GpxCtx::TimePoint) {
        match utc_seconds_of(t) {
            None => spec_gpx_fail(s, ParseError::NumericFormat),
            Some(v) => GpxStateV { pending_time: Some(v), ..s },
        }
    } else if spec_top(s) == Some(GpxCtx::TypeTrk) {
        match toks {
            None => s,
            Some(tk) => if spec_token_match(tk, t) {
                GpxStateV { ctx: s.ctx.drop_last(), ..s }
            } else {
                GpxStateV {
                    ctx: Seq::empty(),
                    seg: Seq::empty(),
                    trk: Seq::empty(),
                    doc: Seq::empty(),
                    mode: GpxMode::SkipTrk,
                    ..s
                }
            },
        }
    } else {
        s
    }
}

/// An end tag while running.
pub open spec fn spec_gpx_end(
    s: GpxStateV,
    name: Seq<char>,
    start: Option<i64>,
    end: Option<i64>,
) -> GpxStateV {
    if spec_top(s) == Some(GpxCtx::TimeMeta) && name == "time"@ {
        GpxStateV { ctx: s.ctx.drop_last(), ..s }
    } else if spec_top(s) == Some(GpxCtx::TimePoint) && name == "time"@ {
        GpxStateV { ctx: s.ctx.drop_last(), ..s }
    } else if spec_top(s) == Some(GpxCtx::TypeTrk) && name == "type"@ {
        GpxStateV { ctx: s.ctx.drop_last(), ..s }
    } else if spec_top(s) == Some(GpxCtx::Trkpt) && name == "trkpt"@ {
        let popped = GpxStateV {
            ctx: s.ctx.drop_last(),
            pending_lat: None,
            pending_lng: None,
            pending_time: None,
            ..s
        };
        match (s.pending_lat, s.pending_lng) {
            (Some(lat), Some(lng)) => GpxStateV {
                seg: s.seg.push(TrkPt { center: Point { lat, lng }, time: s.pending_time }),
                ..popped
            },
            _ => popped,
        }
    } else if spec_top(s) == Some(GpxCtx::Trkseg) && name == "trkseg"@ {
        GpxStateV { ctx: s.ctx.drop_last(), trk: s.seg, seg: Seq::empty(), ..s }
    } else if spec_top(s) == Some(GpxCtx::Trk) && name == "trk"@ {
        GpxStateV { ctx: s.ctx.drop_last(), doc: s.trk, trk: Seq::empty(), ..s }
    } else if spec_top(s) == Some(GpxCtx::Metadata) && name == "metadata"@ {
        let popped = GpxStateV { ctx: s.ctx.drop_last(), ..s };
        match s.meta_time {
            Some(t) => {
                let before = match start {
                    Some(lo) => t < lo,
                    None => false,
                };
                let after = match end {
                    Some(hi) => t > hi,
                    None => false,
                };
                if before || after {
                    GpxStateV { doc: Seq::empty(), mode: GpxMode::Done, ..popped }
                } else {
                    popped
                }
            },
            None => popped,
        }
    } else {
        s
    }
}

/// What the whole document yields once every event is consumed.
pub open spec fn spec_gpx_finalize(s: GpxStateV) -> Result<Seq<TrkPt>, ParseError> {
    match s.mode {
        GpxMode::Failed(e) => Err(e),
        GpxMode::Done => Ok(s.doc),
        GpxMode::SkipTrk => Err(ParseError::Truncated),
        GpxMode::Running => if s.ctx.len() > 0 {
            Err(ParseError::Truncated)
        } else {
            Ok(s.doc)
        },
    }
}

/// Folds the state machine over `events[i..]` and finalizes.
pub open spec fn spec_gpx_run(
    events: Seq<XmlEventV>,
    i: int,
    s: GpxStateV,
    toks: Option<Seq<Seq<char>>>,
    start: Option<i64>,
    end: Option<i64>,
) -> Result<Seq<TrkPt>, ParseError>
    decreases events.len() - i,
{
    if i < 0 || i >= events.len() {
        spec_gpx_finalize(s)
    } else {
        spec_gpx_run(events, i + 1, spec_gpx_step(s, events[i], toks, start, end), toks, start, end)
    }
}

/// What parsing a GPX event stream from position `from` yields.
pub open spec fn spec_parse_gpx(
    events: Seq<XmlEventV>,
    from: int,
    toks: Option<Seq<Seq<char>>>,
    start: Option<i64>,
    end: Option<i64>,
) -> Result<Seq<TrkPt>, ParseError> {
    spec_gpx_run(events, from, spec_gpx_init(), toks, start, end)
}

/// The view of an optional token list.
pub open spec fn spec_toks(toks: &Option<Vec<String>>) -> Option<Seq<Seq<char>>> {
    match toks {
        None => None,
        Some(v) => Some(v.deep_view()),
    }
}

/// Is `t` among the tokens?
pub(crate) fn token_match(toks: &Vec<String>, t: &String) -> (r: bool)
    ensures
        r == spec_token_match(toks.deep_view(), t@),
{
    let mut i: usize = 0;
    while i < toks.len()
        invariant
            0 <= i <= toks.len(),
            forall|k: int| 0 <= k < i ==> toks.deep_view()[k] != t@,
        decreases toks.len() - i,
    {
        proof {
            assert(toks.deep_view()[i as int] == toks[i as int]@);
        }
        if str_eq(&toks[i], t.as_str()) {
            return true;
        }
        i = i + 1;
    }
    false
}

/// One exec step of the GPX state machine, mirroring `spec_gpx_step`.
#[verifier::loop_isolation(false)]
pub(crate) fn gpx_step(
    s: GpxState,
    e: &XmlEvent,
    toks: &Option<Vec<String>>,
    start: Option<i64>,
    end: Option<i64>,
) -> (t: GpxState)
    ensures
        t@ == spec_gpx_step(s@, e@, spec_toks(toks), start, end),
{
    let mut s = s;
    match s.mode {
        GpxMode::Failed(_) => s,
        GpxMode::Done => s,
        GpxMode::SkipTrk => {
            match e {
                XmlEvent::Malformed => {
                    s.mode = GpxMode::Failed(ParseError::StructuralViolation);
                    s
                },
                XmlEvent::End(name) => {
                    if str_eq(name, "trk") {
                        s.ctx.clear();
                        s.mode = GpxMode::Running;
                        s
                    } else {
                        s
                    }
                },
                _ => s,
            }
        },
        GpxMode::Running => {
            match e {
                XmlEvent::Decl => s,
                XmlEvent::Other => s,
                XmlEvent::Malformed => {
                    s.mode = GpxMode::Failed(ParseError::StructuralViolation);
                    s
                },
                XmlEvent::Start(name, attrs) => gpx_start(s, name, attrs, toks),
                XmlEvent::Text(t) => gpx_text(s, t, toks),
                XmlEvent::End(name) => gpx_end(s, name, start, end),
            }
        },
    }
}

/// The recognized container the parser currently stands in, if any.
fn top_of(ctx: &Vec<GpxCtx>) -> (r: Option<GpxCtx>)
    ensures
        r == (if ctx@.len() > 0 {
            Some(ctx@.last())
        } else {
            None::<GpxCtx>
        }),
{
    if ctx.len() > 0 {
        Some(ctx[ctx.len() - 1])
    } else {
        None
    }
}

/// A start tag while running; mirrors `spec_gpx_start`.
fn gpx_start(
    s: GpxState,
    name: &String,
    attrs: &Vec<(String, String)>,
    toks: &Option<Vec<String>>,
) -> (t: GpxState)
    ensures
        t@ == spec_gpx_start(s@, name@, attrs.deep_view(), spec_toks(toks)),
{
    let mut s = s;
    let top = top_of(&s.ctx);
    if str_eq(name, "metadata") {
        if s.ctx.len() == 0 {
            s.ctx.push(GpxCtx::Metadata);
        }
        s
    } else if str_eq(name, "trk") {
        if s.ctx.len() == 0 {
            s.ctx.push(GpxCtx::Trk);
            s.trk.clear();
        }
        s
    } else if str_eq(name, "trkseg") {
        if top == Some(GpxCtx::Trk) {
            s.ctx.push(GpxCtx::Trkseg);
            s.seg.clear();
        }
        s
    } else if str_eq(name, "trkpt") {
        if top == Some(GpxCtx::Trkseg) {
            let mut bad = false;
            let mut plat: Option<i64> = None;
            let mut plng: Option<i64> = None;
            match find_attr(attrs, "lat") {
                None => {},
                Some(v) => match parse_decimal(v.as_str()) {
                    None => {
                        bad = true;
                    },
                    Some(x) => {
                        plat = Some(x);
                    },
                },
            }
            match find_attr(attrs, "lon") {
                None => {},
                Some(v) => match parse_decimal(v.as_str()) {
                    None => {
                        bad = true;
                    },
                    Some(x) => {
                        plng = Some(x);
                    },
                },
            }
            if bad {
                s.mode = GpxMode::Failed(ParseError::NumericFormat);
            } else {
                s.ctx.push(GpxCtx::Trkpt);
                s.pending_lat = plat;
                s.pending_lng = plng;
                s.pending_time = None;
            }
            s
        } else {
            s.mode = GpxMode::Failed(ParseError::StructuralViolation);
            s
        }
    } else if str_eq(name, "time") {
        if top == Some(GpxCtx::Metadata) {
            s.ctx.push(GpxCtx::TimeMeta);
        } else if top == Some(GpxCtx::Trkpt) {
            s.ctx.push(GpxCtx::TimePoint);
        }
        s
    } else if str_eq(name, "type") {
        if top == Some(GpxCtx::Trk) && toks.is_some() {
            s.ctx.push(GpxCtx::TypeTrk);
        }
        s
    } else {
        s
    }
}

/// A text node while running; mirrors `spec_gpx_text`.
fn gpx_text(s: GpxState, t: &String, toks: &Option<Vec<String>>) -> (r: GpxState)
    ensures
        r@ == spec_gpx_text(s@, t@, spec_toks(toks)),
{
    let mut s = s;
    let top = top_of(&s.ctx);
    if top == Some(GpxCtx::TimeMeta) {
        match parse_timestamp(t.as_str()) {
            None => {
                s.mode = GpxMode::Failed(ParseError::NumericFormat);
            },
            Some(v) => {
                s.meta_time = Some(v);
            },
        }
        s
    } else if top == Some(GpxCtx::TimePoint) {
        match parse_timestamp(t.as_str()) {
            None => {
                s.mode = GpxMode::Failed(ParseError::NumericFormat);
            },
            Some(v) => {
                s.pending_time = Some(v);
            },
        }
        s
    } else if top == Some(GpxCtx::TypeTrk) {
        match toks {
            None => s,
            Some(tk) => {
                if token_match(tk, t) {
                    let _ = s.ctx.pop();
                    s
                } else {
                    s.ctx.clear();
                    s.seg.clear();
                    s.trk.clear();
                    s.doc.clear();
                    s.mode = GpxMode::SkipTrk;
                    s
                }
            },
        }
    } else {
        s
    }
}

/// An end tag while running; mirrors `spec_gpx_end`.
fn gpx_end(s: GpxState, name: &String, start: Option<i64>, end: Option<i64>) -> (r: GpxState)
    ensures
        r@ == spec_gpx_end(s@, name@, start, end),
{
    let mut s = s;
    let top = top_of(&s.ctx);
    if top == Some(GpxCtx::TimeMeta) && str_eq(name, "time") {
        let _ = s.ctx.pop();
        s
    } else if top == Some(GpxCtx::TimePoint) && str_eq(name, "time") {
        let _ = s.ctx.pop();
        s
    } else if top == Some(GpxCtx::TypeTrk) && str_eq(name, "type") {
        let _ = s.ctx.pop();
        s
    } else if top == Some(GpxCtx::Trkpt) && str_eq(name, "trkpt") {
        let _ = s.ctx.pop();
        match (s.pending_lat, s.pending_lng) {
            (Some(lat), Some(lng)) => {
                s.seg.push(TrkPt { center: Point { lat, lng }, time: s.pending_time });
            },
            _ => {},
        }
        s.pending_lat = None;
        s.pending_lng = None;
        s.pending_time = None;
        s
    } else if top == Some(GpxCtx::Trkseg) && str_eq(name, "trkseg") {
        let _ = s.ctx.pop();
        let seg = s.seg;
        s.seg = Vec::new();
        s.trk = seg;
        s
    } else if top == Some(GpxCtx::Trk) && str_eq(name, "trk") {
        let _ = s.ctx.pop();
        let trk = s.trk;
        s.trk = Vec::new();
        s.doc = trk;
        s
    } else if top == Some(GpxCtx::Metadata) && str_eq(name, "metadata") {
        let _ = s.ctx.pop();
        match s.meta_time {
            Some(t) => {
                let before = match start {
                    Some(lo) => t < lo,
                    None => false,
                };
                let after = match end {
                    Some(hi) => t > hi,
                    None => false,
                };
                if before || after {
                    s.doc.clear();
                    s.mode = GpxMode::Done;
                }
                s
            },
            None => s,
        }
    } else {
        s
    }
}

/// The two events one point record contributes to a minimal document.
pub open spec fn trkpt_events(lat: Seq<char>, lng: Seq<char>) -> Seq<XmlEventV> {
    seq![
        XmlEventV::Start("trkpt"@, seq![("lat"@, lat), ("lon"@, lng)]),
        XmlEventV::End("trkpt"@),
    ]
}

/// The sample one such record denotes, both tokens assumed valid.
pub open spec fn trkpt_sample(lat: Seq<char>, lng: Seq<char>) -> TrkPt {
    TrkPt {
        center: Point {
            lat: spec_parse_decimal(lat).unwrap(),
            lng: spec_parse_decimal(lng).unwrap(),
        },
        time: None,
    }
}

/// The event run of a whole record list.
pub open spec fn trkpt_events_all(recs: Seq<(Seq<char>, Seq<char>)>) -> Seq<XmlEventV>
    decreases recs.len(),
{
    if recs.len() == 0 {
        Seq::empty()
    } else {
        trkpt_events(recs[0].0, recs[0].1) + trkpt_events_all(recs.drop_first())
    }
}

/// The samples of a whole record list, in order.
pub open spec fn trkpt_samples(recs: Seq<(Seq<char>, Seq<char>)>) -> Seq<TrkPt> {
    recs.map(|i: int, r: (Seq<char>, Seq<char>)| trkpt_sample(r.0, r.1))
}

/// Every record's coordinate tokens are valid decimals.
pub open spec fn recs_valid(recs: Seq<(Seq<char>, Seq<char>)>) -> bool {
    forall|k: int|
        0 <= k < recs.len() ==> spec_parse_decimal((#[trigger] recs[k]).0) is Some
            && spec_parse_decimal(recs[k].1) is Some
}

/// The tag and attribute names a minimal document runs through are
/// pairwise distinct.
proof fn lemma_gpx_tags_distinct()
    ensures
        "trk"@ != "metadata"@,
        "trkseg"@ != "metadata"@,
        "trkseg"@ != "trk"@,
        "trkpt"@ != "metadata"@,
        "trkpt"@ != "trk"@,
        "trkpt"@ != "trkseg"@,
        "lat"@ != "lon"@,
{
    reveal_strlit("metadata");
    reveal_strlit("trk");
    reveal_strlit("trkseg");
    reveal_strlit("trkpt");
    reveal_strlit("lat");
    reveal_strlit("lon");
    assert("metadata"@.len() == 8);
    assert("trk"@.len() == 3);
    assert("trkseg"@.len() == 6);
    assert("trkpt"@.len() == 5);
    assert("lat"@.len() == 3);
    assert("lon"@.len() == 3);
    assert("lat"@[1] != "lon"@[1]);
}

/// Inside an open segment, a run of valid point records extends the
/// segment by exactly their samples, in source order.
proof fn lemma_gpx_records_run(
    events: Seq<XmlEventV>,
    i: int,
    recs: Seq<(Seq<char>, Seq<char>)>,
    s: GpxStateV,
)
    requires
        s.mode == GpxMode::Running,
        s.ctx == seq![GpxCtx::Trk, GpxCtx::Trkseg],
        s.pending_lat is None,
        s.pending_lng is None,
        s.pending_time is None,
        recs_valid(recs),
        0 <= i,
        i + 2 * recs.len() <= events.len(),
        forall|k: int|
            0 <= k < recs.len() ==> events[i + 2 * k] == XmlEventV::Start(
                "trkpt"@,
                seq![("lat"@, (#[trigger] recs[k]).0), ("lon"@, recs[k].1)],
            ) && events[i + 2 * k + 1] == XmlEventV::End("trkpt"@),
    ensures
        spec_gpx_run(events, i, s, None, None, None) == spec_gpx_run(
            events,
            i + 2 * recs.len(),
            GpxStateV { seg: s.seg + trkpt_samples(recs), ..s },
            None,
            None,
            None,
        ),
    decreases recs.len(),
{
    lemma_gpx_tags_distinct();
    if recs.len() == 0 {
        assert(s.seg + trkpt_samples(recs) =~= s.seg);
        assert(GpxStateV { seg: s.seg + trkpt_samples(recs), ..s } == s);
    } else {
        let lat = recs[0].0;
        let lng = recs[0].1;
        assert(events[i] == XmlEventV::Start(
            "trkpt"@,
            seq![("lat"@, lat), ("lon"@, lng)],
        ));
        let attrs = seq![("lat"@, lat), ("lon"@, lng)];
        assert(spec_find_attr(attrs, "lat"@) == Some(lat));
        assert(spec_find_attr(attrs, "lon"@) == Some(lng)) by {
            reveal_with_fuel(spec_find_attr, 3);
            assert(attrs.drop_first() =~= seq![("lon"@, lng)]);
            assert(spec_find_attr(attrs.drop_first(), "lon"@) == Some(lng));
        }
        let s1 = spec_gpx_step(s, events[i], None, None, None);
        assert(s1 == GpxStateV {
            ctx: s.ctx.push(GpxCtx::Trkpt),
            pending_lat: spec_parse_decimal(lat),
            pending_lng: spec_parse_decimal(lng),
            pending_time: None,
            ..s
        });
        let s2 = spec_gpx_step(s1, events[i + 1], None, None, None);
        assert(s1.ctx.last() == GpxCtx::Trkpt);
        assert(s1.ctx.drop_last() =~= s.ctx);
        let pt = trkpt_sample(lat, lng);
        assert(s2 == GpxStateV {
            seg: s.seg.push(pt),
            ctx: s.ctx,
            pending_lat: None,
            pending_lng: None,
            pending_time: None,
            ..s
        });
        let rest = recs.drop_first();
        assert(recs_valid(rest)) by {
            assert(forall|k: int|
                0 <= k < rest.len() ==> #[trigger] rest[k] == recs[k + 1]);
        }
        assert(forall|k: int|
            0 <= k < rest.len() ==> events[i + 2 + 2 * k] == XmlEventV::Start(
                "trkpt"@,
                seq![("lat"@, (#[trigger] rest[k]).0), ("lon"@, rest[k].1)],
            ) && events[i + 2 + 2 * k + 1] == XmlEventV::End("trkpt"@)) by {
            assert(forall|k: int|
                0 <= k < rest.len() ==> #[trigger] rest[k] == recs[k + 1]);
        }
        lemma_gpx_records_run(events, i + 2, rest, s2);
        assert(s.seg.push(pt) + trkpt_samples(rest) =~= s.seg + trkpt_samples(recs));
        assert(spec_gpx_run(events, i, s, None, None, None) == spec_gpx_run(
            events,
            i + 1,
            s1,
            None,
            None,
            None,
        ));
        assert(spec_gpx_run(events, i + 1, s1, None, None, None) == spec_gpx_run(
            events,
            i + 2,
            s2,
            None,
            None,
            None,
        ));
    }
}

/// A well-formed minimal document with any number of valid, untimed point
/// records and no filters yields exactly those records' samples, in source
/// order: the declaration, root, one track and one segment around the
/// records parse to `Ok` of their coordinate values.
pub proof fn lemma_minimal_document_yields_every_record(recs: Seq<(Seq<char>, Seq<char>)>)
    requires
        recs_valid(recs),
    ensures
        ({
            let events = seq![
                XmlEventV::Decl,
                XmlEventV::Start("gpx"@, Seq::empty()),
                XmlEventV::Start("trk"@, Seq::empty()),
                XmlEventV::Start("trkseg"@, Seq::empty()),
            ] + trkpt_events_all(recs) + seq![
                XmlEventV::End("trkseg"@),
                XmlEventV::End("trk"@),
                XmlEventV::End("gpx"@),
            ];
            crate::parse::spec_parse_events(events, None, None, None) == Ok::<
                Seq<TrkPt>,
                ParseError,
            >(trkpt_samples(recs))
        }),
{
    lemma_gpx_tags_distinct();
    lemma_trkpt_events_all_shape(recs);
    let events = seq![
        XmlEventV::Decl,
        XmlEventV::Start("gpx"@, Seq::empty()),
        XmlEventV::Start("trk"@, Seq::empty()),
        XmlEventV::Start("trkseg"@, Seq::empty()),
    ] + trkpt_events_all(recs) + seq![
        XmlEventV::End("trkseg"@),
        XmlEventV::End("trk"@),
        XmlEventV::End("gpx"@),
    ];
    let n = recs.len() as int;
    assert(events.len() == 7 + 2 * n);
    assert(events[0] is Decl);
    assert(events[1] == XmlEventV::Start("gpx"@, Seq::<(Seq<char>, Seq<char>)>::empty()));
    let s0 = spec_gpx_init();
    let s1 = spec_gpx_step(s0, events[2], None, None, None);
    assert(events[2] == XmlEventV::Start("trk"@, Seq::<(Seq<char>, Seq<char>)>::empty()));
    assert(s1.ctx =~= seq![GpxCtx::Trk]);
    let s2 = spec_gpx_step(s1, events[3], None, None, None);
    assert(events[3] == XmlEventV::Start("trkseg"@, Seq::<(Seq<char>, Seq<char>)>::empty()));
    assert(s1.ctx.last() == GpxCtx::Trk);
    assert(s2.ctx =~= seq![GpxCtx::Trk, GpxCtx::Trkseg]);
    assert(s2.mode == GpxMode::Running && s2.pending_lat is None && s2.pending_lng is None
        && s2.pending_time is None);
    assert(forall|k: int|
        0 <= k < n ==> events[4 + 2 * k] == XmlEventV::Start(
            "trkpt"@,
            seq![("lat"@, (#[trigger] recs[k]).0), ("lon"@, recs[k].1)],
        ) && events[4 + 2 * k + 1] == XmlEventV::End("trkpt"@));
    lemma_gpx_records_run(events, 4, recs, s2);
    let s3 = GpxStateV { seg: s2.seg + trkpt_samples(recs), ..s2 };
    assert(s2.seg + trkpt_samples(recs) =~= trkpt_samples(recs));
    // The three closing tags: segment, track, root.
    assert(events[4 + 2 * n] == XmlEventV::End("trkseg"@));
    let s4 = spec_gpx_step(s3, events[4 + 2 * n], None, None, None);
    assert(s3.ctx.last() == GpxCtx::Trkseg);
    assert(s3.ctx.drop_last() =~= seq![GpxCtx::Trk]);
    assert(s4.trk == trkpt_samples(recs));
    assert(events[5 + 2 * n] == XmlEventV::End("trk"@));
    let s5 = spec_gpx_step(s4, events[5 + 2 * n], None, None, None);
    assert(s4.ctx.last() == GpxCtx::Trk);
    assert(s4.ctx.drop_last() =~= Seq::<GpxCtx>::empty());
    assert(s5.doc == trkpt_samples(recs));
    assert(s5.ctx.len() == 0);
    assert(events[6 + 2 * n] == XmlEventV::End("gpx"@));
    let s6 = spec_gpx_step(s5, events[6 + 2 * n], None, None, None);
    assert(s6 == s5);
    assert(spec_gpx_run(events, 7 + 2 * n, s6, None, None, None) == spec_gpx_finalize(s6));
    assert(spec_gpx_finalize(s6) == Ok::<Seq<TrkPt>, ParseError>(trkpt_samples(recs)));
    assert(spec_gpx_run(events, 2, s0, None, None, None) == spec_gpx_run(
        events,
        3,
        s1,
        None,
        None,
        None,
    ));
    assert(spec_gpx_run(events, 3, s1, None, None, None) == spec_gpx_run(
        events,
        4,
        s2,
        None,
        None,
        None,
    ));
    assert(spec_gpx_run(events, 4 + 2 * n, s3, None, None, None) == spec_gpx_run(
        events,
        5 + 2 * n,
        s4,
        None,
        None,
        None,
    ));
    assert(spec_gpx_run(events, 5 + 2 * n, s4, None, None, None) == spec_gpx_run(
        events,
        6 + 2 * n,
        s5,
        None,
        None,
        None,
    ));
    assert(spec_gpx_run(events, 6 + 2 * n, s5, None, None, None) == spec_gpx_run(
        events,
        7 + 2 * n,
        s6,
        None,
        None,
        None,
    ));
}

/// The record section's events, indexed from its start.
proof fn lemma_trkpt_events_all_shape(recs: Seq<(Seq<char>, Seq<char>)>)
    ensures
        trkpt_events_all(recs).len() == 2 * recs.len(),
        forall|k: int|
            0 <= k < recs.len() ==> trkpt_events_all(recs)[2 * k] == XmlEventV::Start(
                "trkpt"@,
                seq![("lat"@, (#[trigger] recs[k]).0), ("lon"@, recs[k].1)],
            ) && trkpt_events_all(recs)[2 * k + 1] == XmlEventV::End("trkpt"@),
    decreases recs.len(),
{
    if recs.len() > 0 {
        let rest = recs.drop_first();
        lemma_trkpt_events_all_shape(rest);
        assert(forall|k: int| 0 <= k < rest.len() ==> #[trigger] rest[k] == recs[k + 1]);
        let head = trkpt_events(recs[0].0, recs[0].1);
        assert(trkpt_events_all(recs) == head + trkpt_events_all(rest));
        assert(head.len() == 2);
        assert forall|k: int|
            0 <= k < recs.len() implies trkpt_events_all(recs)[2 * k] == XmlEventV::Start(
            "trkpt"@,
            seq![("lat"@, (#[trigger] recs[k]).0), ("lon"@, recs[k].1)],
        ) && trkpt_events_all(recs)[2 * k + 1] == XmlEventV::End("trkpt"@) by {
            if k == 0 {
                assert(trkpt_events_all(recs)[0] == head[0]);
                assert(trkpt_events_all(recs)[1] == head[1]);
            } else {
                assert(rest[k - 1] == recs[k]);
                assert(trkpt_events_all(recs)[2 * k] == trkpt_events_all(rest)[2 * (k - 1)]);
                assert(trkpt_events_all(recs)[2 * k + 1] == trkpt_events_all(rest)[2 * (k - 1)
                    + 1]);
            }
        }
    }
}

/// Parses a GPX event stream, starting after the root tag.
///
/// Returns exactly `spec_parse_gpx` on the stream's image: the points of the
/// last completed segment of the last completed track, the empty sequence on
/// an early filter or window exit, or the first fatal error.
#[verifier::loop_isolation(false)]
pub fn parse_gpx_events(
    events: &Vec<XmlEvent>,
    from: usize,
    toks: &Option<Vec<String>>,
    start: Option<i64>,
    end: Option<i64>,
) -> (r: Result<Vec<TrkPt>, ParseError>)
    ensures
        match r {
            Ok(v) => spec_parse_gpx(events.deep_view(), from as int, spec_toks(toks), start, end)
                == Ok::<Seq<TrkPt>, ParseError>(v@),
            Err(e) => spec_parse_gpx(events.deep_view(), from as int, spec_toks(toks), start, end)
                == Err::<Seq<TrkPt>, ParseError>(e),
        },
{
    let ghost ev = events.deep_view();
    let mut s = GpxState {
        ctx: Vec::new(),
        seg: Vec::new(),
        trk: Vec::new(),
        doc: Vec::new(),
        pending_lat: None,
        pending_lng: None,
        pending_time: None,
        meta_time: None,
        mode: GpxMode::Running,
    };
    proof {
        assert(s@ == spec_gpx_init());
    }
    let mut i = from;
    if from > events.len() {
        i = events.len();
        proof {
            assert(spec_gpx_run(ev, from as int, s@, spec_toks(toks), start, end)
                == spec_gpx_finalize(s@));
            assert(spec_gpx_run(ev, i as int, s@, spec_toks(toks), start, end)
                == spec_gpx_finalize(s@));
        }
    }
    while i < events.len()
        invariant
            i <= events.len(),
            spec_gpx_run(ev, i as int, s@, spec_toks(toks), start, end) == spec_parse_gpx(
                ev,
                from as int,
                spec_toks(toks),
                start,
                end,
            ),
        decreases events.len() - i,
    {
        proof {
            assert(ev[i as int] == events@[i as int]@);
        }
        s = gpx_step(s, &events[i], toks, start, end);
        i = i + 1;
    }
    let r = if let GpxMode::Failed(e) = s.mode {
        Err(e)
    } else if let GpxMode::Done = s.mode {
        Ok(s.doc)
    } else if let GpxMode::SkipTrk = s.mode {
        Err(ParseError::Truncated)
    } else if s.ctx.len() > 0 {
        Err(ParseError::Truncated)
    } else {
        Ok(s.doc)
    };
    r
}

} // verus!
