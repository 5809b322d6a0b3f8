//! Root sniffing and dispatch: one entry point for both dialects.
//!
//! A document must open with the XML declaration and then the root element
//! of a recognized format; anything else is `UnexpectedRoot`.  The activity
//! filter is mapped to the dialect's own type tokens here: `1` / `9` / `10`
//! in GPX track types, `Biking` / `Running` / `Other` in TCX sport names.

use vstd::prelude::*;

use crate::model::ActivityType;
use crate::model::ParseError;
use crate::model::TrkPt;
use crate::gpx::parse_gpx_events;
use crate::gpx::spec_parse_gpx;
use crate::gpx::spec_toks;
use crate::tcx::parse_tcx_events;
use crate::tcx::spec_parse_tcx;
use crate::xml::XmlEvent;
use crate::xml::XmlEventV;
use crate::xml::str_eq;
use crate::xml::tokenize;
use crate::xml::xml_events_of;

verus! {

/// The GPX `<type>` token an activity kind filters by.
pub open spec fn spec_gpx_token(a: ActivityType) -> Seq<char> {
    match a {
        ActivityType::Bike => "1"@,
        ActivityType::Run => "9"@,
        ActivityType::Walk => "10"@,
    }
}

/// The TCX `Sport` token an activity kind filters by.
pub open spec fn spec_tcx_token(a: ActivityType) -> Seq<char> {
    match a {
        ActivityType::Bike => "Biking"@,
        ActivityType::Run => "Running"@,
        ActivityType::Walk => "Other"@,
    }
}

/// The GPX tokens of a filter list, in order.
pub open spec fn spec_gpx_tokens(fs: Seq<ActivityType>) -> Seq<Seq<char>> {
    fs.map(|i: int, a: ActivityType| spec_gpx_token(a))
}

/// The TCX tokens of a filter list, in order.
pub open spec fn spec_tcx_tokens(fs: Seq<ActivityType>) -> Seq<Seq<char>> {
    fs.map(|i: int, a: ActivityType| spec_tcx_token(a))
}

/// The view of an optional filter list.
pub open spec fn spec_filters(f: &Option<Vec<ActivityType>>) -> Option<Seq<ActivityType>> {
    match f {
        None => None,
        Some(v) => Some(v@),
    }
}

/// What parsing a whole event stream yields: dispatch on the root element,
/// then the dialect's own state machine.
pub open spec fn spec_parse_events(
    events: Seq<XmlEventV>,
    filters: Option<Seq<ActivityType>>,
    start: Option<i64>,
    end: Option<i64>,
) -> Result<Seq<TrkPt>, ParseError> {
    if events.len() == 0 {
        Err(ParseError::UnexpectedRoot)
    } else if events[0] is Malformed {
        Err(ParseError::StructuralViolation)
    } else if !(events[0] is Decl) {
        Err(ParseError::UnexpectedRoot)
    } else if events.len() < 2 {
        Err(ParseError::UnexpectedRoot)
    } else {
        match events[1] {
            XmlEventV::Start(name, _attrs) => if name == "gpx"@ {
                spec_parse_gpx(
                    events,
                    2,
                    match filters {
                        None => None,
                        Some(fs) => Some(spec_gpx_tokens(fs)),
                    },
                    start,
                    end,
                )
            } else if name == "TrainingCenterDatabase"@ {
                spec_parse_tcx(
                    events,
                    2,
                    match filters {
                        None => None,
                        Some(fs) => Some(spec_tcx_tokens(fs)),
                    },
                    start,
                    end,
                )
            } else {
                Err(ParseError::UnexpectedRoot)
            },
            XmlEventV::Malformed => Err(ParseError::StructuralViolation),
            _ => Err(ParseError::UnexpectedRoot),
        }
    }
}

/// Maps a filter list to its GPX type tokens.
fn gpx_tokens(fs: &Vec<ActivityType>) -> (r: Vec<String>)
    ensures
        r.deep_view() == spec_gpx_tokens(fs@),
{
    let mut out: Vec<String> = Vec::new();
    let mut i: usize = 0;
    proof {
        assert(out.deep_view() =~~= spec_gpx_tokens(fs@.take(0)));
    }
    while i < fs.len()
        invariant
            0 <= i <= fs.len(),
            out.deep_view() == spec_gpx_tokens(fs@.take(i as int)),
        decreases fs.len() - i,
    {
        let tok: String = match fs[i] {
            ActivityType::Bike => "1".to_owned(),
            ActivityType::Run => "9".to_owned(),
            ActivityType::Walk => "10".to_owned(),
        };
        let ghost old_dv = out.deep_view();
        let ghost tokv = tok@;
        proof {
            assert(tokv == spec_gpx_token(fs@[i as int]));
        }
        out.push(tok);
        proof {
            assert(out.deep_view() =~~= old_dv.push(tokv));
            assert(spec_gpx_tokens(fs@.take(i + 1)) =~~= spec_gpx_tokens(fs@.take(i as int)).push(
                spec_gpx_token(fs@[i as int]),
            ));
            assert(out.deep_view() =~~= spec_gpx_tokens(fs@.take(i + 1)));
        }
        i = i + 1;
    }
    proof {
        assert(fs@.take(fs@.len() as int) =~= fs@);
    }
    out
}

/// Maps a filter list to its TCX sport tokens.
fn tcx_tokens(fs: &Vec<ActivityType>) -> (r: Vec<String>)
    ensures
        r.deep_view() == spec_tcx_tokens(fs@),
{
    let mut out: Vec<String> = Vec::new();
    let mut i: usize = 0;
    proof {
        assert(out.deep_view() =~~= spec_tcx_tokens(fs@.take(0)));
    }
    while i < fs.len()
        invariant
            0 <= i <= fs.len(),
            out.deep_view() == spec_tcx_tokens(fs@.take(i as int)),
        decreases fs.len() - i,
    {
        let tok: String = match fs[i] {
            ActivityType::Bike => "Biking".to_owned(),
            ActivityType::Run => "Running".to_owned(),
            ActivityType::Walk => "Other".to_owned(),
        };
        let ghost old_dv = out.deep_view();
        let ghost tokv = tok@;
        proof {
            assert(tokv == spec_tcx_token(fs@[i as int]));
        }
        out.push(tok);
        proof {
            assert(out.deep_view() =~~= old_dv.push(tokv));
            assert(spec_tcx_tokens(fs@.take(i + 1)) =~~= spec_tcx_tokens(fs@.take(i as int)).push(
                spec_tcx_token(fs@[i as int]),
            ));
            assert(out.deep_view() =~~= spec_tcx_tokens(fs@.take(i + 1)));
        }
        i = i + 1;
    }
    proof {
        assert(fs@.take(fs@.len() as int) =~= fs@);
    }
    out
}

/// Parses an already tokenized document: sniffs the root and runs the
/// matching dialect's state machine.
///
/// Returns exactly `spec_parse_events` on the stream's image, so a caller
/// that knows the events knows the result.
pub fn parse_events(
    events: &Vec<XmlEvent>,
    type_filters: &Option<Vec<ActivityType>>,
    start: &Option<i64>,
    end: &Option<i64>,
) -> (r: Result<Vec<TrkPt>, ParseError>)
    ensures
        match r {
            Ok(v) => spec_parse_events(
                events.deep_view(),
                spec_filters(type_filters),
                *start,
                *end,
            ) == Ok::<Seq<TrkPt>, ParseError>(v@),
            Err(e) => spec_parse_events(
                events.deep_view(),
                spec_filters(type_filters),
                *start,
                *end,
            ) == Err::<Seq<TrkPt>, ParseError>(e),
        },
{
    let ghost ev = events.deep_view();
    if events.len() == 0 {
        return Err(ParseError::UnexpectedRoot);
    }
    proof {
        assert(ev[0] == events@[0]@);
    }
    match &events[0] {
        XmlEvent::Malformed => {
            return Err(ParseError::StructuralViolation);
        },
        XmlEvent::Decl => {},
        _ => {
            return Err(ParseError::UnexpectedRoot);
        },
    }
    if events.len() < 2 {
        return Err(ParseError::UnexpectedRoot);
    }
    proof {
        assert(ev[1] == events@[1]@);
    }
    match &events[1] {
        XmlEvent::Start(name, _attrs) => {
            if str_eq(name, "gpx") {
                let toks: Option<Vec<String>> = match type_filters {
                    None => None,
                    Some(fs) => Some(gpx_tokens(fs)),
                };
                parse_gpx_events(events, 2, &toks, *start, *end)
            } else if str_eq(name, "TrainingCenterDatabase") {
                let toks: Option<Vec<String>> = match type_filters {
                    None => None,
                    Some(fs) => Some(tcx_tokens(fs)),
                };
                parse_tcx_events(events, 2, &toks, *start, *end)
            } else {
                Err(ParseError::UnexpectedRoot)
            }
        },
        XmlEvent::Malformed => Err(ParseError::StructuralViolation),
        _ => Err(ParseError::UnexpectedRoot),
    }
}

/// Parses one document's text into the point sequence of its activity.
///
/// The text is tokenized once by the outside XML reader; everything after
/// that is `parse_events`, so the result is pinned by `spec_parse_events`
/// on the stream the text tokenizes to.
pub fn get_pts(
    contents: &str,
    type_filters: &Option<Vec<ActivityType>>,
    start: &Option<i64>,
    end: &Option<i64>,
) -> (r: Result<Vec<TrkPt>, ParseError>)
    ensures
        match r {
            Ok(v) => spec_parse_events(
                xml_events_of(contents@),
                spec_filters(type_filters),
                *start,
                *end,
            ) == Ok::<Seq<TrkPt>, ParseError>(v@),
            Err(e) => spec_parse_events(
                xml_events_of(contents@),
                spec_filters(type_filters),
                *start,
                *end,
            ) == Err::<Seq<TrkPt>, ParseError>(e),
        },
{
    let events = tokenize(contents);
    parse_events(&events, type_filters, start, end)
}

} // verus!
