//! The spatial filter of a request, as the command line gives it.

use vstd::prelude::*;
use crate::linz_s3_filter::extent::Ordinate;
use crate::linz_s3_filter::text::same_text;

verus! {

/// A length in metres, in whatever integer encoding the caller uses. The
/// library hands lengths on and never computes with them.
pub type Metres = i64;

/// The two ways to ask for a place.
#[derive(Clone, Copy, Debug, PartialEq, Eq, Structural)]
pub enum SpatialFilter {
    /// A point, or the box between two corners.
    Coordinate { lat1: Ordinate, lon1: Ordinate, lat2_opt: Option<Ordinate>, lon2_opt: Option<Ordinate> },
    /// A box of a width and a height around a centre. Without a height
    /// the box is a square.
    Area { lat1: Ordinate, lon1: Ordinate, width_m: Metres, height_m_opt: Option<Metres> },
}

/// The spatial filter with every field that either way of asking can fill.
#[derive(Clone, Copy, Debug, PartialEq, Eq, Structural)]
pub struct SpatialFilterParams {
    pub lat1: Ordinate,
    pub lon1: Ordinate,
    pub lat2_opt: Option<Ordinate>,
    pub lon2_opt: Option<Ordinate>,
    pub width_m_opt: Option<Metres>,
    pub height_m_opt: Option<Metres>,
}

/// The parameters that a spatial filter stands for.
pub open spec fn params_of(command: SpatialFilter) -> SpatialFilterParams {
    match command {
        SpatialFilter::Coordinate { lat1, lon1, lat2_opt, lon2_opt } => SpatialFilterParams {
            lat1,
            lon1,
            lat2_opt,
            lon2_opt,
            width_m_opt: None,
            height_m_opt: None,
        },
        SpatialFilter::Area { lat1, lon1, width_m, height_m_opt } => SpatialFilterParams {
            lat1,
            lon1,
            lat2_opt: None,
            lon2_opt: None,
            width_m_opt: Some(width_m),
            height_m_opt,
        },
    }
}

impl SpatialFilterParams {
    /// The parameters that a spatial filter stands for.
    pub fn new(command: SpatialFilter) -> (params: Self)
        ensures
            params == params_of(command),
    {
        match command {
            SpatialFilter::Coordinate { lat1, lon1, lat2_opt, lon2_opt } => SpatialFilterParams {
                lat1,
                lon1,
                lat2_opt,
                lon2_opt,
                width_m_opt: None,
                height_m_opt: None,
            },
            SpatialFilter::Area { lat1, lon1, width_m, height_m_opt } => SpatialFilterParams {
                lat1,
                lon1,
                lat2_opt: None,
                lon2_opt: None,
                width_m_opt: Some(width_m),
                height_m_opt,
            },
        }
    }
}

/// A text in lower case, as `str::to_lowercase` gives it.
pub uninterp spec fn lowercase_of(text: Seq<char>) -> Seq<char>;

/// Calls `str::to_lowercase`. The contract claims only that the outcome is
/// the one named `lowercase_of`: the lower case of a text is fixed by its
/// characters.
#[verifier::external_body]
fn lowercase(text: &str) -> (lower: String)
    ensures
        lower@ == lowercase_of(text@),
{
    text.to_lowercase()
}

/// The names of the log levels.
pub open spec fn is_log_level_name(lower: Seq<char>) -> bool {
    lower == "error"@ || lower == "warn"@ || lower == "info"@ || lower == "debug"@ || lower
        == "trace"@
}

/// What the check of a log level gives for a text whose lower case is
/// `lower`: the text itself if `lower` names a level, else a complaint.
pub open spec fn checked_log_level(text: Seq<char>, lower: Seq<char>) -> Result<
    Seq<char>,
    Seq<char>,
> {
    if is_log_level_name(lower) {
        Ok(text)
    } else {
        Err("Invalid log level: "@ + text)
    }
}

/// The texts that a result of two texts holds.
pub open spec fn result_texts(r: Result<String, String>) -> Result<Seq<char>, Seq<char>> {
    match r {
        Ok(t) => Ok(t@),
        Err(t) => Err(t@),
    }
}

/// Checks a log level, given the lower case of its text.
pub fn check_log_level(text: &str, lower: &str) -> (r: Result<String, String>)
    ensures
        result_texts(r) == checked_log_level(text@, lower@),
{
    let known = same_text(lower, "error")
        || same_text(lower, "warn")
        || same_text(lower, "info")
        || same_text(lower, "debug")
        || same_text(lower, "trace");
    if known {
        Ok(text.to_owned())
    } else {
        let mut complaint = "Invalid log level: ".to_owned();
        complaint.append(text);
        Err(complaint)
    }
}

/// Checks a log level: a text is accepted, unchanged, when its lower case
/// is one of `error`, `warn`, `info`, `debug` and `trace`.
pub fn log_level_parser(text: &str) -> (r: Result<String, String>)
    ensures
        result_texts(r) == checked_log_level(text@, lowercase_of(text@)),
{
    let lower = lowercase(text);
    check_log_level(text, lower.as_str())
}

} // verus!
