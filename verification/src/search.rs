//! The request of a search: which requests are refused, and how an accepted
//! one narrows the session before the crawl.

use vstd::prelude::*;
use crate::args::{Metres, SpatialFilterParams};
use crate::error::MyError;
use crate::linz_s3_filter::extent::Ordinate;
use crate::linz_s3_filter::linz_bucket::{filter_pred, names_of, Extent, LinzBucket};

verus! {

/// The place that a request asks for, once its fields are found to agree.
#[derive(Clone, Copy, Debug, PartialEq, Eq, Structural)]
pub enum SpatialRequest {
    /// A first corner and, optionally, the ordinates of a second one.
    Corners { lat1: Ordinate, lon1: Ordinate, lat2_opt: Option<Ordinate>, lon2_opt: Option<Ordinate> },
    /// A box of the given width and height around a centre.
    Area { lat: Ordinate, lon: Ordinate, width_m: Metres, height_m: Metres },
}

/// A request may name a second corner or dimensions, not both.
pub open spec fn is_conflicting(params: SpatialFilterParams) -> bool {
    (params.height_m_opt is Some || params.width_m_opt is Some) && (params.lat2_opt is Some
        || params.lon2_opt is Some)
}

/// The place that the parameters ask for. With a width the place is an
/// area, whose height is the width where none is given; without a width it
/// is the corners, and a height alone is not looked at.
pub open spec fn spatial_request_of(params: SpatialFilterParams) -> Result<SpatialRequest, MyError> {
    if is_conflicting(params) {
        Err(MyError::DimensionAndCoordinateRange)
    } else if params.width_m_opt is Some {
        Ok(
            SpatialRequest::Area {
                lat: params.lat1,
                lon: params.lon1,
                width_m: params.width_m_opt->0,
                height_m: match params.height_m_opt {
                    Some(h) => h,
                    None => params.width_m_opt->0,
                },
            },
        )
    } else {
        Ok(
            SpatialRequest::Corners {
                lat1: params.lat1,
                lon1: params.lon1,
                lat2_opt: params.lat2_opt,
                lon2_opt: params.lon2_opt,
            },
        )
    }
}

/// The place that the parameters ask for, or the refusal of parameters
/// that name both dimensions and a second corner.
pub fn spatial_request(params: &SpatialFilterParams) -> (r: Result<SpatialRequest, MyError>)
    ensures
        r == spatial_request_of(*params),
{
    if (params.height_m_opt.is_some() || params.width_m_opt.is_some()) && (
    params.lat2_opt.is_some() || params.lon2_opt.is_some()) {
        return Err(MyError::DimensionAndCoordinateRange);
    }
    match params.width_m_opt {
        Some(width_m) => {
            let height_m = match params.height_m_opt {
                Some(h) => h,
                None => width_m,
            };
            Ok(SpatialRequest::Area { lat: params.lat1, lon: params.lon1, width_m, height_m })
        },
        None => Ok(
            SpatialRequest::Corners {
                lat1: params.lat1,
                lon1: params.lon1,
                lat2_opt: params.lat2_opt,
                lon2_opt: params.lon2_opt,
            },
        ),
    }
}

/// The corners that a search runs with: latitude and longitude of the
/// first, then of the second.
pub type SearchCorners = (Option<Ordinate>, Option<Ordinate>, Option<Ordinate>, Option<Ordinate>);

/// The corners that a request is searched with, or its refusal: a request
/// is refused when it has no corners and no names at all, neither to
/// include nor to exclude.
pub open spec fn search_corners(corners: Option<Extent>, has_names: bool) -> Result<
    SearchCorners,
    MyError,
> {
    match corners {
        Some(c) => Ok((Some(c.0), Some(c.1), c.2, c.3)),
        None => if has_names {
            Ok((None, None, None, None))
        } else {
            Err(MyError::NoFilterProvided)
        },
    }
}

/// Checks a request before anything is fetched: the corners that it is
/// searched with, or its refusal.
pub fn check_request(
    corners: Option<Extent>,
    collection_name_filter_opt: Option<&[String]>,
    collection_exclusion_opt: Option<&[String]>,
) -> (r: Result<SearchCorners, MyError>)
    ensures
        r == search_corners(
            corners,
            collection_name_filter_opt is Some || collection_exclusion_opt is Some,
        ),
{
    match corners {
        Some((lat1, lon1, lat2_opt, lon2_opt)) => Ok((Some(lat1), Some(lon1), lat2_opt, lon2_opt)),
        None => {
            if collection_name_filter_opt.is_some() || collection_exclusion_opt.is_some() {
                Ok((None, None, None, None))
            } else {
                Err(MyError::NoFilterProvided)
            }
        },
    }
}

/// Prepares a search on a session. With corners, the session is narrowed
/// by the names and by the corners, and the search runs with the corners.
/// Without corners but with names, to include or to exclude, the session is
/// narrowed by the names alone and the search runs without a rectangle.
/// With neither, the request is refused and the session stays as it was: a
/// search of the whole bucket is not made.
pub fn search_catalog(
    linz_bucket: &mut LinzBucket,
    corners: Option<Extent>,
    collection_name_filter_opt: Option<&[String]>,
    collection_exclusion_opt: Option<&[String]>,
) -> (r: Result<SearchCorners, MyError>)
    ensures
        r == search_corners(
            corners,
            collection_name_filter_opt is Some || collection_exclusion_opt is Some,
        ),
        r is Err ==> *final(linz_bucket) == *old(linz_bucket),
        r is Ok ==> {
            &&& final(linz_bucket).collections == old(linz_bucket).collections
            &&& final(linz_bucket).reporter == old(linz_bucket).reporter
            &&& final(linz_bucket).permits == old(linz_bucket).permits
            &&& final(linz_bucket).filtered_collections is Some
            &&& final(linz_bucket).working_set() == old(linz_bucket).collections.deep_view().filter(
                filter_pred(
                    names_of(collection_name_filter_opt),
                    names_of(collection_exclusion_opt),
                    corners,
                ),
            )
        },
{
    match check_request(corners, collection_name_filter_opt, collection_exclusion_opt) {
        Ok(found) => {
            linz_bucket.set_collection_filter(
                collection_name_filter_opt,
                collection_exclusion_opt,
                corners,
            );
            Ok(found)
        },
        Err(e) => Err(e),
    }
}

} // verus!
