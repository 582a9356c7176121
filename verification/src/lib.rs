//! Discovery of geospatial datasets in a hierarchical catalog: the rules by
//! which collections and items are filtered, ranked and scheduled for
//! download, stated as contracts and proved.

pub mod args;
pub mod download;
pub mod error;
pub mod linz_s3_filter;
pub mod search;
pub mod select;

pub use args::SpatialFilter;
pub use download::process_tile_list;
pub use search::search_catalog;
