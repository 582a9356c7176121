pub mod bucket_config;
pub mod dataset;
pub mod decimal;
pub mod extent;
pub mod fetcher;
pub mod links;
pub mod linz_bucket;
pub mod reporter;
pub mod resolution;
pub mod text;
pub mod utils;
