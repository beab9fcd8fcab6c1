//! A paginated video gallery: ordering of file names, page arithmetic,
//! labels decoded from epoch-named files, and the HTML of one gallery page.

pub mod config;
pub mod order;
pub mod pager;
pub mod render;
pub mod stamp;
