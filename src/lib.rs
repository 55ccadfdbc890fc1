//! Line-density rendering of many time series: rasterize each series as a
//! polyline, normalize every pixel column of it to one unit of density, sum
//! the per-series grids, and colorize the aggregate.
pub mod grid;
pub mod raster;
pub mod density;
pub mod m4;
pub mod error;
pub mod source;
pub mod colorize;
pub mod pipeline;
