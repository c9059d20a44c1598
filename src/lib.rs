//! The Flinn-Engdahl seismic and geographical regionalization scheme.
//!
//! A coordinate is resolved to a region number by selecting a quadrant from
//! the signs of latitude and longitude, finding the latitude tier of that
//! quadrant in a tier index, and scanning the longitude breakpoints of that
//! tier in a segment table. Region numbers index a table of region names.
pub mod angle;
pub mod raw;
pub mod region;
pub mod source_text;
pub mod tiers;

pub use angle::Angle;
pub use region::{region, region_number, Dataset, RegionError};
pub use raw::{parse_numbers, split_lines};
pub use source_text::{
    lat_lon_index_write, latitude_tiers_read, latitude_tiers_write, llindx, names_write,
    reformat_lat_lon_index, reformat_latitude_tiers, reformat_names,
};
pub use tiers::{lat_lon_index, quadids, TIER_SEGMENT_COUNTS};
