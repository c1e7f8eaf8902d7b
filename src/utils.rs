//! Utilities for the WOF ecosystem: number formatting and repository paths.

pub mod float_format;
pub mod path;

pub use self::float_format::FloatFormat;
pub use self::path::{
    get_available_country_codes, get_available_us_venues_codes, id_to_data_path_folder,
    id_to_data_path_geojson, id_to_path_folder, id_to_path_geojson,
};
pub use crate::value::{JsonObject, JsonUtils};
