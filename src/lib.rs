//! Tools for Who's On First gazetteer documents: a JSON model whose numbers
//! are exact decimals, the canonical WOF serializer, document validation,
//! enrichment of foreign features and the rows written to a WOF store.

mod text;
pub mod de;
pub use self::de::parse_string_to_json;
pub mod error;
pub mod export;
pub mod fix;
pub mod geometry;
pub mod value;
pub mod keys;
pub mod ser;
pub mod patch;
pub mod shapefile;
pub mod storage;
pub mod wof;
pub use self::wof::{wof_to_writer, wof_to_writer_pretty, WOFGeoJSON, WofName};
pub use self::ser::{
    json_to_writer, json_to_writer_pretty, object_to_writer, object_to_writer_pretty, WOFGenerator,
};
pub mod utils;
