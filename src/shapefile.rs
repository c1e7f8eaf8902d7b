//! Which documents a shapefile of a given shape type takes.

use crate::value::{get_entry, Value};
use crate::ser::is_key;
use crate::wof::WOFGeoJSON;
use crate::value::lookup;
use vstd::prelude::*;

verus! {

/// The kind of shapes a shapefile holds.
#[derive(Debug, Clone, Copy, PartialEq, Eq, Structural)]
pub enum ShapeType {
    Point,
    Polygon,
    Polyline,
}

/// Options of a shapefile export.
#[derive(Debug, Clone, Copy, PartialEq, Eq, Structural)]
pub struct ShapefileOpts {
    /// Also export deprecated documents.
    pub deprecated: bool,
    /// The shapes of the shapefile.
    pub shapetype: ShapeType,
}

/// The shape type of a geometry type, for those a shapefile can hold.
pub open spec fn shape_of(t: Seq<char>) -> Option<ShapeType> {
    if t == "Point"@ {
        Some(ShapeType::Point)
    } else if t == "LineString"@ || t == "MultiLineString"@ {
        Some(ShapeType::Polyline)
    } else if t == "Polygon"@ || t == "MultiPolygon"@ {
        Some(ShapeType::Polygon)
    } else {
        None
    }
}

fn shape_of_type(t: &str) -> (r: Option<ShapeType>)
    ensures
        r == shape_of(t@),
{
    if is_key(t, "Point") {
        Some(ShapeType::Point)
    } else if is_key(t, "LineString") || is_key(t, "MultiLineString") {
        Some(ShapeType::Polyline)
    } else if is_key(t, "Polygon") || is_key(t, "MultiPolygon") {
        Some(ShapeType::Polygon)
    } else {
        None
    }
}

impl ShapefileOpts {
    /// Whether `doc` goes into the shapefile: its geometry type must give
    /// `shapetype`. A geometry without `type` or with a type that a
    /// shapefile cannot hold is an error; a `type` that is not a string is
    /// skipped.
    pub fn accepts(&self, doc: &WOFGeoJSON) -> (r: Result<bool, String>)
        ensures
            r is Err <==> match lookup(doc.geometry@, "type"@) {
                None => true,
                Some(Value::Str(t)) => shape_of(t@) is None,
                _ => false,
            },
            r matches Ok(b) ==> b == match lookup(doc.geometry@, "type"@) {
                Some(Value::Str(t)) => shape_of(t@) == Some(self.shapetype),
                _ => false,
            },
    {
        match get_entry(doc.geometry, "type") {
            None => Err("Trying to add incorect type to shapefile.".to_string()),
            Some(Value::Str(t)) => match shape_of_type(t.as_str()) {
                Some(shape) => Ok(shape == self.shapetype),
                None => {
                    let mut m = "Not implemented for ".to_string();
                    m.append(t.as_str());
                    Err(m)
                },
            },
            Some(_) => Ok(false),
        }
    }
}

} // verus!
