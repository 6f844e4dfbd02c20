//! Per-shape backup configuration records.  Persistence (the JSON files
//! next to the executable) is handled by the surrounding program, which
//! hands loaded records to the library, and the library's answers back,
//! as plain values.

use vstd::prelude::*;
use crate::shape::Shape;

verus! {

/// One shape's backup configuration: the trigger shape, the source and
/// destination paths, and an optional extension filter.
#[derive(Debug)]
pub struct Configuration {
    pub shape: Shape,
    pub source_path: String,
    pub destination_path: String,
    pub extension_filter: Option<String>,
}

impl Configuration {
    /// Assemble a configuration record from its fields.
    pub fn new(
        shape: Shape,
        source_path: String,
        destination_path: String,
        extension_filter: Option<String>,
    ) -> (c: Configuration)
        ensures
            c.shape == shape,
            c.source_path == source_path,
            c.destination_path == destination_path,
            c.extension_filter == extension_filter,
    {
        Configuration { shape, source_path, destination_path, extension_filter }
    }
}

/// Two configuration records are equal when every stored field agrees.
pub open spec fn config_eq_spec(a: &Configuration, b: &Configuration) -> bool {
    a.shape == b.shape && a.source_path@ == b.source_path@ && a.destination_path@
        == b.destination_path@ && (match (a.extension_filter, b.extension_filter) {
        (Some(x), Some(y)) => x@ == y@,
        (None, None) => true,
        _ => false,
    })
}

impl PartialEq for Configuration {
    fn eq(&self, other: &Configuration) -> (r: bool) {
        let shape_eq = self.shape == other.shape;
        let source_eq = self.source_path == other.source_path;
        let destination_eq = self.destination_path == other.destination_path;
        let filter_eq = match (&self.extension_filter, &other.extension_filter) {
            (Some(x), Some(y)) => *x == *y,
            (None, None) => true,
            _ => false,
        };
        shape_eq && source_eq && destination_eq && filter_eq
    }
}

impl vstd::std_specs::cmp::PartialEqSpecImpl for Configuration {
    open spec fn obeys_eq_spec() -> bool {
        true
    }

    open spec fn eq_spec(&self, other: &Configuration) -> bool {
        config_eq_spec(self, other)
    }
}

/// The shapes eligible as triggers, given which of the three drawable
/// shapes currently has a persisted configuration record: the configured
/// ones, in the fixed order circle, square, triangle.
pub open spec fn shapes_with_config_spec(circle: bool, square: bool, triangle: bool) -> Seq<
    Shape,
> {
    (if circle {
        seq![Shape::Circle]
    } else {
        Seq::empty()
    }) + (if square {
        seq![Shape::Square]
    } else {
        Seq::empty()
    }) + (if triangle {
        seq![Shape::Triangle]
    } else {
        Seq::empty()
    })
}

/// The list of shapes for which a configuration record exists, in the
/// fixed order circle, square, triangle.  The caller reports which
/// records its configuration store holds.
pub fn shapes_with_config(circle: bool, square: bool, triangle: bool) -> (r: Vec<Shape>)
    ensures
        r@ == shapes_with_config_spec(circle, square, triangle),
{
    let mut r: Vec<Shape> = Vec::new();
    if circle {
        r.push(Shape::Circle);
    }
    if square {
        r.push(Shape::Square);
    }
    if triangle {
        r.push(Shape::Triangle);
    }
    proof {
        assert(r@ =~= shapes_with_config_spec(circle, square, triangle));
    }
    r
}

/// Whether at least one shape is configured — the precondition for
/// starting a recognition session at all.
pub fn has_shapes_configured(circle: bool, square: bool, triangle: bool) -> (r: bool)
    ensures
        r == (circle || square || triangle),
        r == (shapes_with_config_spec(circle, square, triangle).len() > 0),
{
    circle || square || triangle
}

} // verus!
