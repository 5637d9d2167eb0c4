//! References to cells of the kilometre grid.

use vstd::prelude::*;
use vstd::std_specs::convert::FromSpecImpl;

verus! {

/// The kilometre-grid references of a point in ETRS89: its easting and its
/// northing, each divided by a thousand and cut to an integer.
#[derive(Debug, Clone, Copy, PartialEq, Eq, Structural)]
pub struct GridRefs {
    pub easting: i16,
    pub northing: i16,
}

impl From<(i16, i16)> for GridRefs {
    /// The references of the cell `(easting, northing)`.
    fn from(gr: (i16, i16)) -> (refs: GridRefs) {
        GridRefs { easting: gr.0, northing: gr.1 }
    }
}

impl FromSpecImpl<(i16, i16)> for GridRefs {
    open spec fn obeys_from_spec() -> bool {
        true
    }

    open spec fn from_spec(gr: (i16, i16)) -> GridRefs {
        GridRefs { easting: gr.0, northing: gr.1 }
    }
}

impl From<GridRefs> for (i16, i16) {
    /// The cell as `(easting, northing)`.
    fn from(gr: GridRefs) -> (cell: (i16, i16)) {
        (gr.easting, gr.northing)
    }
}

impl FromSpecImpl<GridRefs> for (i16, i16) {
    open spec fn obeys_from_spec() -> bool {
        true
    }

    open spec fn from_spec(gr: GridRefs) -> (i16, i16) {
        (gr.easting, gr.northing)
    }
}

} // verus!
