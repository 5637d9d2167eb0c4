//! Lookup of OSTN02 shifts, which carry ETRS89 eastings and northings over to
//! OSGB36, by kilometre-grid cell.
//!
//! A [`ShiftTable`] is built once from the records of the survey and is
//! read-only from then on. [`ostn02_lookup`] finds the shifts stored under a
//! key, six lowercase hexadecimal digits; [`get_shifts`] finds them for a cell
//! of the grid.

pub mod grid;
pub mod key;
pub mod lookup;
pub mod perfect;
pub mod table;

pub use grid::GridRefs;
pub use key::grid_key;
pub use lookup::{get_shifts, ostn02_lookup};
pub use perfect::MAX_ENTRIES;
pub use table::{BuildError, Shift, ShiftRecord, ShiftTable};
