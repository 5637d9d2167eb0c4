use ostn02_phf::{get_shifts, ostn02_lookup, GridRefs, Shift, ShiftTable};

const MIN_X_SHIFT: f64 = 86.275;
const MIN_Y_SHIFT: f64 = -81.603;
const MIN_Z_SHIFT: f64 = 43.982;

fn caister() -> ShiftTable {
    let records = vec![
        Shift { key: "13928b".to_string(), eastings: 16500, northings: 3359, height: 270 },
        Shift { key: "13928c".to_string(), eastings: 16538, northings: 3357, height: 254 },
        Shift { key: "13a28b".to_string(), eastings: 16508, northings: 3387, height: 258 },
        Shift { key: "13a28c".to_string(), eastings: 16547, northings: 3386, height: 242 },
        Shift { key: "000000".to_string(), eastings: 0, northings: 0, height: 0 },
    ];
    ShiftTable::build(&records).unwrap()
}

/// The adjustments in metres for a cell, NaN where the table does not cover it.
fn metres(table: &ShiftTable, cell: (i16, i16)) -> (f64, f64, f64) {
    match get_shifts(table, cell) {
        Some(res) => (
            res.0 as f64 / 1000. + MIN_X_SHIFT,
            res.1 as f64 / 1000. + MIN_Y_SHIFT,
            res.2 as f64 / 1000. + MIN_Z_SHIFT,
        ),
        None => (f64::NAN, f64::NAN, f64::NAN),
    }
}

#[test]
fn test_internal_ffi() {
    let table = caister();
    assert_eq!((102.775, -78.244, 44.252), metres(&table, (651, 313)));
}

#[test]
fn test_ffi() {
    let table = caister();
    let gr = GridRefs { easting: 651, northing: 313 };
    assert_eq!((102.775, -78.244, 44.252), metres(&table, gr.into()));
}

#[test]
fn caister_tower_round_trip() {
    let table = caister();
    assert_eq!(ostn02_lookup(&table, "13928b"), Some((16500, 3359, 270)));
    assert_eq!(get_shifts(&table, (651, 313)), Some((16500, 3359, 270)));
    let (x, y, z) = metres(&table, (651, 313));
    assert_eq!(x, 16500. / 1000. + 86.275);
    assert_eq!(y, 3359. / 1000. - 81.603);
    assert_eq!(z, 270. / 1000. + 43.982);
    assert_eq!((x, y, z), (102.775, -78.244, 44.252));
}

#[test]
fn cell_is_easting_then_northing() {
    let table = caister();
    assert_eq!(get_shifts(&table, (651, 313)), Some((16500, 3359, 270)));
    assert_eq!(get_shifts(&table, (652, 313)), Some((16538, 3357, 254)));
    assert_eq!(get_shifts(&table, (651, 314)), Some((16508, 3387, 258)));
    assert_eq!(get_shifts(&table, (313, 651)), None);
}

#[test]
fn smallest_shifts_are_the_base_offsets() {
    let table = caister();
    assert_eq!(metres(&table, (0, 0)), (86.275, -81.603, 43.982));
}

#[test]
fn uncovered_cell_gives_no_shifts() {
    let table = caister();
    assert_eq!(get_shifts(&table, (650, 313)), None);
    let (x, y, z) = metres(&table, (650, 313));
    assert!(x.is_nan() && y.is_nan() && z.is_nan());
}

#[test]
fn cell_without_a_key_gives_no_shifts() {
    let table = caister();
    for cell in [(-1, 313), (651, -1), (4096, 313), (651, 4096), (i16::MIN, i16::MAX)] {
        assert_eq!(get_shifts(&table, cell), None);
        let (x, y, z) = metres(&table, cell);
        assert!(x.is_nan() && y.is_nan() && z.is_nan());
    }
}

#[test]
fn same_cell_gives_the_same_bits() {
    let table = caister();
    for cell in [(651, 313), (652, 314), (0, 0), (650, 313), (-1, 5000)] {
        let first = metres(&table, cell);
        let second = metres(&table, cell);
        assert_eq!(first.0.to_bits(), second.0.to_bits());
        assert_eq!(first.1.to_bits(), second.1.to_bits());
        assert_eq!(first.2.to_bits(), second.2.to_bits());
        assert_eq!(get_shifts(&table, cell), get_shifts(&table, cell));
    }
}
