use ostn02_phf::{grid_key, GridRefs};
use std::collections::HashSet;

#[test]
fn caister_tower_key() {
    // Eastings and northings of Caister Tower, cut to kilometres.
    let e_grid = (651307.003_f64 / 1000.) as i16;
    let n_grid = (313255.686_f64 / 1000.) as i16;
    assert_eq!((e_grid, n_grid), (651, 313));
    assert_eq!(grid_key(e_grid, n_grid), Some("13928b".to_string()));
}

#[test]
fn key_is_northing_then_easting() {
    assert_eq!(grid_key(0x28b, 0x139), Some("13928b".to_string()));
    assert_eq!(grid_key(0x139, 0x28b), Some("28b139".to_string()));
    assert_eq!(grid_key(1, 0), Some("000001".to_string()));
    assert_eq!(grid_key(0, 1), Some("001000".to_string()));
}

#[test]
fn key_pads_each_index_to_three_digits() {
    assert_eq!(grid_key(0, 0), Some("000000".to_string()));
    assert_eq!(grid_key(9, 10), Some("00a009".to_string()));
    assert_eq!(grid_key(15, 16), Some("01000f".to_string()));
    assert_eq!(grid_key(255, 256), Some("1000ff".to_string()));
}

#[test]
fn key_digits_are_lowercase() {
    assert_eq!(grid_key(0xabc, 0xdef), Some("defabc".to_string()));
    assert_eq!(grid_key(0xfff, 0xfff), Some("ffffff".to_string()));
}

#[test]
fn index_beyond_three_digits_has_no_key() {
    assert_eq!(grid_key(0x1000, 0), None);
    assert_eq!(grid_key(0, 0x1000), None);
    assert_eq!(grid_key(i16::MAX, i16::MAX), None);
    assert!(grid_key(0xfff, 0).is_some());
    assert!(grid_key(0, 0xfff).is_some());
}

#[test]
fn negative_index_has_no_key() {
    assert_eq!(grid_key(-1, 0), None);
    assert_eq!(grid_key(0, -1), None);
    assert_eq!(grid_key(i16::MIN, 313), None);
    assert_eq!(grid_key(651, i16::MIN), None);
}

#[test]
fn every_key_has_six_hex_digits() {
    for index in [0i16, 1, 15, 16, 255, 256, 313, 651, 4094, 4095] {
        for other in [0i16, 7, 4095] {
            let key = grid_key(index, other).unwrap();
            assert_eq!(key.len(), 6);
            assert!(key.chars().all(|c| matches!(c, '0'..='9' | 'a'..='f')));
            assert_eq!(i16::from_str_radix(&key[..3], 16), Ok(other));
            assert_eq!(i16::from_str_radix(&key[3..], 16), Ok(index));
        }
    }
}

#[test]
fn distinct_cells_have_distinct_keys() {
    let mut indices: Vec<i16> = (0..48).collect();
    indices.extend([255, 256, 257, 651, 313, 0x123, 0x234, 0x345, 0xff0, 0xffe, 0xfff]);
    let mut seen = HashSet::new();
    for &easting in &indices {
        for &northing in &indices {
            assert!(seen.insert(grid_key(easting, northing).unwrap()));
        }
    }
    assert_eq!(seen.len(), indices.len() * indices.len());
}

#[test]
fn grid_refs_from_pair_and_back() {
    let refs = GridRefs::from((651, 313));
    assert_eq!(refs, GridRefs { easting: 651, northing: 313 });
    let pair: (i16, i16) = refs.into();
    assert_eq!(pair, (651, 313));
    let again: GridRefs = pair.into();
    assert_eq!(again.easting, 651);
    assert_eq!(again.northing, 313);
}

#[test]
fn key_is_two_zero_padded_hex_fields() {
    for index in 0..=0xfff_i16 {
        for other in [0i16, 0x139, 0xfff] {
            assert_eq!(grid_key(index, other), Some(format!("{:03x}{:03x}", other, index)));
            assert_eq!(grid_key(other, index), Some(format!("{:03x}{:03x}", index, other)));
        }
    }
}
