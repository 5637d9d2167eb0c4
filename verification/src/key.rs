//! Keys of the shift table.
//!
//! A cell of the kilometre grid is named by its northing index and its easting
//! index, each written as three lowercase hexadecimal digits, northing first.

use vstd::prelude::*;
use vstd::string::StringExecFns;

verus! {

/// The largest index that three hexadecimal digits can hold.
pub const MAX_INDEX: i16 = 0xfff;

/// Whether `index` can be written with three hexadecimal digits.
pub open spec fn index_in_range(index: int) -> bool {
    0 <= index <= MAX_INDEX as int
}

/// The lowercase hexadecimal digits, in order of their value.
pub open spec fn hex_digits() -> Seq<char> {
    seq!['0', '1', '2', '3', '4', '5', '6', '7', '8', '9', 'a', 'b', 'c', 'd', 'e', 'f']
}

/// `index` as three hexadecimal digits, the most significant first.
pub open spec fn hex3(index: int) -> Seq<char>
    recommends
        index_in_range(index),
{
    seq![hex_digits()[index / 256], hex_digits()[index / 16 % 16], hex_digits()[index % 16]]
}

/// The key of the cell with the given indices: the northing's digits, then the
/// easting's.
pub open spec fn grid_key_spec(easting: int, northing: int) -> Seq<char>
    recommends
        index_in_range(easting),
        index_in_range(northing),
{
    hex3(northing) + hex3(easting)
}

/// Two digits are the same character only where their values are the same.
pub proof fn lemma_hex_digit_injective(a: int, b: int)
    requires
        0 <= a < 16,
        0 <= b < 16,
        hex_digits()[a] == hex_digits()[b],
    ensures
        a == b,
{
}

/// The three digits of an index determine it.
pub proof fn lemma_hex3_injective(a: int, b: int)
    requires
        index_in_range(a),
        index_in_range(b),
        hex3(a) == hex3(b),
    ensures
        a == b,
{
    assert(hex3(a)[0] == hex3(b)[0]);
    assert(hex3(a)[1] == hex3(b)[1]);
    assert(hex3(a)[2] == hex3(b)[2]);
    lemma_hex_digit_injective(a / 256, b / 256);
    lemma_hex_digit_injective(a / 16 % 16, b / 16 % 16);
    lemma_hex_digit_injective(a % 16, b % 16);
}

/// Different cells have different keys: where both indices of two cells fit
/// three digits and the keys are equal, the cells are the same.
pub proof fn lemma_grid_key_injective(
    easting: int,
    northing: int,
    other_easting: int,
    other_northing: int,
)
    requires
        index_in_range(easting),
        index_in_range(northing),
        index_in_range(other_easting),
        index_in_range(other_northing),
        grid_key_spec(easting, northing) == grid_key_spec(other_easting, other_northing),
    ensures
        easting == other_easting,
        northing == other_northing,
{
    let key = grid_key_spec(easting, northing);
    let other = grid_key_spec(other_easting, other_northing);
    assert(key.subrange(0, 3) =~= hex3(northing));
    assert(key.subrange(3, 6) =~= hex3(easting));
    assert(other.subrange(0, 3) =~= hex3(other_northing));
    assert(other.subrange(3, 6) =~= hex3(other_easting));
    lemma_hex3_injective(northing, other_northing);
    lemma_hex3_injective(easting, other_easting);
}

/// The text of one hexadecimal digit.
fn digit_str(value: i16) -> (text: &'static str)
    requires
        0 <= value < 16,
    ensures
        text@ == seq![hex_digits()[value as int]],
{
    proof {
        reveal_strlit("0");
        reveal_strlit("1");
        reveal_strlit("2");
        reveal_strlit("3");
        reveal_strlit("4");
        reveal_strlit("5");
        reveal_strlit("6");
        reveal_strlit("7");
        reveal_strlit("8");
        reveal_strlit("9");
        reveal_strlit("a");
        reveal_strlit("b");
        reveal_strlit("c");
        reveal_strlit("d");
        reveal_strlit("e");
        reveal_strlit("f");
    }
    let text = match value {
        0 => "0",
        1 => "1",
        2 => "2",
        3 => "3",
        4 => "4",
        5 => "5",
        6 => "6",
        7 => "7",
        8 => "8",
        9 => "9",
        10 => "a",
        11 => "b",
        12 => "c",
        13 => "d",
        14 => "e",
        _ => "f",
    };
    assert(text@ =~= seq![hex_digits()[value as int]]);
    text
}

/// Appends the three digits of `index` to `out`.
fn push_hex3(out: &mut String, index: i16)
    requires
        index_in_range(index as int),
    ensures
        final(out)@ == old(out)@ + hex3(index as int),
{
    out.append(digit_str(index / 256));
    out.append(digit_str(index / 16 % 16));
    out.append(digit_str(index % 16));
    assert(out@ =~= old(out)@ + hex3(index as int));
}

/// The key of the cell `(easting, northing)`.
///
/// An index below zero or above [`MAX_INDEX`] does not fit three digits; such a
/// cell has no key, and `None` is returned rather than a longer or a cut key.
pub fn grid_key(easting: i16, northing: i16) -> (key: Option<String>)
    ensures
        key.is_some() <==> index_in_range(easting as int) && index_in_range(northing as int),
        key.is_some() ==> key.unwrap()@ == grid_key_spec(easting as int, northing as int),
{
    if easting < 0 || easting > MAX_INDEX || northing < 0 || northing > MAX_INDEX {
        return None;
    }
    let mut key = String::new();
    push_hex3(&mut key, northing);
    push_hex3(&mut key, easting);
    Some(key)
}

} // verus!
