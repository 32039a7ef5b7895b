//! Column-order invariance of the combined fingerprint.

use unf::{
    calculate_unf, Column, ColumnType, Decimal, FloatCell, UnfConfigBuilder, UnfHashBuilder,
    UnfVersion,
};

fn float_cell(x: f64) -> FloatCell {
    if x.is_nan() {
        return FloatCell::NotANumber;
    }
    let s = format!("{:e}", x.abs());
    let (mant, exp) = s.split_once('e').unwrap();
    let exponent: i32 = exp.parse().unwrap();
    let digits: Vec<u8> = mant.bytes().filter(|b| *b != b'.').map(|b| b - b'0').collect();
    FloatCell::Finite(Decimal { negative: x.is_sign_negative(), digits, exponent })
}

fn floats(values: &[f64]) -> Column {
    Column::Float64(values.iter().map(|x| float_cell(*x)).collect())
}

fn ints(values: &[i64]) -> Column {
    Column::Int64(values.to_vec())
}

#[test]
fn permuting_columns_keeps_the_fingerprint() {
    let config = UnfConfigBuilder::new().build().unwrap();
    let builder = UnfHashBuilder::new(
        vec![ColumnType::Float64, ColumnType::Int64, ColumnType::Text],
        UnfVersion::Six,
        config,
    )
    .unwrap();
    let h1 = calculate_unf(
        builder,
        &vec![vec![
            floats(&[1.5, 2.5]),
            ints(&[10, 20]),
            Column::Text(vec![Some("x".to_string()), None]),
        ]],
        config,
    )
    .unwrap();
    let builder = UnfHashBuilder::new(
        vec![ColumnType::Text, ColumnType::Float64, ColumnType::Int64],
        UnfVersion::Six,
        config,
    )
    .unwrap();
    let h2 = calculate_unf(
        builder,
        &vec![vec![
            Column::Text(vec![Some("x".to_string()), None]),
            floats(&[1.5, 2.5]),
            ints(&[10, 20]),
        ]],
        config,
    )
    .unwrap();
    assert_eq!(h1.digest, h2.digest);
    assert_eq!(h1.short_hash, h2.short_hash);
}

#[test]
fn per_column_short_hashes_do_not_depend_on_position() {
    let config = UnfConfigBuilder::new().build().unwrap();
    let mut b1 = UnfHashBuilder::new(
        vec![ColumnType::Float64, ColumnType::Int64],
        UnfVersion::Six,
        config,
    )
    .unwrap();
    b1.ingest(&vec![floats(&[1.0, 2.0]), ints(&[3, 4])]).unwrap();
    let c1 = b1.finalize().unwrap();
    let mut b2 = UnfHashBuilder::new(
        vec![ColumnType::Int64, ColumnType::Float64],
        UnfVersion::Six,
        config,
    )
    .unwrap();
    b2.ingest(&vec![ints(&[3, 4]), floats(&[1.0, 2.0])]).unwrap();
    let c2 = b2.finalize().unwrap();
    assert_eq!(c1[0].short_hash, c2[1].short_hash);
    assert_eq!(c1[1].short_hash, c2[0].short_hash);
}

#[test]
fn different_column_content_changes_the_fingerprint() {
    let config = UnfConfigBuilder::new().build().unwrap();
    let builder =
        UnfHashBuilder::new(vec![ColumnType::Int64], UnfVersion::Six, config).unwrap();
    let h1 = calculate_unf(builder, &vec![vec![ints(&[1, 2, 3])]], config).unwrap();
    let builder =
        UnfHashBuilder::new(vec![ColumnType::Int64], UnfVersion::Six, config).unwrap();
    let h2 = calculate_unf(builder, &vec![vec![ints(&[1, 2, 4])]], config).unwrap();
    assert_ne!(h1.short_hash, h2.short_hash);
}
