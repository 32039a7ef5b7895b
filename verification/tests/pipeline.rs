//! End-to-end pipeline behavior: fixtures, batch splitting, row order,
//! and error reporting.

use unf::{
    calculate_unf, unf_from_batch, Column, ColumnType, Decimal, FloatCell, UnfConfig,
    UnfConfigBuilder, UnfError, UnfHashBuilder, UnfVersion,
};

fn float_cell(x: f64) -> FloatCell {
    if x.is_nan() {
        return FloatCell::NotANumber;
    }
    let s = format!("{:e}", x.abs());
    let (mant, exp) = s.split_once('e').unwrap();
    let exponent: i32 = exp.parse().unwrap();
    let digits: Vec<u8> = mant.bytes().filter(|b| *b != b'.').map(|b| b - b'0').collect();
    FloatCell::Finite(Decimal { negative: x.is_sign_negative(), digits, exponent })
}

fn float_col(values: &[f64]) -> Column {
    Column::Float32(values.iter().map(|x| float_cell(*x)).collect())
}

fn default_config() -> UnfConfig {
    UnfConfigBuilder::new().build().unwrap()
}

fn fingerprint_of(schema: Vec<ColumnType>, batches: Vec<Vec<Column>>, config: UnfConfig) -> unf::UnfHash {
    let builder = UnfHashBuilder::new(schema, UnfVersion::Six, config).unwrap();
    calculate_unf(builder, &batches, config).unwrap()
}

#[test]
fn known_float_dataset_fixture() {
    // Four rows, one float column: the per-column short hash is the known
    // reference value.
    let config = default_config();
    let schema = vec![ColumnType::Float32];
    let mut builder = UnfHashBuilder::new(schema, UnfVersion::Six, config).unwrap();
    builder.ingest(&vec![float_col(&[1.0, 2.0, 3.0, 4.0])]).unwrap();
    let columns = builder.finalize().unwrap();
    assert_eq!(columns.len(), 1);
    assert_eq!(columns[0].short_hash, "aWgJoh/Y7/Qo6uK9zs7ovQ==");
    assert_eq!(columns[0].digest.len(), 32);
}

#[test]
fn known_float_dataset_combined_fixture() {
    let config = default_config();
    let h = fingerprint_of(
        vec![ColumnType::Float32],
        vec![vec![float_col(&[1.0, 2.0, 3.0, 4.0])]],
        config,
    );
    assert_eq!(h.short_hash, "BpeZgr7Q0Gs93IE8flkCBw==");
    assert_eq!(h.digest.len(), 32);
}

#[test]
fn known_int_dataset_fixture() {
    let config = default_config();
    let schema = vec![ColumnType::Int64];
    let mut builder = UnfHashBuilder::new(schema, UnfVersion::Six, config).unwrap();
    builder.ingest(&vec![Column::Int64(vec![3, 1, 2])]).unwrap();
    let columns = builder.finalize().unwrap();
    assert_eq!(columns[0].short_hash, "1u0AuTR3sgGYWq7srtCC9g==");
}

#[test]
fn known_text_dataset_fixture() {
    // A missing text value and an empty text value hash identically: both
    // canonicalize to the empty string.
    let config = default_config();
    let schema = vec![ColumnType::Text];
    let mut builder = UnfHashBuilder::new(schema, UnfVersion::Six, config).unwrap();
    builder
        .ingest(&vec![Column::Text(vec![Some("hello".to_string()), Some(String::new()), None])])
        .unwrap();
    let columns = builder.finalize().unwrap();
    assert_eq!(columns[0].short_hash, "tqeH0nJFFomZQFBM942t0Q==");
}

#[test]
fn single_row_float_fixture() {
    let config = default_config();
    let schema = vec![ColumnType::Float64];
    let mut builder = UnfHashBuilder::new(schema, UnfVersion::Six, config).unwrap();
    builder.ingest(&vec![Column::Float64(vec![float_cell(0.107352613238618)])]).unwrap();
    let columns = builder.finalize().unwrap();
    assert_eq!(columns[0].short_hash, "ZQHj9qf/DDSYXH40iJ5h/g==");
}

#[test]
fn shorter_truncation_shortens_the_short_hash() {
    let config = UnfConfigBuilder::new().truncation(64).build().unwrap();
    let schema = vec![ColumnType::Float32];
    let mut builder = UnfHashBuilder::new(schema, UnfVersion::Six, config).unwrap();
    builder.ingest(&vec![float_col(&[1.0, 2.0, 3.0, 4.0])]).unwrap();
    let columns = builder.finalize().unwrap();
    assert_eq!(columns[0].short_hash, "aWgJoh/Y7/Q=");
}

#[test]
fn deterministic_across_runs() {
    let config = default_config();
    let batches =
        || vec![vec![float_col(&[1.5, -2.25, 0.0]), Column::Int64(vec![7, -9, 11])]];
    let schema = || vec![ColumnType::Float32, ColumnType::Int64];
    let h1 = fingerprint_of(schema(), batches(), config);
    let h2 = fingerprint_of(schema(), batches(), config);
    assert_eq!(h1.digest, h2.digest);
    assert_eq!(h1.short_hash, h2.short_hash);
}

#[test]
fn batch_split_is_invariant() {
    let config = default_config();
    let schema = || vec![ColumnType::Float32, ColumnType::Text];
    let texts = ["a", "b", "c", "d"];
    let whole = vec![vec![
        float_col(&[1.0, 2.0, 3.0, 4.0]),
        Column::Text(texts.iter().map(|s| Some(s.to_string())).collect()),
    ]];
    let split = vec![
        vec![
            float_col(&[1.0]),
            Column::Text(vec![Some("a".to_string())]),
        ],
        vec![
            float_col(&[2.0, 3.0]),
            Column::Text(vec![Some("b".to_string()), Some("c".to_string())]),
        ],
        vec![
            float_col(&[4.0]),
            Column::Text(vec![Some("d".to_string())]),
        ],
    ];
    let h1 = fingerprint_of(schema(), whole, config);
    let h2 = fingerprint_of(schema(), split, config);
    assert_eq!(h1.digest, h2.digest);
    assert_eq!(h1.short_hash, h2.short_hash);
}

#[test]
fn row_order_changes_the_fingerprint() {
    let config = default_config();
    let h1 = fingerprint_of(
        vec![ColumnType::Float32],
        vec![vec![float_col(&[1.0, 2.0, 3.0, 4.0])]],
        config,
    );
    let h2 = fingerprint_of(
        vec![ColumnType::Float32],
        vec![vec![float_col(&[4.0, 3.0, 2.0, 1.0])]],
        config,
    );
    assert_ne!(h1.short_hash, h2.short_hash);
}

#[test]
fn load_float_from_file() {
    // A float dataset and its row-sorted variant are different datasets to
    // this pipeline: per-column hashing is row-order sensitive, so their
    // fingerprints must differ.
    let data = [3.0, 1.0, 4.0, 1.5, 9.0, 2.0, 6.0];
    let mut sorted = data;
    sorted.sort_by(|a, b| a.partial_cmp(b).unwrap());
    let config = default_config();
    let h1 = fingerprint_of(vec![ColumnType::Float64], vec![vec![
        Column::Float64(data.iter().map(|x| float_cell(*x)).collect()),
    ]], config);
    let h2 = fingerprint_of(vec![ColumnType::Float64], vec![vec![
        Column::Float64(sorted.iter().map(|x| float_cell(*x)).collect()),
    ]], config);
    assert_ne!(h1.short_hash, h2.short_hash);
}

#[test]
fn unsupported_column_type_fails_fast() {
    let config = default_config();
    for bad in [ColumnType::Temporal, ColumnType::Nested, ColumnType::Boolean] {
        let r = UnfHashBuilder::new(vec![ColumnType::Float64, bad], UnfVersion::Six, config);
        assert!(matches!(r, Err(UnfError::UnsupportedColumnType)));
    }
}

#[test]
fn invalid_configuration_is_rejected_at_build() {
    assert_eq!(
        UnfConfigBuilder::new().digits(0).build(),
        Err(UnfError::InvalidConfiguration)
    );
    assert_eq!(
        UnfConfigBuilder::new().characters(0).build(),
        Err(UnfError::InvalidConfiguration)
    );
    assert_eq!(
        UnfConfigBuilder::new().truncation(12).build(),
        Err(UnfError::InvalidConfiguration)
    );
    assert_eq!(
        UnfConfigBuilder::new().truncation(512).build(),
        Err(UnfError::InvalidConfiguration)
    );
}

#[test]
fn empty_dataset_is_reported() {
    let config = default_config();
    // No columns at all.
    let r = UnfHashBuilder::new(Vec::new(), UnfVersion::Six, config);
    assert!(matches!(r, Err(UnfError::EmptyDataset)));
    // Columns but no rows.
    let builder =
        UnfHashBuilder::new(vec![ColumnType::Int32], UnfVersion::Six, config).unwrap();
    let r = calculate_unf(builder, &Vec::new(), config);
    assert!(matches!(r, Err(UnfError::EmptyDataset)));
}

#[test]
fn mismatched_batch_is_reported() {
    let config = default_config();
    let mut builder =
        UnfHashBuilder::new(vec![ColumnType::Int64], UnfVersion::Six, config).unwrap();
    let r = builder.ingest(&vec![Column::Int32(vec![1, 2])]);
    assert_eq!(r, Err(UnfError::SchemaMismatch));
    let r = builder.ingest(&vec![Column::Int64(vec![1]), Column::Int64(vec![2])]);
    assert_eq!(r, Err(UnfError::SchemaMismatch));
}

#[test]
fn truncation_beyond_shared_prefix_hashes_equal() {
    // Only the first two characters of each text value are hashed, so two
    // columns that agree on those two characters fingerprint identically.
    let config = UnfConfigBuilder::new().characters(2).build().unwrap();
    let h1 = fingerprint_of(vec![ColumnType::Text], vec![vec![
        Column::Text(vec![Some("abcdef".to_string())]),
    ]], config);
    let h2 = fingerprint_of(vec![ColumnType::Text], vec![vec![
        Column::Text(vec![Some("abXYZ".to_string())]),
    ]], config);
    assert_eq!(h1.short_hash, h2.short_hash);
}

#[test]
fn unf_from_batch_matches_calculate() {
    let config = default_config();
    let schema = vec![ColumnType::Int16];
    let h1 = unf_from_batch(&vec![Column::Int16(vec![1, -2, 3])], &schema, config).unwrap();
    let h2 = fingerprint_of(schema, vec![vec![Column::Int16(vec![1, -2, 3])]], config);
    assert_eq!(h1.digest, h2.digest);
    assert_eq!(h1.short_hash, h2.short_hash);
}
