//! Typed columns and their canonical byte streams.
//!
//! A batch is a list of typed columns of equal length. Every cell of a
//! column canonicalizes to one string; a column's hash input is the
//! concatenation of its cells' encoded canonical strings, in row order.

use vstd::prelude::*;

use crate::canon::{
    canon_int, canonical_float_cell, canonical_int, canonical_text_cell, float_cell_canon,
    text_cell_canon, FloatCell,
};
use crate::encode::{encode_chars, encoded_bytes};
use crate::hashing::{sha256_update, sha_stream};

verus! {

/// The declared type of a column.
///
/// The last three variants stand for whole families of types that have no
/// canonicalization rule; declaring a column with one of them fails fast
/// rather than silently mis-hashing.
#[derive(Clone, Copy, Debug, PartialEq, Eq, Structural)]
pub enum ColumnType {
    Float64,
    Float32,
    Int16,
    Int32,
    Int64,
    UInt16,
    UInt32,
    UInt64,
    Text,
    /// Booleans, which have no canonicalization rule.
    Boolean,
    /// Dates, times, timestamps and durations.
    Temporal,
    /// Lists, structs and other nested types.
    Nested,
}

/// Whether a declared type has a canonicalization rule.
pub open spec fn type_supported(t: ColumnType) -> bool {
    match t {
        ColumnType::Boolean => false,
        ColumnType::Temporal => false,
        ColumnType::Nested => false,
        _ => true,
    }
}

/// One column of typed values, all rows of one batch.
pub enum Column {
    /// 64-bit floats, delivered as decimals.
    Float64(Vec<FloatCell>),
    /// 32-bit floats, delivered as decimals.
    Float32(Vec<FloatCell>),
    /// 16-bit signed integers.
    Int16(Vec<i16>),
    /// 32-bit signed integers.
    Int32(Vec<i32>),
    /// 64-bit signed integers.
    Int64(Vec<i64>),
    /// 16-bit unsigned integers.
    UInt16(Vec<u16>),
    /// 32-bit unsigned integers.
    UInt32(Vec<u32>),
    /// 64-bit unsigned integers.
    UInt64(Vec<u64>),
    /// UTF-8 text, with an explicit missing marker.
    Text(Vec<Option<String>>),
}

/// The magnitude of an integer.
pub open spec fn int_mag(x: int) -> nat {
    if x < 0 {
        (-x) as nat
    } else {
        x as nat
    }
}

impl Column {
    /// The declared type this column carries values of.
    pub open spec fn col_type(self) -> ColumnType {
        match self {
            Column::Float64(_) => ColumnType::Float64,
            Column::Float32(_) => ColumnType::Float32,
            Column::Int16(_) => ColumnType::Int16,
            Column::Int32(_) => ColumnType::Int32,
            Column::Int64(_) => ColumnType::Int64,
            Column::UInt16(_) => ColumnType::UInt16,
            Column::UInt32(_) => ColumnType::UInt32,
            Column::UInt64(_) => ColumnType::UInt64,
            Column::Text(_) => ColumnType::Text,
        }
    }

    /// Number of rows.
    pub open spec fn spec_len(self) -> nat {
        match self {
            Column::Float64(v) => v@.len(),
            Column::Float32(v) => v@.len(),
            Column::Int16(v) => v@.len(),
            Column::Int32(v) => v@.len(),
            Column::Int64(v) => v@.len(),
            Column::UInt16(v) => v@.len(),
            Column::UInt32(v) => v@.len(),
            Column::UInt64(v) => v@.len(),
            Column::Text(v) => v@.len(),
        }
    }

    /// Every float cell carries a well-formed decimal.
    pub open spec fn wf(self) -> bool {
        match self {
            Column::Float64(v) => forall|i: int| 0 <= i < v@.len() ==> v@[i].wf(),
            Column::Float32(v) => forall|i: int| 0 <= i < v@.len() ==> v@[i].wf(),
            _ => true,
        }
    }

    /// The canonical string of the cell at row `i`.
    pub open spec fn cell_canon(self, i: int, digits: nat) -> Seq<char> {
        match self {
            Column::Float64(v) => float_cell_canon(v@[i], digits),
            Column::Float32(v) => float_cell_canon(v@[i], digits),
            Column::Int16(v) => canon_int(v@[i] < 0, int_mag(v@[i] as int)),
            Column::Int32(v) => canon_int(v@[i] < 0, int_mag(v@[i] as int)),
            Column::Int64(v) => canon_int(v@[i] < 0, int_mag(v@[i] as int)),
            Column::UInt16(v) => canon_int(false, v@[i] as nat),
            Column::UInt32(v) => canon_int(false, v@[i] as nat),
            Column::UInt64(v) => canon_int(false, v@[i] as nat),
            Column::Text(v) => text_cell_canon(
                match v@[i] {
                    Some(s) => Some(s@),
                    None => None,
                },
            ),
        }
    }

    /// The canonical strings of all rows, in order.
    pub open spec fn canons(self, digits: nat) -> Seq<Seq<char>> {
        Seq::new(self.spec_len(), |i: int| self.cell_canon(i, digits))
    }

    /// Number of rows.
    pub fn length(&self) -> (n: usize)
        ensures
            n == self.spec_len(),
    {
        match self {
            Column::Float64(v) => v.len(),
            Column::Float32(v) => v.len(),
            Column::Int16(v) => v.len(),
            Column::Int32(v) => v.len(),
            Column::Int64(v) => v.len(),
            Column::UInt16(v) => v.len(),
            Column::UInt32(v) => v.len(),
            Column::UInt64(v) => v.len(),
            Column::Text(v) => v.len(),
        }
    }

    /// The declared type this column carries values of.
    pub fn column_type(&self) -> (t: ColumnType)
        ensures
            t == self.col_type(),
    {
        match self {
            Column::Float64(_) => ColumnType::Float64,
            Column::Float32(_) => ColumnType::Float32,
            Column::Int16(_) => ColumnType::Int16,
            Column::Int32(_) => ColumnType::Int32,
            Column::Int64(_) => ColumnType::Int64,
            Column::UInt16(_) => ColumnType::UInt16,
            Column::UInt32(_) => ColumnType::UInt32,
            Column::UInt64(_) => ColumnType::UInt64,
            Column::Text(_) => ColumnType::Text,
        }
    }
}

/// The canonical string of one cell, as a character vector.
pub fn canonical_cell(col: &Column, i: usize, digits: u32) -> (r: Vec<char>)
    requires
        col.wf(),
        i < col.spec_len(),
        1 <= digits,
    ensures
        r@ == col.cell_canon(i as int, digits as nat),
{
    match col {
        Column::Float64(v) => canonical_float_cell(&v[i], digits),
        Column::Float32(v) => canonical_float_cell(&v[i], digits),
        Column::Int16(v) => {
            let x = v[i];
            if x < 0 {
                canonical_int(true, (-(x as i32)) as u64)
            } else {
                canonical_int(false, x as u64)
            }
        },
        Column::Int32(v) => {
            let x = v[i];
            if x < 0 {
                canonical_int(true, (-(x as i64)) as u64)
            } else {
                canonical_int(false, x as u64)
            }
        },
        Column::Int64(v) => {
            let x = v[i];
            if x < 0 {
                if x == i64::MIN {
                    canonical_int(true, 9_223_372_036_854_775_808u64)
                } else {
                    canonical_int(true, (-x) as u64)
                }
            } else {
                canonical_int(false, x as u64)
            }
        },
        Column::UInt16(v) => canonical_int(false, v[i] as u64),
        Column::UInt32(v) => canonical_int(false, v[i] as u64),
        Column::UInt64(v) => canonical_int(false, v[i]),
        Column::Text(v) => canonical_text_cell(&v[i]),
    }
}

/// A well-formed batch: every column well-formed and all columns of equal
/// length.
pub open spec fn batch_wf(batch: Seq<Column>) -> bool {
    &&& forall|j: int| 0 <= j < batch.len() ==> (#[trigger] batch[j]).wf()
    &&& forall|j: int|
        0 <= j < batch.len() ==> (#[trigger] batch[j]).spec_len() == batch[0].spec_len()
}

/// A batch carries a schema when it has one column of the declared type
/// for each schema entry, in order.
pub open spec fn batch_matches(batch: Seq<Column>, schema: Seq<ColumnType>) -> bool {
    &&& batch.len() == schema.len()
    &&& forall|j: int| 0 <= j < batch.len() ==> (#[trigger] batch[j]).col_type() == schema[j]
}

/// The number of rows a batch delivers.
pub open spec fn batch_rows(batch: Seq<Column>) -> nat {
    if batch.len() == 0 {
        0
    } else {
        batch[0].spec_len()
    }
}

/// The byte stream of a list of canonical strings: each one encoded with
/// its terminator, concatenated in order.
pub open spec fn stream_of(canons: Seq<Seq<char>>, maxc: nat) -> Seq<u8>
    decreases canons.len(),
{
    if canons.len() == 0 {
        Seq::empty()
    } else {
        encoded_bytes(canons[0], maxc) + stream_of(canons.drop_first(), maxc)
    }
}

/// Appending one canonical string appends its encoding to the stream.
pub proof fn lemma_stream_of_push(canons: Seq<Seq<char>>, x: Seq<char>, maxc: nat)
    ensures
        stream_of(canons.push(x), maxc) == stream_of(canons, maxc) + encoded_bytes(x, maxc),
    decreases canons.len(),
{
    if canons.len() == 0 {
        let s = canons.push(x);
        assert(s[0] == x);
        assert(s.drop_first() =~= Seq::<Seq<char>>::empty());
        assert(stream_of(s.drop_first(), maxc) == Seq::<u8>::empty());
        assert(encoded_bytes(x, maxc) + Seq::<u8>::empty() =~= Seq::<u8>::empty()
            + encoded_bytes(x, maxc));
    } else {
        assert(canons.push(x).drop_first() =~= canons.drop_first().push(x));
        lemma_stream_of_push(canons.drop_first(), x, maxc);
        assert(stream_of(canons.push(x), maxc) =~= stream_of(canons, maxc) + encoded_bytes(
            x,
            maxc,
        ));
    }
}

/// A stream distributes over concatenation of canonical string lists:
/// hashing rows batch by batch absorbs the same bytes as hashing them all
/// at once.
pub proof fn lemma_stream_of_concat(a: Seq<Seq<char>>, b: Seq<Seq<char>>, maxc: nat)
    ensures
        stream_of(a + b, maxc) == stream_of(a, maxc) + stream_of(b, maxc),
    decreases a.len(),
{
    if a.len() == 0 {
        assert(a + b =~= b);
        assert(Seq::<u8>::empty() + stream_of(b, maxc) =~= stream_of(b, maxc));
    } else {
        assert((a + b).drop_first() =~= a.drop_first() + b);
        lemma_stream_of_concat(a.drop_first(), b, maxc);
        assert((a + b)[0] == a[0]);
        assert(stream_of(a + b, maxc) =~= stream_of(a, maxc) + stream_of(b, maxc));
    }
}

/// Feed every row of a column into a hasher, in row order.
pub fn absorb_column(h: &mut sha2::Sha256, col: &Column, digits: u32, characters: usize)
    requires
        col.wf(),
        1 <= digits,
    ensures
        sha_stream(*final(h)) == sha_stream(*old(h)) + stream_of(
            col.canons(digits as nat),
            characters as nat,
        ),
{
    let n = col.length();
    let ghost all = col.canons(digits as nat);
    proof {
        assert(all.take(0) =~= Seq::<Seq<char>>::empty());
    }
    let mut i: usize = 0;
    while i < n
        invariant
            i <= n,
            n == col.spec_len(),
            col.wf(),
            1 <= digits,
            all == col.canons(digits as nat),
            sha_stream(*h) == sha_stream(*old(h)) + stream_of(
                all.take(i as int),
                characters as nat,
            ),
        decreases n - i,
    {
        let canon = canonical_cell(col, i, digits);
        let bytes = encode_chars(&canon, characters);
        sha256_update(h, bytes.as_slice());
        proof {
            assert(all.take(i + 1) =~= all.take(i as int).push(all[i as int]));
            lemma_stream_of_push(all.take(i as int), all[i as int], characters as nat);
        }
        i = i + 1;
    }
    proof {
        assert(all.take(n as int) =~= all);
    }
}

} // verus!
