//! Universal Numeric Fingerprint (UNF) computation.
//!
//! A UNF is a reproducible cryptographic fingerprint of a tabular dataset:
//! each column's values are canonicalized into a fixed textual form, encoded
//! with a fixed terminator, and streamed into a per-column SHA-256 hash; the
//! per-column digests are truncated, rendered in base64, sorted, and hashed
//! once more to obtain a dataset fingerprint that is independent of column
//! order but sensitive to the values and their order within each column.

use vstd::prelude::*;

pub mod canon;
pub mod column;
pub mod combine;
pub mod config;
pub mod digits;
pub mod encode;
pub mod error;
pub mod hash_builder;
pub mod hashing;

pub use canon::{Decimal, FloatCell};
pub use column::{Column, ColumnType};
pub use combine::{combine, UnfHash};
pub use config::{UnfConfig, UnfConfigBuilder, UnfVersion};
pub use error::UnfError;
pub use hash_builder::{ColumnDigest, UnfHashBuilder};

use crate::column::{batch_matches, batch_rows, batch_wf, stream_of};
use crate::combine::{combined_digest, combined_short, shorts_of};
use crate::hash_builder::{short_hash_len, short_hash_of};
use crate::hashing::ascii_chars;

verus! {

/// The column sequences of a list of batch vectors.
pub open spec fn batch_views(batches: Seq<Vec<Column>>) -> Seq<Seq<Column>> {
    batches.map_values(|v: Vec<Column>| v@)
}

/// Every batch in the list is well-formed.
pub open spec fn batches_wf(batches: Seq<Seq<Column>>) -> bool {
    forall|b: int| 0 <= b < batches.len() ==> batch_wf(#[trigger] batches[b])
}

/// Every batch in the list carries the schema.
pub open spec fn batches_match(batches: Seq<Seq<Column>>, schema: Seq<ColumnType>) -> bool {
    forall|b: int| 0 <= b < batches.len() ==> batch_matches(#[trigger] batches[b], schema)
}

/// Some batch in the list delivers at least one row.
pub open spec fn batches_have_rows(batches: Seq<Seq<Column>>) -> bool {
    exists|b: int| 0 <= b < batches.len() && batch_rows(#[trigger] batches[b]) > 0
}

/// The canonical strings of column `j` across all batches, in delivery
/// order: the canonical strings of the logical, concatenated column.
pub open spec fn batches_col_canons(batches: Seq<Seq<Column>>, j: int, digits: nat) -> Seq<
    Seq<char>,
>
    decreases batches.len(),
{
    if batches.len() == 0 {
        Seq::empty()
    } else {
        batches[0][j].canons(digits) + batches_col_canons(batches.drop_first(), j, digits)
    }
}

/// The byte stream column `j` absorbs across all batches.
pub open spec fn batches_col_stream(
    batches: Seq<Seq<Column>>,
    j: int,
    digits: nat,
    maxc: nat,
) -> Seq<u8>
    decreases batches.len(),
{
    if batches.len() == 0 {
        Seq::empty()
    } else {
        stream_of(batches[0][j].canons(digits), maxc) + batches_col_stream(
            batches.drop_first(),
            j,
            digits,
            maxc,
        )
    }
}

/// The per-column byte streams of a whole dataset delivered as batches.
pub open spec fn batches_streams(
    batches: Seq<Seq<Column>>,
    ncols: nat,
    digits: nat,
    maxc: nat,
) -> Seq<Seq<u8>> {
    Seq::new(ncols, |j: int| batches_col_stream(batches, j, digits, maxc))
}

/// The short hashes of the per-column streams, as character sequences.
pub open spec fn column_shorts(streams: Seq<Seq<u8>>, truncation: nat) -> Seq<Seq<char>> {
    streams.map_values(|s: Seq<u8>| ascii_chars(short_hash_of(s, truncation)))
}

/// The final dataset digest determined by the per-column byte streams and
/// the configuration: the short hashes of the streams, sorted, hashed as
/// one text column.
pub open spec fn dataset_digest(streams: Seq<Seq<u8>>, config: UnfConfig) -> Seq<u8> {
    combined_digest(column_shorts(streams, config.truncation as nat), config)
}

/// The displayed form of the final dataset digest.
pub open spec fn dataset_short(streams: Seq<Seq<u8>>, config: UnfConfig) -> Seq<char> {
    combined_short(column_shorts(streams, config.truncation as nat), config)
}

/// Appending one batch appends its column streams to each logical column
/// stream.
pub proof fn lemma_batches_col_stream_push(
    batches: Seq<Seq<Column>>,
    batch: Seq<Column>,
    j: int,
    digits: nat,
    maxc: nat,
)
    ensures
        batches_col_stream(batches.push(batch), j, digits, maxc) == batches_col_stream(
            batches,
            j,
            digits,
            maxc,
        ) + stream_of(batch[j].canons(digits), maxc),
    decreases batches.len(),
{
    if batches.len() == 0 {
        let s = batches.push(batch);
        assert(s[0] == batch);
        assert(s.drop_first() =~= Seq::<Seq<Column>>::empty());
        assert(batches_col_stream(s.drop_first(), j, digits, maxc) == Seq::<u8>::empty());
        assert(stream_of(batch[j].canons(digits), maxc) + Seq::<u8>::empty() =~= Seq::<
            u8,
        >::empty() + stream_of(batch[j].canons(digits), maxc));
    } else {
        assert(batches.push(batch).drop_first() =~= batches.drop_first().push(batch));
        lemma_batches_col_stream_push(batches.drop_first(), batch, j, digits, maxc);
        assert(batches_col_stream(batches.push(batch), j, digits, maxc) =~= batches_col_stream(
            batches,
            j,
            digits,
            maxc,
        ) + stream_of(batch[j].canons(digits), maxc));
    }
}

/// The per-column streams a batch list produces equal the stream of the
/// logical, concatenated column.
pub proof fn lemma_batches_stream_is_canons_stream(
    batches: Seq<Seq<Column>>,
    j: int,
    digits: nat,
    maxc: nat,
)
    ensures
        batches_col_stream(batches, j, digits, maxc) == stream_of(
            batches_col_canons(batches, j, digits),
            maxc,
        ),
    decreases batches.len(),
{
    if batches.len() == 0 {
    } else {
        lemma_batches_stream_is_canons_stream(batches.drop_first(), j, digits, maxc);
        crate::column::lemma_stream_of_concat(
            batches[0][j].canons(digits),
            batches_col_canons(batches.drop_first(), j, digits),
            maxc,
        );
    }
}

/// Determinism: the fingerprint is a pure function of the configuration
/// and the per-column byte streams, so computing it twice over the same
/// logical dataset yields bit-for-bit identical digest and short hash.
pub proof fn lemma_determinism(streams1: Seq<Seq<u8>>, streams2: Seq<Seq<u8>>, config: UnfConfig)
    requires
        streams1 == streams2,
    ensures
        dataset_digest(streams1, config) == dataset_digest(streams2, config),
        dataset_short(streams1, config) == dataset_short(streams2, config),
{
}

/// Batch-split invariance: two deliveries of the same dataset — any two
/// batch lists whose per-column canonical strings concatenate to the same
/// sequences, i.e. any two partitions of the same rows in the same order —
/// produce the same per-column streams and the same fingerprint.
pub proof fn lemma_batch_split_invariance(
    bs1: Seq<Seq<Column>>,
    bs2: Seq<Seq<Column>>,
    ncols: nat,
    config: UnfConfig,
)
    requires
        forall|j: int|
            0 <= j < ncols ==> batches_col_canons(bs1, j, config.digits as nat)
                == batches_col_canons(bs2, j, config.digits as nat),
    ensures
        batches_streams(bs1, ncols, config.digits as nat, config.characters as nat)
            == batches_streams(bs2, ncols, config.digits as nat, config.characters as nat),
        dataset_digest(
            batches_streams(bs1, ncols, config.digits as nat, config.characters as nat),
            config,
        ) == dataset_digest(
            batches_streams(bs2, ncols, config.digits as nat, config.characters as nat),
            config,
        ),
        dataset_short(
            batches_streams(bs1, ncols, config.digits as nat, config.characters as nat),
            config,
        ) == dataset_short(
            batches_streams(bs2, ncols, config.digits as nat, config.characters as nat),
            config,
        ),
{
    let digits = config.digits as nat;
    let maxc = config.characters as nat;
    assert forall|j: int|
        0 <= j < ncols implies batches_col_stream(bs1, j, digits, maxc) == batches_col_stream(
        bs2,
        j,
        digits,
        maxc,
    ) by {
        lemma_batches_stream_is_canons_stream(bs1, j, digits, maxc);
        lemma_batches_stream_is_canons_stream(bs2, j, digits, maxc);
    }
    assert(batches_streams(bs1, ncols, digits, maxc) =~= batches_streams(
        bs2,
        ncols,
        digits,
        maxc,
    ));
}

/// Mapping the same function over two sequences with equal multisets
/// gives mapped sequences with equal multisets.
proof fn lemma_map_values_multiset<A, B>(s1: Seq<A>, s2: Seq<A>, f: spec_fn(A) -> B)
    requires
        s1.to_multiset() == s2.to_multiset(),
    ensures
        s1.map_values(f).to_multiset() == s2.map_values(f).to_multiset(),
    decreases s1.len(),
{
    broadcast use vstd::multiset::group_multiset_axioms;
    broadcast use vstd::seq_lib::group_to_multiset_ensures;

    if s1.len() == 0 {
        assert(s1.to_multiset().len() == 0);
        assert(s2.len() == 0);
        assert(s1.map_values(f) =~= Seq::<B>::empty());
        assert(s2.map_values(f) =~= Seq::<B>::empty());
    } else {
        let x = s1[0];
        assert(s1.contains(x));
        vstd::seq_lib::to_multiset_contains(s1, x);
        vstd::seq_lib::to_multiset_contains(s2, x);
        assert(s2.contains(x));
        let i = choose|i: int| 0 <= i < s2.len() && s2[i] == x;
        vstd::seq_lib::to_multiset_remove(s1, 0);
        vstd::seq_lib::to_multiset_remove(s2, i);
        assert(s1.remove(0) =~= s1.drop_first());
        lemma_map_values_multiset(s1.drop_first(), s2.remove(i), f);
        let m1 = s1.map_values(f);
        let m2 = s2.map_values(f);
        assert(m1.remove(0) =~= s1.drop_first().map_values(f));
        assert(m2.remove(i) =~= s2.remove(i).map_values(f));
        vstd::seq_lib::to_multiset_remove(m1, 0);
        vstd::seq_lib::to_multiset_remove(m2, i);
        assert(m1[0] == f(x));
        assert(m2[i] == f(x));
        assert(m1.to_multiset().remove(f(x)) == m2.to_multiset().remove(f(x)));
        assert(m1.contains(f(x)));
        vstd::seq_lib::to_multiset_contains(m1, f(x));
        assert(m2.contains(f(x)));
        vstd::seq_lib::to_multiset_contains(m2, f(x));
        assert forall|e: B| true implies m1.to_multiset().count(e) == m2.to_multiset().count(
            e,
        ) by {
            if e == f(x) {
                assert(m1.to_multiset().remove(f(x)).count(e) == m1.to_multiset().count(e) - 1);
                assert(m2.to_multiset().remove(f(x)).count(e) == m2.to_multiset().count(e) - 1);
            } else {
                assert(m1.to_multiset().remove(f(x)).count(e) == m1.to_multiset().count(e));
                assert(m2.to_multiset().remove(f(x)).count(e) == m2.to_multiset().count(e));
            }
        }
        assert(m1.to_multiset() =~= m2.to_multiset());
    }
}

/// Column-order invariance: permuting a dataset's columns permutes its
/// per-column streams but leaves their multiset unchanged, and any two
/// stream lists with the same multiset sort to the same short hash list —
/// so the final fingerprint does not depend on column order. The
/// per-column short hashes themselves are unaffected individually.
pub proof fn lemma_column_order_invariance(
    streams1: Seq<Seq<u8>>,
    streams2: Seq<Seq<u8>>,
    config: UnfConfig,
)
    requires
        streams1.to_multiset() == streams2.to_multiset(),
    ensures
        dataset_digest(streams1, config) == dataset_digest(streams2, config),
        dataset_short(streams1, config) == dataset_short(streams2, config),
{
    let trunc = config.truncation as nat;
    let f = |s: Seq<u8>| ascii_chars(short_hash_of(s, trunc));
    lemma_map_values_multiset(streams1, streams2, f);
    let shorts1 = column_shorts(streams1, trunc);
    let shorts2 = column_shorts(streams2, trunc);
    assert(shorts1 =~= streams1.map_values(f));
    assert(shorts2 =~= streams2.map_values(f));
    crate::combine::lemma_lex_total_ordering();
    shorts1.lemma_sort_by_ensures(crate::combine::lex_leq_fn());
    shorts2.lemma_sort_by_ensures(crate::combine::lex_leq_fn());
    vstd::seq_lib::lemma_sorted_unique(
        shorts1.sort_by(crate::combine::lex_leq_fn()),
        shorts2.sort_by(crate::combine::lex_leq_fn()),
        crate::combine::lex_leq_fn(),
    );
    assert(crate::combine::sorted_shorts(shorts1) == crate::combine::sorted_shorts(shorts2));
}

/// Reordering a sequence by a bijection of its positions — given with
/// its inverse — leaves its multiset of elements unchanged.
pub proof fn lemma_reordering_preserves_multiset<A>(
    s1: Seq<A>,
    s2: Seq<A>,
    perm: Seq<int>,
    inv: Seq<int>,
)
    requires
        s1.len() == s2.len(),
        perm.len() == s1.len(),
        inv.len() == s1.len(),
        forall|i: int| 0 <= i < perm.len() ==> 0 <= #[trigger] perm[i] < s1.len(),
        forall|i: int, j: int| 0 <= i < j < perm.len() ==> perm[i] != perm[j],
        forall|v: int| 0 <= v < s1.len() ==> 0 <= #[trigger] inv[v] < s1.len(),
        forall|v: int| 0 <= v < s1.len() ==> perm[#[trigger] inv[v]] == v,
        forall|i: int| 0 <= i < s2.len() ==> #[trigger] s2[i] == s1[perm[i]],
    ensures
        s1.to_multiset() == s2.to_multiset(),
    decreases s1.len(),
{
    broadcast use vstd::multiset::group_multiset_axioms;
    broadcast use vstd::seq_lib::group_to_multiset_ensures;

    if s1.len() == 0 {
        assert(s1 =~= s2);
    } else {
        let n = s1.len() as int;
        let k = inv[n - 1];
        assert(perm[k] == n - 1);
        let t1 = s1.drop_last();
        let t2 = s2.remove(k);
        let p = perm.remove(k);
        let q = Seq::new((n - 1) as nat, |v: int| if inv[v] < k { inv[v] } else { inv[v] - 1 });
        assert forall|i: int| 0 <= i < p.len() implies 0 <= #[trigger] p[i] < t1.len() by {
            let ii = if i < k {
                i
            } else {
                i + 1
            };
            assert(p[i] == perm[ii]);
            // Only position k maps to the last element, by injectivity.
            assert(ii != k);
            if perm[ii] == n - 1 {
                if ii < k {
                    assert(perm[ii] != perm[k]);
                } else {
                    assert(perm[k] != perm[ii]);
                }
            }
        }
        assert forall|i: int, j: int| 0 <= i < j < p.len() implies p[i] != p[j] by {
            let ii = if i < k {
                i
            } else {
                i + 1
            };
            let jj = if j < k {
                j
            } else {
                j + 1
            };
            assert(p[i] == perm[ii] && p[j] == perm[jj]);
            assert(ii < jj);
        }
        assert forall|v: int| 0 <= v < t1.len() implies 0 <= #[trigger] q[v] < p.len() by {
            assert(inv[v] != k) by {
                if inv[v] == k {
                    assert(perm[inv[v]] == v);
                }
            }
        }
        assert forall|v: int| 0 <= v < t1.len() implies p[#[trigger] q[v]] == v by {
            assert(inv[v] != k) by {
                if inv[v] == k {
                    assert(perm[inv[v]] == v);
                }
            }
            if inv[v] < k {
                assert(p[q[v]] == perm[inv[v]]);
            } else {
                assert(q[v] == inv[v] - 1);
                assert(p[inv[v] - 1] == perm[inv[v]]);
            }
        }
        assert forall|i: int| 0 <= i < t2.len() implies #[trigger] t2[i] == t1[p[i]] by {
            let ii = if i < k {
                i
            } else {
                i + 1
            };
            assert(t2[i] == s2[ii]);
            assert(p[i] == perm[ii]);
            assert(t1[p[i]] == s1[perm[ii]]);
        }
        lemma_reordering_preserves_multiset(t1, t2, p, q);
        let x = s1[n - 1];
        assert(s2[k] == x);
        assert(s1 =~= t1.push(x));
        vstd::seq_lib::to_multiset_build(t1, x);
        vstd::seq_lib::to_multiset_remove(s2, k);
        assert(s2.contains(x));
        vstd::seq_lib::to_multiset_contains(s2, x);
        assert forall|e: A| true implies s1.to_multiset().count(e) == s2.to_multiset().count(
            e,
        ) by {
            if e == x {
                assert(t2.to_multiset().count(e) == s2.to_multiset().count(e) - 1);
            } else {
                assert(t2.to_multiset().count(e) == s2.to_multiset().count(e));
            }
        }
        assert(s1.to_multiset() =~= s2.to_multiset());
    }
}

/// Column-order invariance for an explicit permutation: a dataset whose
/// columns are the columns of another dataset, reordered by any bijection
/// of the positions (given with its inverse), has the same final
/// fingerprint.
pub proof fn lemma_column_permutation_invariance(
    streams1: Seq<Seq<u8>>,
    streams2: Seq<Seq<u8>>,
    perm: Seq<int>,
    inv: Seq<int>,
    config: UnfConfig,
)
    requires
        streams1.len() == streams2.len(),
        perm.len() == streams1.len(),
        inv.len() == streams1.len(),
        forall|i: int| 0 <= i < perm.len() ==> 0 <= #[trigger] perm[i] < streams1.len(),
        forall|i: int, j: int| 0 <= i < j < perm.len() ==> perm[i] != perm[j],
        forall|v: int| 0 <= v < streams1.len() ==> 0 <= #[trigger] inv[v] < streams1.len(),
        forall|v: int| 0 <= v < streams1.len() ==> perm[#[trigger] inv[v]] == v,
        forall|i: int| 0 <= i < streams2.len() ==> #[trigger] streams2[i] == streams1[perm[i]],
    ensures
        dataset_digest(streams1, config) == dataset_digest(streams2, config),
        dataset_short(streams1, config) == dataset_short(streams2, config),
{
    lemma_reordering_preserves_multiset(streams1, streams2, perm, inv);
    lemma_column_order_invariance(streams1, streams2, config);
}

/// Calculate the dataset fingerprint for a builder and a list of batches.
///
/// Each batch is ingested in order; the per-column digests are then
/// finalized and combined into the one dataset fingerprint. A batch that
/// does not carry the builder's schema aborts with `SchemaMismatch`; a
/// dataset with no rows at all is reported as `EmptyDataset`.
pub fn calculate_unf(unf_hash: UnfHashBuilder, batches: &Vec<Vec<Column>>, config: UnfConfig) -> (r:
    Result<UnfHash, UnfError>)
    requires
        unf_hash.wf(),
        config == unf_hash.config_of(),
        batches_wf(batch_views(batches@)),
    ensures
        ({
            let bs = batch_views(batches@);
            let n = unf_hash.schema_of().len();
            let streams = Seq::new(
                n,
                |j: int|
                    unf_hash.streams()[j] + batches_col_stream(
                        bs,
                        j,
                        config.digits as nat,
                        config.characters as nat,
                    ),
            );
            &&& (r is Ok <==> (batches_match(bs, unf_hash.schema_of()) && (unf_hash.has_rows()
                || batches_have_rows(bs))))
            &&& !batches_match(bs, unf_hash.schema_of()) ==> r == Err::<UnfHash, UnfError>(
                UnfError::SchemaMismatch,
            )
            &&& (batches_match(bs, unf_hash.schema_of()) && !(unf_hash.has_rows()
                || batches_have_rows(bs))) ==> r == Err::<UnfHash, UnfError>(
                UnfError::EmptyDataset,
            )
            &&& (r matches Ok(h) ==> {
                &&& h.digest@ == dataset_digest(streams, config)
                &&& h.digest@.len() == 32
                &&& h.short_hash@ == dataset_short(streams, config)
                &&& h.short_hash@.len() == short_hash_len(config.truncation as nat)
                &&& h.version == unf_hash.version_of()
            })
        }),
{
    let ghost bs = batch_views(batches@);
    let ghost schema = unf_hash.schema_of();
    let ghost n = unf_hash.schema_of().len();
    let ghost digits = config.digits as nat;
    let ghost maxc = config.characters as nat;
    let ghost streams0 = unf_hash.streams();
    proof {
        unf_hash.lemma_wf_props();
    }
    let mut builder = unf_hash;
    let nb = batches.len();
    let mut b: usize = 0;
    while b < nb
        invariant
            b <= nb,
            nb == bs.len(),
            bs == batch_views(batches@),
            schema == unf_hash.schema_of(),
            streams0 == unf_hash.streams(),
            config == unf_hash.config_of(),
            batches_wf(bs),
            builder.wf(),
            builder.schema_of() == schema,
            builder.config_of() == config,
            builder.version_of() == unf_hash.version_of(),
            schema.len() == n,
            streams0.len() == n,
            digits == config.digits as nat,
            maxc == config.characters as nat,
            forall|k: int| 0 <= k < b ==> batch_matches(#[trigger] bs[k], schema),
            builder.streams().len() == n,
            forall|j: int|
                0 <= j < n ==> #[trigger] builder.streams()[j] == streams0[j]
                    + batches_col_stream(bs.take(b as int), j, digits, maxc),
            builder.has_rows() == (unf_hash.has_rows() || batches_have_rows(bs.take(b as int))),
        decreases nb - b,
    {
        let ghost pre = bs.take(b as int);
        let ghost pre_streams = builder.streams();
        proof {
            assert(bs[b as int] == batches@[b as int]@);
            assert(batch_wf(bs[b as int]));
        }
        let res = builder.ingest(&batches[b]);
        match res {
            Ok(()) => {},
            Err(e) => {
                proof {
                    assert(!batch_matches(bs[b as int], schema));
                    assert(!batches_match(bs, schema)) by {
                        if batches_match(bs, schema) {
                            assert(batch_matches(bs[b as int], schema));
                        }
                    }
                }
                return Err(e);
            },
        }
        proof {
            assert(bs.take(b + 1) =~= pre.push(bs[b as int]));
            assert forall|j: int|
                0 <= j < n implies #[trigger] builder.streams()[j] == streams0[j]
                + batches_col_stream(bs.take(b + 1), j, digits, maxc) by {
                lemma_batches_col_stream_push(pre, bs[b as int], j, digits, maxc);
                assert(builder.streams()[j] == pre_streams[j] + stream_of(
                    bs[b as int][j].canons(digits),
                    maxc,
                ));
            }
            // Track whether any rows have been seen.
            if batch_rows(bs[b as int]) > 0 {
                assert(bs.take(b + 1)[b as int] == bs[b as int]);
                assert(batches_have_rows(bs.take(b + 1)));
            }
            if batches_have_rows(pre) {
                let w = choose|w: int| 0 <= w < pre.len() && batch_rows(#[trigger] pre[w]) > 0;
                assert(bs.take(b + 1)[w] == pre[w]);
                assert(batches_have_rows(bs.take(b + 1)));
            }
            if batches_have_rows(bs.take(b + 1)) && batch_rows(bs[b as int]) == 0
                && !batches_have_rows(pre) {
                let w = choose|w: int|
                    0 <= w < bs.take(b + 1).len() && batch_rows(#[trigger] bs.take(b + 1)[w]) > 0;
                if w < b {
                    assert(pre[w] == bs.take(b + 1)[w]);
                    assert(batches_have_rows(pre));
                } else {
                    assert(bs.take(b + 1)[w] == bs[b as int]);
                }
            }
        }
        b = b + 1;
    }
    proof {
        assert(bs.take(nb as int) =~= bs);
    }
    let ghost final_streams = builder.streams();
    let version = builder.version();
    match builder.finalize() {
        Ok(column_hashes) => {
            let result = crate::combine::combine(&column_hashes, version, config);
            proof {
                assert(shorts_of(column_hashes@) =~~= column_shorts(
                    final_streams,
                    config.truncation as nat,
                ));
                assert(final_streams =~~= Seq::new(
                    n,
                    |j: int| streams0[j] + batches_col_stream(bs, j, digits, maxc),
                ));
            }
            Ok(result)
        },
        Err(e) => Err(e),
    }
}

/// The fingerprint of a dataset delivered as one single batch.
///
/// Runs the whole pipeline — canonicalize, encode, hash, truncate,
/// combine — over the batch with the given schema and configuration.
pub fn unf_from_batch(batch: &Vec<Column>, schema: &Vec<ColumnType>, config: UnfConfig) -> (r:
    Result<UnfHash, UnfError>)
    requires
        batch_wf(batch@),
    ensures
        ({
            let n = schema@.len();
            let supported = forall|j: int|
                0 <= j < n ==> crate::column::type_supported(#[trigger] schema@[j]);
            let streams = Seq::new(
                n,
                |j: int|
                    stream_of(
                        batch@[j].canons(config.digits as nat),
                        config.characters as nat,
                    ),
            );
            &&& (r is Ok <==> (config.valid() && 1 <= n && supported && batch_matches(
                batch@,
                schema@,
            ) && batch_rows(batch@) > 0))
            &&& !config.valid() ==> r == Err::<UnfHash, UnfError>(UnfError::InvalidConfiguration)
            &&& (config.valid() && n == 0) ==> r == Err::<UnfHash, UnfError>(
                UnfError::EmptyDataset,
            )
            &&& (config.valid() && 1 <= n && !supported) ==> r == Err::<UnfHash, UnfError>(
                UnfError::UnsupportedColumnType,
            )
            &&& (config.valid() && 1 <= n && supported && !batch_matches(batch@, schema@)) ==> r
                == Err::<UnfHash, UnfError>(UnfError::SchemaMismatch)
            &&& (config.valid() && 1 <= n && supported && batch_matches(batch@, schema@)
                && batch_rows(batch@) == 0) ==> r == Err::<UnfHash, UnfError>(
                UnfError::EmptyDataset,
            )
            &&& (r matches Ok(h) ==> {
                &&& h.digest@ == dataset_digest(streams, config)
                &&& h.digest@.len() == 32
                &&& h.short_hash@ == dataset_short(streams, config)
                &&& h.short_hash@.len() == short_hash_len(config.truncation as nat)
                &&& h.version == config.version
            })
        }),
{
    let ghost n = schema@.len();
    let ghost digits = config.digits as nat;
    let ghost maxc = config.characters as nat;
    let mut schema_copy: Vec<ColumnType> = Vec::new();
    let len = schema.len();
    let mut i: usize = 0;
    while i < len
        invariant
            i <= len,
            len == schema@.len(),
            schema_copy@ == schema@.take(i as int),
        decreases len - i,
    {
        schema_copy.push(schema[i]);
        proof {
            assert(schema@.take(i + 1) =~= schema@.take(i as int).push(schema@[i as int]));
        }
        i = i + 1;
    }
    proof {
        assert(schema@.take(len as int) =~= schema@);
    }
    let mut builder = match UnfHashBuilder::new(schema_copy, config.version, config) {
        Ok(b) => b,
        Err(e) => {
            return Err(e);
        },
    };
    let ghost empty_streams = builder.streams();
    match builder.ingest(batch) {
        Ok(()) => {},
        Err(e) => {
            return Err(e);
        },
    }
    let ghost final_streams = builder.streams();
    let version = builder.version();
    match builder.finalize() {
        Ok(column_hashes) => {
            let result = crate::combine::combine(&column_hashes, version, config);
            proof {
                assert(shorts_of(column_hashes@) =~~= column_shorts(
                    final_streams,
                    config.truncation as nat,
                ));
                assert(final_streams =~~= Seq::new(
                    n,
                    |j: int| stream_of(batch@[j].canons(digits), maxc),
                ));
            }
            Ok(result)
        },
        Err(e) => Err(e),
    }
}

} // verus!
