//! The pipeline orchestrator: one streaming hasher per column.
//!
//! A builder is created from a schema, fed any number of row batches that
//! must match that schema, and finalized once into per-column digests and
//! short hashes. The absorbed byte stream of each column is the
//! concatenation, in delivery order, of its batches' canonical streams, so
//! any split of the rows into batches yields the same digests.

use vstd::prelude::*;

use crate::column::{
    absorb_column, batch_matches, batch_rows, batch_wf, stream_of, type_supported, Column,
    ColumnType,
};
use crate::config::{UnfConfig, UnfVersion};
use crate::error::UnfError;
use crate::hashing::{
    ascii_chars, base64_encode, base64_of, lemma_base64_ascii, lemma_base64_len,
    sha256_finalize, sha256_new, sha256_of, sha_stream, string_from_ascii,
};
use crate::digits::copy_prefix;

verus! {

/// The finished product of one column: its full digest and the base64
/// rendering of the truncated digest prefix.
pub struct ColumnDigest {
    /// The full 32-byte SHA-256 digest of the column's byte stream.
    pub digest: Vec<u8>,
    /// Base64 (standard alphabet, padded) of the first `truncation / 8`
    /// digest bytes.
    pub short_hash: String,
}

/// The short hash of a column byte stream: base64 of the truncated digest.
pub open spec fn short_hash_of(stream: Seq<u8>, truncation: nat) -> Seq<u8> {
    base64_of(sha256_of(stream).take((truncation / 8) as int))
}

/// The length of a short hash: four base64 bytes for every started group
/// of three digest-prefix bytes (24 for the default 128-bit truncation).
pub open spec fn short_hash_len(truncation: nat) -> nat {
    4 * ((truncation / 8 + 2) / 3)
}

/// Per-column streaming hash state for one dataset.
pub struct UnfHashBuilder {
    schema: Vec<ColumnType>,
    version: UnfVersion,
    hashers: Vec<sha2::Sha256>,
    config: UnfConfig,
    nonempty: bool,
}

impl UnfHashBuilder {
    /// The schema the builder was created with.
    pub closed spec fn schema_of(self) -> Seq<ColumnType> {
        self.schema@
    }

    /// The configuration the builder was created with.
    pub closed spec fn config_of(self) -> UnfConfig {
        self.config
    }

    /// The algorithm revision the builder was created with.
    pub closed spec fn version_of(self) -> UnfVersion {
        self.version
    }

    /// Whether at least one row has been ingested.
    pub closed spec fn has_rows(self) -> bool {
        self.nonempty
    }

    /// The bytes each column hasher has absorbed so far.
    pub closed spec fn streams(self) -> Seq<Seq<u8>> {
        Seq::new(self.hashers@.len(), |j: int| sha_stream(self.hashers@[j]))
    }

    /// Internal consistency: one hasher per schema column, a usable
    /// configuration, and a nonempty, fully supported schema.
    pub closed spec fn wf(self) -> bool {
        &&& self.hashers@.len() == self.schema@.len()
        &&& self.config.valid()
        &&& 1 <= self.schema@.len()
        &&& forall|j: int| 0 <= j < self.schema@.len() ==> type_supported(#[trigger] self.schema@[j])
    }

    /// What well-formedness guarantees to callers.
    pub proof fn lemma_wf_props(self)
        requires
            self.wf(),
        ensures
            self.streams().len() == self.schema_of().len(),
            self.config_of().valid(),
            1 <= self.schema_of().len(),
            forall|j: int|
                0 <= j < self.schema_of().len() ==> type_supported(#[trigger] self.schema_of()[j]),
    {
    }

    /// The algorithm revision the builder was created with.
    pub fn version(&self) -> (v: UnfVersion)
        ensures
            v == self.version_of(),
    {
        self.version
    }

    /// Create one hasher per schema column, before any row arrives.
    ///
    /// Fails fast: an unusable configuration, an empty schema, or a column
    /// type without a canonicalization rule is rejected here, so that a
    /// fingerprint can never silently omit or mis-hash a column.
    pub fn new(schema: Vec<ColumnType>, version: UnfVersion, config: UnfConfig) -> (r: Result<
        UnfHashBuilder,
        UnfError,
    >)
        ensures
            r is Ok <==> (config.valid() && 1 <= schema@.len() && (forall|j: int|
                0 <= j < schema@.len() ==> type_supported(#[trigger] schema@[j]))),
            r matches Ok(b) ==> {
                &&& b.wf()
                &&& b.schema_of() == schema@
                &&& b.config_of() == config
                &&& b.version_of() == version
                &&& !b.has_rows()
                &&& b.streams() =~= Seq::new(schema@.len(), |j: int| Seq::<u8>::empty())
            },
            !config.valid() ==> r == Err::<UnfHashBuilder, UnfError>(
                UnfError::InvalidConfiguration,
            ),
            config.valid() && schema@.len() == 0 ==> r == Err::<UnfHashBuilder, UnfError>(
                UnfError::EmptyDataset,
            ),
            config.valid() && 1 <= schema@.len() && !(forall|j: int|
                0 <= j < schema@.len() ==> type_supported(#[trigger] schema@[j])) ==> r == Err::<
                UnfHashBuilder,
                UnfError,
            >(UnfError::UnsupportedColumnType),
    {
        if !(config.digits >= 1 && config.characters >= 1 && config.truncation % 8 == 0
            && config.truncation <= 256) {
            return Err(UnfError::InvalidConfiguration);
        }
        if schema.len() == 0 {
            return Err(UnfError::EmptyDataset);
        }
        let n = schema.len();
        let mut j: usize = 0;
        while j < n
            invariant
                j <= n,
                n == schema@.len(),
                config.valid(),
                1 <= n,
                forall|k: int| 0 <= k < j ==> type_supported(#[trigger] schema@[k]),
            decreases n - j,
        {
            let supported = match schema[j] {
                ColumnType::Boolean => false,
                ColumnType::Temporal => false,
                ColumnType::Nested => false,
                _ => true,
            };
            if !supported {
                return Err(UnfError::UnsupportedColumnType);
            }
            j = j + 1;
        }
        let hashers = match version {
            UnfVersion::Six => {
                let mut hs: Vec<sha2::Sha256> = Vec::new();
                let mut k: usize = 0;
                while k < n
                    invariant
                        k <= n,
                        hs@.len() == k,
                        forall|m: int|
                            0 <= m < k ==> sha_stream(#[trigger] hs@[m]) == Seq::<u8>::empty(),
                    decreases n - k,
                {
                    hs.push(sha256_new());
                    k = k + 1;
                }
                hs
            },
        };
        let b = UnfHashBuilder { schema, version, hashers, config, nonempty: false };
        proof {
            assert(b.streams() =~= Seq::new(b.schema@.len(), |j: int| Seq::<u8>::empty()));
        }
        Ok(b)
    }

    /// Absorb one batch of rows, column by column.
    ///
    /// The batch must carry the builder's schema: same column count, same
    /// types in the same order. On success each column hasher's stream is
    /// extended by that column's canonical byte stream; a mismatched batch
    /// changes nothing and reports `SchemaMismatch`.
    pub fn ingest(&mut self, batch: &Vec<Column>) -> (r: Result<(), UnfError>)
        requires
            old(self).wf(),
            batch_wf(batch@),
        ensures
            final(self).wf(),
            final(self).schema_of() == old(self).schema_of(),
            final(self).config_of() == old(self).config_of(),
            final(self).version_of() == old(self).version_of(),
            r is Ok <==> batch_matches(batch@, old(self).schema_of()),
            r is Err ==> r == Err::<(), UnfError>(UnfError::SchemaMismatch) && *final(self)
                == *old(self),
            r is Ok ==> {
                &&& final(self).streams().len() == old(self).streams().len()
                &&& forall|j: int|
                    0 <= j < old(self).streams().len() ==> #[trigger] final(self).streams()[j]
                        == old(self).streams()[j] + stream_of(
                        batch@[j].canons(old(self).config_of().digits as nat),
                        old(self).config_of().characters as nat,
                    )
                &&& final(self).has_rows() == (old(self).has_rows() || batch_rows(batch@) > 0)
            },
    {
        if batch.len() != self.schema.len() {
            return Err(UnfError::SchemaMismatch);
        }
        let n = self.schema.len();
        let mut j: usize = 0;
        while j < n
            invariant
                j <= n,
                *self == *old(self),
                old(self).wf(),
                n == self.schema@.len(),
                batch@.len() == n,
                forall|k: int|
                    0 <= k < j ==> #[trigger] batch@[k].col_type() == self.schema@[k],
            decreases n - j,
        {
            if !(batch[j].column_type() == self.schema[j]) {
                return Err(UnfError::SchemaMismatch);
            }
            j = j + 1;
        }
        let ghost old_streams = self.streams();
        let ghost digits = self.config.digits as nat;
        let ghost maxc = self.config.characters as nat;
        let mut done: Vec<sha2::Sha256> = Vec::new();
        let mut k: usize = 0;
        while k < n
            invariant
                k <= n,
                self.schema == old(self).schema,
                self.config == old(self).config,
                self.version == old(self).version,
                self.nonempty == old(self).nonempty,
                old(self).wf(),
                batch_matches(batch@, old(self).schema_of()),
                n == self.schema@.len(),
                batch@.len() == n,
                batch_wf(batch@),
                self.config.valid(),
                digits == self.config.digits as nat,
                maxc == self.config.characters as nat,
                self.hashers@.len() == n - k,
                old_streams.len() == n,
                forall|m: int|
                    0 <= m < n - k ==> sha_stream(#[trigger] self.hashers@[m]) == old_streams[
                        k + m
                    ],
                done@.len() == k,
                forall|m: int|
                    0 <= m < k ==> sha_stream(#[trigger] done@[m]) == old_streams[m] + stream_of(
                        batch@[m].canons(digits),
                        maxc,
                    ),
            decreases n - k,
        {
            let mut h = self.hashers.remove(0);
            absorb_column(&mut h, &batch[k], self.config.digits, self.config.characters);
            done.push(h);
            k = k + 1;
        }
        self.hashers = done;
        if batch[0].length() > 0 {
            self.nonempty = true;
        }
        proof {
            assert(final(self).streams().len() == old_streams.len());
            assert forall|j2: int|
                0 <= j2 < old_streams.len() implies #[trigger] final(self).streams()[j2]
                == old_streams[j2] + stream_of(batch@[j2].canons(digits), maxc) by {
                assert(final(self).streams()[j2] == sha_stream(final(self).hashers@[j2]));
            }
        }
        Ok(())
    }

    /// Finalize every column hasher, in schema order.
    ///
    /// Consumes the builder: a hasher cannot be reused after its digest is
    /// taken. A dataset that never saw a row is reported as empty. Each
    /// column yields its full digest and the base64 short hash of the
    /// first `truncation / 8` digest bytes.
    pub fn finalize(self) -> (r: Result<Vec<ColumnDigest>, UnfError>)
        requires
            self.wf(),
        ensures
            r is Ok <==> self.has_rows(),
            !self.has_rows() ==> r == Err::<Vec<ColumnDigest>, UnfError>(UnfError::EmptyDataset),
            r matches Ok(v) ==> {
                &&& v@.len() == self.schema_of().len()
                &&& forall|j: int|
                    0 <= j < v@.len() ==> (#[trigger] v@[j].digest@) == sha256_of(
                        self.streams()[j],
                    ) && v@[j].digest@.len() == 32
                &&& forall|j: int|
                    0 <= j < v@.len() ==> (#[trigger] v@[j].short_hash@) == ascii_chars(
                        short_hash_of(self.streams()[j], self.config_of().truncation as nat),
                    ) && v@[j].short_hash@.len() == short_hash_len(
                        self.config_of().truncation as nat,
                    )
            },
    {
        if !self.nonempty {
            return Err(UnfError::EmptyDataset);
        }
        let ghost streams = self.streams();
        let ghost trunc = self.config.truncation as nat;
        let prefix_len: usize = self.config.truncation / 8;
        let mut hashers = self.hashers;
        let n = self.schema.len();
        let mut out: Vec<ColumnDigest> = Vec::new();
        let mut j: usize = 0;
        while j < n
            invariant
                j <= n,
                n == streams.len(),
                hashers@.len() == n - j,
                prefix_len <= 32,
                trunc / 8 == prefix_len,
                forall|m: int|
                    0 <= m < n - j ==> sha_stream(#[trigger] hashers@[m]) == streams[j + m],
                out@.len() == j,
                forall|m: int|
                    0 <= m < j ==> (#[trigger] out@[m].digest@) == sha256_of(streams[m])
                        && out@[m].digest@.len() == 32,
                forall|m: int|
                    0 <= m < j ==> (#[trigger] out@[m].short_hash@) == ascii_chars(
                        short_hash_of(streams[m], trunc),
                    ) && out@[m].short_hash@.len() == short_hash_len(trunc),
            decreases n - j,
        {
            let h = hashers.remove(0);
            let digest = sha256_finalize(h);
            let prefix = copy_prefix(&digest, prefix_len);
            let short_bytes = base64_encode(prefix.as_slice());
            proof {
                lemma_base64_ascii(prefix@);
                lemma_base64_len(prefix@);
                assert(prefix@.len() == prefix_len);
            }
            let short_hash = string_from_ascii(short_bytes);
            out.push(ColumnDigest { digest, short_hash });
            j = j + 1;
        }
        Ok(out)
    }
}

} // verus!
