//! The dataset combiner: per-column short hashes to one fingerprint.
//!
//! The short hashes are sorted lexicographically — this is what makes the
//! final fingerprint independent of column order — and the sorted list is
//! then treated as a single text column and run through the same
//! canonicalize-encode-hash pipeline once more.

use vstd::prelude::*;

use vstd::multiset::Multiset;
use vstd::relations::{sorted_by, total_ordering};
use vstd::seq_lib::lemma_sorted_unique;

use crate::canon::string_chars;
use crate::column::{lemma_stream_of_push, stream_of};
use crate::config::{UnfConfig, UnfVersion};
use crate::digits::copy_prefix;
use crate::encode::encode_chars;
use crate::hash_builder::{short_hash_len, short_hash_of, ColumnDigest};
use crate::hashing::{
    ascii_chars, base64_encode, lemma_base64_ascii, lemma_base64_len, sha256_finalize,
    sha256_new, sha256_of, sha256_update, sha_stream, string_from_ascii,
};

verus! {

/// The final dataset fingerprint.
pub struct UnfHash {
    /// The full 32-byte digest of the combined stream.
    pub digest: Vec<u8>,
    /// Base64 of the truncated digest prefix: the displayed fingerprint.
    pub short_hash: String,
    /// The algorithm revision that produced it.
    pub version: UnfVersion,
}

/// Lexicographic order on character sequences, by Unicode scalar value.
///
/// For the ASCII short hashes this orders, this coincides with byte-order
/// comparison of their UTF-8 forms.
pub open spec fn lex_leq(a: Seq<char>, b: Seq<char>) -> bool
    decreases a.len(),
{
    if a.len() == 0 {
        true
    } else if b.len() == 0 {
        false
    } else if (a[0] as u32) < (b[0] as u32) {
        true
    } else if (a[0] as u32) > (b[0] as u32) {
        false
    } else {
        lex_leq(a.drop_first(), b.drop_first())
    }
}

/// The order as a first-class function, so that every use names the same
/// value.
pub open spec fn lex_leq_fn() -> spec_fn(Seq<char>, Seq<char>) -> bool {
    |a: Seq<char>, b: Seq<char>| lex_leq(a, b)
}

proof fn lemma_lex_refl(a: Seq<char>)
    ensures
        lex_leq(a, a),
    decreases a.len(),
{
    if a.len() > 0 {
        lemma_lex_refl(a.drop_first());
    }
}

proof fn lemma_lex_antisym(a: Seq<char>, b: Seq<char>)
    requires
        lex_leq(a, b),
        lex_leq(b, a),
    ensures
        a == b,
    decreases a.len(),
{
    if a.len() == 0 {
        assert(b.len() == 0);
        assert(a =~= b);
    } else {
        assert(b.len() > 0);
        assert(a[0] as u32 == b[0] as u32);
        vstd::utf8::char_u32_cast(a[0], a[0] as u32);
        vstd::utf8::char_u32_cast(b[0], b[0] as u32);
        assert(a[0] == b[0]);
        lemma_lex_antisym(a.drop_first(), b.drop_first());
        assert(a.len() == b.len());
        assert forall|i: int| 0 <= i < a.len() implies a[i] == b[i] by {
            if i > 0 {
                assert(a[i] == a.drop_first()[i - 1]);
                assert(b[i] == b.drop_first()[i - 1]);
            }
        }
        assert(a =~= b);
    }
}

proof fn lemma_lex_trans(a: Seq<char>, b: Seq<char>, c: Seq<char>)
    requires
        lex_leq(a, b),
        lex_leq(b, c),
    ensures
        lex_leq(a, c),
    decreases a.len(),
{
    if a.len() == 0 {
    } else {
        assert(b.len() > 0);
        assert(c.len() > 0);
        if a[0] as u32 == b[0] as u32 && b[0] as u32 == c[0] as u32 {
            lemma_lex_trans(a.drop_first(), b.drop_first(), c.drop_first());
        }
    }
}

proof fn lemma_lex_connected(a: Seq<char>, b: Seq<char>)
    ensures
        lex_leq(a, b) || lex_leq(b, a),
    decreases a.len(),
{
    if a.len() > 0 && b.len() > 0 && a[0] as u32 == b[0] as u32 {
        lemma_lex_connected(a.drop_first(), b.drop_first());
    }
}

/// The lexicographic order is a total order, so sorting by it has a
/// unique result.
pub proof fn lemma_lex_total_ordering()
    ensures
        total_ordering(lex_leq_fn()),
{
    let leq = lex_leq_fn();
    assert forall|a: Seq<char>| #[trigger] leq(a, a) by {
        lemma_lex_refl(a);
    }
    assert forall|a: Seq<char>, b: Seq<char>| #[trigger] leq(a, b) && #[trigger] leq(b, a)
        implies a == b by {
        lemma_lex_antisym(a, b);
    }
    assert forall|a: Seq<char>, b: Seq<char>, c: Seq<char>|
        #[trigger] leq(a, b) && #[trigger] leq(b, c) implies leq(a, c) by {
        lemma_lex_trans(a, b, c);
    }
    assert forall|a: Seq<char>, b: Seq<char>| !(#[trigger] leq(a, b)) implies leq(b, a) by {
        lemma_lex_connected(a, b);
    }
}

/// The short hashes in their canonical (sorted) order.
pub open spec fn sorted_shorts(shorts: Seq<Seq<char>>) -> Seq<Seq<char>> {
    shorts.sort_by(lex_leq_fn())
}

/// The character sequences of a vector of character vectors.
pub open spec fn views_of(s: Seq<Vec<char>>) -> Seq<Seq<char>> {
    s.map_values(|v: Vec<char>| v@)
}

/// Compare two character vectors, starting at position `i`.
fn lex_leq_from(a: &Vec<char>, b: &Vec<char>, i: usize) -> (r: bool)
    requires
        i <= a@.len(),
        i <= b@.len(),
    ensures
        r == lex_leq(a@.skip(i as int), b@.skip(i as int)),
    decreases a@.len() - i,
{
    let ghost sa = a@.skip(i as int);
    let ghost sb = b@.skip(i as int);
    if i == a.len() {
        true
    } else if i == b.len() {
        false
    } else {
        proof {
            assert(sa[0] == a@[i as int]);
            assert(sb[0] == b@[i as int]);
        }
        let ca = a[i] as u32;
        let cb = b[i] as u32;
        if ca < cb {
            true
        } else if ca > cb {
            false
        } else {
            let r = lex_leq_from(a, b, i + 1);
            proof {
                assert(sa.drop_first() =~= a@.skip(i + 1));
                assert(sb.drop_first() =~= b@.skip(i + 1));
            }
            r
        }
    }
}

/// Whether `a` sorts at or before `b`.
fn lex_leq_exec(a: &Vec<char>, b: &Vec<char>) -> (r: bool)
    ensures
        r == lex_leq(a@, b@),
{
    let r = lex_leq_from(a, b, 0);
    proof {
        assert(a@.skip(0) =~= a@);
        assert(b@.skip(0) =~= b@);
    }
    r
}

/// Sort character vectors into lexicographic order.
///
/// The result is exactly `sort_by` of the input's character sequences:
/// sorted, with the same multiset of elements.
pub fn sort_canons(input: Vec<Vec<char>>) -> (r: Vec<Vec<char>>)
    ensures
        views_of(r@) == sorted_shorts(views_of(input@)),
{
    broadcast use vstd::multiset::group_multiset_axioms;
    broadcast use vstd::seq_lib::group_to_multiset_ensures;

    let ghost goal = views_of(input@);
    let mut src = input;
    let mut out: Vec<Vec<char>> = Vec::new();
    proof {
        assert(views_of(out@) =~= Seq::<Seq<char>>::empty());
        assert(views_of(out@).to_multiset().add(views_of(src@).to_multiset()) =~= goal.to_multiset());
    }
    while src.len() > 0
        invariant
            views_of(out@).to_multiset().add(views_of(src@).to_multiset()) == goal.to_multiset(),
            sorted_by(views_of(out@), lex_leq_fn()),
            forall|i: int, j: int|
                0 <= i < out@.len() && 0 <= j < src@.len() ==> lex_leq(
                    #[trigger] out@[i]@,
                    #[trigger] src@[j]@,
                ),
        decreases src@.len(),
    {
        let mut m: usize = 0;
        let mut t: usize = 1;
        proof {
            lemma_lex_refl(src@[0]@);
        }
        while t < src.len()
            invariant
                1 <= src@.len(),
                m < t <= src@.len(),
                forall|k: int| 0 <= k < t ==> lex_leq(src@[m as int]@, #[trigger] src@[k]@),
            decreases src@.len() - t,
        {
            if !lex_leq_exec(&src[m], &src[t]) {
                proof {
                    lemma_lex_connected(src@[m as int]@, src@[t as int]@);
                    assert forall|k: int| 0 <= k < t + 1 implies lex_leq(
                        src@[t as int]@,
                        #[trigger] src@[k]@,
                    ) by {
                        if k < t {
                            lemma_lex_trans(src@[t as int]@, src@[m as int]@, src@[k]@);
                        } else {
                            lemma_lex_refl(src@[t as int]@);
                        }
                    }
                }
                m = t;
            } else {
                proof {
                    lemma_lex_refl(src@[m as int]@);
                }
            }
            t = t + 1;
        }
        let ghost old_src = src@;
        let ghost old_out = out@;
        let x = src.remove(m);
        out.push(x);
        proof {
            let xv = x@;
            // The element moved from src to out leaves the combined
            // multiset unchanged.
            assert(views_of(old_src)[m as int] == xv);
            assert(views_of(src@) =~~= views_of(old_src).remove(m as int));
            vstd::seq_lib::to_multiset_remove::<Seq<char>>(views_of(old_src), m as int);
            assert(views_of(src@).to_multiset() == views_of(old_src).remove(
                m as int,
            ).to_multiset());
            assert(views_of(out@) =~~= views_of(old_out).push(xv));
            vstd::seq_lib::to_multiset_build::<Seq<char>>(views_of(old_out), xv);
            assert(views_of(out@).to_multiset() == views_of(old_out).push(xv).to_multiset());
            assert(views_of(old_src).contains(xv));
            vstd::seq_lib::to_multiset_contains::<Seq<char>>(views_of(old_src), xv);
            assert(views_of(old_src).to_multiset().contains(xv));
            assert(views_of(out@).to_multiset().add(views_of(src@).to_multiset())
                =~= views_of(old_out).to_multiset().add(views_of(old_src).to_multiset()));
            // The appended element is the minimum of what remained, so the
            // prefix stays sorted and still bounds the rest.
            assert forall|i: int, j: int|
                0 <= i < j < views_of(out@).len() implies lex_leq_fn()(
                views_of(out@)[i],
                views_of(out@)[j],
            ) by {
                if j < old_out.len() {
                    assert(sorted_by(views_of(old_out), lex_leq_fn()));
                } else {
                    assert(views_of(out@)[j] == xv);
                    assert(lex_leq(old_out[i]@, old_src[m as int]@));
                }
            }
            assert forall|i: int, j: int|
                0 <= i < out@.len() && 0 <= j < src@.len() implies lex_leq(
                #[trigger] out@[i]@,
                #[trigger] src@[j]@,
            ) by {
                let jj = if j < m { j } else { j + 1 };
                assert(src@[j] == old_src[jj]);
                if i < old_out.len() {
                    assert(lex_leq(old_out[i]@, old_src[jj]@));
                } else {
                    assert(out@[i]@ == xv);
                    assert(lex_leq(old_src[m as int]@, old_src[jj]@));
                }
            }
        }
    }
    proof {
        assert(views_of(src@) =~= Seq::<Seq<char>>::empty());
        assert(views_of(src@).to_multiset() =~= Multiset::<Seq<char>>::empty());
        assert(views_of(out@).to_multiset() =~= goal.to_multiset());
        lemma_lex_total_ordering();
        goal.lemma_sort_by_ensures(lex_leq_fn());
        lemma_sorted_unique(views_of(out@), goal.sort_by(lex_leq_fn()), lex_leq_fn());
        assert(views_of(out@) =~= sorted_shorts(goal));
    }
    out
}

/// The digest of the combined stream: the sorted short hashes, each
/// encoded as a text row, hashed as one column.
pub open spec fn combined_digest(shorts: Seq<Seq<char>>, config: UnfConfig) -> Seq<u8> {
    sha256_of(stream_of(sorted_shorts(shorts), config.characters as nat))
}

/// The displayed form of the combined digest.
pub open spec fn combined_short(shorts: Seq<Seq<char>>, config: UnfConfig) -> Seq<char> {
    ascii_chars(
        short_hash_of(
            stream_of(sorted_shorts(shorts), config.characters as nat),
            config.truncation as nat,
        ),
    )
}

/// The short hashes carried by a list of column digests.
pub open spec fn shorts_of(cds: Seq<ColumnDigest>) -> Seq<Seq<char>> {
    cds.map_values(|cd: ColumnDigest| cd.short_hash@)
}

/// Reduce the per-column short hashes to the one dataset fingerprint:
/// sort them, treat the sorted list as a single text column, and run the
/// whole pipeline over it once more with the same configuration.
pub fn combine(column_hashes: &Vec<ColumnDigest>, version: UnfVersion, config: UnfConfig) -> (r:
    UnfHash)
    requires
        config.valid(),
    ensures
        r.digest@ == combined_digest(shorts_of(column_hashes@), config),
        r.digest@.len() == 32,
        r.short_hash@ == combined_short(shorts_of(column_hashes@), config),
        r.short_hash@.len() == short_hash_len(config.truncation as nat),
        r.version == version,
{
    let ghost shorts = shorts_of(column_hashes@);
    let mut canons: Vec<Vec<char>> = Vec::new();
    let n = column_hashes.len();
    let mut i: usize = 0;
    while i < n
        invariant
            i <= n,
            n == column_hashes@.len(),
            shorts == shorts_of(column_hashes@),
            canons@.len() == i,
            views_of(canons@) == shorts.take(i as int),
        decreases n - i,
    {
        canons.push(string_chars(column_hashes[i].short_hash.as_str()));
        proof {
            assert(shorts[i as int] == column_hashes@[i as int].short_hash@);
            assert(canons@[i as int]@ == shorts[i as int]);
            assert(views_of(canons@) =~~= shorts.take(i + 1));
        }
        i = i + 1;
    }
    proof {
        assert(shorts.take(n as int) =~= shorts);
    }
    let sorted = sort_canons(canons);
    let ghost ordered = sorted_shorts(shorts);
    let mut h = sha256_new();
    let k = sorted.len();
    let mut j: usize = 0;
    while j < k
        invariant
            j <= k,
            k == sorted@.len(),
            views_of(sorted@) == ordered,
            config.valid(),
            sha_stream(h) == stream_of(ordered.take(j as int), config.characters as nat),
        decreases k - j,
    {
        let bytes = encode_chars(&sorted[j], config.characters);
        sha256_update(&mut h, bytes.as_slice());
        proof {
            assert(ordered.take(j + 1) =~= ordered.take(j as int).push(ordered[j as int]));
            assert(ordered[j as int] == sorted@[j as int]@);
            lemma_stream_of_push(
                ordered.take(j as int),
                ordered[j as int],
                config.characters as nat,
            );
        }
        j = j + 1;
    }
    proof {
        assert(ordered.take(k as int) =~= ordered);
    }
    let digest = sha256_finalize(h);
    let prefix = copy_prefix(&digest, config.truncation / 8);
    let short_bytes = base64_encode(prefix.as_slice());
    proof {
        lemma_base64_ascii(prefix@);
        lemma_base64_len(prefix@);
        assert(prefix@.len() == config.truncation / 8);
    }
    let short_hash = string_from_ascii(short_bytes);
    UnfHash { digest, short_hash, version }
}

} // verus!
