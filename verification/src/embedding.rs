//! The deterministic bag-of-hashed-tokens text embedding: text is
//! lower-cased, split on whitespace, and every token is counted in one of
//! a fixed number of buckets chosen by its hash. Cosine similarity over
//! these counts clusters text with shared vocabulary.

use std::collections::hash_map::DefaultHasher;
use std::hash::{BuildHasher, BuildHasherDefault};
use vstd::prelude::*;
use crate::text::{slice_texts, split_whitespace, white_space, whitespace_tokens, tokens_of_joined_texts};

verus! {

/// Number of buckets (dimensions) of an embedding.
pub const DIMENSIONS: usize = 64;

/// The lower-case form of a text, as `str::to_lowercase` computes it.
pub uninterp spec fn lowercased(text: Seq<char>) -> Seq<char>;

/// The digest of a token under the standard library's default hasher.
pub uninterp spec fn token_digest(token: Seq<char>) -> u64;

/// `str::to_lowercase`: the lower-case form of `text`, named
/// `lowercased`; the only fact claimed of it is that the empty text stays
/// empty.
#[verifier::external_body]
fn lowercase(text: &str) -> (lower: String)
    ensures
        lower@ == lowercased(text@),
        text@.len() == 0 ==> lower@.len() == 0,
{
    text.to_lowercase()
}

/// `BuildHasher::hash_one` with a freshly built `DefaultHasher` (the same
/// digest `DefaultHasher::new`, `Hash::hash` and `Hasher::finish` give):
/// named `token_digest`, a function of the token alone since a
/// default-built `DefaultHasher` always starts from the same keys.
#[verifier::external_body]
fn digest(token: &str) -> (h: u64)
    ensures
        h == token_digest(token@),
{
    BuildHasherDefault::<DefaultHasher>::default().hash_one(token)
}

/// The tokens that an embedding of `text` counts.
pub open spec fn embedding_tokens(text: Seq<char>) -> Seq<Seq<char>> {
    whitespace_tokens(lowercased(text))
}

/// The bucket a token is counted in.
pub open spec fn bucket_of(token: Seq<char>) -> int {
    (token_digest(token) % (DIMENSIONS as u64)) as int
}

/// How many of `tokens` fall into bucket `b`.
pub open spec fn bucket_count(tokens: Seq<Seq<char>>, b: int) -> nat {
    tokens.filter(|t: Seq<char>| bucket_of(t) == b).len()
}

proof fn lemma_bucket_count_push(tokens: Seq<Seq<char>>, t: Seq<char>, b: int)
    ensures
        bucket_count(tokens.push(t), b) == bucket_count(tokens, b) + if bucket_of(t) == b {
            1nat
        } else {
            0nat
        },
{
    reveal(Seq::filter);
    assert(tokens.push(t).drop_last() =~= tokens);
}

/// The sum of all entries of `counts`.
pub open spec fn sum_counts(counts: Seq<usize>) -> int
    decreases counts.len(),
{
    if counts.len() == 0 {
        0
    } else {
        sum_counts(counts.drop_last()) + counts.last()
    }
}

/// Counts that hold, bucket by bucket, how many of `tokens` fall into each
/// bucket add up to the per-bucket totals.
proof fn lemma_sum_of_bucket_counts(counts: Seq<usize>, tokens: Seq<Seq<char>>)
    requires
        forall|b: int| 0 <= b < counts.len() ==> #[trigger] counts[b] == bucket_count(tokens, b),
    ensures
        sum_counts(counts) == counted_total(tokens, counts.len() as int),
    decreases counts.len(),
{
    if counts.len() > 0 {
        let prefix = counts.drop_last();
        assert forall|b: int| 0 <= b < prefix.len() implies #[trigger] prefix[b] == bucket_count(tokens, b) by {
            assert(prefix[b] == counts[b]);
        }
        lemma_sum_of_bucket_counts(prefix, tokens);
        assert(counts.last() == counts[counts.len() - 1]);
    }
}

/// The embedding counts of `text`: for each of the [`DIMENSIONS`] buckets,
/// how many of its lower-cased whitespace-separated tokens hash into it.
/// Every token is counted: the counts add up to the number of tokens.
pub fn token_bucket_counts(text: &str) -> (counts: Vec<usize>)
    ensures
        counts.len() == DIMENSIONS,
        forall|b: int| 0 <= b < DIMENSIONS ==> #[trigger] counts@[b] == bucket_count(embedding_tokens(text@), b),
        forall|b: int|
            0 <= b < DIMENSIONS ==> #[trigger] counts@[b] == bucket_count(whitespace_tokens(lowercased(text@)), b),
        sum_counts(counts@) == whitespace_tokens(lowercased(text@)).len(),
        text@.len() == 0 ==> forall|b: int| 0 <= b < DIMENSIONS ==> #[trigger] counts@[b] == 0,
{
    let lower = lowercase(text);
    let tokens = split_whitespace(lower.as_str());
    let ghost all = slice_texts(tokens@);
    let mut counts: Vec<usize> = vec![0usize; DIMENSIONS];
    let mut i: usize = 0;
    while i < tokens.len()
        invariant
            i <= tokens.len(),
            all == slice_texts(tokens@),
            counts.len() == DIMENSIONS,
            forall|b: int| 0 <= b < DIMENSIONS ==> #[trigger] counts@[b] == bucket_count(all.take(i as int), b),
            forall|b: int| 0 <= b < DIMENSIONS ==> #[trigger] counts@[b] <= i,
        decreases tokens.len() - i,
    {
        let token = tokens[i];
        let bucket = (digest(token) % (DIMENSIONS as u64)) as usize;
        proof {
            assert(all.take(i + 1) =~= all.take(i as int).push(token@));
            assert forall|b: int| 0 <= b < DIMENSIONS implies bucket_count(all.take(i + 1), b)
                == bucket_count(all.take(i as int), b) + if bucket_of(token@) == b {
                1nat
            } else {
                0nat
            } by {
                lemma_bucket_count_push(all.take(i as int), token@, b);
            }
        }
        let current = counts[bucket];
        counts.set(bucket, current + 1);
        i = i + 1;
    }
    assert(all.take(tokens.len() as int) =~= all);
    proof {
        lemma_sum_of_bucket_counts(counts@, all);
        every_token_is_counted_once(all);
        if text@.len() == 0 {
            assert(lower@ =~= Seq::<char>::empty());
            reveal(Seq::filter);
        }
    }
    counts
}

/// The counts of buckets `0..n` added up.
pub open spec fn counted_total(tokens: Seq<Seq<char>>, n: int) -> nat
    decreases n,
{
    if n <= 0 {
        0
    } else {
        counted_total(tokens, n - 1) + bucket_count(tokens, n - 1)
    }
}

proof fn lemma_counted_total_push(tokens: Seq<Seq<char>>, t: Seq<char>, n: int)
    ensures
        counted_total(tokens.push(t), n) == counted_total(tokens, n) + if 0 <= bucket_of(t) < n {
            1nat
        } else {
            0nat
        },
    decreases n,
{
    if n > 0 {
        lemma_counted_total_push(tokens, t, n - 1);
        lemma_bucket_count_push(tokens, t, n - 1);
    }
}

proof fn lemma_counted_total_empty(n: int)
    ensures
        counted_total(Seq::<Seq<char>>::empty(), n) == 0,
    decreases n,
{
    reveal(Seq::filter);
    if n > 0 {
        lemma_counted_total_empty(n - 1);
    }
}

/// Every token is counted in exactly one bucket: the counts of all buckets
/// add up to the number of tokens.
pub proof fn every_token_is_counted_once(tokens: Seq<Seq<char>>)
    ensures
        counted_total(tokens, DIMENSIONS as int) == tokens.len(),
    decreases tokens.len(),
{
    if tokens.len() == 0 {
        assert(tokens =~= Seq::<Seq<char>>::empty());
        lemma_counted_total_empty(DIMENSIONS as int);
    } else {
        let prefix = tokens.drop_last();
        assert(tokens =~= prefix.push(tokens.last()));
        every_token_is_counted_once(prefix);
        lemma_counted_total_push(prefix, tokens.last(), DIMENSIONS as int);
    }
}

/// The tokens an embedding counts are all the whitespace-separated tokens
/// of the lower-cased text, and the buckets together hold each of them
/// once.
pub proof fn embedding_counts_every_token(text: Seq<char>)
    ensures
        embedding_tokens(text) == whitespace_tokens(lowercased(text)),
        counted_total(embedding_tokens(text), DIMENSIONS as int) == whitespace_tokens(lowercased(text)).len(),
{
    every_token_is_counted_once(embedding_tokens(text));
}

proof fn lemma_bucket_count_add(a: Seq<Seq<char>>, b: Seq<Seq<char>>, bucket: int)
    ensures
        bucket_count(a + b, bucket) == bucket_count(a, bucket) + bucket_count(b, bucket),
{
    Seq::filter_distributes_over_add(a, b, |t: Seq<char>| bucket_of(t) == bucket);
}

/// Counting is additive and order-independent over whitespace-joined
/// texts: the counts of `a` and `b` joined by a whitespace character are
/// the sums of their counts, whichever comes first.
pub proof fn joined_texts_count_as_the_sum(a: Seq<char>, w: char, b: Seq<char>, bucket: int)
    requires
        white_space(w),
    ensures
        bucket_count(whitespace_tokens(a + seq![w] + b), bucket) == bucket_count(whitespace_tokens(a), bucket)
            + bucket_count(whitespace_tokens(b), bucket),
        bucket_count(whitespace_tokens(a + seq![w] + b), bucket) == bucket_count(
            whitespace_tokens(b + seq![w] + a),
            bucket,
        ),
{
    tokens_of_joined_texts(a, w, b);
    tokens_of_joined_texts(b, w, a);
    lemma_bucket_count_add(whitespace_tokens(a), whitespace_tokens(b), bucket);
    lemma_bucket_count_add(whitespace_tokens(b), whitespace_tokens(a), bucket);
}

} // verus!
