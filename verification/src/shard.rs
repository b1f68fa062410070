//! Shards: the strings of one length, cut into contiguous runs of numbers
//! that can be searched apart from each other.

use crate::keyspace::{
    lemma_segment_concat, lemma_word_at_injective, lemma_words_in_bounds, segment, words, Keyspace,
    KeyspaceView,
};
use vstd::prelude::*;

verus! {

/// Where the `k`-th of `parts` equal shares of the numbers below `count`
/// begins; the share ends where the next begins.
pub open spec fn share_start(count: nat, parts: nat, k: nat) -> nat {
    ((k * count) as int / parts as int) as nat
}

/// The strings of length `len` of the first `k` of `parts` equal shares,
/// share after share.
pub open spec fn shares_joined(alphabet: Seq<u8>, len: nat, parts: nat, k: nat) -> Seq<Seq<u8>>
    decreases k,
{
    if k == 0 {
        Seq::empty()
    } else {
        let count = words(alphabet.len(), len);
        shares_joined(alphabet, len, parts, (k - 1) as nat) + segment(
            alphabet,
            len,
            share_start(count, parts, (k - 1) as nat),
            share_start(count, parts, k),
        )
    }
}

/// The shares begin at zero, end at `count`, and each ends no earlier than
/// it begins. Their sizes differ by at most one.
pub proof fn lemma_share_bounds(count: nat, parts: nat, k: nat)
    requires
        parts > 0,
        k < parts,
    ensures
        share_start(count, parts, 0) == 0,
        share_start(count, parts, parts) == count,
        share_start(count, parts, k) <= share_start(count, parts, k + 1) <= count,
        count / parts <= share_start(count, parts, k + 1) - share_start(count, parts, k)
            <= count / parts + 1,
{
    let a = (k * count) as int;
    let b = ((k + 1) * count) as int;
    let p = parts as int;
    let c = count as int;
    assert(0 * count == 0);
    assert((parts * count) as int / p == c) by (nonlinear_arith)
        requires
            p == parts,
            c == count,
            p > 0,
    ;
    assert(0 <= a / p <= b / p <= c && c / p <= b / p - a / p <= c / p + 1) by (nonlinear_arith)
        requires
            a == k * c,
            b == (k + 1) * c,
            0 <= k < p,
            c >= 0,
    ;
}

/// Every number below `count` lies in exactly one of the `parts` shares.
pub proof fn lemma_share_of(count: nat, parts: nat, index: nat) -> (k: nat)
    requires
        parts > 0,
        index < count,
    ensures
        k < parts,
        share_start(count, parts, k) <= index < share_start(count, parts, k + 1),
        forall|j: nat|
            j < parts && #[trigger] share_start(count, parts, j) <= index < share_start(
                count,
                parts,
                j + 1,
            ) ==> j == k,
{
    lemma_share_bounds(count, parts, 0);
    let k = lemma_share_search(count, parts, index, parts);
    assert forall|j: nat|
        j < parts && #[trigger] share_start(count, parts, j) <= index < share_start(
            count,
            parts,
            j + 1,
        ) implies j == k by {
        if j < k {
            lemma_share_monotonic(count, parts, j + 1, k);
        } else if k < j {
            lemma_share_monotonic(count, parts, k + 1, j);
        }
    }
    k
}

/// Later shares begin no earlier.
pub proof fn lemma_share_monotonic(count: nat, parts: nat, j: nat, k: nat)
    requires
        parts > 0,
        j <= k <= parts,
    ensures
        share_start(count, parts, j) <= share_start(count, parts, k),
    decreases k - j,
{
    if j < k {
        lemma_share_bounds(count, parts, (k - 1) as nat);
        lemma_share_monotonic(count, parts, j, (k - 1) as nat);
    }
}

proof fn lemma_share_search(count: nat, parts: nat, index: nat, upper: nat) -> (k: nat)
    requires
        parts > 0,
        0 < upper <= parts,
        index < share_start(count, parts, upper),
    ensures
        k < upper,
        share_start(count, parts, k) <= index < share_start(count, parts, k + 1),
    decreases upper,
{
    let below = (upper - 1) as nat;
    if share_start(count, parts, below) <= index {
        below
    } else {
        assert(below > 0) by {
            lemma_share_bounds(count, parts, 0);
        }
        lemma_share_search(count, parts, index, below)
    }
}

/// Taken one after another, the first `k` shares are the strings numbered
/// below the start of share `k`.
pub proof fn lemma_shares_joined(alphabet: Seq<u8>, len: nat, parts: nat, k: nat)
    requires
        parts > 0,
        k <= parts,
    ensures
        shares_joined(alphabet, len, parts, k) == segment(
            alphabet,
            len,
            0,
            share_start(words(alphabet.len(), len), parts, k),
        ),
    decreases k,
{
    let count = words(alphabet.len(), len);
    if k > 0 {
        lemma_shares_joined(alphabet, len, parts, (k - 1) as nat);
        lemma_share_bounds(count, parts, (k - 1) as nat);
        lemma_segment_concat(
            alphabet,
            len,
            0,
            share_start(count, parts, (k - 1) as nat),
            share_start(count, parts, k),
        );
    } else {
        lemma_share_bounds(count, parts, 0);
        assert(shares_joined(alphabet, len, parts, 0) =~= segment(alphabet, len, 0, 0));
    }
}

/// Splitting one length into `parts` shares loses nothing and repeats
/// nothing: the shares, one after another, are the unsplit run of all
/// strings of that length, in which no string stands twice.
pub proof fn lemma_shares_partition(alphabet: Seq<u8>, len: nat, parts: nat)
    requires
        alphabet.no_duplicates(),
        parts > 0,
    ensures
        shares_joined(alphabet, len, parts, parts) == segment(
            alphabet,
            len,
            0,
            words(alphabet.len(), len),
        ),
        shares_joined(alphabet, len, parts, parts).no_duplicates(),
{
    let count = words(alphabet.len(), len);
    lemma_shares_joined(alphabet, len, parts, parts);
    lemma_share_bounds(count, parts, 0);
    let all = segment(alphabet, len, 0, count);
    assert forall|i: int, j: int| 0 <= i < all.len() && 0 <= j < all.len() && i != j implies all[i]
        != all[j] by {
        lemma_word_at_injective(alphabet, len, i as nat, j as nat);
    }
}

/// A run of strings of one length: those numbered from `start` up to but not
/// including `end`.
#[derive(Debug, Clone, Copy, PartialEq, Eq, Structural)]
pub struct Shard {
    pub len: usize,
    pub start: u64,
    pub end: u64,
}

impl Shard {
    /// The strings of the run over `alphabet`, in order.
    pub open spec fn words(self, alphabet: Seq<u8>) -> Seq<Seq<u8>> {
        segment(alphabet, self.len as nat, self.start as nat, self.end as nat)
    }

    /// Whether the run lies within the strings of a length of `space`.
    pub open spec fn within(self, space: KeyspaceView) -> bool {
        &&& space.min_len <= self.len <= space.max_len
        &&& self.start <= self.end <= words(space.radix(), self.len as nat)
    }
}

impl Keyspace {
    /// The `k`-th of `parts` equal shares of the strings of length `len`,
    /// for a length of the keyspace and `k` below `parts`.
    pub fn shard(&self, len: usize, parts: u64, k: u64) -> (r: Option<Shard>)
        ensures
            r is Some <==> self@.min_len <= len <= self@.max_len && k < parts,
            r matches Some(shard) ==> {
                let count = words(self@.radix(), len as nat);
                &&& shard.len == len
                &&& shard.start == share_start(count, parts as nat, k as nat)
                &&& shard.end == share_start(count, parts as nat, (k + 1) as nat)
                &&& shard.start <= shard.end <= count
            },
    {
        if len < self.min_len() || len > self.max_len() || k >= parts {
            return None;
        }
        let count = match self.words(len) {
            None => {
                proof {
                    lemma_words_in_bounds(
                        self@.radix(),
                        self@.min_len,
                        self@.lens(),
                        (len - self@.min_len) as nat,
                    );
                }
                return None;
            },
            Some(v) => v,
        };
        proof {
            lemma_share_bounds(count as nat, parts as nat, k as nat);
        }
        assert(k as u128 * count as u128 <= 0xffff_ffff_ffff_ffff * 0xffff_ffff_ffff_ffff
            && (k as u128 + 1) * count as u128 <= 0x1_0000_0000_0000_0000
            * 0xffff_ffff_ffff_ffff) by (nonlinear_arith)
            requires
                k <= 0xffff_ffff_ffff_ffff,
                count <= 0xffff_ffff_ffff_ffff,
        ;
        let start = (k as u128 * count as u128) / parts as u128;
        let end = ((k as u128 + 1) * count as u128) / parts as u128;
        Some(Shard { len, start: start as u64, end: end as u64 })
    }
}

} // verus!
