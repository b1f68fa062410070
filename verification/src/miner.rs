//! Proof of work: finding a nonce whose block digest starts with enough zero
//! bits.

use crate::hex::{hex_to_bytes, parsed};
use vstd::arithmetic::power2::pow2;
use vstd::prelude::*;
use vstd::string::StringSliceAdditionalSpecFns;
use vstd::utf8::encode_utf8;

verus! {

/// Whether the first `n` bits of `bytes` exist and are all zero.
///
/// Bits are counted from the most significant bit of the first byte.
pub open spec fn zero_prefix(bytes: Seq<u8>, n: nat) -> bool {
    &&& forall|i: int| 0 <= i < n / 8 ==> i < bytes.len() && #[trigger] bytes[i] == 0
    &&& n % 8 != 0 ==> n / 8 < bytes.len() && (bytes[(n / 8) as int] as nat) < pow2((8 - n % 8) as nat)
}

/// Whether `check_minimum_zero_bits` can decide about `bytes` and `n`
/// without reading past the end: the byte that holds bit `n` exists, or
/// some byte before the end is not zero.
pub open spec fn decidable(bytes: Seq<u8>, n: nat) -> bool {
    n / 8 < bytes.len() || exists|i: int| 0 <= i < bytes.len() && #[trigger] bytes[i] != 0
}

proof fn lemma_high_bits_clear(b: u8, r: u16)
    requires
        r < 8,
    ensures
        (((b << r) >> r) == b) <==> (b as nat) < pow2((8 - r) as nat),
{
    vstd::arithmetic::power2::lemma2_to64();
    assert((((b << r) >> r) == b) <==> (b as u16) < (256u16 >> r)) by (bit_vector)
        requires
            r < 8,
    ;
    assert(256u16 >> 0u16 == 256) by (bit_vector);
    assert(256u16 >> 1u16 == 128) by (bit_vector);
    assert(256u16 >> 2u16 == 64) by (bit_vector);
    assert(256u16 >> 3u16 == 32) by (bit_vector);
    assert(256u16 >> 4u16 == 16) by (bit_vector);
    assert(256u16 >> 5u16 == 8) by (bit_vector);
    assert(256u16 >> 6u16 == 4) by (bit_vector);
    assert(256u16 >> 7u16 == 2) by (bit_vector);
}

/// Tells whether `bytes` starts with at least `n` zero bits.
pub fn check_minimum_zero_bits(bytes: &[u8], n: u16) -> (r: bool)
    requires
        decidable(bytes@, n as nat),
    ensures
        r == zero_prefix(bytes@, n as nat),
{
    let mut left: u16 = n;
    let mut counter: usize = 0;
    while left >= 8
        invariant
            decidable(bytes@, n as nat),
            n as nat == 8 * counter + left,
            forall|i: int| 0 <= i < counter ==> i < bytes@.len() && #[trigger] bytes@[i] == 0,
        decreases left,
    {
        if bytes[counter] != 0 {
            return false;
        }
        counter += 1;
        left -= 8;
    }
    proof {
        assert(n as nat / 8 == counter && n as nat % 8 == left) by (nonlinear_arith)
            requires
                n as nat == 8 * counter + left,
                left < 8,
        ;
        lemma_high_bits_clear(bytes@[counter as int], left);
        vstd::arithmetic::power2::lemma2_to64();
    }
    (bytes[counter] << left >> left) == bytes[counter]
}

/// Tells whether the first `n` bits of `bytes` exist and are all zero.
pub fn has_zero_prefix(bytes: &[u8], n: u16) -> (r: bool)
    ensures
        r == zero_prefix(bytes@, n as nat),
{
    let whole = (n / 8) as usize;
    assert(whole == n as nat / 8 && n % 8 == n as nat % 8);
    if whole < bytes.len() {
        return check_minimum_zero_bits(bytes, n);
    }
    if whole > bytes.len() {
        proof {
            if zero_prefix(bytes@, n as nat) {
                let past = bytes@.len() as int;
                assert(bytes@[past] == 0);
            }
        }
        return false;
    }
    if n % 8 != 0 {
        return false;
    }
    let mut i: usize = 0;
    while i < bytes.len()
        invariant
            i <= bytes@.len(),
            bytes@.len() == n as nat / 8,
            n as nat % 8 == 0,
            forall|j: int| 0 <= j < i ==> #[trigger] bytes@[j] == 0,
        decreases bytes@.len() - i,
    {
        if bytes[i] != 0 {
            assert(!zero_prefix(bytes@, n as nat)) by {
                assert(!(i < bytes@.len() && bytes@[i as int] == 0));
            }
            return false;
        }
        i += 1;
    }
    true
}

/// The SHA-256 digest of the UTF-8 form of `text`, written as `sha256`
/// writes it: in hexadecimal.
pub uninterp spec fn block_digest(text: Seq<char>) -> Seq<char>;

/// `sha256::digest` on a string slice.
#[verifier::external_body]
fn digest(text: &str) -> (r: String)
    ensures
        r@ == block_digest(text@),
{
    sha256::digest(text)
}

/// Whether a digest written in hexadecimal shows `difficulty` leading zero
/// bits. A digest that is not hexadecimal shows none.
pub open spec fn shows_work(digest: Seq<char>, difficulty: nat) -> bool {
    match parsed(encode_utf8(digest)) {
        Ok(bytes) => zero_prefix(bytes, difficulty),
        Err(_) => false,
    }
}

/// Tells whether `digest`, a digest written in hexadecimal, starts with at
/// least `difficulty` zero bits.
pub fn digest_shows_work(digest: &str, difficulty: u16) -> (r: bool)
    ensures
        r == shows_work(digest@, difficulty as nat),
{
    match hex_to_bytes(digest) {
        Ok(bytes) => has_zero_prefix(bytes.as_slice(), difficulty),
        Err(_) => false,
    }
}

/// Where the hunt for a nonce stands.
#[derive(Debug, Clone, Copy, PartialEq, Eq, Structural)]
pub enum Mining {
    /// This nonce is to be tried next.
    Trying(u64),
    /// The block with this nonce shows enough work.
    Mined(u64),
    /// Every nonce was tried, and none gave a block that shows enough work.
    Barren,
}

impl Mining {
    /// The state that `step` leads to from `self`, when the block written
    /// out with the nonce under trial is `block`.
    pub open spec fn after(self, block: Seq<char>, difficulty: nat) -> Mining {
        match self {
            Mining::Trying(nonce) => if shows_work(block_digest(block), difficulty) {
                Mining::Mined(nonce)
            } else if nonce < u64::MAX {
                Mining::Trying((nonce + 1) as u64)
            } else {
                Mining::Barren
            },
            _ => self,
        }
    }

    /// The start of a hunt: nonce zero is tried first.
    pub fn start() -> (r: Mining)
        ensures
            r == Mining::Trying(0),
    {
        Mining::Trying(0)
    }

    /// Judges the block written out with the nonce under trial.
    ///
    /// When the block's digest starts with at least `difficulty` zero bits,
    /// the nonce is kept. Otherwise the next nonce is up, if there is one.
    /// A hunt that is over stays as it is.
    pub fn step(self, block: &str, difficulty: u16) -> (r: Mining)
        ensures
            r == self.after(block@, difficulty as nat),
    {
        match self {
            Mining::Trying(nonce) => {
                let hash = digest(block);
                if digest_shows_work(hash.as_str(), difficulty) {
                    Mining::Mined(nonce)
                } else if nonce < u64::MAX {
                    Mining::Trying(nonce + 1)
                } else {
                    Mining::Barren
                }
            },
            _ => self,
        }
    }
}

} // verus!
