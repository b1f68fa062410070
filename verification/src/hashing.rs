//! Hashes of a password: SHA-256, HMAC-SHA-256, PBKDF2 and scrypt, each
//! written in hexadecimal.
//!
//! The hash functions themselves are those of the RustCrypto crates. What is
//! decided here is which of them is run on what, which inputs are refused,
//! and how the results are written.

use crate::encoding::{base64_decoded, from_base64};
use crate::hex::{encoded, hexlify};
use hmac::{Hmac, KeyInit, Mac};
use sha2::{Digest, Sha256};
use vstd::arithmetic::power2::pow2;
use vstd::prelude::*;
use vstd::string::StringSliceAdditionalSpecFns;

verus! {

/// The SHA-256 digest of `data`.
pub uninterp spec fn sha256_of(data: Seq<u8>) -> Seq<u8>;

/// The HMAC-SHA-256 tag of `message` under `key`.
pub uninterp spec fn hmac_sha256_of(key: Seq<u8>, message: Seq<u8>) -> Seq<u8>;

/// The first `len` bytes that PBKDF2 with HMAC-SHA-256 derives from
/// `password` and `salt` in `rounds` rounds.
pub uninterp spec fn pbkdf2_sha256_of(
    password: Seq<u8>,
    salt: Seq<u8>,
    rounds: u32,
    len: usize,
) -> Seq<u8>;

/// The `len` bytes that scrypt derives from `password` and `salt` under
/// the cost `2^log_n`, the block size `r` and the parallelism `p`.
pub uninterp spec fn scrypt_of(
    password: Seq<u8>,
    salt: Seq<u8>,
    log_n: u8,
    r: u32,
    p: u32,
    len: usize,
) -> Seq<u8>;

/// The longest key that PBKDF2 derives: it numbers its blocks of 32 bytes
/// in 32 bits, from one.
pub const MAX_KEY_LEN: u64 = 32 * 0xffff_ffff;

/// Whether a key of `len` bytes can be derived: a buffer can be that long,
/// and PBKDF2 can number its blocks.
pub open spec fn key_len_ok(len: usize) -> bool {
    len <= isize::MAX && len <= MAX_KEY_LEN
}

/// Whether scrypt takes these parameters and this output length: none of
/// them is zero, the cost fits the machine word, the working memory of
/// `128 * r * 2^log_n` and of `128 * r * p` bytes can be held in one buffer
/// each, `r * p` is below `2^30`, and the output is a key that can be
/// derived.
pub open spec fn scrypt_accepts(log_n: u8, r: u32, p: u32, len: usize) -> bool {
    &&& 0 < len && key_len_ok(len)
    &&& 0 < r && 0 < p
    &&& log_n < usize::BITS
    &&& r * 128 * pow2(log_n as nat) <= isize::MAX
    &&& r * 128 * p <= isize::MAX
    &&& r * p < 0x4000_0000
}

/// The length of a SHA-256 digest and of an HMAC-SHA-256 tag.
pub const DIGEST_LEN: usize = 32;

/// `sha2::Sha256::digest`, which gives 32 bytes.
#[verifier::external_body]
fn sha256_digest(data: &[u8]) -> (r: Vec<u8>)
    ensures
        r@ == sha256_of(data@),
        r@.len() == DIGEST_LEN,
{
    Sha256::digest(data).to_vec()
}

/// `hmac::Hmac::<Sha256>::new_from_slice`, `update` and `finalize`. HMAC
/// takes a key of any length, so a tag always comes back. It is as long as
/// a SHA-256 digest.
#[verifier::external_body]
fn hmac_sha256_tag(key: &[u8], message: &[u8]) -> (r: Option<Vec<u8>>)
    ensures
        r is Some,
        r matches Some(tag) ==> tag@ == hmac_sha256_of(key@, message@),
        r matches Some(tag) ==> tag@.len() == DIGEST_LEN,
{
    let mut mac = <Hmac<Sha256> as KeyInit>::new_from_slice(key).ok()?;
    Mac::update(&mut mac, message);
    Some(mac.finalize().into_bytes().to_vec())
}

/// `pbkdf2::pbkdf2` with HMAC-SHA-256 into a buffer of `len` bytes, which
/// it fills. HMAC takes a password of any length, so a key always comes
/// back. The key is made block by block, each block from its number alone, so
/// a key is the start of every longer key of the same password, salt and
/// rounds. The blocks are numbered in 32 bits and the buffer has to exist,
/// which `key_len_ok` sees to.
#[verifier::external_body]
fn pbkdf2_sha256_key(password: &[u8], salt: &[u8], rounds: u32, len: usize) -> (r: Option<
    Vec<u8>,
>)
    requires
        key_len_ok(len),
    ensures
        r is Some,
        r matches Some(key) ==> key@ == pbkdf2_sha256_of(password@, salt@, rounds, len),
        r matches Some(key) ==> key@.len() == len,
        r matches Some(key) ==> forall|longer: usize|
            len <= longer && key_len_ok(longer) ==> key@ == (#[trigger] pbkdf2_sha256_of(
                password@,
                salt@,
                rounds,
                longer,
            )).take(len as int),
{
    let mut key = vec![0u8; len];
    pbkdf2::pbkdf2::<Hmac<Sha256>>(password, salt, rounds, &mut key).ok()?;
    Some(key)
}

/// `scrypt::Params::new` and `scrypt::scrypt` into a buffer of `len`
/// bytes, which it fills. Both take what `scrypt_accepts`, which asks more
/// than they do: that `r * p` fits in 32 bits, since the parameter check
/// multiplies the two; that the two working buffers and the output can be
/// allocated; and that the output is no longer than PBKDF2, which makes it,
/// can number. The run takes `128 * r * (2^log_n + p)` bytes of memory.
#[verifier::external_body]
fn scrypt_key(password: &[u8], salt: &[u8], log_n: u8, r: u32, p: u32, len: usize) -> (out: Option<
    Vec<u8>,
>)
    requires
        scrypt_accepts(log_n, r, p, len),
    ensures
        out is Some,
        out matches Some(key) ==> key@ == scrypt_of(password@, salt@, log_n, r, p, len),
        out matches Some(key) ==> key@.len() == len,
{
    let params = scrypt::Params::new(log_n, r, p).ok()?;
    let mut key = vec![0u8; len];
    scrypt::scrypt(password, salt, &params, &mut key).ok()?;
    Some(key)
}

/// Why a password was not hashed.
#[derive(Debug, Clone, Copy, PartialEq, Eq, Structural)]
pub enum HashError {
    /// The salt is not base64 text.
    SaltNotBase64,
    /// PBKDF2 was asked for with a hash other than `sha256`.
    UnsupportedHash,
    /// scrypt does not take the parameters or the output length.
    ScryptParams,
    /// The key asked of PBKDF2 is longer than it can derive.
    KeyTooLong,
}

/// The SHA-256 digest of `password`.
pub fn sha256(password: &str) -> (r: Vec<u8>)
    ensures
        r@ == sha256_of(password.spec_bytes()),
        r@.len() == DIGEST_LEN,
{
    sha256_digest(password.as_bytes())
}

/// The HMAC-SHA-256 tag of `password` under the key `salt`.
pub fn hmac(password: &str, salt: &[u8]) -> (r: Vec<u8>)
    ensures
        r@ == hmac_sha256_of(salt@, password.spec_bytes()),
        r@.len() == DIGEST_LEN,
{
    match hmac_sha256_tag(salt, password.as_bytes()) {
        Some(tag) => tag,
        None => Vec::new(),
    }
}

/// The UTF-8 bytes of the one hash name that `pbkdf2` knows: `sha256`.
pub open spec fn sha256_name() -> Seq<u8> {
    seq![0x73u8, 0x68u8, 0x61u8, 0x32u8, 0x35u8, 0x36u8]
}

fn is_sha256_name(name: &str) -> (r: bool)
    ensures
        r == (name.spec_bytes() == sha256_name()),
{
    let bytes = name.as_bytes();
    let same = bytes.len() == 6 && bytes[0] == 0x73 && bytes[1] == 0x68 && bytes[2] == 0x61
        && bytes[3] == 0x32 && bytes[4] == 0x35 && bytes[5] == 0x36;
    assert(same ==> bytes@ =~= sha256_name());
    same
}

fn is_key_len_ok(len: usize) -> (r: bool)
    ensures
        r == key_len_ok(len),
{
    len <= isize::MAX as usize && len as u64 <= MAX_KEY_LEN
}

/// What `pbkdf2` refuses: first a hash other than `sha256`, then a key
/// that is too long.
pub open spec fn pbkdf2_refuses(hash: Seq<u8>, len: usize) -> Option<HashError> {
    if hash != sha256_name() {
        Some(HashError::UnsupportedHash)
    } else if !key_len_ok(len) {
        Some(HashError::KeyTooLong)
    } else {
        None
    }
}

/// The key of `len` bytes that PBKDF2 derives from `password` and `salt`
/// in `rounds` rounds of the HMAC of `hash`, which has to be `sha256`.
///
/// A key is the start of every longer key of the same password, salt and
/// rounds.
pub fn pbkdf2(password: &str, salt: &[u8], rounds: u32, hash: &str, len: usize) -> (r: Result<
    Vec<u8>,
    HashError,
>)
    ensures
        match r {
            Ok(key) => {
                &&& pbkdf2_refuses(hash.spec_bytes(), len) is None
                &&& key@ == pbkdf2_sha256_of(password.spec_bytes(), salt@, rounds, len)
                &&& key@.len() == len
                &&& forall|longer: usize|
                    len <= longer && key_len_ok(longer) ==> key@ == (#[trigger] pbkdf2_sha256_of(
                        password.spec_bytes(),
                        salt@,
                        rounds,
                        longer,
                    )).take(len as int)
            },
            Err(e) => pbkdf2_refuses(hash.spec_bytes(), len) == Some(e),
        },
{
    if !is_sha256_name(hash) {
        return Err(HashError::UnsupportedHash);
    }
    if !is_key_len_ok(len) {
        return Err(HashError::KeyTooLong);
    }
    match pbkdf2_sha256_key(password.as_bytes(), salt, rounds, len) {
        Some(key) => Ok(key),
        None => Ok(Vec::new()),
    }
}

/// Tells whether scrypt takes these parameters and this output length.
pub fn scrypt_takes(log_n: u8, r: u32, p: u32, len: usize) -> (ok: bool)
    ensures
        ok == scrypt_accepts(log_n, r, p, len),
{
    if len == 0 || !is_key_len_ok(len) || r == 0 || p == 0 || log_n as u32 >= usize::BITS {
        return false;
    }
    let limit = isize::MAX as u128;
    let block = r as u128 * 128;
    assert(r as u128 * p as u128 <= 0xffff_ffff * 0xffff_ffff && block * p as u128 <= 0xffff_ffff
        * 128 * 0xffff_ffff) by (nonlinear_arith)
        requires
            block == r as u128 * 128,
    ;
    if r as u128 * p as u128 >= 0x4000_0000 || block * p as u128 > limit {
        return false;
    }
    let mut memory = block;
    let mut k: u8 = 0;
    proof {
        vstd::arithmetic::power2::lemma2_to64();
    }
    if memory > limit {
        proof {
            vstd::arithmetic::power2::lemma_pow2_pos(log_n as nat);
            assert(r * 128 * pow2(log_n as nat) >= r * 128) by (nonlinear_arith)
                requires
                    pow2(log_n as nat) >= 1,
            ;
        }
        return false;
    }
    while k < log_n
        invariant
            k <= log_n,
            limit == isize::MAX,
            memory == r * 128 * pow2(k as nat),
            memory <= limit,
            r > 0,
        decreases log_n - k,
    {
        proof {
            vstd::arithmetic::power2::lemma_pow2_unfold((k + 1) as nat);
            assert(r * 128 * (2 * pow2(k as nat)) == 2 * (r * 128 * pow2(k as nat)))
                by (nonlinear_arith);
        }
        memory = memory * 2;
        k += 1;
        if memory > limit {
            proof {
                if k < log_n {
                    vstd::arithmetic::power2::lemma_pow2_strictly_increases(
                        k as nat,
                        log_n as nat,
                    );
                }
                assert(r * 128 * pow2(log_n as nat) >= r * 128 * pow2(k as nat))
                    by (nonlinear_arith)
                    requires
                        pow2(log_n as nat) >= pow2(k as nat),
                ;
            }
            return false;
        }
    }
    true
}

/// The `len` bytes that scrypt derives from `password` and `salt`.
pub fn scrypt(password: &str, salt: &[u8], log_n: u8, r: u32, p: u32, len: usize) -> (out: Result<
    Vec<u8>,
    HashError,
>)
    ensures
        match out {
            Ok(key) => {
                &&& scrypt_accepts(log_n, r, p, len)
                &&& key@ == scrypt_of(password.spec_bytes(), salt@, log_n, r, p, len)
                &&& key@.len() == len
            },
            Err(e) => !scrypt_accepts(log_n, r, p, len) && e == HashError::ScryptParams,
        },
{
    if !scrypt_takes(log_n, r, p, len) {
        return Err(HashError::ScryptParams);
    }
    match scrypt_key(password.as_bytes(), salt, log_n, r, p, len) {
        Some(key) => Ok(key),
        None => Ok(Vec::new()),
    }
}

/// The length of the key that `hash_password` has PBKDF2 derive.
pub const PBKDF2_KEY_LEN: usize = 32;

/// The four hashes of one password, each in lowercase hexadecimal.
#[derive(Debug, PartialEq, Eq)]
pub struct Digests {
    pub sha256: String,
    pub hmac: String,
    pub pbkdf2: String,
    pub scrypt: String,
}

/// What is hashed and how.
pub struct HashRequest<'a> {
    pub password: &'a str,
    /// The salt, in base64.
    pub salt: &'a str,
    pub pbkdf2_rounds: u32,
    pub pbkdf2_hash: &'a str,
    /// The binary logarithm of scrypt's cost.
    pub scrypt_log_n: u8,
    pub scrypt_r: u32,
    pub scrypt_p: u32,
    pub scrypt_len: usize,
}

impl<'a> HashRequest<'a> {
    /// What `hash_password` answers for this request whose salt decodes to
    /// `salt`.
    pub open spec fn answer_with(self, salt: Seq<u8>) -> Result<
        (Seq<char>, Seq<char>, Seq<char>, Seq<char>),
        HashError,
    > {
        let password = self.password.spec_bytes();
        if self.pbkdf2_hash.spec_bytes() != sha256_name() {
            Err(HashError::UnsupportedHash)
        } else if !scrypt_accepts(
            self.scrypt_log_n,
            self.scrypt_r,
            self.scrypt_p,
            self.scrypt_len,
        ) {
            Err(HashError::ScryptParams)
        } else {
            Ok(
                (
                    encoded(sha256_of(password)),
                    encoded(hmac_sha256_of(salt, password)),
                    encoded(pbkdf2_sha256_of(password, salt, self.pbkdf2_rounds, PBKDF2_KEY_LEN)),
                    encoded(
                        scrypt_of(
                            password,
                            salt,
                            self.scrypt_log_n,
                            self.scrypt_r,
                            self.scrypt_p,
                            self.scrypt_len,
                        ),
                    ),
                ),
            )
        }
    }

    /// What `hash_password` answers for this request.
    pub open spec fn answer(self) -> Result<
        (Seq<char>, Seq<char>, Seq<char>, Seq<char>),
        HashError,
    > {
        match base64_decoded(self.salt@) {
            None => Err(HashError::SaltNotBase64),
            Some(salt) => self.answer_with(salt),
        }
    }
}

/// Hashes the password of `request` in the four ways, with the salt that
/// the request holds in base64.
///
/// A salt that is not base64 is refused first, then a PBKDF2 hash other
/// than `sha256`, then parameters that scrypt does not take. Each hash is
/// written with two digits to the byte: 64 digits for each of the first
/// three, and twice the asked length for scrypt.
pub fn hash_password(request: &HashRequest<'_>) -> (r: Result<Digests, HashError>)
    ensures
        r matches Ok(digests) ==> {
            &&& digests.sha256@.len() == 2 * DIGEST_LEN
            &&& digests.hmac@.len() == 2 * DIGEST_LEN
            &&& digests.pbkdf2@.len() == 2 * PBKDF2_KEY_LEN
            &&& digests.scrypt@.len() == 2 * request.scrypt_len
        },
        match r {
            Ok(digests) => request.answer() == Ok::<
                (Seq<char>, Seq<char>, Seq<char>, Seq<char>),
                HashError,
            >((digests.sha256@, digests.hmac@, digests.pbkdf2@, digests.scrypt@)),
            Err(e) => request.answer() == Err::<
                (Seq<char>, Seq<char>, Seq<char>, Seq<char>),
                HashError,
            >(e),
        },
{
    let salt = match from_base64(request.salt) {
        None => {
            return Err(HashError::SaltNotBase64);
        },
        Some(salt) => salt,
    };
    let plain = sha256(request.password);
    let tag = hmac(request.password, salt.as_slice());
    let stretched = match pbkdf2(
        request.password,
        salt.as_slice(),
        request.pbkdf2_rounds,
        request.pbkdf2_hash,
        PBKDF2_KEY_LEN,
    ) {
        Err(e) => {
            return Err(e);
        },
        Ok(key) => key,
    };
    let hard = match scrypt(
        request.password,
        salt.as_slice(),
        request.scrypt_log_n,
        request.scrypt_r,
        request.scrypt_p,
        request.scrypt_len,
    ) {
        Err(e) => {
            return Err(e);
        },
        Ok(key) => key,
    };
    Ok(
        Digests {
            sha256: hexlify(plain.as_slice()),
            hmac: hexlify(tag.as_slice()),
            pbkdf2: hexlify(stretched.as_slice()),
            scrypt: hexlify(hard.as_slice()),
        },
    )
}

} // verus!
