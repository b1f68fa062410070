//! The content validator: telling a real secret from the garbage that a
//! wrongly accepted password leaves behind.
//!
//! A secret is text. Bytes are taken for the secret when there is at least
//! one of them and together they are well-formed UTF-8. Garbage passes this
//! test only by chance, and the chance is accepted: nothing more is known
//! about what a secret looks like.

use vstd::prelude::*;
use vstd::string::StringSliceAdditionalSpecFns;
use vstd::utf8::{decode_utf8, encode_utf8, valid_utf8};

verus! {

/// Whether `c` has the Unicode property `White_Space`.
pub open spec fn is_white_space(c: char) -> bool {
    let code = c as u32;
    ||| 0x09 <= code <= 0x0d
    ||| code == 0x20
    ||| code == 0x85
    ||| code == 0xa0
    ||| code == 0x1680
    ||| 0x2000 <= code <= 0x200a
    ||| code == 0x2028
    ||| code == 0x2029
    ||| code == 0x202f
    ||| code == 0x205f
    ||| code == 0x3000
}

/// `text` without the white space it ends with.
pub open spec fn strip_end(text: Seq<char>) -> Seq<char>
    decreases text.len(),
{
    if text.len() > 0 && is_white_space(text.last()) {
        strip_end(text.drop_last())
    } else {
        text
    }
}

/// Whether `text` does not end with white space.
pub open spec fn tidy(text: Seq<char>) -> bool {
    text.len() > 0 ==> !is_white_space(text.last())
}

/// What is left after stripping the end is the start of the text, and does
/// not end with white space.
pub proof fn lemma_strip_end_shape(text: Seq<char>)
    ensures
        strip_end(text).len() <= text.len(),
        strip_end(text) == text.take(strip_end(text).len() as int),
        tidy(strip_end(text)),
    decreases text.len(),
{
    if text.len() > 0 && is_white_space(text.last()) {
        let rest = text.drop_last();
        lemma_strip_end_shape(rest);
        let kept = strip_end(rest);
        assert(rest.take(kept.len() as int) =~= text.take(kept.len() as int));
    } else {
        assert(text.take(text.len() as int) =~= text);
    }
}

/// Stripped text is tidy, and tidy text is left as it is by stripping.
pub proof fn lemma_strip_end_tidy(text: Seq<char>)
    ensures
        tidy(strip_end(text)),
        tidy(text) ==> strip_end(text) == text,
{
    lemma_strip_end_shape(text);
}

/// The secret that `bytes` are taken for, if they are taken for one.
pub open spec fn accepted(bytes: Seq<u8>) -> Option<Seq<char>> {
    if bytes.len() > 0 && valid_utf8(bytes) {
        Some(strip_end(decode_utf8(bytes)))
    } else {
        None
    }
}

/// `std::str::from_utf8`: the text that `bytes` encode, exactly when they
/// are well-formed UTF-8.
#[verifier::external_body]
fn text_of(bytes: &[u8]) -> (r: Option<&str>)
    ensures
        r is Some <==> valid_utf8(bytes@),
        r matches Some(text) ==> text.spec_bytes() == bytes@,
{
    std::str::from_utf8(bytes).ok()
}

/// `str::trim_end`: the text before its trailing run of characters with
/// the Unicode property `White_Space`.
#[verifier::external_body]
fn trim_end(text: &str) -> (r: &str)
    ensures
        r@ == strip_end(text@),
{
    text.trim_end()
}

/// A recovered secret: text that does not end with white space.
#[derive(Debug, PartialEq, Eq)]
pub struct Secret {
    text: String,
}

impl Clone for Secret {
    fn clone(&self) -> (r: Self)
        ensures
            r@ == self@,
    {
        proof {
            use_type_invariant(self);
        }
        Secret { text: self.text.clone() }
    }
}

impl View for Secret {
    type V = Seq<char>;

    closed spec fn view(&self) -> Seq<char> {
        self.text@
    }
}

impl Secret {
    #[verifier::type_invariant]
    spec fn inv(self) -> bool {
        tidy(self.text@)
    }

    /// The secret's text.
    pub fn as_str(&self) -> (r: &str)
        ensures
            r@ == self@,
            tidy(r@),
    {
        proof {
            use_type_invariant(self);
        }
        self.text.as_str()
    }

    /// The secret's text, handed over.
    pub fn into_string(self) -> (r: String)
        ensures
            r@ == self@,
            tidy(r@),
    {
        proof {
            use_type_invariant(&self);
        }
        self.text
    }
}

/// Takes `bytes` for a secret, or turns them down.
///
/// Bytes are turned down when there are none or when they are not
/// well-formed UTF-8. Otherwise the text they encode is the secret, less the
/// white space at its end. White space at its start is kept.
pub fn validate(bytes: &[u8]) -> (r: Option<Secret>)
    ensures
        r is Some <==> accepted(bytes@) is Some,
        r matches Some(secret) ==> accepted(bytes@) == Some(secret@) && tidy(secret@),
{
    if bytes.len() == 0 {
        return None;
    }
    match text_of(bytes) {
        None => None,
        Some(text) => {
            proof {
                vstd::utf8::encode_utf8_decode_utf8(text@);
                assert(encode_utf8(text@) == bytes@);
                lemma_strip_end_tidy(text@);
            }
            Some(Secret { text: trim_end(text).to_owned() })
        },
    }
}

} // verus!
