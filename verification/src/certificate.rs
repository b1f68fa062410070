//! A self-signed certificate for a domain: the subject's country code and
//! common name, the key, the serial number and the validity.
//!
//! A country is given by its English name and is looked up by the `celes`
//! crate once the name is squashed: spaces are dropped and ASCII letters are
//! put in lower case. The certificate is put together and signed by
//! OpenSSL.

use crate::encoding::{base64_decoded, base64_encoded, from_base64, to_base64, MAX_ENCODE_LEN};
use openssl::asn1::{Asn1Integer, Asn1Time};
use openssl::bn::BigNum;
use openssl::error::ErrorStack;
use openssl::hash::MessageDigest;
use openssl::pkey::{PKey, Private};
use openssl::x509::{X509Builder, X509Name, X509NameBuilder};
use std::str::FromStr;
use vstd::prelude::*;
use vstd::string::StringSliceAdditionalSpecFns;
use vstd::utf8::{decode_utf8, encode_utf8, is_ascii_chars, is_char_boundary};

verus! {

/// The lower-case form of `c` if it is an ASCII capital, else `c`.
pub open spec fn ascii_lower(c: char) -> char {
    if 'A' <= c <= 'Z' {
        ((c as u8) + 32) as char
    } else {
        c
    }
}

/// `text` without the character `unwanted`.
pub open spec fn without(text: Seq<char>, unwanted: char) -> Seq<char> {
    text.filter(|c: char| c != unwanted)
}

/// `text` with its ASCII capitals in lower case.
pub open spec fn lowered(text: Seq<char>) -> Seq<char> {
    text.map_values(|c: char| ascii_lower(c))
}

/// `name` without its spaces and with ASCII capitals in lower case.
pub open spec fn squashed(name: Seq<char>) -> Seq<char> {
    lowered(without(name, ' '))
}

/// The two-letter code of the country that `celes` knows under `name`.
pub uninterp spec fn country_alpha2(name: Seq<char>) -> Option<Seq<char>>;

/// `str::replace` where one character is to be replaced by nothing: the
/// text without that character.
#[verifier::external_body]
fn replace(text: &str, from: &str, to: &str) -> (r: String)
    requires
        from@.len() == 1,
        to@.len() == 0,
    ensures
        r@ == without(text@, from@[0]),
{
    text.replace(from, to)
}

/// `str::to_ascii_lowercase`: the letters `A` to `Z` become `a` to `z`,
/// and every other character stays.
#[verifier::external_body]
fn to_ascii_lowercase(text: &str) -> (r: String)
    ensures
        r@ == lowered(text@),
{
    text.to_ascii_lowercase()
}

/// `celes::Country::from_str`, and the field `alpha2` of the country it
/// finds.
#[verifier::external_body]
fn alpha2_for(name: &str) -> (r: Option<&'static str>)
    ensures
        r is Some <==> country_alpha2(name@) is Some,
        r matches Some(code) ==> country_alpha2(name@) == Some(code@),
{
    celes::Country::from_str(name).ok().map(|country| country.alpha2)
}

/// The field `alpha2` of `celes::Country::tokelau`, which is `TK`.
#[verifier::external_body]
fn tokelau_alpha2() -> (r: &'static str)
    ensures
        r@ == seq!['T', 'K'],
{
    celes::Country::tokelau().alpha2
}

/// Drops the spaces of `name` and puts its ASCII capitals in lower case.
pub fn squash(name: &str) -> (r: String)
    ensures
        r@ == squashed(name@),
{
    proof {
        reveal_strlit(" ");
        reveal_strlit("");
    }
    let without = replace(name, " ", "");
    to_ascii_lowercase(without.as_str())
}

/// The code that `country_code` finds for a name that squashes to `name`.
pub open spec fn code_of(name: Seq<char>) -> Option<Seq<char>> {
    match country_alpha2(name) {
        Some(code) => Some(code),
        None => if name == "tokelauislands"@ {
            Some(seq!['T', 'K'])
        } else {
            None
        },
    }
}

/// The two-letter code of `country`, given by name.
///
/// The name is squashed and looked up. Tokelau is also found under the
/// name of its islands.
pub fn country_code(country: &str) -> (r: Option<String>)
    ensures
        r is Some <==> code_of(squashed(country@)) is Some,
        r matches Some(code) ==> code_of(squashed(country@)) == Some(code@),
{
    let name = squash(country);
    match alpha2_for(name.as_str()) {
        Some(code) => Some(code.to_owned()),
        None => {
            let islands = "tokelauislands".to_owned();
            if name == islands {
                Some(tokelau_alpha2().to_owned())
            } else {
                None
            }
        },
    }
}

/// Whether two bytes can be cut off the start of `serial`: it has them,
/// and no character straddles the cut.
pub open spec fn cuttable(serial: Seq<char>) -> bool {
    encode_utf8(serial).len() >= 2 && is_char_boundary(encode_utf8(serial), 2)
}

/// `serial` without its first two bytes.
pub open spec fn cut(serial: Seq<char>) -> Seq<char> {
    decode_utf8(encode_utf8(serial).skip(2))
}

/// The digits of a serial number written with a two-byte prefix such as
/// `0x`, or nothing where the text cannot be cut after two bytes.
pub fn serial_digits(serial: &str) -> (r: Option<&str>)
    ensures
        r is Some <==> cuttable(serial@),
        r matches Some(digits) ==> digits@ == cut(serial@) && digits.spec_bytes()
            == serial.spec_bytes().skip(2),
{
    if serial.as_bytes().len() >= 2 && serial.is_char_boundary(2) {
        let (_, digits) = serial.split_at(2);
        proof {
            vstd::utf8::encode_utf8_decode_utf8(digits@);
        }
        Some(digits)
    } else {
        None
    }
}

/// `openssl::error::ErrorStack`, of which nothing is looked into.
#[verifier::external_type_specification]
#[verifier::external_body]
pub struct ExErrorStack(ErrorStack);

/// `openssl::x509::X509Name`, of which nothing is looked into.
#[verifier::external_type_specification]
#[verifier::external_body]
pub struct ExX509Name(X509Name);

/// `openssl::asn1::Asn1Integer`, of which nothing is looked into.
#[verifier::external_type_specification]
#[verifier::external_body]
pub struct ExAsn1Integer(Asn1Integer);

/// `openssl::x509::X509Builder`, of which nothing is looked into.
#[verifier::external_type_specification]
#[verifier::external_body]
pub struct ExX509Builder(X509Builder);

/// `openssl::pkey::PKey`, of which nothing is looked into.
#[verifier::external_type_specification]
#[verifier::external_body]
#[verifier::reject_recursive_types(T)]
pub struct ExPKey<T>(PKey<T>);

/// `openssl::pkey::Private`, the mark of a key that has its private half.
#[verifier::external_type_specification]
#[verifier::external_body]
pub struct ExPrivate(Private);

/// The longest name of a field that is handed to OpenSSL.
pub const MAX_FIELD_LEN: usize = 64;

/// The longest text that is handed to OpenSSL for a part of a name.
pub const MAX_NAME_PART_LEN: usize = 4096;

/// Whether no byte of `text` is zero.
pub open spec fn nul_free(text: Seq<u8>) -> bool {
    forall|i: int| 0 <= i < text.len() ==> #[trigger] text[i] != 0
}

/// Whether OpenSSL makes a name of two entries, each a field and its
/// text.
pub uninterp spec fn name_accepted(
    first_field: Seq<char>,
    first: Seq<char>,
    second_field: Seq<char>,
    second: Seq<char>,
) -> bool;

/// Whether OpenSSL reads a private key from these DER bytes.
pub uninterp spec fn der_key(der: Seq<u8>) -> bool;

/// Whether OpenSSL reads a number from these hexadecimal digits.
pub uninterp spec fn hex_serial(digits: Seq<char>) -> bool;

/// `openssl::x509::X509NameBuilder`: a name with two entries, each a
/// field and its text. Whether the name is made depends on the four texts
/// alone. A field is handed on as a C string, so it may not hold a zero
/// byte. Fields and texts are kept short, far below the lengths at which
/// OpenSSL stops reading a name back.
#[verifier::external_body]
fn name_of_two(first: (&str, &str), second: (&str, &str)) -> (r: Result<X509Name, ErrorStack>)
    requires
        nul_free(first.0.spec_bytes()),
        nul_free(second.0.spec_bytes()),
        first.0.spec_bytes().len() <= MAX_FIELD_LEN,
        second.0.spec_bytes().len() <= MAX_FIELD_LEN,
        first.1.spec_bytes().len() <= MAX_NAME_PART_LEN,
        second.1.spec_bytes().len() <= MAX_NAME_PART_LEN,
    ensures
        r is Ok <==> name_accepted(first.0@, first.1@, second.0@, second.1@),
{
    let mut name = X509NameBuilder::new()?;
    name.append_entry_by_text(first.0, first.1)?;
    name.append_entry_by_text(second.0, second.1)?;
    Ok(name.build())
}

/// `openssl::pkey::PKey::private_key_from_der`. Whether a key is read
/// depends on the bytes alone.
#[verifier::external_body]
fn private_key_of(der: &[u8]) -> (r: Result<PKey<Private>, ErrorStack>)
    ensures
        r is Ok <==> der_key(der@),
{
    PKey::private_key_from_der(der)
}

/// The first steps of `openssl::x509::X509Builder`: a certificate in the
/// making for the public half of the key, with the name as its subject,
/// valid from `not_before_days` to `not_after_days` days from now. The days
/// are turned into seconds in a C `long`, which at most 10000 days never
/// overflow.
#[verifier::external_body]
fn begun(name: &X509Name, key: &PKey<Private>, not_before_days: u32, not_after_days: u32) -> (r:
    Result<X509Builder, ErrorStack>)
    requires
        not_before_days <= 10000,
        not_after_days <= 10000,
{
    let mut x509 = X509Builder::new()?;
    x509.set_pubkey(key)?;
    x509.set_not_after(&*Asn1Time::days_from_now(not_after_days)?)?;
    x509.set_not_before(&*Asn1Time::days_from_now(not_before_days)?)?;
    x509.set_subject_name(name)?;
    Ok(x509)
}

/// `openssl::bn::BigNum::from_hex_str` and
/// `openssl::asn1::Asn1Integer::from_bn`. Whether a number is read depends
/// on the digits alone. The text is handed on as a C string, so it may not
/// hold a zero byte.
#[verifier::external_body]
fn serial_from_hex(digits: &str) -> (r: Result<Asn1Integer, ErrorStack>)
    requires
        nul_free(digits.spec_bytes()),
    ensures
        r is Ok <==> hex_serial(digits@),
{
    Asn1Integer::from_bn(&*BigNum::from_hex_str(digits)?)
}

/// The last steps of `openssl::x509::X509Builder`: the serial number is
/// set, the certificate is signed with the key over SHA-256, and
/// `openssl::x509::X509::to_der` writes it in DER.
#[verifier::external_body]
fn signed_der(builder: X509Builder, key: &PKey<Private>, serial: &Asn1Integer) -> (r: Result<
    Vec<u8>,
    ErrorStack,
>) {
    let mut x509 = builder;
    x509.set_serial_number(serial)?;
    x509.sign(key, MessageDigest::sha256())?;
    x509.build().to_der()
}

/// What a certificate is asked to say.
pub struct RequiredData {
    pub domain: String,
    /// The serial number in hexadecimal, after a two-byte prefix.
    pub serial_number: String,
    /// The country's English name.
    pub country: String,
}

/// Why no certificate was made.
#[derive(Debug, Clone, Copy, PartialEq, Eq, Structural)]
pub enum CertificateError {
    /// No country is known under the name.
    UnknownCountry,
    /// The private key is not base64 text.
    KeyNotBase64,
    /// The serial number has no two-byte prefix to cut off.
    SerialTooShort,
    /// OpenSSL does not take the name, the key or the serial number.
    Tls,
}

/// The days for which a certificate is valid.
pub const VALIDITY_DAYS: u32 = 10;

/// The error that `generate_certificate` surely answers for `private_key`
/// and `data` before it begins the certificate, if there is one: an unknown
/// country, a name that is too long or that OpenSSL does not make, a key
/// that is not base64, or bytes that OpenSSL reads no key from.
pub open spec fn early_error(private_key: Seq<char>, data: RequiredData) -> Option<
    CertificateError,
> {
    match code_of(squashed(data.country@)) {
        None => Some(CertificateError::UnknownCountry),
        Some(code) => if encode_utf8(code).len() > MAX_NAME_PART_LEN || encode_utf8(
            data.domain@,
        ).len() > MAX_NAME_PART_LEN || !name_accepted("C"@, code, "CN"@, data.domain@) {
            Some(CertificateError::Tls)
        } else {
            match base64_decoded(private_key) {
                None => Some(CertificateError::KeyNotBase64),
                Some(der) => if der_key(der) {
                    None
                } else {
                    Some(CertificateError::Tls)
                },
            }
        },
    }
}

/// The error that the serial number of `data` leads to once the
/// certificate is begun, if it leads to one: it cannot be cut, or its digits
/// hold a zero byte or are no number to OpenSSL.
pub open spec fn serial_error(data: RequiredData) -> Option<CertificateError> {
    if !cuttable(data.serial_number@) {
        Some(CertificateError::SerialTooShort)
    } else if !nul_free(encode_utf8(cut(data.serial_number@))) || !hex_serial(
        cut(data.serial_number@),
    ) {
        Some(CertificateError::Tls)
    } else {
        None
    }
}

fn has_no_nul(text: &str) -> (r: bool)
    ensures
        r == nul_free(text.spec_bytes()),
{
    let bytes = text.as_bytes();
    let mut i: usize = 0;
    while i < bytes.len()
        invariant
            i <= bytes@.len(),
            bytes@ == text.spec_bytes(),
            forall|j: int| 0 <= j < i ==> #[trigger] bytes@[j] != 0,
        decreases bytes@.len() - i,
    {
        if bytes[i] == 0 {
            return false;
        }
        i += 1;
    }
    true
}

/// Makes a certificate for the domain of `data`, valid from now for
/// `VALIDITY_DAYS` days, signs it with `private_key`, a DER key in base64,
/// and hands it out in DER.
///
/// The steps are taken in this order, and the first that fails decides
/// the error: the country is looked up (`UnknownCountry`); OpenSSL makes
/// the subject from the country's code and the domain (`Tls`); the key is
/// read from base64 (`KeyNotBase64`) and OpenSSL reads it (`Tls`); OpenSSL
/// begins the certificate (`Tls`); two bytes are cut off the serial number
/// (`SerialTooShort`); OpenSSL reads the serial number and signs (`Tls`).
///
/// Whether OpenSSL begins and signs the certificate is not known
/// beforehand, since the validity starts at the time of the call. So an
/// error that `early_error` names is sure to come, a certificate comes only
/// where neither it nor `serial_error` names one, and `Tls` may stand in for
/// what `serial_error` names.
pub fn generate_certificate(private_key: &str, data: &RequiredData) -> (r: Result<
    Vec<u8>,
    CertificateError,
>)
    ensures
        match early_error(private_key@, *data) {
            Some(e) => r == Err::<Vec<u8>, CertificateError>(e),
            None => match r {
                Ok(_) => serial_error(*data) is None,
                Err(e) => e == CertificateError::Tls || serial_error(*data) == Some(e),
            },
        },
{
    let code = match country_code(data.country.as_str()) {
        None => {
            return Err(CertificateError::UnknownCountry);
        },
        Some(code) => code,
    };
    let country_field = "C";
    let common_name_field = "CN";
    proof {
        reveal_strlit("C");
        reveal_strlit("CN");
        assert(is_ascii_chars(country_field@) && is_ascii_chars(common_name_field@));
        vstd::utf8::is_ascii_chars_encode_utf8(country_field@);
        vstd::utf8::is_ascii_chars_encode_utf8(common_name_field@);
    }
    if code.as_str().as_bytes().len() > MAX_NAME_PART_LEN || data.domain.as_str().as_bytes().len()
        > MAX_NAME_PART_LEN {
        return Err(CertificateError::Tls);
    }
    let name = match name_of_two(
        (country_field, code.as_str()),
        (common_name_field, data.domain.as_str()),
    ) {
        Err(_) => {
            return Err(CertificateError::Tls);
        },
        Ok(name) => name,
    };
    let key_der = match from_base64(private_key) {
        None => {
            return Err(CertificateError::KeyNotBase64);
        },
        Some(der) => der,
    };
    let key = match private_key_of(key_der.as_slice()) {
        Err(_) => {
            return Err(CertificateError::Tls);
        },
        Ok(key) => key,
    };
    let builder = match begun(&name, &key, 0, VALIDITY_DAYS) {
        Err(_) => {
            return Err(CertificateError::Tls);
        },
        Ok(builder) => builder,
    };
    let digits = match serial_digits(data.serial_number.as_str()) {
        None => {
            return Err(CertificateError::SerialTooShort);
        },
        Some(digits) => digits,
    };
    if !has_no_nul(digits) {
        return Err(CertificateError::Tls);
    }
    let serial = match serial_from_hex(digits) {
        Err(_) => {
            return Err(CertificateError::Tls);
        },
        Ok(serial) => serial,
    };
    match signed_der(builder, &key, &serial) {
        Err(_) => Err(CertificateError::Tls),
        Ok(der) => Ok(der),
    }
}

/// Writes a certificate given in DER as base64 text, unless it is longer
/// than `MAX_ENCODE_LEN`. `from_base64` reads the certificate back from the
/// text.
pub fn encode_certificate(der: &[u8]) -> (r: Option<String>)
    ensures
        r is Some <==> der@.len() <= MAX_ENCODE_LEN,
        r matches Some(text) ==> text@ == base64_encoded(der@) && base64_decoded(text@) == Some(
            der@,
        ),
{
    to_base64(der)
}

} // verus!
