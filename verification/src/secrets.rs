//! Names of database password secrets, and decoding their payloads.

use vstd::prelude::*;

use base64::Engine;

use crate::inventory::{env_name, Environment};
use crate::sensitive::Sensitive;
use crate::text::{concat, replace, replace_seq, to_uppercase, trim_end_newlines, trim_newlines_end, unicode_upper};

verus! {

/// The secret name: `{db}`, `{user}` and `{env}` in the template replaced
/// by the uppercased database key, user and environment name.
pub open spec fn secret_name_spec(
    template: Seq<char>,
    db: Seq<char>,
    user: Seq<char>,
    env: Environment,
) -> Seq<char> {
    replace_seq(
        replace_seq(replace_seq(template, "{db}"@, unicode_upper(db)), "{user}"@, unicode_upper(user)),
        "{env}"@,
        unicode_upper(env_name(env)),
    )
}

pub fn secret_name(template: &str, db: &str, user: &str, env: Environment) -> (r: String)
    ensures
        r@ == secret_name_spec(template@, db@, user@, env),
{
    proof {
        reveal_strlit("{db}");
        reveal_strlit("{user}");
        reveal_strlit("{env}");
    }
    let db_upper = to_uppercase(db);
    let user_upper = to_uppercase(user);
    let env_upper = to_uppercase(env.as_str());
    let a = replace(template, "{db}", db_upper.as_str());
    let b = replace(a.as_str(), "{user}", user_upper.as_str());
    replace(b.as_str(), "{env}", env_upper.as_str())
}

#[verifier::external_type_specification]
#[verifier::external_body]
pub struct ExDecodeError(base64::DecodeError);

#[verifier::external_type_specification]
#[verifier::external_body]
pub struct ExFromUtf8Error(std::string::FromUtf8Error);

/// The bytes that standard base64 (RFC 4648 alphabet, canonical padding
/// required) decodes the given text to, when it is valid base64.
pub uninterp spec fn base64_standard_decoded(text: Seq<char>) -> Option<Seq<u8>>;

/// `base64::engine::general_purpose::STANDARD.decode`: the result is a
/// function of the text alone; which texts are valid and what they decode
/// to is not stated here.
#[verifier::external_body]
fn base64_decode(data: &str) -> (r: Result<Vec<u8>, base64::DecodeError>)
    ensures
        match r {
            Ok(bytes) => base64_standard_decoded(data@) == Some(bytes@),
            Err(_) => base64_standard_decoded(data@) is None,
        },
{
    base64::engine::general_purpose::STANDARD.decode(data)
}

/// `String::from_utf8`: succeeds exactly on valid UTF-8, giving the
/// characters the bytes encode.
#[verifier::external_body]
fn utf8_string(bytes: Vec<u8>) -> (r: Result<String, std::string::FromUtf8Error>)
    ensures
        match r {
            Ok(s) => vstd::utf8::valid_utf8(bytes@) && s@ == vstd::utf8::decode_utf8(bytes@),
            Err(_) => !vstd::utf8::valid_utf8(bytes@),
        },
{
    String::from_utf8(bytes)
}

/// Why a secret's payload could not be read.
#[derive(Debug)]
pub enum SecretError {
    /// The payload is not base64.
    NotBase64 { name: String },
    /// The decoded payload is not UTF-8.
    NotUtf8 { name: String },
}

impl SecretError {
    pub fn message(&self) -> (r: String)
        ensures
            match self {
                SecretError::NotBase64 { name } => r@ == "decoding secret "@ + name@,
                SecretError::NotUtf8 { name } => r@ == "secret "@ + name@ + " is not utf-8"@,
            },
    {
        match self {
            SecretError::NotBase64 { name } => concat("decoding secret ", name.as_str()),
            SecretError::NotUtf8 { name } => {
                let a = concat("secret ", name.as_str());
                concat(a.as_str(), " is not utf-8")
            },
        }
    }
}

/// What a secret's payload decodes to: base64, then UTF-8, then trailing
/// newlines and carriage returns dropped.
pub open spec fn decoded_secret(data: Seq<char>) -> Option<Seq<char>> {
    match base64_standard_decoded(data) {
        Some(bytes) => if vstd::utf8::valid_utf8(bytes) {
            Some(trim_end_newlines(vstd::utf8::decode_utf8(bytes)))
        } else {
            None
        },
        None => None,
    }
}

/// Decodes a secret's payload; the error names the secret.
pub fn decode_secret(name: &str, data: &str) -> (r: Result<Sensitive, SecretError>)
    ensures
        match r {
            Ok(s) => decoded_secret(data@) == Some(s@),
            Err(SecretError::NotBase64 { name: n }) => n@ == name@ && base64_standard_decoded(
                data@,
            ) is None,
            Err(SecretError::NotUtf8 { name: n }) => n@ == name@ && base64_standard_decoded(
                data@,
            ) is Some && decoded_secret(data@) is None,
        },
{
    let bytes = match base64_decode(data) {
        Ok(b) => b,
        Err(_) => {
            return Err(SecretError::NotBase64 { name: String::from_str(name) });
        },
    };
    let value = match utf8_string(bytes) {
        Ok(s) => s,
        Err(_) => {
            return Err(SecretError::NotUtf8 { name: String::from_str(name) });
        },
    };
    Ok(Sensitive::new(trim_newlines_end(value.as_str())))
}

} // verus!
