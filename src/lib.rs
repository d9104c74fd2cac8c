//! License-code generation: a keyed XOR stream cipher over a text record,
//! followed by a base64-like re-encoding of the resulting bytes.
use vstd::prelude::*;
use vstd::string::*;
use vstd::utf8::encode_utf8;

pub mod cipher;
pub mod encoder;
pub mod error;
pub mod record;
pub mod version;

use crate::cipher::{cipher, encrypt_decrypt_bytes, key_after, INITIAL_KEY};
use crate::encoder::{encode, variant_base64_encode};
use crate::error::LicenseError;
use crate::record::{license_record, license_type_code, parse_license_type, record_bytes, Config};
use crate::version::{parse_version, regex_compiles, regex_is_match, splits_at_first_dot, VERSION_PATTERN};

verus! {

/// The code for a record: encrypted from the initial key, then encoded.
pub open spec fn record_code(record: Seq<u8>) -> Seq<u8> {
    encode(cipher(INITIAL_KEY, record, true))
}

/// The code for `config`, once its version has been split into `major` and `minor`.
pub open spec fn config_code(config: Config, major: Seq<char>, minor: Seq<char>) -> Seq<u8> {
    record_code(
        record_bytes(
            license_type_code(config.license_type@),
            config.username@,
            major,
            minor,
            config.count as nat,
        ),
    )
}

/// Encrypts the UTF-8 bytes of `text` from the initial key and encodes the result.
pub fn encode_record(text: &str) -> (r: Vec<u8>)
    ensures
        r@ == record_code(encode_utf8(text@)),
{
    let bytes = text.as_bytes_vec();
    let mut key: u16 = INITIAL_KEY;
    let encrypted = encrypt_decrypt_bytes(&mut key, bytes.as_slice(), true);
    variant_base64_encode(encrypted)
}

/// Builds the license code for `config`: its record, encrypted and encoded.
pub fn build_license_code(config: &Config) -> (r: Result<Vec<u8>, LicenseError>)
    ensures
        match r {
            Ok(code) => exists|major: Seq<char>, minor: Seq<char>|
                regex_compiles(VERSION_PATTERN@) && regex_is_match(VERSION_PATTERN@, config.version@) && splits_at_first_dot(
                    config.version@,
                    major,
                    minor,
                ) && code@ == config_code(*config, major, minor),
            Err(e) => if regex_compiles(VERSION_PATTERN@) {
                e == LicenseError::InvalidFormat && !(regex_is_match(
                    VERSION_PATTERN@,
                    config.version@,
                ) && config.version@.contains('.'))
            } else {
                e == LicenseError::PatternRejected
            },
        },
{
    let (major, minor) = match parse_version(config.version.as_str()) {
        Ok(parts) => parts,
        Err(e) => {
            return Err(e);
        },
    };
    let license_type = parse_license_type(config.license_type.as_str());
    let record = license_record(
        license_type,
        config.username.as_str(),
        major,
        minor,
        config.count,
    );
    let mut key: u16 = INITIAL_KEY;
    let encrypted = encrypt_decrypt_bytes(&mut key, record.as_slice(), true);
    let code = variant_base64_encode(encrypted);
    assert(code@ == config_code(*config, major@, minor@));
    Ok(code)
}

/// The cipher and the encoding depend on their inputs alone: equal inputs give
/// equal outputs and equal final keys.
pub proof fn lemma_deterministic(
    key: u16,
    input: Seq<u8>,
    encrypt: bool,
    key2: u16,
    input2: Seq<u8>,
    encrypt2: bool,
)
    requires
        key == key2,
        input == input2,
        encrypt == encrypt2,
    ensures
        cipher(key, input, encrypt) == cipher(key2, input2, encrypt2),
        key_after(key, input, encrypt, input.len()) == key_after(
            key2,
            input2,
            encrypt2,
            input2.len(),
        ),
        encode(input) == encode(input2),
        record_code(input) == record_code(input2),
{
}

} // verus!
