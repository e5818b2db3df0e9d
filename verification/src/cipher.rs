//! The ciphers that a client may choose for its messages.

use vstd::prelude::*;
use vstd::utf8::*;
use byteorder::{BigEndian, WriteBytesExt};

verus! {

broadcast use vstd::utf8::group_utf8_lib;

/// How a client encrypts the text of its messages.
#[derive(Debug, PartialEq, Eq, Clone, Copy, Structural)]
pub enum EncryptionMethod {
    Plain,
    Xor,
    Cezar,
}

/// The cipher that a command-line value names: `XOR`, `CEZAR` or `NONE`.
pub open spec fn named_method(arg: Seq<char>) -> Option<EncryptionMethod> {
    if arg == "XOR"@ {
        Some(EncryptionMethod::Xor)
    } else if arg == "CEZAR"@ {
        Some(EncryptionMethod::Cezar)
    } else if arg == "NONE"@ {
        Some(EncryptionMethod::Plain)
    } else {
        None
    }
}

/// Reads the client's `--encryption` value; `None` for a value that names no cipher.
pub fn parse_encryption_arg(arg: &str) -> (method: Option<EncryptionMethod>)
    ensures
        method == named_method(arg@),
{
    let arg = arg.to_owned();
    if arg == "XOR".to_owned() {
        Some(EncryptionMethod::Xor)
    } else if arg == "CEZAR".to_owned() {
        Some(EncryptionMethod::Cezar)
    } else if arg == "NONE".to_owned() {
        Some(EncryptionMethod::Plain)
    } else {
        None
    }
}

/// The key byte of the xor cipher: the last byte of the secret written big-endian.
pub open spec fn xor_key(secret: u32) -> u8 {
    secret as u8
}

/// The shift of the Caesar cipher: the secret truncated to a byte.
pub open spec fn cezar_shift(secret: u32) -> u8 {
    secret as u8
}

/// Each byte xor-ed with `key`.
pub open spec fn xor_bytes(bytes: Seq<u8>, key: u8) -> Seq<u8> {
    Seq::new(bytes.len(), |i: int| bytes[i] ^ key)
}

/// Each byte shifted up by `k`, modulo 256.
pub open spec fn shift_up(bytes: Seq<u8>, k: u8) -> Seq<u8> {
    Seq::new(bytes.len(), |i: int| ((bytes[i] + k) % 256) as u8)
}

/// Each byte shifted down by `k`, modulo 256.
pub open spec fn shift_down(bytes: Seq<u8>, k: u8) -> Seq<u8> {
    Seq::new(bytes.len(), |i: int| ((bytes[i] - k + 256) % 256) as u8)
}

/// The bytes that `encrypt` makes of a text.
pub open spec fn encrypted_bytes(msg: Seq<char>, method: EncryptionMethod, secret: u32) -> Seq<u8> {
    match method {
        EncryptionMethod::Cezar => shift_up(encode_utf8(msg), cezar_shift(secret)),
        EncryptionMethod::Xor => xor_bytes(encode_utf8(msg), xor_key(secret)),
        EncryptionMethod::Plain => encode_utf8(msg),
    }
}

/// The bytes that `decrypt` reads as UTF-8.
pub open spec fn decrypted_bytes(bytes: Seq<u8>, method: EncryptionMethod, secret: u32) -> Seq<u8> {
    match method {
        EncryptionMethod::Cezar => shift_down(bytes, cezar_shift(secret)),
        EncryptionMethod::Xor => xor_bytes(bytes, xor_key(secret)),
        EncryptionMethod::Plain => bytes,
    }
}

/// Writes `x` into a new vector of bytes with byteorder's `WriteBytesExt::write_u32`
/// in big-endian order. The contract claims the four bytes, most significant first;
/// writing into a `Vec` cannot fail.
#[verifier::external_body]
fn u32_to_be_bytes(x: u32) -> (bytes: Vec<u8>)
    ensures
        bytes@ == seq![(x >> 24u32) as u8, (x >> 16u32) as u8, (x >> 8u32) as u8, x as u8],
{
    let mut bytes = vec![];
    bytes.write_u32::<BigEndian>(x).unwrap();
    bytes
}

/// Calls std's `String::from_utf8`. The contract claims what its documentation
/// says: it succeeds exactly on valid UTF-8, and then holds the decoded text.
#[verifier::external_body]
fn string_from_utf8(bytes: Vec<u8>) -> (text: Option<String>)
    ensures
        text is Some <==> valid_utf8(bytes@),
        text matches Some(s) ==> s@ == decode_utf8(bytes@),
{
    String::from_utf8(bytes).ok()
}

fn xor_each(bytes: &[u8], key: u8) -> (out: Vec<u8>)
    ensures
        out@ == xor_bytes(bytes@, key),
{
    let mut out: Vec<u8> = Vec::new();
    for i in 0..bytes.len()
        invariant
            out@ == xor_bytes(bytes@.take(i as int), key),
    {
        out.push(bytes[i] ^ key);
        assert(out@ =~= xor_bytes(bytes@.take(i + 1), key));
    }
    assert(bytes@.take(bytes@.len() as int) =~= bytes@);
    out
}

/// Xors each UTF-8 byte of the text with the last byte of the secret.
pub fn encrypt_xor(msg: &String, secret: &u32) -> (out: Vec<u8>)
    ensures
        out@ == xor_bytes(encode_utf8(msg@), xor_key(*secret)),
{
    let secret_bytes = u32_to_be_bytes(*secret);
    let key = secret_bytes[secret_bytes.len() - 1];
    xor_each(msg.as_str().as_bytes(), key)
}

/// Shifts each UTF-8 byte of the text up by the secret's low byte, modulo 256.
pub fn encrypt_cezar(msg: &String, secret: &u32) -> (out: Vec<u8>)
    ensures
        out@ == shift_up(encode_utf8(msg@), cezar_shift(*secret)),
{
    let bytes = msg.as_str().as_bytes();
    let k = *secret as u8;
    let mut out: Vec<u8> = Vec::new();
    for i in 0..bytes.len()
        invariant
            k == cezar_shift(*secret),
            out@ == shift_up(bytes@.take(i as int), k),
    {
        out.push(bytes[i].wrapping_add(k));
        assert(out@ =~= shift_up(bytes@.take(i + 1), k));
    }
    assert(bytes@.take(bytes@.len() as int) =~= bytes@);
    out
}

fn shift_each_down(bytes: &Vec<u8>, k: u8) -> (out: Vec<u8>)
    ensures
        out@ == shift_down(bytes@, k),
{
    let mut out: Vec<u8> = Vec::new();
    for i in 0..bytes.len()
        invariant
            out@ == shift_down(bytes@.take(i as int), k),
    {
        out.push(bytes[i].wrapping_sub(k));
        assert(out@ =~= shift_down(bytes@.take(i + 1), k));
    }
    assert(bytes@.take(bytes@.len() as int) =~= bytes@);
    out
}

/// Shifts each byte down by the secret's low byte and reads the result as UTF-8.
pub fn decrypt_cezar(msg: Vec<u8>, secret: &u32) -> (text: String)
    requires
        valid_utf8(shift_down(msg@, cezar_shift(*secret))),
    ensures
        text@ == decode_utf8(shift_down(msg@, cezar_shift(*secret))),
{
    let bytes = shift_each_down(&msg, *secret as u8);
    string_from_utf8(bytes).unwrap()
}

/// Xors each byte with the last byte of the secret and reads the result as UTF-8.
pub fn decrypt_xor(msg: Vec<u8>, secret: &u32) -> (text: String)
    requires
        valid_utf8(xor_bytes(msg@, xor_key(*secret))),
    ensures
        text@ == decode_utf8(xor_bytes(msg@, xor_key(*secret))),
{
    let secret_bytes = u32_to_be_bytes(*secret);
    let key = secret_bytes[secret_bytes.len() - 1];
    let bytes = xor_each(msg.as_slice(), key);
    string_from_utf8(bytes).unwrap()
}

/// Encrypts the text of a message with the chosen method and secret.
pub fn encrypt(msg: &String, method: &EncryptionMethod, secret: &u32) -> (out: Vec<u8>)
    ensures
        out@ == encrypted_bytes(msg@, *method, *secret),
{
    match method {
        EncryptionMethod::Cezar => encrypt_cezar(msg, secret),
        EncryptionMethod::Xor => encrypt_xor(msg, secret),
        _ => msg.as_str().as_bytes_vec(),
    }
}

/// Decrypts the bytes of a message; the bytes it recovers must be UTF-8.
pub fn decrypt(msg: Vec<u8>, method: &EncryptionMethod, secret: &u32) -> (text: String)
    requires
        valid_utf8(decrypted_bytes(msg@, *method, *secret)),
    ensures
        text@ == decode_utf8(decrypted_bytes(msg@, *method, *secret)),
{
    match method {
        EncryptionMethod::Cezar => decrypt_cezar(msg, secret),
        EncryptionMethod::Xor => decrypt_xor(msg, secret),
        _ => string_from_utf8(msg).unwrap(),
    }
}

/// Decrypts the bytes of a message, or gives `None` where the bytes it recovers
/// are not UTF-8 (there `decrypt` cannot be called).
pub fn try_decrypt(msg: Vec<u8>, method: &EncryptionMethod, secret: &u32) -> (text: Option<String>)
    ensures
        text is Some <==> valid_utf8(decrypted_bytes(msg@, *method, *secret)),
        text matches Some(s) ==> s@ == decode_utf8(decrypted_bytes(msg@, *method, *secret)),
{
    let bytes = match method {
        EncryptionMethod::Cezar => shift_each_down(&msg, *secret as u8),
        EncryptionMethod::Xor => {
            let secret_bytes = u32_to_be_bytes(*secret);
            xor_each(msg.as_slice(), secret_bytes[secret_bytes.len() - 1])
        },
        _ => msg,
    };
    string_from_utf8(bytes)
}

/// Decryption undoes encryption: for every text, method and secret, the bytes that
/// `encrypt` makes are accepted by `decrypt`, which gives the text back.
pub proof fn lemma_decrypt_undoes_encrypt(msg: Seq<char>, method: EncryptionMethod, secret: u32)
    ensures
        decrypted_bytes(encrypted_bytes(msg, method, secret), method, secret) == encode_utf8(msg),
        valid_utf8(decrypted_bytes(encrypted_bytes(msg, method, secret), method, secret)),
        decode_utf8(decrypted_bytes(encrypted_bytes(msg, method, secret), method, secret)) == msg,
{
    let plain = encode_utf8(msg);
    match method {
        EncryptionMethod::Cezar => {
            let k = cezar_shift(secret);
            assert(shift_down(shift_up(plain, k), k) =~= plain);
        },
        EncryptionMethod::Xor => {
            let k = xor_key(secret);
            assert forall|i: int| 0 <= i < plain.len() implies
                #[trigger] xor_bytes(xor_bytes(plain, k), k)[i] == plain[i] by {
                let b = plain[i];
                assert((b ^ k) ^ k == b) by (bit_vector);
            }
            assert(xor_bytes(xor_bytes(plain, k), k) =~= plain);
        },
        EncryptionMethod::Plain => {},
    }
}

} // verus!
