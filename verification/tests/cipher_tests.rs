use lab1_chat::cipher::{decrypt, encrypt, parse_encryption_arg, try_decrypt, EncryptionMethod};
use lab1_chat::messages::{open_text, seal_text};

#[test]
fn encrypt_decrypt_xor_test() {
    let encrypted = encrypt(&String::from("msg"), &EncryptionMethod::Xor, &5);
    let decrypted = decrypt(encrypted, &EncryptionMethod::Xor, &5);

    assert_eq!("msg", decrypted);
}

#[test]
fn encrypt_decrypt_cezar_test() {
    let encrypted = encrypt(&String::from("msg"), &EncryptionMethod::Cezar, &5);
    let decrypted = decrypt(encrypted, &EncryptionMethod::Cezar, &5);

    assert_eq!("msg", decrypted);
}

#[test]
fn plain_encryption_keeps_the_utf8_bytes() {
    let encrypted = encrypt(&String::from("zaż"), &EncryptionMethod::Plain, &77);
    assert_eq!(encrypted, "zaż".as_bytes().to_vec());
    assert_eq!(decrypt(encrypted, &EncryptionMethod::Plain, &77), "zaż");
}

#[test]
fn xor_uses_the_last_big_endian_byte_of_the_secret() {
    // 0x0102_0304: the last byte written big-endian is 0x04.
    let encrypted = encrypt(&String::from("ab"), &EncryptionMethod::Xor, &0x0102_0304);
    assert_eq!(encrypted, vec![b'a' ^ 0x04, b'b' ^ 0x04]);
}

#[test]
fn cezar_shifts_by_the_low_byte_and_wraps() {
    // 300 truncated to a byte is 44; 'z' is 122, and 122 + 44 = 166.
    let encrypted = encrypt(&String::from("z"), &EncryptionMethod::Cezar, &300);
    assert_eq!(encrypted, vec![166]);
    // 'a' is 97, and 97 + 200 = 297 wraps round to 41.
    let wrapped = encrypt(&String::from("a"), &EncryptionMethod::Cezar, &200);
    assert_eq!(wrapped, vec![41]);
    assert_eq!(decrypt(wrapped, &EncryptionMethod::Cezar, &200), "a");
}

#[test]
fn roundtrip_for_every_method_and_many_secrets() {
    let text = String::from("Zażółć gęślą jaźń: 1234!");
    for method in [EncryptionMethod::Plain, EncryptionMethod::Xor, EncryptionMethod::Cezar] {
        for secret in [0u32, 1, 5, 255, 256, 70_000, u32::MAX] {
            let encrypted = encrypt(&text, &method, &secret);
            assert_eq!(decrypt(encrypted, &method, &secret), text);
        }
    }
}

#[test]
fn try_decrypt_refuses_bytes_that_are_not_utf8() {
    assert_eq!(try_decrypt(vec![0xff], &EncryptionMethod::Plain, &0), None);
    // 0xfa xor 5 = 0xff, which no UTF-8 text holds.
    assert_eq!(try_decrypt(vec![0xfa], &EncryptionMethod::Xor, &5), None);
    assert_eq!(try_decrypt(vec![b'h' ^ 7, b'i' ^ 7], &EncryptionMethod::Xor, &7), Some(String::from("hi")));
}

#[test]
fn sealed_text_is_base64_and_opens_back() {
    let sealed = seal_text(&String::from("hi"), &EncryptionMethod::Plain, &0);
    assert_eq!(sealed, "aGk=");
    let sealed_xor = seal_text(&String::from("hi"), &EncryptionMethod::Xor, &1);
    assert_eq!(sealed_xor, "aWg=");
    assert_eq!(open_text(&sealed_xor, &EncryptionMethod::Xor, &1), Some(String::from("hi")));
    assert_eq!(open_text(&String::from("not base64!"), &EncryptionMethod::Plain, &0), None);
}

#[test]
fn encryption_argument_names() {
    assert_eq!(parse_encryption_arg("XOR"), Some(EncryptionMethod::Xor));
    assert_eq!(parse_encryption_arg("CEZAR"), Some(EncryptionMethod::Cezar));
    assert_eq!(parse_encryption_arg("NONE"), Some(EncryptionMethod::Plain));
    assert_eq!(parse_encryption_arg("xor"), None);
    assert_eq!(parse_encryption_arg(""), None);
}
