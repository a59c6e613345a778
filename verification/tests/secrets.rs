use scwx::inventory::Environment;
use scwx::secrets::{decode_secret, secret_name, SecretError};
use scwx::sensitive::Sensitive;

#[test]
fn secret_name_uppercases_every_placeholder() {
    let name = secret_name(
        "{db}-{user}-PWD-{env}",
        "matched-article",
        "mael_lepetit",
        Environment::Prod,
    );
    assert_eq!(name, "MATCHED-ARTICLE-MAEL_LEPETIT-PWD-PROD");
}

#[test]
fn secret_name_with_a_different_template_shape() {
    let name = secret_name("db/{env}/{db}/{user}", "search", "jo", Environment::Beta);
    assert_eq!(name, "db/BETA/SEARCH/JO");
}

#[test]
fn decode_trims_trailing_newlines_and_rejects_garbage() {
    // "hunter2\n" base64-encoded
    let decoded = decode_secret("S", "aHVudGVyMgo=").unwrap();
    assert_eq!(decoded.expose(), "hunter2");

    assert!(decode_secret("S", "not-base64!!!").is_err());
    // 0xFF 0xFE is valid base64 content but not utf-8
    assert!(decode_secret("S", "//4=").is_err());
}

#[test]
fn decode_errors_name_the_secret() {
    match decode_secret("DB-PWD", "not-base64!!!") {
        Err(e @ SecretError::NotBase64 { .. }) => {
            assert!(e.message().contains("DB-PWD"));
        }
        Err(other) => panic!("unexpected error: {other:?}"),
        Ok(_) => panic!("garbage decoded"),
    }
    assert!(matches!(
        decode_secret("DB-PWD", "//4="),
        Err(SecretError::NotUtf8 { .. })
    ));
}

#[test]
fn decode_keeps_inner_newlines_and_trims_only_the_end() {
    // "a\nb\r\n\n" base64-encoded
    let decoded = decode_secret("S", "YQpiDQoK").unwrap();
    assert_eq!(decoded.expose(), "a\nb");
}

#[test]
fn debug_never_prints_the_value() {
    let secret = Sensitive::new("hunter2".to_owned());
    assert_eq!(secret.debug_text(), "[redacted]");
    assert_eq!(secret.expose(), "hunter2");
}

#[test]
fn secret_name_leaves_unknown_placeholders() {
    let name = secret_name("{other}-{db}", "x", "u", Environment::Prod);
    assert_eq!(name, "{other}-X");
}
