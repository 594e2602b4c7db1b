use stage1::digest::{check_digest, digest_hex, verify_payload};
use stage1::error::StageError;

const HELLO: &str = "dffd6021bb2bd5b0af676290809ec3a53191dd81c7f70a4b28688a362182986f";
const EMPTY: &str = "e3b0c44298fc1c149afbf4c8996fb92427ae41e4649b934ca495991b7852b855";

#[test]
fn digest_of_a_known_text() {
    assert_eq!(digest_hex(b"Hello, World!"), HELLO);
    assert_eq!(
        digest_hex(b"hello world"),
        "b94d27b9934d3e08a52e52d7da7dabfac484efe37a5380ee9088f7ace2efcde9"
    );
}

#[test]
fn digest_of_nothing() {
    assert_eq!(digest_hex(b""), EMPTY);
}

#[test]
fn digest_is_sixty_four_lower_case_hex_digits() {
    let text = digest_hex(&[0u8, 1, 2, 253, 254, 255]);
    assert_eq!(text.len(), 64);
    assert!(text.chars().all(|c| c.is_ascii_digit() || ('a'..='f').contains(&c)));
}

#[test]
fn digest_is_not_the_payload_itself() {
    let payload = b"0123456789abcdef0123456789abcdef".to_vec();
    assert_ne!(digest_hex(&payload).into_bytes(), payload);
}

#[test]
fn the_true_digest_is_accepted() {
    assert_eq!(verify_payload(b"Hello, World!", &Some(HELLO.to_string())), Ok(()));
    assert_eq!(verify_payload(b"", &Some(EMPTY.to_string())), Ok(()));
}

#[test]
fn any_other_digest_is_a_mismatch() {
    let wrong = [
        EMPTY.to_string(),
        String::new(),
        HELLO.to_uppercase(),
        format!("{} ", HELLO),
        format!(" {}", HELLO),
        HELLO[..63].to_string(),
        format!("{}0", HELLO),
        "not a digest".to_string(),
    ];
    for expected in wrong.iter() {
        assert_eq!(
            verify_payload(b"Hello, World!", &Some(expected.clone())),
            Err(StageError::ChecksumMismatch)
        );
    }
}

#[test]
fn without_an_expected_digest_everything_is_accepted() {
    assert_eq!(verify_payload(b"Hello, World!", &None), Ok(()));
    assert_eq!(verify_payload(b"", &None), Ok(()));
    assert_eq!(verify_payload(&[0u8; 1000], &None), Ok(()));
}

#[test]
fn comparison_is_exact() {
    let computed = "ab12".to_string();
    assert_eq!(check_digest(&Some("ab12".to_string()), &computed), Ok(()));
    assert_eq!(check_digest(&None, &computed), Ok(()));
    assert_eq!(
        check_digest(&Some("AB12".to_string()), &computed),
        Err(StageError::ChecksumMismatch)
    );
    assert_eq!(
        check_digest(&Some("ab1".to_string()), &computed),
        Err(StageError::ChecksumMismatch)
    );
    assert_eq!(
        check_digest(&Some("ab123".to_string()), &computed),
        Err(StageError::ChecksumMismatch)
    );
    assert_eq!(
        check_digest(&Some(String::new()), &computed),
        Err(StageError::ChecksumMismatch)
    );
}
