use echoxide::auth::{ct_str_eq, to_hex, valid_auth_token};
use echoxide::frames::event_frame;
use echoxide::session::u64_dec_string;

use hmac::Mac;

#[test]
fn decimal_rendering_is_exact() {
    assert_eq!(u64_dec_string(0), "0");
    assert_eq!(u64_dec_string(7), "7");
    assert_eq!(u64_dec_string(10), "10");
    assert_eq!(u64_dec_string(1234567890), "1234567890");
    assert_eq!(u64_dec_string(u64::MAX), "18446744073709551615");
}

#[test]
fn hex_rendering_is_exact() {
    assert_eq!(to_hex(&vec![]), "");
    assert_eq!(to_hex(&vec![0x00, 0xff, 0x1a]), "00ff1a");
    assert_eq!(to_hex(&vec![0xde, 0xad, 0xbe, 0xef]), "deadbeef");
}

#[test]
fn timing_safe_comparison_agrees_with_equality() {
    assert!(ct_str_eq("abc", "abc"));
    assert!(!ct_str_eq("abc", "abd"));
    assert!(!ct_str_eq("abc", "ab"));
    assert!(ct_str_eq("", ""));
}

#[test]
fn json_strings_escape_quotes_backslashes_and_controls() {
    let f = event_frame("e", "say \"hi\"\\\n".as_bytes());
    assert_eq!(
        String::from_utf8(f).unwrap(),
        "{\"event\":\"e\",\"data\":\"say \\\"hi\\\"\\\\\\u000a\"}"
    );
}

#[test]
fn auth_tokens_are_checked_exactly() {
    let mut mac = hmac::Hmac::<sha2::Sha256>::new_from_slice(b"app-secret").unwrap();
    mac.update(b"1.1:private-x");
    let out = mac.finalize().into_bytes();
    let mut sig = String::new();
    for b in out.iter() {
        sig.push_str(&format!("{:02x}", b));
    }
    let token = format!("key:{}", sig);
    assert!(valid_auth_token(&token, "key", "app-secret", "1.1:private-x"));
    assert!(!valid_auth_token("key:deadbeef", "key", "app-secret", "1.1:private-x"));
    assert!(!valid_auth_token(&token, "other", "app-secret", "1.1:private-x"));
}
