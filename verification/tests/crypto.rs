use opus::crypto::{sign, verify};

#[test]
fn sign_matches_fnv1a_hex() {
    assert_eq!(sign("a", "b"), "sig:e661911904a01160");
    assert_eq!(sign("", ""), "sig:af63b74c8601adad");
    assert_eq!(sign("did:agent:test", "action.executed:patch=1"), "sig:4e9172d71f1ce0d4");
}

#[test]
fn signatures_have_fixed_shape() {
    for (d, p) in [("x", "y"), ("did:é", "ünïcode"), ("", "")] {
        let s = sign(d, p);
        assert_eq!(s.len(), 20);
        assert!(s.starts_with("sig:"));
        assert!(s[4..].chars().all(|c| c.is_ascii_hexdigit() && !c.is_ascii_uppercase()));
    }
}

#[test]
fn verify_accepts_only_the_matching_signature() {
    let s = sign("did:a", "payload");
    assert!(verify("did:a", "payload", &s));
    assert!(!verify("did:b", "payload", &s));
    assert!(!verify("did:a", "payload2", &s));
    assert!(!verify("did:a", "payload", "sig:0000000000000000"));
}
