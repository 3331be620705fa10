use signal_hive::auth::{
    api_key_from_uuid, auth_enabled, bearer_token, env_file_content, generate_api_key, hash_token,
    is_public_path, request_allowed, verify_token,
};

const ABC_HASH: &str = "ba7816bf8f01cfea414140de5dae2223b00361a396177a9cb410ff61f20015ad";

#[test]
fn hash_token_is_hex_sha256() {
    assert_eq!(hash_token("abc"), ABC_HASH);
    assert_eq!(
        hash_token(""),
        "e3b0c44298fc1c149afbf4c8996fb92427ae41e4649b934ca495991b7852b855"
    );
}

#[test]
fn auth_is_enabled_only_with_a_stored_hash() {
    assert!(!auth_enabled(""));
    assert!(auth_enabled(ABC_HASH));
}

#[test]
fn verify_token_accepts_only_the_matching_key() {
    assert!(verify_token("abc", ABC_HASH));
    assert!(!verify_token("abd", ABC_HASH));
    assert!(!verify_token("abc", "short"));
    assert!(verify_token("anything", ""));
}

#[test]
fn generated_key_passes_under_its_own_hash() {
    let key = generate_api_key();
    assert!(key.starts_with("sh-"));
    assert_eq!(key.len(), 35);
    assert!(key[3..].chars().all(|c| c.is_ascii_hexdigit() && !c.is_ascii_uppercase()));
    let stored = hash_token(&key);
    assert_eq!(stored.len(), 64);
    assert!(stored.chars().all(|c| c.is_ascii_hexdigit() && !c.is_ascii_uppercase()));
    assert!(auth_enabled(&stored));
    assert!(verify_token(&key, &stored));
    assert!(request_allowed(&stored, "/scan", &key));
}

#[test]
fn api_key_drops_uuid_hyphens() {
    assert_eq!(
        api_key_from_uuid("124d10c2-ef5b-4584-a315-f137c3237624"),
        "sh-124d10c2ef5b4584a315f137c3237624"
    );
}

#[test]
fn public_routes_are_listed() {
    assert!(is_public_path("/health"));
    assert!(is_public_path("/startup/checks"));
    assert!(!is_public_path("/scan"));
    assert!(!is_public_path("/health/"));
}

#[test]
fn bearer_prefix_and_spaces_are_removed() {
    assert_eq!(bearer_token(Some("Bearer abc ")), "abc");
    assert_eq!(bearer_token(Some("Bearer Bearer  xyz")), "xyz");
    assert_eq!(bearer_token(Some("  key")), "key");
    assert_eq!(bearer_token(None), "");
}

#[test]
fn request_gating_follows_the_stored_hash() {
    assert!(request_allowed("", "/scan", ""));
    assert!(request_allowed(ABC_HASH, "/health", ""));
    assert!(!request_allowed(ABC_HASH, "/scan", ""));
    assert!(!request_allowed(ABC_HASH, "/scan", "abd"));
    assert!(request_allowed(ABC_HASH, "/scan", "abc"));
}

#[test]
fn env_file_replaces_the_key_line() {
    assert_eq!(env_file_content("", "h1"), "SIGNAL_API_KEY_HASH=h1\n");
    assert_eq!(
        env_file_content("PORT=1\nSIGNAL_API_KEY_HASH=old\nRUST_LOG=info\n", "h2"),
        "PORT=1\nRUST_LOG=info\nSIGNAL_API_KEY_HASH=h2\n"
    );
    assert_eq!(
        env_file_content("SIGNAL_API_KEY_HASH=old\n  \n", "h3"),
        "SIGNAL_API_KEY_HASH=h3\n"
    );
}
