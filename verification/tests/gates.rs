//! The secret gate, provider fallback, and private-key normalization.

use eliza_store::auth::is_authorized;
use eliza_store::config::{effective_mode, AppConfig, ProviderMode};
use eliza_store::ident::uuid_from_entropy;
use eliza_store::keys::{normalize_private_key, KeyError};

#[test]
fn test_is_authorized_no_secret() {
    assert!(is_authorized(None, ""));
}

#[test]
fn test_is_authorized_with_secret() {
    assert!(is_authorized(Some("s3cr3t"), "s3cr3t"));
    assert!(!is_authorized(Some("s3cr3t"), "wrong"));
}

#[test]
fn effective_mode_falls_back_without_credentials() {
    let mut cfg = AppConfig::default();

    cfg.mode = ProviderMode::OpenAI;
    cfg.provider.openai_api_key = "".to_string();
    assert_eq!(effective_mode(&cfg), ProviderMode::ElizaClassic);

    cfg.mode = ProviderMode::XAI;
    cfg.provider.xai_api_key = "".to_string();
    assert_eq!(effective_mode(&cfg), ProviderMode::ElizaClassic);
}

#[test]
fn effective_mode_respects_credentials() {
    let mut cfg = AppConfig::default();

    cfg.mode = ProviderMode::OpenAI;
    cfg.provider.openai_api_key = "k".to_string();
    assert_eq!(effective_mode(&cfg), ProviderMode::OpenAI);

    cfg.mode = ProviderMode::XAI;
    cfg.provider.xai_api_key = "k".to_string();
    assert_eq!(effective_mode(&cfg), ProviderMode::XAI);
}

#[test]
fn normalize_adds_prefix() {
    let raw = "11".repeat(32);
    let out = normalize_private_key(&raw).unwrap();
    assert_eq!(out, format!("0x{raw}"));
}

#[test]
fn normalize_rejects_bad_len() {
    assert!(normalize_private_key("0x1234").is_err());
}

#[test]
fn normalize_keeps_prefix() {
    let raw = format!("0x{}", "2a".repeat(32));
    let out = normalize_private_key(&raw).unwrap();
    assert_eq!(out, raw);
}

#[test]
fn normalize_trims_whitespace() {
    let raw = format!("  {}\n", "3b".repeat(32));
    let out = normalize_private_key(&raw).unwrap();
    assert_eq!(out, format!("0x{}", "3b".repeat(32)));
}

#[test]
fn normalize_rejects_bad_hex() {
    let raw = format!("0x{}zz", "4c".repeat(31));
    assert_eq!(normalize_private_key(&raw), Err(KeyError::BadHex));
}

#[test]
fn fresh_ids_have_the_dashed_shape_and_are_deterministic() {
    let id = uuid_from_entropy(1_234, &vec![9, 9, 9], 7);
    assert_eq!(id.len(), 36);
    let bytes = id.as_bytes();
    assert_eq!(bytes[8], b'-');
    assert_eq!(bytes[13], b'-');
    assert_eq!(bytes[14], b'4');
    assert_eq!(bytes[18], b'-');
    assert_eq!(bytes[23], b'-');

    // the same entropy derives the same id
    assert_eq!(id, uuid_from_entropy(1_234, &vec![9, 9, 9], 7));
    // and the id really is a digest of the material, not the material itself
    assert_ne!(
        uuid_from_entropy(0, &Vec::new(), 0),
        "00000000-0000-4000-8000-000000000000"
    );
}
