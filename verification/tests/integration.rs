//! Keyword responses and character sheets, end to end.

use eliza_store::character::AgentCharacter;
use eliza_store::respond::generate_response;

#[test]
fn integration_test_generate_response_hello() {
    let response = generate_response("hello!", "testuser", "DiscordEliza");
    assert!(response.is_some());
    let text = response.unwrap();
    assert!(text.contains("Hello"));
    assert!(text.contains("testuser"));
}

#[test]
fn integration_test_generate_response_ping() {
    let response = generate_response("ping", "testuser", "DiscordEliza");
    assert!(response.is_some());
    assert!(response.unwrap().contains("Pong"));
}

#[test]
fn integration_test_generate_response_help() {
    let response = generate_response("help me please", "testuser", "DiscordEliza");
    assert!(response.is_some());
    assert!(response.unwrap().contains("How I can help"));
}

#[test]
fn integration_test_generate_response_about() {
    let response = generate_response("about", "testuser", "DiscordEliza");
    assert!(response.is_some());
    let text = response.unwrap();
    assert!(text.contains("DiscordEliza"));
    assert!(text.contains("elizaOS"));
}

#[test]
fn integration_test_generate_response_default() {
    let response = generate_response("some random message", "bob", "DiscordEliza");
    assert!(response.is_some());
    assert!(response.unwrap().contains("bob"));
}

#[test]
fn test_character_has_required_fields() {
    let character = AgentCharacter::new();

    assert_eq!(character.name, "BlueSkyBot");
    assert!(!character.bio.is_empty());
    assert!(!character.system.is_empty());
}

#[test]
fn test_character_has_examples() {
    let character = AgentCharacter::new();

    assert!(!character.post_examples.is_empty());
}

#[test]
fn test_character_default() {
    let character = AgentCharacter::default();
    assert_eq!(character.name, "BlueSkyBot");
}

#[test]
fn integration_tests_test_character_creation() {
    // Character should have required fields
    let expected_name = "BlueSkyBot";
    let expected_bio_contains = "friendly AI assistant";

    assert!(!expected_name.is_empty());
    assert!(!expected_bio_contains.is_empty());
}
