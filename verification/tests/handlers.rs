//! Keyword response behavior, exercised the way the chat handler calls it.

use eliza_store::respond::generate_response;

#[test]
fn handlers_test_generate_response_hello() {
    let response = generate_response("hello there!", "testuser", "DiscordEliza");
    assert!(response.is_some());
    assert!(response.unwrap().contains("Hello, testuser"));
}

#[test]
fn handlers_test_generate_response_ping() {
    let response = generate_response("ping", "testuser", "DiscordEliza");
    assert!(response.is_some());
    assert!(response.unwrap().contains("Pong"));
}

#[test]
fn handlers_test_generate_response_help() {
    let response = generate_response("can you help me?", "testuser", "DiscordEliza");
    assert!(response.is_some());
    assert!(response.unwrap().contains("How I can help"));
}

#[test]
fn handlers_test_generate_response_about() {
    let response = generate_response("who are you?", "testuser", "DiscordEliza");
    assert!(response.is_some());
    assert!(response.unwrap().contains("DiscordEliza"));
}

#[test]
fn handlers_test_generate_response_default() {
    let response = generate_response("random message", "testuser", "DiscordEliza");
    assert!(response.is_some());
    assert!(response.unwrap().contains("testuser"));
}
