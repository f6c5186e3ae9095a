use relbundle::{
    BundleError, BundledAggregations, PduEvent, add_bundled_aggregations_to_pdu,
    add_bundled_aggregations_to_unsigned, find_most_recent_replacement, get_bundled_aggregations,
    is_valid_replacement_event, merge_relations,
};
use serde_json::Value as JsonValue;

fn json(text: &str) -> JsonValue {
    serde_json::from_str(text).unwrap()
}

fn create_test_pdu(unsigned_content: Option<JsonValue>) -> PduEvent {
    PduEvent {
        event_id: "$test:example.com".to_owned(),
        room_id: "!test:example.com".to_owned(),
        sender: "@test:example.com".to_owned(),
        origin_server_ts: 1_234_567_890,
        kind: "m.room.message".to_owned(),
        content: json(r#"{"msgtype": "m.text", "body": "test"}"#),
        state_key: None,
        redacted: false,
        unsigned: unsigned_content.map(|content| serde_json::to_string(&content).unwrap()),
    }
}

fn create_bundled_aggregations() -> JsonValue {
    json(
        r#"{
            "m.replace": {
                "event_id": "$replace:example.com",
                "origin_server_ts": 1234567890,
                "sender": "@replacer:example.com"
            },
            "m.reference": {
                "count": 5,
                "chunk": [
                    "$ref1:example.com",
                    "$ref2:example.com"
                ]
            }
        }"#,
    )
}

fn unsigned_of(pdu: &PduEvent) -> JsonValue {
    serde_json::from_str(pdu.unsigned.as_ref().unwrap()).unwrap()
}

#[test]
fn test_add_bundled_aggregations_to_unsigned_no_existing_unsigned() {
    let mut pdu = create_test_pdu(None);
    let aggregations = create_bundled_aggregations();

    let result = add_bundled_aggregations_to_unsigned(&mut pdu, aggregations.clone());
    assert!(result.is_ok(), "Should succeed when no unsigned field exists");

    assert!(pdu.unsigned.is_some(), "Unsigned field should be created");

    let unsigned = unsigned_of(&pdu);

    assert!(unsigned.get("m.relations").is_some(), "m.relations should exist");
    assert_eq!(unsigned["m.relations"], aggregations, "Relations should match the aggregations");
}

#[test]
fn test_add_bundled_aggregations_to_unsigned_overwrite_same_relation_type() {
    let existing_unsigned = json(
        r#"{
            "m.relations": {
                "m.replace": {
                    "event_id": "$old_replace:example.com",
                    "origin_server_ts": 1111111111,
                    "sender": "@old_replacer:example.com"
                }
            }
        }"#,
    );

    let mut pdu = create_test_pdu(Some(existing_unsigned));
    let new_aggregations = create_bundled_aggregations();

    let result = add_bundled_aggregations_to_unsigned(&mut pdu, new_aggregations.clone());
    assert!(result.is_ok(), "Should succeed when overwriting same relation type");

    let unsigned = unsigned_of(&pdu);
    let relations = &unsigned["m.relations"];

    assert_eq!(
        relations["m.replace"], new_aggregations["m.replace"],
        "m.replace should be updated"
    );
    assert_eq!(
        relations["m.replace"]["event_id"], "$replace:example.com",
        "Should have new event_id"
    );

    assert!(relations.get("m.reference").is_some(), "New m.reference should be added");
}

#[test]
fn test_add_bundled_aggregations_to_unsigned_preserve_other_unsigned_fields() {
    let existing_unsigned = json(
        r#"{
            "age": 98765,
            "prev_content": {"msgtype": "m.text", "body": "old message"},
            "redacted_because": {"event_id": "$redaction:example.com"},
            "m.relations": {
                "m.annotation": {"count": 1}
            }
        }"#,
    );

    let mut pdu = create_test_pdu(Some(existing_unsigned));
    let new_aggregations = json(r#"{"m.replace": {"event_id": "$new:example.com"}}"#);

    let result = add_bundled_aggregations_to_unsigned(&mut pdu, new_aggregations);
    assert!(result.is_ok(), "Should succeed while preserving other fields");

    let unsigned = unsigned_of(&pdu);

    assert_eq!(unsigned["age"], 98765, "age should be preserved");
    assert!(unsigned.get("prev_content").is_some(), "prev_content should be preserved");
    assert!(unsigned.get("redacted_because").is_some(), "redacted_because should be preserved");

    let relations = &unsigned["m.relations"];
    assert!(relations.get("m.annotation").is_some(), "Existing m.annotation should be preserved");
    assert!(relations.get("m.replace").is_some(), "New m.replace should be added");
}

#[test]
fn test_add_bundled_aggregations_to_unsigned_invalid_existing_unsigned() {
    let mut pdu = create_test_pdu(None);
    pdu.unsigned = Some(serde_json::to_string(&"invalid json").unwrap());

    let aggregations = create_bundled_aggregations();
    let result = add_bundled_aggregations_to_unsigned(&mut pdu, aggregations);

    assert!(result.is_err(), "fails when existing unsigned is invalid");
}

fn create_test_event(
    event_id: &str,
    room_id: &str,
    sender: &str,
    event_type: &str,
    content: &JsonValue,
    state_key: Option<&str>,
) -> PduEvent {
    PduEvent {
        event_id: event_id.to_owned(),
        room_id: room_id.to_owned(),
        sender: sender.to_owned(),
        origin_server_ts: 1_234_567_890,
        kind: event_type.to_owned(),
        content: content.clone(),
        state_key: state_key.map(Into::into),
        redacted: false,
        unsigned: None,
    }
}

#[test]
fn test_valid_replacement_event() {
    let original = create_test_event(
        "$original:example.com",
        "!room:example.com",
        "@user:example.com",
        "m.room.message",
        &json(r#"{"msgtype": "m.text", "body": "original message"}"#),
        None,
    );
    let replacement = create_test_event(
        "$replacement:example.com",
        "!room:example.com",
        "@user:example.com",
        "m.room.message",
        &json(
            r#"{
                "msgtype": "m.text",
                "body": "* edited message",
                "m.new_content": {"msgtype": "m.text", "body": "edited message"},
                "m.relates_to": {"rel_type": "m.replace", "event_id": "$original:example.com"}
            }"#,
        ),
        None,
    );

    let result = is_valid_replacement_event(&original, &replacement);
    assert!(result.is_ok(), "Validation should succeed");
    assert!(result.unwrap(), "Valid replacement event should be accepted");
}

#[test]
fn test_replacement_event_different_room() {
    let original = create_test_event(
        "$original:example.com",
        "!room1:example.com",
        "@user:example.com",
        "m.room.message",
        &json(r#"{"msgtype": "m.text", "body": "original message"}"#),
        None,
    );
    let replacement = create_test_event(
        "$replacement:example.com",
        "!room2:example.com",
        "@user:example.com",
        "m.room.message",
        &json(
            r#"{
                "msgtype": "m.text",
                "body": "* edited message",
                "m.new_content": {"msgtype": "m.text", "body": "edited message"}
            }"#,
        ),
        None,
    );

    let result = is_valid_replacement_event(&original, &replacement);
    assert!(result.is_ok(), "Validation should succeed");
    assert!(!result.unwrap(), "Different room ID should be rejected");
}

#[test]
fn test_replacement_event_different_sender() {
    let original = create_test_event(
        "$original:example.com",
        "!room:example.com",
        "@user1:example.com",
        "m.room.message",
        &json(r#"{"msgtype": "m.text", "body": "original message"}"#),
        None,
    );
    let replacement = create_test_event(
        "$replacement:example.com",
        "!room:example.com",
        "@user2:example.com",
        "m.room.message",
        &json(
            r#"{
                "msgtype": "m.text",
                "body": "* edited message",
                "m.new_content": {"msgtype": "m.text", "body": "edited message"}
            }"#,
        ),
        None,
    );

    let result = is_valid_replacement_event(&original, &replacement);
    assert!(result.is_ok(), "Validation should succeed");
    assert!(!result.unwrap(), "Different sender should be rejected");
}

#[test]
fn test_replacement_event_different_type() {
    let original = create_test_event(
        "$original:example.com",
        "!room:example.com",
        "@user:example.com",
        "m.room.message",
        &json(r#"{"msgtype": "m.text", "body": "original message"}"#),
        None,
    );
    let replacement = create_test_event(
        "$replacement:example.com",
        "!room:example.com",
        "@user:example.com",
        "m.room.topic",
        &json(r#"{"topic": "new topic", "m.new_content": {"topic": "new topic"}}"#),
        None,
    );

    let result = is_valid_replacement_event(&original, &replacement);
    assert!(result.is_ok(), "Validation should succeed");
    assert!(!result.unwrap(), "Different event type should be rejected");
}

#[test]
fn test_replacement_event_with_state_key() {
    let original = create_test_event(
        "$original:example.com",
        "!room:example.com",
        "@user:example.com",
        "m.room.name",
        &json(r#"{"name": "room name"}"#),
        Some(""),
    );
    let replacement = create_test_event(
        "$replacement:example.com",
        "!room:example.com",
        "@user:example.com",
        "m.room.name",
        &json(r#"{"name": "new room name", "m.new_content": {"name": "new room name"}}"#),
        None,
    );

    let result = is_valid_replacement_event(&original, &replacement);
    assert!(result.is_ok(), "Validation should succeed");
    assert!(!result.unwrap(), "Event with state key should be rejected");
}

#[test]
fn test_replacement_event_original_is_replacement() {
    let original = create_test_event(
        "$original:example.com",
        "!room:example.com",
        "@user:example.com",
        "m.room.message",
        &json(
            r#"{
                "msgtype": "m.text",
                "body": "* edited message",
                "m.relates_to": {"rel_type": "m.replace", "event_id": "$some_other:example.com"}
            }"#,
        ),
        None,
    );
    let replacement = create_test_event(
        "$replacement:example.com",
        "!room:example.com",
        "@user:example.com",
        "m.room.message",
        &json(
            r#"{
                "msgtype": "m.text",
                "body": "* edited again",
                "m.new_content": {"msgtype": "m.text", "body": "edited again"}
            }"#,
        ),
        None,
    );

    let result = is_valid_replacement_event(&original, &replacement);
    assert!(result.is_ok(), "Validation should succeed");
    assert!(!result.unwrap(), "Replacement of replacement should be rejected");
}

#[test]
fn test_replacement_event_missing_new_content() {
    let original = create_test_event(
        "$original:example.com",
        "!room:example.com",
        "@user:example.com",
        "m.room.message",
        &json(r#"{"msgtype": "m.text", "body": "original message"}"#),
        None,
    );
    let replacement = create_test_event(
        "$replacement:example.com",
        "!room:example.com",
        "@user:example.com",
        "m.room.message",
        &json(r#"{"msgtype": "m.text", "body": "* edited message"}"#),
        None,
    );

    let result = is_valid_replacement_event(&original, &replacement);
    assert!(result.is_ok(), "Validation should succeed");
    assert!(!result.unwrap(), "Missing m.new_content should be rejected");
}

#[test]
fn test_replacement_event_encrypted_missing_new_content_is_valid() {
    let original = create_test_event(
        "$original:example.com",
        "!room:example.com",
        "@user:example.com",
        "m.room.encrypted",
        &json(
            r#"{
                "algorithm": "m.megolm.v1.aes-sha2",
                "ciphertext": "encrypted_payload_base64",
                "sender_key": "sender_key",
                "session_id": "session_id"
            }"#,
        ),
        None,
    );
    let replacement = create_test_event(
        "$replacement:example.com",
        "!room:example.com",
        "@user:example.com",
        "m.room.encrypted",
        &json(
            r#"{
                "algorithm": "m.megolm.v1.aes-sha2",
                "ciphertext": "encrypted_replacement_payload_base64",
                "sender_key": "sender_key",
                "session_id": "session_id",
                "m.relates_to": {"rel_type": "m.replace", "event_id": "$original:example.com"}
            }"#,
        ),
        None,
    );

    let result = is_valid_replacement_event(&original, &replacement);
    assert!(result.is_ok(), "Validation should succeed");
    assert!(
        result.unwrap(),
        "Encrypted replacement without cleartext m.new_content should be accepted"
    );
}
