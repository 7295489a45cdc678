use xcvm_gateway::pfm::{from_json, to_json, Forward, IbcSubstrate};

#[test]
fn ibc_memo_serializes_canonically() {
    let memo = Forward::new_ibc_memo(
        "cosmos1receiver".to_string(),
        "transfer".to_string(),
        "channel-5".to_string(),
        "10m".to_string(),
        3,
    );
    let wire = to_json(&memo);
    assert_eq!(
        wire,
        "{\"receiver\":\"cosmos1receiver\",\"port\":\"transfer\",\"channel\":\"channel-5\",\
         \"timeout\":\"10m\",\"retries\":3}"
    );
}

#[test]
fn memo_three_byte_forms_agree() {
    // Build with retries=3, channel="channel-5", timeout="10m", no
    // next hop; serialize, deserialize, re-serialize: all three byte
    // forms are equal.
    let memo = Forward::new_ibc_memo(
        "cosmos1receiver".to_string(),
        "transfer".to_string(),
        "channel-5".to_string(),
        "10m".to_string(),
        3,
    );
    let first = to_json(&memo);
    let parsed = from_json(first.as_str()).unwrap();
    let second = to_json(&parsed);
    assert_eq!(first, second);
    let reparsed = from_json(second.as_str()).unwrap();
    let third = to_json(&reparsed);
    assert_eq!(second, third);
}

#[test]
fn nested_memo_round_trips_structurally() {
    let inner = Forward::new_xcm_memo("5EYCAe".to_string(), IbcSubstrate::new(Some(2087)));
    let mut outer = Forward::new_ibc_memo(
        "cosmos1hop".to_string(),
        "transfer".to_string(),
        "channel-15".to_string(),
        "5m".to_string(),
        2,
    );
    outer.next = Some(Box::new(inner));
    let wire = to_json(&outer);
    let parsed = from_json(wire.as_str()).unwrap();
    assert_eq!(parsed, outer);
    assert_eq!(to_json(&parsed), wire);
}

#[test]
fn xcm_memo_with_root_routing_round_trips() {
    // An absent parent-chain id means the root chain.
    let memo = Forward::new_xcm_memo("5EYCAe".to_string(), IbcSubstrate::new(None));
    let wire = to_json(&memo);
    assert_eq!(wire, "{\"receiver\":\"5EYCAe\",\"substrate\":{}}");
    let parsed = from_json(wire.as_str()).unwrap();
    assert_eq!(parsed, memo);
}

#[test]
fn malformed_memo_is_rejected() {
    assert!(from_json("").is_none());
    assert!(from_json("{}").is_none());
    assert!(from_json("{\"receiver\":\"a\"").is_none());
    assert!(from_json("{\"receiver\":\"a\"}x").is_none());
    assert!(from_json("{\"receiver\":\"a\",\"retries\":007}").is_none());
}

#[test]
fn depth_three_chain_round_trips() {
    let hop3 = Forward::new_xcm_memo("root".to_string(), IbcSubstrate::new(None));
    let mut hop2 = Forward::new_ibc_memo(
        "middle".to_string(),
        "transfer".to_string(),
        "channel-2".to_string(),
        "1m".to_string(),
        1,
    );
    hop2.next = Some(Box::new(hop3));
    let mut hop1 = Forward::new_ibc_memo(
        "entry".to_string(),
        "transfer".to_string(),
        "channel-1".to_string(),
        "2m".to_string(),
        0,
    );
    hop1.next = Some(Box::new(hop2));
    let wire = to_json(&hop1);
    let parsed = from_json(wire.as_str()).unwrap();
    assert_eq!(parsed, hop1);
    assert_eq!(to_json(&parsed), wire);
}

#[test]
fn texts_with_quotes_backslashes_and_controls_round_trip() {
    // Escaping covers the whole character set: quote, backslash and
    // control characters travel escaped and come back unchanged.
    let memo = Forward::new_ibc_memo(
        "rec\"v\\r".to_string(),
        "tra\nsfer".to_string(),
        "chan\u{1}nel".to_string(),
        "10\tm".to_string(),
        1,
    );
    let wire = to_json(&memo);
    assert_eq!(
        wire,
        "{\"receiver\":\"rec\\\"v\\\\r\",\"port\":\"tra\\u000asfer\",\
         \"channel\":\"chan\\u0001nel\",\"timeout\":\"10\\u0009m\",\"retries\":1}"
    );
    let parsed = from_json(wire.as_str()).unwrap();
    assert_eq!(parsed, memo);
    assert_eq!(to_json(&parsed), wire);
}

#[test]
fn non_canonical_escapes_are_rejected() {
    // A raw control character, a stray escape, and an over-range
    // \u escape are all refused.
    assert!(from_json("{\"receiver\":\"a\nb\"}").is_none());
    assert!(from_json("{\"receiver\":\"a\\x\"}").is_none());
    assert!(from_json("{\"receiver\":\"a\\u0041\"}").is_none());
    // The canonical escape of the same text parses.
    let ok = from_json("{\"receiver\":\"a\\u000ab\"}").unwrap();
    assert_eq!(ok.receiver, "a\nb");
}
