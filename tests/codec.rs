use std::collections::BTreeMap;

use robotdreams::codec::{decode, encode, DecodeError};
use robotdreams::message::MessageType;
use robotdreams::session::BUFFER_SIZE;
use serde_cbor::Value;

fn all_kinds() -> Vec<MessageType> {
    vec![
        MessageType::File("report.txt".to_string(), b"hello".to_vec()),
        MessageType::File(String::new(), Vec::new()),
        MessageType::Image("rust.png".to_string(), (0u8..=255).collect()),
        MessageType::Image(String::new(), Vec::new()),
        MessageType::Text("Hello, server!".to_string()),
        MessageType::Text(String::new()),
        MessageType::Text("žluťoučký kůň 🐎".to_string()),
        MessageType::Login("user".to_string(), "password".to_string()),
        MessageType::Login(String::new(), String::new()),
        MessageType::LoginResponse(true),
        MessageType::LoginResponse(false),
        MessageType::Quit,
    ]
}

fn keyed(key: &str, value: Value) -> Value {
    let mut map = BTreeMap::new();
    map.insert(Value::Text(key.to_string()), value);
    Value::Map(map)
}

fn bytes_value(b: &[u8]) -> Value {
    Value::Array(b.iter().map(|x| Value::Integer(*x as i128)).collect())
}

fn as_value(m: &MessageType) -> Value {
    match m {
        MessageType::File(name, content) => {
            keyed("File", Value::Array(vec![Value::Text(name.clone()), bytes_value(content)]))
        }
        MessageType::Image(name, content) => {
            keyed("Image", Value::Array(vec![Value::Text(name.clone()), bytes_value(content)]))
        }
        MessageType::Text(body) => keyed("Text", Value::Text(body.clone())),
        MessageType::Login(user, password) => keyed(
            "Login",
            Value::Array(vec![Value::Text(user.clone()), Value::Text(password.clone())]),
        ),
        MessageType::LoginResponse(ok) => keyed("LoginResponse", Value::Bool(*ok)),
        MessageType::Quit => Value::Text("Quit".to_string()),
    }
}

#[test]
fn round_trip_every_kind() {
    for m in all_kinds() {
        assert_eq!(decode(&encode(&m)), Ok(m.clone()));
    }
}

#[test]
fn encoding_matches_cbor_library() {
    for m in all_kinds() {
        let expected = serde_cbor::to_vec(&as_value(&m)).unwrap();
        assert_eq!(encode(&m), expected);
    }
}

#[test]
fn decodes_what_cbor_library_writes() {
    for m in all_kinds() {
        let bytes = serde_cbor::to_vec(&as_value(&m)).unwrap();
        assert_eq!(decode(&bytes), Ok(m));
    }
}

#[test]
fn quit_bytes() {
    assert_eq!(encode(&MessageType::Quit), vec![0x64, b'Q', b'u', b'i', b't']);
}

#[test]
fn text_bytes() {
    let expected = vec![0xa1, 0x64, b'T', b'e', b'x', b't', 0x62, b'h', b'i'];
    assert_eq!(encode(&MessageType::Text("hi".to_string())), expected);
}

#[test]
fn login_response_bytes() {
    let mut expected = vec![0xa1, 0x6d];
    expected.extend_from_slice(b"LoginResponse");
    expected.push(0xf5);
    assert_eq!(encode(&MessageType::LoginResponse(true)), expected);
}

#[test]
fn file_bytes_with_large_items() {
    let m = MessageType::File("a".to_string(), vec![5, 24, 200]);
    let expected = vec![
        0xa1, 0x64, b'F', b'i', b'l', b'e', 0x82, 0x61, b'a', 0x83, 0x05, 0x18, 24, 0x18, 200,
    ];
    assert_eq!(encode(&m), expected);
}

#[test]
fn long_content_uses_wide_heads() {
    let content: Vec<u8> = (0..70000u32).map(|i| (i % 251) as u8).collect();
    let m = MessageType::Image("big.png".to_string(), content);
    let bytes = encode(&m);
    assert_eq!(bytes, serde_cbor::to_vec(&as_value(&m)).unwrap());
    assert_eq!(decode(&bytes), Ok(m));
}

#[test]
fn empty_input_is_rejected() {
    assert_eq!(decode(&[]), Err(DecodeError));
}

#[test]
fn trailing_bytes_are_rejected() {
    let mut bytes = encode(&MessageType::Quit);
    bytes.push(0);
    assert_eq!(decode(&bytes), Err(DecodeError));
}

#[test]
fn unknown_name_is_rejected() {
    assert_eq!(decode(&[0x64, b'S', b't', b'o', b'p']), Err(DecodeError));
}

#[test]
fn overlong_head_is_rejected() {
    assert_eq!(decode(&[0x78, 0x04, b'Q', b'u', b'i', b't']), Err(DecodeError));
}

#[test]
fn invalid_utf8_is_rejected() {
    assert_eq!(decode(&[0xa1, 0x64, b'T', b'e', b'x', b't', 0x61, 0xff]), Err(DecodeError));
}

#[test]
fn zeroed_buffer_is_rejected() {
    assert_eq!(decode(&vec![0u8; BUFFER_SIZE]), Err(DecodeError));
}

#[test]
fn oversized_message_is_not_decoded_from_one_buffer() {
    let m = MessageType::File("big.txt".to_string(), vec![b'x'; BUFFER_SIZE]);
    let bytes = encode(&m);
    assert!(bytes.len() > BUFFER_SIZE);
    assert_eq!(decode(&bytes[..BUFFER_SIZE]), Err(DecodeError));
    assert_eq!(decode(&bytes), Ok(m));
}

#[test]
fn every_proper_prefix_is_rejected() {
    let bytes = encode(&MessageType::Login("user".to_string(), "password".to_string()));
    for k in 0..bytes.len() {
        assert_eq!(decode(&bytes[..k]), Err(DecodeError));
    }
}
