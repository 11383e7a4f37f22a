use std::str::FromStr;

use iggy::commands::GetStream;
use iggy::identifier::Identifier;

#[test]
fn should_be_serialized_as_bytes() {
    let command = GetStream {
        stream_id: Identifier::numeric(1).unwrap(),
    };

    let bytes = command.as_bytes();
    let stream_id = Identifier::from_bytes(&bytes).unwrap();

    assert!(!bytes.is_empty());
    assert_eq!(stream_id, command.stream_id);
}

#[test]
fn should_be_deserialized_from_bytes() {
    let stream_id = Identifier::numeric(1).unwrap();
    let bytes = stream_id.as_bytes();
    let command = GetStream::from_bytes(&bytes);
    assert!(command.is_ok());

    let command = command.unwrap();
    assert_eq!(command.stream_id, stream_id);
}

#[test]
fn should_be_read_from_string() {
    let stream_id = Identifier::numeric(1).unwrap();
    let input = stream_id.as_string();
    let command = GetStream::from_str(&input);
    assert!(command.is_ok());

    let command = command.unwrap();
    assert_eq!(command.stream_id, stream_id);
}
