use etchdb::frame::{Command, Frame};
use etchdb::json::Json;
use etchdb::tcp::{decode_frame, encode_frame, frame_length, TCPError};

fn s(t: &str) -> String {
    t.to_string()
}

fn request(command: &str, table: &str) -> Json {
    Json::Object(vec![
        (s("command"), Json::Str(s(command))),
        (s("table"), Json::Str(s(table))),
        (s("data"), Json::Object(vec![(s("name"), Json::Str(s("Ada")))])),
    ])
}

#[test]
fn decode_reads_announced_payload() {
    let bytes = vec![42u8, 0, 3, b'a', b'b', b'c', b'z'];
    assert_eq!(decode_frame(&bytes), Ok(vec![b'a', b'b', b'c']));
}

#[test]
fn decode_short_header_fails() {
    assert_eq!(decode_frame(&[42u8, 0]), Err(TCPError::FailedReadHeader));
    assert_eq!(frame_length(&[]), Err(TCPError::FailedReadHeader));
}

#[test]
fn decode_bad_start_byte_fails() {
    assert_eq!(decode_frame(&[41u8, 0, 0]), Err(TCPError::InvalidStart));
}

#[test]
fn decode_truncated_payload_fails() {
    let mut bytes = vec![42u8, 0, 10];
    bytes.extend_from_slice(&[1, 2, 3, 4, 5]);
    assert_eq!(decode_frame(&bytes), Err(TCPError::MalformedPacket));
}

#[test]
fn frame_length_is_big_endian() {
    assert_eq!(frame_length(&[42u8, 1, 2]), Ok(258));
    assert_eq!(frame_length(&[42u8, 255, 255]), Ok(65535));
}

#[test]
fn encode_prepends_header() {
    let payload = vec![b'x'; 300];
    let f = encode_frame(&payload).unwrap();
    assert_eq!(&f[..3], &[42u8, 1, 44]);
    assert_eq!(&f[3..], &payload[..]);
    assert_eq!(decode_frame(&f), Ok(payload));
}

#[test]
fn encode_largest_payload() {
    let payload = vec![7u8; 65535];
    let f = encode_frame(&payload).unwrap();
    assert_eq!(f.len(), 65538);
    assert_eq!(&f[..3], &[42u8, 255, 255]);
}

#[test]
fn encode_too_large_fails() {
    let payload = vec![0u8; 65536];
    assert_eq!(encode_frame(&payload), Err(TCPError::ResponseTooLarge));
}

#[test]
fn encode_empty_payload() {
    assert_eq!(encode_frame(&[]), Ok(vec![42u8, 0, 0]));
}

#[test]
fn command_names() {
    assert_eq!(Command::from_value(&Json::Str(s("insert"))), Ok(Command::Insert));
    assert_eq!(Command::from_value(&Json::Str(s("read"))), Ok(Command::Read));
    assert_eq!(Command::from_value(&Json::Str(s("update"))), Ok(Command::Update));
    assert_eq!(Command::from_value(&Json::Str(s("delete"))), Ok(Command::Delete));
    assert_eq!(Command::from_value(&Json::Str(s("create_table"))), Ok(Command::CreateTable));
    assert_eq!(Command::from_value(&Json::Str(s("drop_table"))), Ok(Command::DropTable));
    assert_eq!(
        Command::from_value(&Json::Str(s("Insert"))),
        Err(TCPError::ParseFrame(s("Command was not a valid value")))
    );
    assert_eq!(
        Command::from_value(&Json::Number(s("1"))),
        Err(TCPError::ParseFrame(s("Command was not a string")))
    );
}

#[test]
fn frame_from_request() {
    let f = Frame::from_json(request("insert", "users")).unwrap();
    assert_eq!(f.command, Command::Insert);
    assert_eq!(f.table, "users");
    assert_eq!(f.data, vec![(s("name"), Json::Str(s("Ada")))]);
}

#[test]
fn frame_with_extra_member_fails() {
    let mut v = match request("read", "users") {
        Json::Object(e) => e,
        _ => unreachable!(),
    };
    v.push((s("extra"), Json::Null));
    assert!(matches!(Frame::from_json(Json::Object(v)), Err(TCPError::ParseFrame(_))));
}

#[test]
fn frame_with_wrong_types_fails() {
    let missing = Json::Object(vec![
        (s("command"), Json::Str(s("read"))),
        (s("table"), Json::Str(s("users"))),
    ]);
    assert!(matches!(Frame::from_json(missing), Err(TCPError::ParseFrame(_))));
    let bad_data = Json::Object(vec![
        (s("command"), Json::Str(s("read"))),
        (s("table"), Json::Str(s("users"))),
        (s("data"), Json::Array(vec![])),
    ]);
    assert!(matches!(Frame::from_json(bad_data), Err(TCPError::ParseFrame(_))));
    let bad_table = Json::Object(vec![
        (s("command"), Json::Str(s("read"))),
        (s("table"), Json::Number(s("3"))),
        (s("data"), Json::Object(vec![])),
    ]);
    assert!(matches!(Frame::from_json(bad_table), Err(TCPError::ParseFrame(_))));
    assert!(matches!(Frame::from_json(Json::Array(vec![])), Err(TCPError::ParseFrame(_))));
}

#[test]
fn tcp_error_messages() {
    assert_eq!(TCPError::InvalidStart.message(), "Received packet with invalid start byte");
    assert_eq!(
        TCPError::ParseFrame(s("x")).message(),
        "Failed to parse a frame with reason: x"
    );
}
