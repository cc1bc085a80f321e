use lsp_framing::lsp_io::{
    build_popup_message, decode_payload, escape_json_text, JsonReceiver, JsonSender, LspIoErr,
};
use lsp_framing::wire::{frame_payload, parse_header};
use std::io::BufReader;

fn receiver_over(bytes: &[u8]) -> JsonReceiver<&[u8]> {
    JsonReceiver {
        reader: BufReader::new(bytes),
    }
}

fn sender_into_buffer() -> JsonSender<Vec<u8>> {
    JsonSender { writer: Vec::new() }
}

#[test]
fn round_trip_object() {
    let text = "{\"a\":[1,2,3],\"b\":\"h\u{e9}llo \u{2603}\"}";
    let value: serde_json::Value = serde_json::from_str(text).unwrap();
    let serialized = serde_json::to_string(&value).unwrap();

    let mut sender = sender_into_buffer();
    sender.send_message(&serialized).unwrap();
    let wire: Vec<u8> = sender.writer;

    let mut receiver = receiver_over(&wire);
    let got = receiver.get_next_message().unwrap();
    assert_eq!(got, value);
}

#[test]
fn round_trip_scalars_and_arrays() {
    let texts = ["null", "true", "-17", "3.5", "\"plain\"", "[]", "[1,[2,[3]]]", "{}"];
    for text in texts {
        let value: serde_json::Value = serde_json::from_str(text).unwrap();
        let mut sender = sender_into_buffer();
        sender.send_message(text).unwrap();
        let wire: Vec<u8> = sender.writer;
        let mut receiver = receiver_over(&wire);
        assert_eq!(receiver.get_next_message().unwrap(), value);
    }
}

#[test]
fn header_counts_bytes_not_characters() {
    // Seven characters once decoded, but eight bytes on the wire.
    let payload = "\"h\u{e9}llo\"";
    assert_eq!(payload.chars().count(), 7);
    assert_eq!(payload.len(), 8);

    let mut sender = sender_into_buffer();
    sender.send_message(payload).unwrap();
    let wire: Vec<u8> = sender.writer;

    let mut expected = b"Content-Length: 8\r\n\r\n".to_vec();
    expected.extend_from_slice(payload.as_bytes());
    assert_eq!(wire, expected);
}

#[test]
fn first_line_without_header_token_is_rejected() {
    let mut receiver = receiver_over(b"Foo: 5\n");
    assert_eq!(receiver.get_next_message().unwrap_err(), LspIoErr::HeaderMissing);
}

#[test]
fn header_token_without_value_is_rejected() {
    let mut receiver = receiver_over(b"Content-Length:\n");
    assert_eq!(receiver.get_next_message().unwrap_err(), LspIoErr::ContentLengthMissing);
}

#[test]
fn header_with_non_numeric_value_is_rejected() {
    let mut receiver = receiver_over(b"Content-Length: abc\n");
    let err = receiver.get_next_message().unwrap_err();
    assert!(matches!(err, LspIoErr::ContentLengthMalformed(_)));
}

#[test]
fn short_read_is_an_io_error_not_a_partial_parse() {
    let mut receiver = receiver_over(b"Content-Length: 100\r\n\r\nabc");
    let err = receiver.get_next_message().unwrap_err();
    assert!(matches!(err, LspIoErr::IoRead(_)));
}

#[test]
fn invalid_utf8_payload_is_an_encoding_error() {
    let mut wire = b"Content-Length: 2\r\n\r\n".to_vec();
    wire.push(0xff);
    wire.push(0xfe);
    let mut receiver = receiver_over(&wire);
    let err = receiver.get_next_message().unwrap_err();
    assert!(matches!(err, LspIoErr::EncodingError(_)));
}

#[test]
fn truncated_json_payload_is_a_parse_error() {
    let mut receiver = receiver_over(b"Content-Length: 5\r\n\r\n{\"a\":");
    let err = receiver.get_next_message().unwrap_err();
    assert!(matches!(err, LspIoErr::PayloadParseError(_)));
}

#[test]
fn ping_scenario_exact_wire_bytes() {
    let msg = "{\"jsonrpc\":\"2.0\",\"id\":1,\"method\":\"ping\"}";
    assert_eq!(msg.len(), 40);

    let mut sender = sender_into_buffer();
    sender.send_message(msg).unwrap();
    let wire: Vec<u8> = sender.writer;

    let mut expected = b"Content-Length: 40\r\n\r\n".to_vec();
    expected.extend_from_slice(msg.as_bytes());
    assert_eq!(wire, expected);

    let mut receiver = receiver_over(&expected);
    let got = receiver.get_next_message().unwrap();
    let value: serde_json::Value = serde_json::from_str(msg).unwrap();
    assert_eq!(got, value);
}

#[test]
fn parse_header_accepts_surrounding_whitespace_and_trailing_junk() {
    assert_eq!(parse_header(&b"Content-Length: 0\n".to_vec()), Ok(0));
    assert_eq!(parse_header(&b"  Content-Length:   42  junk\n".to_vec()), Ok(42));
    assert_eq!(parse_header(&b"Content-Length: 39\r\n".to_vec()), Ok(39));
}

#[test]
fn parse_header_rejects_bad_lines() {
    assert_eq!(parse_header(&b"".to_vec()), Err(LspIoErr::HeaderMissing));
    assert_eq!(parse_header(&b"\n".to_vec()), Err(LspIoErr::HeaderMissing));
    assert_eq!(parse_header(&b"Content-Length\n".to_vec()), Err(LspIoErr::HeaderMissing));
    assert_eq!(
        parse_header(&b"Content-Length: \n".to_vec()),
        Err(LspIoErr::ContentLengthMissing)
    );
    assert!(matches!(
        parse_header(&b"Content-Length: 1x\n".to_vec()),
        Err(LspIoErr::ContentLengthMalformed(_))
    ));
    assert!(matches!(
        parse_header(&b"Content-Length: -5\n".to_vec()),
        Err(LspIoErr::ContentLengthMalformed(_))
    ));
    assert!(matches!(
        parse_header(&b"Content-Length: 99999999999999999999999\n".to_vec()),
        Err(LspIoErr::ContentLengthMalformed(_))
    ));
}

#[test]
fn parse_header_rejects_signed_value_and_accepts_leading_zeros() {
    assert!(matches!(
        parse_header(&b"Content-Length: +5\n".to_vec()),
        Err(LspIoErr::ContentLengthMalformed(_))
    ));
    assert_eq!(parse_header(&b"Content-Length: 000039\n".to_vec()), Ok(39));
}

#[test]
fn frame_of_empty_payload() {
    assert_eq!(frame_payload(b""), b"Content-Length: 0\r\n\r\n".to_vec());
}

#[test]
fn frame_declares_exact_byte_count() {
    let frame = frame_payload(b"abcde");
    assert_eq!(frame, b"Content-Length: 5\r\n\r\nabcde".to_vec());
}

#[test]
fn decode_payload_accepts_valid_json_bytes() {
    let value = decode_payload(&b"{\"x\":7}".to_vec()).unwrap();
    let expected: serde_json::Value = serde_json::from_str("{\"x\":7}").unwrap();
    assert_eq!(value, expected);
}

#[test]
fn decode_payload_distinguishes_encoding_from_parse_failures() {
    assert!(matches!(
        decode_payload(&vec![0xf0, 0x28, 0x8c, 0x28]),
        Err(LspIoErr::EncodingError(_))
    ));
    assert!(matches!(
        decode_payload(&b"{\"a\":".to_vec()),
        Err(LspIoErr::PayloadParseError(_))
    ));
}

#[test]
fn popup_envelope_is_valid_json() {
    let msg = build_popup_message("saved");
    assert_eq!(
        msg,
        "{\"jsonrpc\": \"2.0\", \"id\": 2, \"method\": \"window/showMessage\", \
         \"params\" : { \"type\": 3, \"message\": \"saved\"}}"
    );
    let value: serde_json::Value = serde_json::from_str(&msg).unwrap();
    assert_eq!(value["method"], serde_json::Value::String("window/showMessage".to_string()));
}

#[test]
fn escape_json_text_handles_quotes_backslashes_and_controls() {
    assert_eq!(escape_json_text("plain"), "plain");
    assert_eq!(escape_json_text("a\"b\\c\nd"), "a\\\"b\\\\c\\nd");
    assert_eq!(escape_json_text("\t\r\u{8}\u{c}"), "\\t\\r\\b\\f");
    assert_eq!(escape_json_text("\u{1}\u{1f}"), "\\u0001\\u001f");
    assert_eq!(escape_json_text("h\u{e9}llo \u{2603}"), "h\u{e9}llo \u{2603}");
}

#[test]
fn popup_message_with_special_characters_is_valid_json() {
    let text = "say \"hi\"\\now\n\ttabbed\u{1}";
    let msg = build_popup_message(text);
    let value: serde_json::Value = serde_json::from_str(&msg).unwrap();
    assert_eq!(value["params"]["message"], serde_json::Value::String(text.to_string()));
}

#[test]
fn send_pop_window_escapes_the_text_on_the_wire() {
    let text = "a \"quoted\" note";
    let mut sender = sender_into_buffer();
    sender.send_pop_window(text).unwrap();
    let wire: Vec<u8> = sender.writer;

    let mut receiver = receiver_over(&wire);
    let got = receiver.get_next_message().unwrap();
    assert_eq!(got["params"]["message"], serde_json::Value::String(text.to_string()));
}

#[test]
fn send_pop_window_round_trips_through_receiver() {
    let mut sender = sender_into_buffer();
    sender.send_pop_window("hello there").unwrap();
    let wire: Vec<u8> = sender.writer;

    let mut receiver = receiver_over(&wire);
    let got = receiver.get_next_message().unwrap();
    assert_eq!(got["params"]["message"], serde_json::Value::String("hello there".to_string()));
}

#[test]
fn two_frames_in_sequence_are_both_received() {
    let mut sender = sender_into_buffer();
    sender.send_message("{\"first\":1}").unwrap();
    sender.send_message("{\"second\":2}").unwrap();
    let wire: Vec<u8> = sender.writer;

    let mut receiver = receiver_over(&wire);
    let a = receiver.get_next_message().unwrap();
    let b = receiver.get_next_message().unwrap();
    assert_eq!(a, serde_json::from_str::<serde_json::Value>("{\"first\":1}").unwrap());
    assert_eq!(b, serde_json::from_str::<serde_json::Value>("{\"second\":2}").unwrap());
}
