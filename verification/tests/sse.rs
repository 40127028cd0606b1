use agentyk::drivers::http::{pump, pump_bytes};
use agentyk::drivers::sse::{data_field, SseDecoder};

#[test]
fn yields_data_payloads_and_skips_everything_else() {
    let mut decoder = SseDecoder::new();
    let payloads = decoder.push(
        "event: message_start\ndata: {\"a\":1}\n: a comment\nid: 7\n\ndata:{\"b\":2}\n",
    );
    assert_eq!(payloads, vec!["{\"a\":1}", "{\"b\":2}"]);
}

#[test]
fn holds_a_partial_line_until_the_rest_arrives() {
    let mut decoder = SseDecoder::new();
    assert!(decoder.push("data: {\"a\":").is_empty());
    assert!(decoder.push("1").is_empty());
    assert_eq!(decoder.push("}\n"), vec!["{\"a\":1}"]);
}

#[test]
fn a_line_split_across_chunks_mid_field_still_decodes() {
    let mut decoder = SseDecoder::new();
    assert!(decoder.push("dat").is_empty());
    assert_eq!(decoder.push("a: {\"x\":true}\n"), vec!["{\"x\":true}"]);
}

#[test]
fn the_terminator_is_passed_through_for_the_accumulator_to_recognize() {
    let mut decoder = SseDecoder::new();
    assert_eq!(decoder.push("data: [DONE]\n"), vec!["[DONE]"]);
    assert!(decoder.push("data: \n").is_empty());
}

#[test]
fn carriage_returns_are_tolerated() {
    let mut decoder = SseDecoder::new();
    assert_eq!(decoder.push("data: {\"a\":1}\r\n"), vec!["{\"a\":1}"]);
}

#[test]
fn a_stream_decodes_alike_however_it_is_cut() {
    let body = "data: one\nevent: x\ndata: two\r\n\ndata: thr€e\n";
    let whole = SseDecoder::new().push(body);
    assert_eq!(whole, vec!["one", "two", "thr€e"]);
    let mut decoder = SseDecoder::new();
    let mut pieces: Vec<String> = Vec::new();
    for c in body.chars() {
        pieces.extend(decoder.push(&c.to_string()));
    }
    assert_eq!(pieces, whole);
}

#[test]
fn a_character_cut_in_two_is_put_together() {
    let body = "data: naïve\nevent: x\ndata: thr€e 🦀\r\n\n".as_bytes().to_vec();
    let whole = pump_bytes(&mut SseDecoder::new(), &body, None);
    assert_eq!(whole, vec!["naïve", "thr€e 🦀"]);
    for cut in 0..=body.len() {
        let mut decoder = SseDecoder::new();
        let mut pieces = pump_bytes(&mut decoder, &body[..cut].to_vec(), None);
        pieces.extend(pump_bytes(&mut decoder, &body[cut..].to_vec(), None));
        assert_eq!(pieces, whole, "cut at {cut}");
    }
    let mut decoder = SseDecoder::new();
    let mut pieces: Vec<String> = Vec::new();
    for byte in &body {
        pieces.extend(decoder.push_bytes(&[*byte]));
    }
    assert_eq!(pieces, whole);
}

#[test]
fn only_data_lines_have_a_payload() {
    assert_eq!(data_field("data:  x "), Some("x ".to_string()));
    assert_eq!(data_field("data:"), Some(String::new()));
    assert_eq!(data_field(" data: x"), None);
    assert_eq!(data_field("event: x"), None);
}

#[test]
fn the_closing_payload_is_no_event() {
    let mut decoder = SseDecoder::new();
    let events = pump(&mut decoder, "data: {\"a\":1}\ndata: [DONE]\n", Some("[DONE]"));
    assert_eq!(events, vec!["{\"a\":1}"]);
    let events = pump(&mut decoder, "data: [DONE]\n", None);
    assert_eq!(events, vec!["[DONE]"]);
}

#[test]
fn bytes_off_the_wire_are_read_as_text() {
    let mut decoder = SseDecoder::new();
    let events = pump_bytes(&mut decoder, &"data: \"é\"\n".as_bytes().to_vec(), None);
    assert_eq!(events, vec!["\"é\""]);
    let events = pump_bytes(&mut decoder, &vec![b'd', b'a', b't', b'a', b':', 0xff, b'\n'], None);
    assert_eq!(events, vec!["\u{fffd}"]);
}
