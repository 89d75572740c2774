//! The chunked-transfer codec.

use rhttp::parser::http::method::utils::chunk::{
    chunklines_to_string, string_to_chunk, vec_to_chunk,
};
use rhttp::parser::http::BodyLines;

#[test]
fn convert_rawbody_to_chunk() {
    let raw_body = r"012345678901234567890123456789";
    let right_body = r"8\r\n01234567\r\n8\r\n89012345\r\n8\r\n67890123\r\n6\r\n456789\r\n0\r\n";
    let body = string_to_chunk(raw_body);
    assert_eq!(body, right_body);
}

#[test]
fn chunk_round_trip() {
    let raw_body = "012345678901234567890123456789";
    let encoded = string_to_chunk(raw_body);
    // cut the encoding back into the lines it declares
    let lines: Vec<String> = encoded.split(r"\r\n").map(|l| l.to_string()).collect();
    let mut cursor = BodyLines::new(lines);
    let decoded = chunklines_to_string(&mut cursor);
    assert_eq!(decoded.as_str(), raw_body);

    // the empty body round-trips through its bare terminator
    let encoded = string_to_chunk("");
    let lines: Vec<String> = encoded.split(r"\r\n").map(|l| l.to_string()).collect();
    let mut cursor = BodyLines::new(lines);
    assert_eq!(chunklines_to_string(&mut cursor).as_str(), "");
}

#[test]
fn encode_empty_body_is_terminator() {
    // even an empty body is closed by the zero-length marker
    assert_eq!(string_to_chunk("").as_str(), r"0\r\n");
}

#[test]
fn encode_short_body() {
    assert_eq!(string_to_chunk("abc").as_str(), r"3\r\nabc\r\n0\r\n");
}

#[test]
fn decode_reads_sizes_in_hex() {
    let lines = vec![
        String::from("a"),
        String::from("0123456789"),
        String::from("0"),
    ];
    let mut cursor = BodyLines::new(lines);
    assert_eq!(chunklines_to_string(&mut cursor).as_str(), "0123456789");
}

#[test]
fn decode_stops_at_size_mismatch() {
    // the declared size disagrees with the content line: decoding
    // keeps what was reassembled so far
    let lines = vec![
        String::from("2"),
        String::from("ab"),
        String::from("3"),
        String::from("wxyz"),
        String::from("2"),
        String::from("cd"),
        String::from("0"),
    ];
    let mut cursor = BodyLines::new(lines);
    assert_eq!(chunklines_to_string(&mut cursor).as_str(), "ab");
    // the mismatching pair was consumed, the rest was left
    assert_eq!(cursor.next().unwrap().as_str(), "2");
}

#[test]
fn decode_stops_at_bad_size_line() {
    let lines = vec![String::from("not-hex"), String::from("rest")];
    let mut cursor = BodyLines::new(lines);
    assert_eq!(chunklines_to_string(&mut cursor).as_str(), "");
    assert_eq!(cursor.next().unwrap().as_str(), "rest");
}

#[test]
fn vec_chunking_frames_blocks_of_eight() {
    let input: Vec<u8> = b"0123456789".to_vec();
    let expected: Vec<u8> = b"\r\n8\r\n01234567\r\n2\r\n89\r\n0\r\n".to_vec();
    assert_eq!(vec_to_chunk(&input), expected);
}

#[test]
fn vec_chunking_empty_input() {
    let input: Vec<u8> = Vec::new();
    let expected: Vec<u8> = b"\r\n0\r\n".to_vec();
    assert_eq!(vec_to_chunk(&input), expected);
}
