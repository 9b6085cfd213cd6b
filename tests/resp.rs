use kvserver::decimal::{parse_i64, parse_u64, u64_to_dec};
use kvserver::request::Request;
use kvserver::resp::{
    array_reply, blob_reply, bulk_string, count_reply, error_reply, frames_array_reply,
    integer_reply, null_array_reply, null_bulk_string, request_bytes, simple_string,
    string_array_reply,
};

fn args(v: &[&str]) -> Vec<Vec<u8>> {
    v.iter().map(|s| s.as_bytes().to_vec()).collect()
}

#[test]
fn ping_frame_parses() {
    let buf = b"*1\r\n$4\r\nPING\r\n";
    let (req, n) = Request::try_parse(buf).expect("complete frame");
    assert_eq!(req.args, args(&["PING"]));
    assert_eq!(n, buf.len());
}

#[test]
fn frame_with_suffix_consumes_only_itself() {
    let mut buf = b"*3\r\n$3\r\nSET\r\n$3\r\nfoo\r\n$3\r\nbar\r\n".to_vec();
    let len = buf.len();
    buf.extend_from_slice(b"*1\r\n$4\r\nPI");
    let (req, n) = Request::try_parse(&buf).unwrap();
    assert_eq!(req.args, args(&["SET", "foo", "bar"]));
    assert_eq!(n, len);
    assert!(Request::try_parse(&buf[n..]).is_none());
}

#[test]
fn every_truncation_is_incomplete() {
    let frame = request_bytes(&args(&["ECHO", "hello"]));
    for k in 0..frame.len() {
        assert!(Request::try_parse(&frame[..k]).is_none(), "prefix {}", k);
    }
    assert!(Request::try_parse(&frame).is_some());
}

#[test]
fn binary_payload_is_length_accurate() {
    let buf = b"*2\r\n$4\r\nECHO\r\n$4\r\na\r\nb\r\n";
    let (req, n) = Request::try_parse(buf).unwrap();
    assert_eq!(req.args[1], b"a\r\nb".to_vec());
    assert_eq!(n, buf.len());
}

#[test]
fn malformed_frames_are_refused() {
    assert!(Request::try_parse(b"PING\r\n").is_none());
    assert!(Request::try_parse(b"*x\r\n").is_none());
    assert!(Request::try_parse(b"*1\r\n+PING\r\n").is_none());
    assert!(Request::try_parse(b"*1\r\n$4\r\nPINGX\r\n").is_none());
    assert!(Request::try_parse(b"").is_none());
}

#[test]
fn empty_array_request() {
    let (req, n) = Request::try_parse(b"*0\r\n").unwrap();
    assert!(req.args.is_empty());
    assert_eq!(n, 4);
}

#[test]
fn request_round_trip() {
    let a = args(&["XADD", "s", "1-1", "f", ""]);
    let frame = request_bytes(&a);
    let (req, n) = Request::try_parse(&frame).unwrap();
    assert_eq!(req.args, a);
    assert_eq!(n, frame.len());
}

#[test]
fn reply_encodings() {
    assert_eq!(simple_string(b"PONG"), b"+PONG\r\n".to_vec());
    assert_eq!(error_reply(b"ERR unknown command"), b"-ERR unknown command\r\n".to_vec());
    assert_eq!(integer_reply(-42), b":-42\r\n".to_vec());
    assert_eq!(integer_reply(i64::MIN), b":-9223372036854775808\r\n".to_vec());
    assert_eq!(count_reply(7), b":7\r\n".to_vec());
    assert_eq!(bulk_string(b"bar"), b"$3\r\nbar\r\n".to_vec());
    assert_eq!(bulk_string(b""), b"$0\r\n\r\n".to_vec());
    assert_eq!(null_bulk_string(), b"$-1\r\n".to_vec());
    assert_eq!(null_array_reply(), b"*-1\r\n".to_vec());
    assert_eq!(blob_reply(b"abc"), b"$3\r\nabc".to_vec());
    assert_eq!(
        array_reply(&vec![Some(b"a".to_vec()), None]),
        b"*2\r\n$1\r\na\r\n$-1\r\n".to_vec()
    );
    assert_eq!(string_array_reply(&vec![]), b"*0\r\n".to_vec());
    assert_eq!(
        frames_array_reply(&vec![b":1\r\n".to_vec(), b":2\r\n".to_vec()]),
        b"*2\r\n:1\r\n:2\r\n".to_vec()
    );
}

#[test]
fn decimal_text() {
    assert_eq!(u64_to_dec(0), b"0".to_vec());
    assert_eq!(u64_to_dec(1234567890), b"1234567890".to_vec());
    assert_eq!(u64_to_dec(u64::MAX), b"18446744073709551615".to_vec());
    assert_eq!(parse_u64(b"18446744073709551615"), Some(u64::MAX));
    assert_eq!(parse_u64(b"18446744073709551616"), None);
    assert_eq!(parse_u64(b"+7"), Some(7));
    assert_eq!(parse_u64(b""), None);
    assert_eq!(parse_u64(b"1a"), None);
    assert_eq!(parse_i64(b"-9223372036854775808"), Some(i64::MIN));
    assert_eq!(parse_i64(b"9223372036854775808"), None);
    assert_eq!(parse_i64(b"-"), None);
    assert_eq!(parse_i64(b"-12"), Some(-12));
}
