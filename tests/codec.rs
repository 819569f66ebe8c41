use rserve::request::encode_request;
use rserve::response::{decode_data, decode_expression, decode_response, split_at_nul};
use rserve::session::{
    check_greeting, parse_address, response_frame_len, Endpoint, Phase, Session, Transport,
};
use rserve::value::{ReturnValue, RserveError};

fn ok_response(payload: &[u8]) -> Vec<u8> {
    let mut b = Vec::new();
    b.extend_from_slice(&0x10001u32.to_le_bytes());
    b.extend_from_slice(&(payload.len() as u32).to_le_bytes());
    b.extend_from_slice(&[0u8; 8]);
    b.extend_from_slice(payload);
    b
}

fn block(tag: u8, body: &[u8]) -> Vec<u8> {
    let len = body.len() as u32;
    let mut b = vec![tag, len as u8, (len >> 8) as u8, (len >> 16) as u8];
    b.extend_from_slice(body);
    b
}

fn data_response(tag: u8, body: &[u8]) -> Vec<u8> {
    ok_response(&block(tag, body))
}

fn expression_response(xt: u8, body: &[u8]) -> Vec<u8> {
    data_response(10, &block(xt, body))
}

#[test]
fn top_level_int() {
    let r = decode_response(&data_response(1, &(-7i32).to_le_bytes()));
    assert_eq!(r, Ok(ReturnValue::Int(-7)));
}

#[test]
fn top_level_char() {
    let r = decode_response(&data_response(2, b"A"));
    assert_eq!(r, Ok(ReturnValue::Char('A')));
}

#[test]
fn top_level_double() {
    let r = decode_response(&data_response(3, &2.5f64.to_le_bytes()));
    match r {
        Ok(ReturnValue::Double(bits)) => assert_eq!(f64::from_bits(bits), 2.5),
        other => panic!("unexpected {:?}", other),
    }
}

#[test]
fn top_level_string() {
    let r = decode_response(&data_response(4, "héllo".as_bytes()));
    assert_eq!(r, Ok(ReturnValue::Str("héllo".to_string())));
}

#[test]
fn expression_null() {
    let r = decode_response(&expression_response(0, &[]));
    assert_eq!(r, Ok(ReturnValue::Null("NULL".to_string())));
}

#[test]
fn expression_int() {
    let r = decode_response(&expression_response(1, &123456i32.to_le_bytes()));
    assert_eq!(r, Ok(ReturnValue::Int(123456)));
}

#[test]
fn expression_double() {
    let r = decode_response(&expression_response(2, &(-0.125f64).to_le_bytes()));
    assert_eq!(r, Ok(ReturnValue::Double((-0.125f64).to_bits())));
}

#[test]
fn expression_string() {
    let r = decode_response(&expression_response(3, b"abc"));
    assert_eq!(r, Ok(ReturnValue::Str("abc".to_string())));
}

#[test]
fn expression_bool_true_and_false() {
    assert_eq!(decode_response(&expression_response(6, &[1])), Ok(ReturnValue::Bool(true)));
    assert_eq!(decode_response(&expression_response(6, &[0])), Ok(ReturnValue::Bool(false)));
    assert_eq!(decode_response(&expression_response(6, &[2])), Ok(ReturnValue::Bool(false)));
}

#[test]
fn int_vector_round_trip() {
    let xs = [1i32, -2, i32::MAX, i32::MIN, 0];
    let body: Vec<u8> = xs.iter().flat_map(|x| x.to_le_bytes()).collect();
    let r = decode_response(&expression_response(32, &body));
    assert_eq!(r, Ok(ReturnValue::IntVec(xs.to_vec())));
}

#[test]
fn double_vector_round_trip() {
    let xs = [1.5f64, -3.0, 0.0];
    let body: Vec<u8> = xs.iter().flat_map(|x| x.to_le_bytes()).collect();
    let r = decode_response(&expression_response(33, &body));
    let bits: Vec<u64> = xs.iter().map(|x| x.to_bits()).collect();
    assert_eq!(r, Ok(ReturnValue::DoubleVec(bits)));
}

#[test]
fn string_vector_splits_on_nul() {
    let r = decode_response(&expression_response(34, b"a\0bb\0c"));
    let want = vec!["a".to_string(), "bb".to_string(), "c".to_string()];
    assert_eq!(r, Ok(ReturnValue::StrVec(want)));
}

#[test]
fn string_vector_keeps_empty_pieces() {
    let r = decode_expression(34, 4, b"x\0\0y");
    let want = vec!["x".to_string(), String::new(), "y".to_string()];
    assert_eq!(r, Ok(ReturnValue::StrVec(want)));
}

#[test]
fn string_vector_takes_declared_length_only() {
    let r = decode_expression(34, 3, b"ab\0cd");
    assert_eq!(r, Ok(ReturnValue::StrVec(vec!["ab".to_string(), String::new()])));
}

#[test]
fn bool_vector_decodes_one_and_zero() {
    let r = decode_response(&expression_response(36, &[1, 0, 1]));
    assert_eq!(r, Ok(ReturnValue::BoolVec(vec![true, false, true])));
}

#[test]
fn failed_status_is_evaluation_error() {
    let mut b = data_response(1, &5i32.to_le_bytes());
    b[0..4].copy_from_slice(&0x0310_0002u32.to_le_bytes());
    assert_eq!(decode_response(&b), Err(RserveError::Evaluation { code: 3 }));
    assert_eq!(decode_response(&b[..4]), Err(RserveError::Evaluation { code: 3 }));
}

#[test]
fn error_code_drops_high_bit() {
    let b = 0xff01_0002u32.to_le_bytes();
    assert_eq!(decode_response(&b), Err(RserveError::Evaluation { code: 0x7f }));
}

#[test]
fn unsupported_top_level_tag() {
    for tag in [0u8, 5, 6, 7, 8, 9, 11, 36, 255] {
        let r = decode_response(&data_response(tag, &[0, 0, 0, 0]));
        assert_eq!(r, Err(RserveError::UnsupportedType { tag }));
    }
}

#[test]
fn unsupported_expression_tag() {
    for xt in [4u8, 5, 7, 16, 31, 35, 37, 200] {
        let r = decode_response(&expression_response(xt, &[0, 0, 0, 0]));
        assert_eq!(r, Err(RserveError::UnsupportedType { tag: xt }));
    }
}

#[test]
fn truncated_fields() {
    assert_eq!(decode_response(&[1, 0, 1]), Err(RserveError::TruncatedResponse));
    assert_eq!(decode_response(&data_response(1, &[1, 2])), Err(RserveError::TruncatedResponse));
    assert_eq!(decode_data(3, &[0; 7]), Err(RserveError::TruncatedResponse));
    assert_eq!(decode_expression(32, 8, &[0; 7]), Err(RserveError::TruncatedResponse));
    assert_eq!(decode_expression(36, 3, &[1, 1]), Err(RserveError::TruncatedResponse));
    let mut short = ok_response(&[]);
    short.push(1);
    assert_eq!(decode_response(&short), Err(RserveError::TruncatedResponse));
}

#[test]
fn invalid_text_is_reported() {
    assert_eq!(decode_response(&data_response(4, &[0xff, 0xfe])), Err(RserveError::InvalidText));
    assert_eq!(decode_expression(34, 3, &[b'a', 0, 0xc3]), Err(RserveError::InvalidText));
}

#[test]
fn empty_success_is_null() {
    assert_eq!(decode_response(&ok_response(&[])), Ok(ReturnValue::Null("NULL".to_string())));
}

#[test]
fn split_pieces() {
    assert_eq!(split_at_nul(b"a\0bb\0c", 6), vec![b"a".to_vec(), b"bb".to_vec(), b"c".to_vec()]);
    assert_eq!(split_at_nul(b"", 0), vec![Vec::<u8>::new()]);
}

#[test]
fn request_layout() {
    let r = encode_request("1+1", false);
    let want: Vec<u8> = vec![3, 0, 0, 0, 7, 0, 0, 0, 0, 0, 0, 0, 0, 0, 0, 0, 4, 3, 0, 0, b'1', b'+', b'1'];
    assert_eq!(r, want);
    let v = encode_request("x <- 2", true);
    assert_eq!(&v[0..4], &[2, 0, 0, 0]);
    assert_eq!(&v[4..8], &[10, 0, 0, 0]);
    assert_eq!(&v[17..20], &[6, 0, 0]);
    assert_eq!(&v[20..], b"x <- 2");
}

#[test]
fn request_long_command_length_bytes() {
    let cmd = "a".repeat(0x1_0203);
    let r = encode_request(&cmd, false);
    assert_eq!(r.len(), 20 + 0x1_0203);
    assert_eq!(&r[4..8], &[0x07, 0x02, 0x01, 0x00]);
    assert_eq!(&r[16..20], &[4, 0x03, 0x02, 0x01]);
}

#[test]
fn addresses() {
    assert_eq!(
        parse_address("tcp://localhost:6311"),
        Ok(Endpoint { transport: Transport::Tcp, start: 6 })
    );
    assert_eq!(
        parse_address("unix:///tmp/rs.sock"),
        Ok(Endpoint { transport: Transport::Unix, start: 7 })
    );
    assert_eq!(
        parse_address("tcp://tcp://h:1"),
        Ok(Endpoint { transport: Transport::Tcp, start: 6 })
    );
    assert_eq!(
        parse_address("unix://unix://x"),
        Ok(Endpoint { transport: Transport::Unix, start: 7 })
    );
    assert_eq!(parse_address("http://localhost"), Err(RserveError::InvalidAddress));
    assert_eq!(parse_address("localhost:6311"), Err(RserveError::InvalidAddress));
    assert_eq!(parse_address(""), Err(RserveError::InvalidAddress));
    assert_eq!(parse_address("tcp:/"), Err(RserveError::InvalidAddress));
}

#[test]
fn greeting_marker() {
    assert_eq!(check_greeting(b"Rsrv0103QAP1\r\n\r\n--------------\r\n"), Ok(()));
    assert_eq!(check_greeting(b"Rsrv01"), Ok(()));
    assert_eq!(check_greeting(b"Rsrv0"), Err(RserveError::Handshake));
    assert_eq!(check_greeting(b"HTTP/1.1 400"), Err(RserveError::Handshake));
}

#[test]
fn frame_length() {
    assert_eq!(response_frame_len(&[0; 15]), None);
    let b = data_response(1, &5i32.to_le_bytes());
    assert_eq!(response_frame_len(&b), Some(24));
}

#[test]
fn session_refuses_bad_greeting() {
    let mut s = Session::new();
    assert_eq!(s.greet(b"SSH-2.0"), Err(RserveError::Handshake));
    assert_eq!(s.phase(), Phase::Closed);
    assert_eq!(s.request("1", false), Err(RserveError::OutOfTurn));
}

#[test]
fn session_exchange() {
    let mut s = Session::new();
    assert_eq!(s.phase(), Phase::Greeting);
    assert_eq!(s.request("1", false), Err(RserveError::OutOfTurn));
    assert_eq!(s.greet(b"Rsrv0103QAP1"), Ok(()));
    assert_eq!(s.phase(), Phase::Idle);
    assert_eq!(s.request("1+1", false), Ok(encode_request("1+1", false)));
    assert_eq!(s.phase(), Phase::AwaitingResponse);
    assert_eq!(s.request("2", false), Err(RserveError::OutOfTurn));
    let b = expression_response(1, &2i32.to_le_bytes());
    assert_eq!(s.receive(&b[..10]), None);
    assert_eq!(s.receive(&b[..b.len() - 1]), None);
    assert_eq!(s.phase(), Phase::AwaitingResponse);
    assert_eq!(s.receive(&b), Some(Ok(ReturnValue::Int(2))));
    assert_eq!(s.phase(), Phase::Idle);
    assert_eq!(s.receive(&b), Some(Err(RserveError::OutOfTurn)));
    s.close();
    assert_eq!(s.phase(), Phase::Closed);
}

#[test]
fn session_rejects_oversized_command() {
    let mut s = Session::new();
    s.greet(b"Rsrv01").unwrap();
    let cmd = "a".repeat(0x100_0000);
    assert_eq!(s.request(&cmd, false), Err(RserveError::CommandTooLong));
    assert_eq!(s.phase(), Phase::Idle);
}

#[test]
fn session_void_evaluation() {
    let mut s = Session::new();
    s.greet(b"Rsrv01").unwrap();
    s.request("x <- 1", true).unwrap();
    assert_eq!(s.receive(&ok_response(&[])), Some(Ok(ReturnValue::Null("NULL".to_string()))));
}
