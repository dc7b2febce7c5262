use aish::protocol::{decode_frame, default_socket_path, encode_frame, frame_body_len, FrameError, MAX_FRAME_BYTES, PROTOCOL_VERSION};

#[test]
fn frames_carry_their_length_little_endian() {
    let f = encode_frame(b"{\"v\":4}").unwrap();
    assert_eq!(&f[..4], &[7, 0, 0, 0]);
    assert_eq!(&f[4..], b"{\"v\":4}");
    assert_eq!(PROTOCOL_VERSION, 4);
}

#[test]
fn a_frame_reads_back_as_its_body() {
    let body = vec![b'x'; 300];
    let mut f = encode_frame(&body).unwrap();
    f.extend_from_slice(b"next");
    let (b, used) = decode_frame(&f).unwrap();
    assert_eq!(b, body);
    assert_eq!(used, 304);
}

#[test]
fn oversized_and_invalid_frames_are_refused() {
    let big = vec![0u8; MAX_FRAME_BYTES + 1];
    assert_eq!(encode_frame(&big), Err(FrameError::TooLarge { len: MAX_FRAME_BYTES + 1 }));
    assert!(encode_frame(&vec![0u8; MAX_FRAME_BYTES]).is_ok());
    assert_eq!(decode_frame(&[0, 0, 0, 0]), Err(FrameError::InvalidLength { len: 0 }));
    assert_eq!(decode_frame(&[1, 0, 4, 0]), Err(FrameError::InvalidLength { len: 262145 }));
    assert_eq!(decode_frame(&[5, 0, 0, 0, b'a']), Err(FrameError::Truncated));
    assert_eq!(decode_frame(&[5, 0]), Err(FrameError::Truncated));
}

#[test]
fn frame_error_messages() {
    assert_eq!(FrameError::TooLarge { len: 300000 }.message(), "frame too large: 300000 bytes (max 262144)");
    assert_eq!(FrameError::InvalidLength { len: 0 }.message(), "invalid frame length: 0");
}

#[test]
fn socket_path_choice() {
    assert_eq!(default_socket_path(Some("/run/x.sock"), Some("/xdg"), None), "/run/x.sock");
    assert_eq!(default_socket_path(None, Some("/run/user/1"), Some("/t")), "/run/user/1/aish/aishd.sock");
    assert_eq!(default_socket_path(None, None, Some("/t")), "/t/aish/aishd.sock");
    assert_eq!(default_socket_path(None, None, None), "/tmp/aish/aishd.sock");
}

#[test]
fn sync_frame_roundtrip_for_ai_stream() {
    let body = r#"{"kind":"lifecycle","job_id":"job-1","parent_job_id":"parent-1","state":"running"}"#;
    let buf = encode_frame(body.as_bytes()).expect("write");
    let (decoded, used) = decode_frame(&buf).expect("read");
    assert_eq!(used, buf.len());
    let v: serde_json::Value = serde_json::from_slice(&decoded).expect("json");
    assert_eq!(v.get("kind").and_then(|x| x.as_str()), Some("lifecycle"));
    assert_eq!(v.get("job_id").and_then(|x| x.as_str()), Some("job-1"));
    assert_eq!(v.get("parent_job_id").and_then(|x| x.as_str()), Some("parent-1"));
    assert_eq!(v.get("state").and_then(|x| x.as_str()), Some("running"));
}

#[test]
fn sync_frame_roundtrip_for_ai_client_frame() {
    let body = r#"{"kind":"interaction_response","job_id":"job-2","response":{"kind":"approval","approved":true}}"#;
    let buf = encode_frame(body.as_bytes()).expect("write");
    let (decoded, _) = decode_frame(&buf).expect("read");
    let v: serde_json::Value = serde_json::from_slice(&decoded).expect("json");
    assert_eq!(v.get("job_id").and_then(|x| x.as_str()), Some("job-2"));
    let response = v.get("response").expect("response");
    assert_eq!(response.get("kind").and_then(|x| x.as_str()), Some("approval"));
    assert_eq!(response.get("approved").and_then(|x| x.as_bool()), Some(true));
}

#[test]
fn frame_headers_announce_their_body_length() {
    assert_eq!(frame_body_len(&[7, 0, 0, 0]), Ok(7));
    assert_eq!(frame_body_len(&[0, 1, 0, 0, 9]), Ok(256));
    assert_eq!(frame_body_len(&[0, 0, 0, 0]), Err(FrameError::InvalidLength { len: 0 }));
    assert_eq!(frame_body_len(&[1, 0, 4, 0]), Err(FrameError::InvalidLength { len: 262145 }));
    assert_eq!(frame_body_len(&[0, 0, 4, 0]), Ok(MAX_FRAME_BYTES));
}
