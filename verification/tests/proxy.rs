use moviebox_tui::server::jobs::proxy::{head_progress, parse_request_head, response_head, HeadProgress, RequestHeadError};

#[test]
fn request_heads_are_read_line_by_line() {
    let request = parse_request_head(
        "GET /__dash/t/seg-1.m4s?x=1 HTTP/1.1\r\nHost: 127.0.0.1\r\nRange:  bytes=0-99 \r\nrange: bytes=5-\r\n\r\nignored: yes",
    )
    .unwrap();
    assert!(request.is_get());
    assert_eq!(request.method, "GET");
    assert_eq!(request.target, "/__dash/t/seg-1.m4s?x=1");
    assert_eq!(
        request.headers,
        vec![
            ("host".to_string(), "127.0.0.1".to_string()),
            ("range".to_string(), "bytes=0-99".to_string()),
            ("range".to_string(), "bytes=5-".to_string())
        ]
    );
    assert_eq!(request.forwarded_range().as_deref(), Some("bytes=5-"));
    let post = parse_request_head("POST / HTTP/1.1\r\n\r\n").unwrap();
    assert!(!post.is_get());
    assert_eq!(post.forwarded_range(), None);
}

#[test]
fn malformed_request_lines_are_refused() {
    assert_eq!(parse_request_head("").unwrap_err(), RequestHeadError::MissingMethod);
    assert_eq!(parse_request_head("   \r\n").unwrap_err(), RequestHeadError::MissingMethod);
    assert_eq!(parse_request_head("G@T / HTTP/1.1").unwrap_err(), RequestHeadError::InvalidMethod);
    assert_eq!(parse_request_head("GET\r\nHost: x").unwrap_err(), RequestHeadError::MissingTarget);
}

#[test]
fn heads_end_at_a_blank_line_and_are_bounded() {
    assert_eq!(head_progress(b"GET / HTTP/1.1\r\n\r\n"), HeadProgress::Complete);
    assert_eq!(head_progress(b"GET / HTTP/1.1\r\n"), HeadProgress::NeedMore);
    assert_eq!(head_progress(&vec![b'a'; 65537]), HeadProgress::TooLarge);
    assert_eq!(head_progress(&vec![b'a'; 65536]), HeadProgress::NeedMore);
}

#[test]
fn response_heads_forward_selected_headers() {
    let upstream = vec![
        ("content-type".to_string(), "video/mp4".to_string()),
        ("set-cookie".to_string(), "secret".to_string()),
        ("content-range".to_string(), "bytes 0-9/100".to_string()),
        ("content-length".to_string(), "10".to_string()),
    ];
    assert_eq!(
        response_head(206, Some("Partial Content"), &upstream, None),
        "HTTP/1.1 206 Partial Content\r\ncontent-range: bytes 0-9/100\r\ncontent-type: video/mp4\r\nContent-Length: 10\r\nConnection: close\r\n\r\n"
    );
    assert_eq!(
        response_head(405, None, &[], Some(0)),
        "HTTP/1.1 405 error\r\nContent-Length: 0\r\nConnection: close\r\n\r\n"
    );
}
