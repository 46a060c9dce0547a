use mjpeg_relay::frame::{push_decimal, FRAMES_CONTENT_TYPE};
use mjpeg_relay::wrap_frame;

#[test]
fn frame_wraps_body_with_length_type_and_trailer() {
    let framed = wrap_frame(b"HELLO");
    assert_eq!(
        framed,
        b"Content-Length: 5\r\nContent-Type: image/jpeg\r\n\r\nHELLO--frameboundary\r\n".to_vec()
    );
}

#[test]
fn empty_frame() {
    assert_eq!(
        wrap_frame(b""),
        b"Content-Length: 0\r\nContent-Type: image/jpeg\r\n\r\n--frameboundary\r\n".to_vec()
    );
}

#[test]
fn decimal_rendering() {
    let mut out = b"n=".to_vec();
    push_decimal(&mut out, 1234);
    assert_eq!(out, b"n=1234".to_vec());
    let mut max = Vec::new();
    push_decimal(&mut max, usize::MAX);
    assert_eq!(max, usize::MAX.to_string().into_bytes());
    let big = vec![7u8; 1000];
    let framed = wrap_frame(&big);
    assert!(framed.starts_with(b"Content-Length: 1000\r\n"));
    assert_eq!(framed.len(), 20 + 2 + 24 + 4 + 1000 + 17);
}

#[test]
fn response_content_type() {
    assert_eq!(FRAMES_CONTENT_TYPE, "multipart/x-mixed-replace; boundary=--frameboundary");
}
