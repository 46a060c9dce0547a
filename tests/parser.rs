use mjpeg_relay::{parse, parse_decimal, Error, Parser, ParserBuilder, Part, Step};

/// Feeds `chunks` in order, pulling parts whenever the parser asks for input,
/// then reports the end of input when `end` is set.
fn drive(p: &mut Parser, chunks: &[&[u8]], end: bool) -> (Vec<Part>, Option<Error>) {
    let mut parts = Vec::new();
    let mut i = 0;
    loop {
        match p.next_part() {
            Step::Ready(part) => parts.push(part),
            Step::End => return (parts, None),
            Step::Failed(e) => return (parts, Some(e)),
            Step::Pending => {
                if i < chunks.len() {
                    p.feed(chunks[i]);
                    i += 1;
                } else if end {
                    return (parts, p.end_of_input());
                } else {
                    return (parts, None);
                }
            }
        }
    }
}

fn summary(parts: &[Part]) -> Vec<(Vec<(Vec<u8>, Vec<u8>)>, Vec<u8>)> {
    parts
        .iter()
        .map(|p| {
            (
                p.headers.iter().map(|h| (h.name.clone(), h.value.clone())).collect(),
                p.body.to_vec(),
            )
        })
        .collect()
}

const TWO_PARTS: &[u8] = b"\r\n--frame\r\nContent-Length: 5\r\nContent-Type: image/jpeg\r\n\r\nHELLO\r\n--frame\r\nX-Seq: 2\r\n\r\nWORLD\r\n--frame\r\n";

#[test]
fn header_fidelity() {
    let mut p = parse("frame");
    let (parts, err) = drive(&mut p, &[b"--frame\r\nContent-Length: 5\r\n\r\nHELLO\r\n--frame\r\n"], false);
    assert_eq!(err, None);
    assert_eq!(parts.len(), 1);
    assert_eq!(parts[0].headers.len(), 1);
    assert_eq!(parts[0].headers[0].name, b"content-length".to_vec());
    assert_eq!(parts[0].headers[0].value, b"5".to_vec());
    assert_eq!(&parts[0].body[..], b"HELLO");
}

#[test]
fn header_names_are_normalized() {
    let mut p = parse("frame");
    let (parts, err) = drive(&mut p, &[b"--frame\r\nX-Frame-Id: AbC\r\nContent-Length: 1\r\n\r\nZ"], false);
    assert_eq!(err, None);
    assert_eq!(parts[0].headers[0].name, b"x-frame-id".to_vec());
    assert_eq!(parts[0].headers[0].value, b"AbC".to_vec());
    assert_eq!(&parts[0].body[..], b"Z");
}

#[test]
fn chunking_does_not_change_parts() {
    let mut whole = parse("frame");
    let (a, ea) = drive(&mut whole, &[TWO_PARTS], true);
    let bytes: Vec<&[u8]> = TWO_PARTS.chunks(1).collect();
    let mut single = parse("frame");
    let (b, eb) = drive(&mut single, &bytes, true);
    let odd: Vec<&[u8]> = TWO_PARTS.chunks(7).collect();
    let mut sevens = parse("frame");
    let (c, ec) = drive(&mut sevens, &odd, true);
    assert_eq!(a.len(), 2);
    assert_eq!(summary(&a), summary(&b));
    assert_eq!(summary(&a), summary(&c));
    assert_eq!(&a[1].body[..], b"WORLD\r\n");
    assert_eq!(ea, eb);
    assert_eq!(ea, ec);
    assert_eq!(ea, Some(Error::UnexpectedEof));
}

#[test]
fn unknown_length_body_ends_at_split_boundary() {
    let mut p = parse("frame");
    let (parts, err) = drive(
        &mut p,
        &[b"--frame\r\nContent-Type: image/jpeg\r\n\r\nABC", b"DEF--fr", b"ame\r", b"\nX: 1\r\n\r\n"],
        false,
    );
    assert_eq!(err, None);
    assert_eq!(parts.len(), 1);
    assert_eq!(&parts[0].body[..], b"ABCDEF");
}

#[test]
fn boundary_with_dashes_is_taken_as_is() {
    let mut p = parse("--frame");
    let (parts, err) = drive(&mut p, &[b"--frame\r\nContent-Length: 2\r\n\r\nok"], false);
    assert_eq!(err, None);
    assert_eq!(&parts[0].body[..], b"ok");
}

#[test]
fn oversized_header_block_is_terminal() {
    let mut p = ParserBuilder::new().max_header_bytes(8).parse("frame");
    let (parts, err) = drive(&mut p, &[b"--frame\r\nX-Long: aaaaaaaaaaaa"], false);
    assert!(parts.is_empty());
    assert_eq!(err, Some(Error::HeaderTooLong { len: 20, max: 8 }));
    p.feed(b"\r\n\r\n--frame\r\nContent-Length: 1\r\n\r\nA");
    assert!(matches!(p.next_part(), Step::End));
    assert!(p.is_done());
}

#[test]
fn oversized_declared_body_is_terminal() {
    let mut p = ParserBuilder::new().max_body_bytes(4).parse("frame");
    let (parts, err) = drive(&mut p, &[b"--frame\r\nContent-Length: 5\r\n\r\nHELLO\r\n--frame\r\n"], false);
    assert!(parts.is_empty());
    assert_eq!(err, Some(Error::BodyTooLong { len: 5, max: 4 }));
    assert!(matches!(p.next_part(), Step::End));
}

#[test]
fn oversized_scanned_body_is_terminal() {
    let mut p = ParserBuilder::new().max_body_bytes(4).parse("frame");
    let (parts, err) = drive(&mut p, &[b"--frame\r\nX: 1\r\n\r\n", b"0123456789"], false);
    assert!(parts.is_empty());
    assert_eq!(err, Some(Error::BodyTooLong { len: 10, max: 4 }));
    p.feed(b"--frame\r\n");
    assert!(matches!(p.next_part(), Step::End));
}

#[test]
fn invalid_header_bytes_are_terminal() {
    let mut p = parse("frame");
    let (parts, err) = drive(&mut p, &[b"--frame\r\nBad Name\x01: x\r\n\r\nbody--frame\r\n"], false);
    assert!(parts.is_empty());
    assert_eq!(err, Some(Error::InvalidHeaders));
    assert!(matches!(p.next_part(), Step::End));
}

#[test]
fn bad_boundary_is_terminal() {
    let mut p = parse("frame");
    let (parts, err) = drive(&mut p, &[b"--other\r\n"], false);
    assert!(parts.is_empty());
    assert_eq!(err, Some(Error::BadBoundary));
}

#[test]
fn content_length_not_a_number() {
    let mut p = parse("frame");
    let (_, err) = drive(&mut p, &[b"--frame\r\nContent-Length: 5x\r\n\r\nHELLO"], false);
    assert_eq!(err, Some(Error::ContentLengthNotUsize));
}

#[test]
fn content_length_not_visible_ascii() {
    let mut p = parse("frame");
    let (_, err) = drive(&mut p, &[b"--frame\r\nContent-Length: 5\xe9\r\n\r\nHELLO"], false);
    assert_eq!(err, Some(Error::ContentLengthNotString));
}

#[test]
fn first_content_length_wins() {
    let mut p = parse("frame");
    let (parts, err) = drive(&mut p, &[b"--frame\r\ncontent-length: 2\r\nContent-Length: 5\r\n\r\nHE"], false);
    assert_eq!(err, None);
    assert_eq!(&parts[0].body[..], b"HE");
    assert_eq!(parts[0].headers.len(), 2);
}

#[test]
fn zero_length_body_stays_pending() {
    let mut p = parse("frame");
    let (parts, err) = drive(&mut p, &[b"--frame\r\nContent-Length: 0\r\n\r\n--frame\r\n"], false);
    assert!(parts.is_empty());
    assert_eq!(err, None);
    assert!(matches!(p.next_part(), Step::Pending));
}

#[test]
fn end_between_parts_is_clean() {
    let mut p = parse("frame");
    let (parts, err) = drive(&mut p, &[b"\r\n\r\n--frame\r\nContent-Length: 2\r\n\r\nhi\r\n"], true);
    assert_eq!(parts.len(), 1);
    assert_eq!(err, None);
    assert!(p.is_done());
}

#[test]
fn end_mid_part_is_an_error() {
    let mut p = parse("frame");
    let (parts, err) = drive(&mut p, &[b"--frame\r\nContent-Len"], true);
    assert!(parts.is_empty());
    assert_eq!(err, Some(Error::UnexpectedEof));
}

#[test]
fn transport_error_is_terminal() {
    let mut p = parse("frame");
    assert!(matches!(p.next_part(), Step::Pending));
    let e = p.fail_underlying("connection reset".to_string());
    assert_eq!(e, Error::Underlying("connection reset".to_string()));
    assert!(e.is_underlying());
    assert!(!Error::BadBoundary.is_underlying());
    p.feed(b"--frame\r\n");
    assert!(matches!(p.next_part(), Step::End));
}

#[test]
fn decimal_values() {
    assert_eq!(parse_decimal(b"5"), Some(5));
    assert_eq!(parse_decimal(b"+12"), Some(12));
    assert_eq!(parse_decimal(b"0012"), Some(12));
    assert_eq!(parse_decimal(b""), None);
    assert_eq!(parse_decimal(b"+"), None);
    assert_eq!(parse_decimal(b"-1"), None);
    assert_eq!(parse_decimal(b" 1"), None);
    assert_eq!(parse_decimal(usize::MAX.to_string().as_bytes()), Some(usize::MAX));
    let over = format!("{}0", usize::MAX);
    assert_eq!(parse_decimal(over.as_bytes()), None);
}

#[test]
fn overlong_header_name_is_rejected() {
    let mut input = b"--frame\r\n".to_vec();
    input.extend(std::iter::repeat(b'a').take(70_000));
    input.extend_from_slice(b": 1\r\n\r\nbody");
    let mut p = parse("frame");
    let (parts, err) = drive(&mut p, &[&input], false);
    assert!(parts.is_empty());
    assert_eq!(err, Some(Error::BadHeaderName));
}
