//! The outbound framing: each frame goes to viewers as a part of its own, with
//! its length and content type, followed by the relay's own boundary line.

use vstd::prelude::*;
use vstd::string::StringSliceAdditionalSpecFns;

verus! {

/// The start of a frame's header block.
pub const FRAME_LENGTH_PREFIX: &'static str = "Content-Length: ";

/// The rest of a frame's header block, after the length.
pub const FRAME_HEADER_REST: &'static str = "\r\nContent-Type: image/jpeg\r\n\r\n";

/// The boundary line that follows each frame.
pub const FRAME_TRAILER: &'static str = "--frameboundary\r\n";

/// The `Content-Type` of the response that carries the frames.
pub const FRAMES_CONTENT_TYPE: &'static str = "multipart/x-mixed-replace; boundary=--frameboundary";

/// The ASCII decimal digits of `n`, most significant first, without leading zeros.
pub open spec fn decimal_digits(n: nat) -> Seq<u8>
    decreases n,
{
    if n < 10 {
        seq![(48 + n) as u8]
    } else {
        decimal_digits(n / 10).push((48 + n % 10) as u8)
    }
}

/// A frame as viewers receive it.
pub open spec fn framed(body: Seq<u8>) -> Seq<u8> {
    FRAME_LENGTH_PREFIX.spec_bytes() + decimal_digits(body.len()) + FRAME_HEADER_REST.spec_bytes() + body
        + FRAME_TRAILER.spec_bytes()
}

fn append_bytes(out: &mut Vec<u8>, b: &[u8])
    ensures
        final(out)@ == old(out)@ + b@,
{
    let ghost start = out@;
    let mut i: usize = 0;
    while i < b.len()
        invariant
            i <= b@.len(),
            out@ == start + b@.take(i as int),
        decreases b@.len() - i,
    {
        out.push(b[i]);
        assert(b@.take(i + 1) =~= b@.take(i as int).push(b@[i as int]));
        i = i + 1;
    }
    assert(b@.take(b@.len() as int) =~= b@);
}

/// Appends the decimal digits of `n`.
pub fn push_decimal(out: &mut Vec<u8>, n: usize)
    ensures
        final(out)@ == old(out)@ + decimal_digits(n as nat),
    decreases n,
{
    if n >= 10 {
        push_decimal(out, n / 10);
    }
    out.push(48 + (n % 10) as u8);
    assert(out@ =~= old(out)@ + decimal_digits(n as nat));
}

/// Wraps a frame's body for viewers: a `Content-Length` and a `Content-Type:
/// image/jpeg` header, the body, then the relay's boundary line.
pub fn wrap_frame(body: &[u8]) -> (r: Vec<u8>)
    ensures
        r@ == framed(body@),
{
    let mut out: Vec<u8> = Vec::new();
    append_bytes(&mut out, FRAME_LENGTH_PREFIX.as_bytes());
    push_decimal(&mut out, body.len());
    append_bytes(&mut out, FRAME_HEADER_REST.as_bytes());
    append_bytes(&mut out, body);
    append_bytes(&mut out, FRAME_TRAILER.as_bytes());
    out
}

} // verus!
