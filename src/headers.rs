//! A part's header block: the header lines found by `httparse`, each name checked
//! and normalized by `http::HeaderName`, each value checked by `http::HeaderValue`,
//! and the body length that a `Content-Length` header declares.

use vstd::prelude::*;
use crate::error::Error;

verus! {

/// One header line of a part: its name (lower case, as `http` normalizes it) and
/// its value.
#[derive(Debug, Clone, PartialEq, Eq)]
pub struct Header {
    pub name: Vec<u8>,
    pub value: Vec<u8>,
}

impl View for Header {
    type V = (Seq<u8>, Seq<u8>);

    open spec fn view(&self) -> (Seq<u8>, Seq<u8>) {
        (self.name@, self.value@)
    }
}

/// The (name, value) pairs of a list of headers, in order.
pub open spec fn fields_view(hs: Seq<Header>) -> Seq<(Seq<u8>, Seq<u8>)> {
    hs.map_values(|h: Header| h@)
}

/// What the header parser found at the front of a buffer.
pub enum HeaderScan {
    /// The bytes are not valid header syntax.
    Invalid,
    /// No complete header block yet.
    Partial,
    /// A header block of `consumed` bytes (its blank line included), with its lines.
    Complete { consumed: usize, fields: Vec<Header> },
}

impl HeaderScan {
    pub open spec fn view(&self) -> Result<Option<(nat, Seq<(Seq<u8>, Seq<u8>)>)>, ()> {
        match self {
            HeaderScan::Invalid => Err(()),
            HeaderScan::Partial => Ok(None),
            HeaderScan::Complete { consumed, fields } => Ok(Some((*consumed as nat, fields_view(fields@)))),
        }
    }
}

/// What `httparse::parse_headers` makes of `b` with room for `capacity` headers:
/// `Err` for invalid input, `Ok(None)` for an incomplete block, else the length of
/// the block and its (name, value) lines.
pub uninterp spec fn header_block_of(b: Seq<u8>, capacity: nat) -> Result<Option<(nat, Seq<(Seq<u8>, Seq<u8>)>)>, ()>;

/// What `http::HeaderName::from_bytes` makes of `b`: the normalized name, or `None`
/// when `b` is not a valid header name.
pub uninterp spec fn header_name_of(b: Seq<u8>) -> Option<Seq<u8>>;

/// Relies on `httparse::parse_headers`, with room for `capacity` headers; on a
/// complete block it returns the offset where parsing stopped, within `b`.
#[verifier::external_body]
pub(crate) fn scan_headers(b: &[u8], capacity: usize) -> (r: HeaderScan)
    ensures
        r.view() == header_block_of(b@, capacity as nat),
        r matches HeaderScan::Complete { consumed, .. } ==> consumed <= b@.len(),
{
    let mut raw = vec![httparse::EMPTY_HEADER; capacity];
    match httparse::parse_headers(b, &mut raw) {
        Err(_) => HeaderScan::Invalid,
        Ok(httparse::Status::Partial) => HeaderScan::Partial,
        Ok(httparse::Status::Complete((consumed, found))) => HeaderScan::Complete {
            consumed,
            fields: found.iter().map(|h| Header { name: h.name.as_bytes().to_vec(), value: h.value.to_vec() }).collect(),
        },
    }
}

/// Relies on `http::HeaderName::from_bytes`: checks a header name and normalizes it.
#[verifier::external_body]
fn normalize_name(b: &[u8]) -> (r: Option<Vec<u8>>)
    ensures
        match r {
            Some(n) => header_name_of(b@) == Some(n@),
            None => header_name_of(b@) is None,
        },
{
    http::HeaderName::from_bytes(b).ok().map(|n| n.as_str().as_bytes().to_vec())
}

/// A byte that `http::HeaderValue` accepts: a tab, or any byte from space up but DEL.
pub open spec fn value_byte(c: u8) -> bool {
    (c >= 32 && c != 127) || c == 9
}

/// Visible ASCII, or a tab: the bytes for which `HeaderValue::to_str` succeeds.
pub open spec fn visible_byte(c: u8) -> bool {
    (c >= 32 && c < 127) || c == 9
}

/// Relies on `http::HeaderValue::from_bytes`, which accepts exactly the values made
/// of `value_byte`s.
#[verifier::external_body]
fn value_is_valid(b: &[u8]) -> (r: bool)
    ensures
        r == (forall|i: int| 0 <= i < b@.len() ==> value_byte(#[trigger] b@[i])),
{
    http::HeaderValue::from_bytes(b).is_ok()
}

/// Checks each line in order and normalizes its name; the first bad name or value
/// decides the error.
pub open spec fn checked_fields(raw: Seq<(Seq<u8>, Seq<u8>)>) -> Result<Seq<(Seq<u8>, Seq<u8>)>, Error>
    decreases raw.len(),
{
    if raw.len() == 0 {
        Ok(Seq::empty())
    } else {
        match header_name_of(raw[0].0) {
            None => Err(Error::BadHeaderName),
            Some(n) => if !(forall|i: int| 0 <= i < raw[0].1.len() ==> value_byte(#[trigger] raw[0].1[i])) {
                Err(Error::BadHeaderValue)
            } else {
                match checked_fields(raw.skip(1)) {
                    Err(e) => Err(e),
                    Ok(rest) => Ok(seq![(n, raw[0].1)] + rest),
                }
            },
        }
    }
}

pub open spec fn prepend(
    p: Seq<(Seq<u8>, Seq<u8>)>,
    r: Result<Seq<(Seq<u8>, Seq<u8>)>, Error>,
) -> Result<Seq<(Seq<u8>, Seq<u8>)>, Error> {
    match r {
        Ok(s) => Ok(p + s),
        Err(e) => Err(e),
    }
}

/// Turns the lines found by the header parser into the part's headers.
pub fn check_fields(raw: Vec<Header>) -> (r: Result<Vec<Header>, Error>)
    ensures
        match r {
            Ok(hs) => checked_fields(fields_view(raw@)) == Ok::<_, Error>(fields_view(hs@)),
            Err(e) => checked_fields(fields_view(raw@)) == Err::<Seq<(Seq<u8>, Seq<u8>)>, _>(e),
        },
{
    let ghost all = fields_view(raw@);
    let mut out: Vec<Header> = Vec::new();
    let mut i: usize = 0;
    proof {
        assert(all.skip(0) =~= all);
        if let Ok(s) = checked_fields(all) {
            assert(fields_view(out@) + s =~= s);
        }
    }
    while i < raw.len()
        invariant
            i <= raw@.len(),
            all == fields_view(raw@),
            checked_fields(all) == prepend(fields_view(out@), checked_fields(all.skip(i as int))),
        decreases raw@.len() - i,
    {
        let h = &raw[i];
        assert(all.skip(i as int)[0] == h@);
        assert(all.skip(i as int).skip(1) =~= all.skip(i + 1));
        let name = match normalize_name(h.name.as_slice()) {
            Some(n) => n,
            None => return Err(Error::BadHeaderName),
        };
        if !value_is_valid(h.value.as_slice()) {
            return Err(Error::BadHeaderValue);
        }
        let ghost before = fields_view(out@);
        let nh = Header { name, value: h.value.clone() };
        out.push(nh);
        assert(fields_view(out@) =~= before + seq![(nh.name@, nh.value@)]);
        proof {
            let rest = checked_fields(all.skip(i + 1));
            match rest {
                Ok(s) => {
                    assert(before + (seq![(nh.name@, nh.value@)] + s) =~= fields_view(out@) + s);
                },
                Err(_) => {},
            }
        }
        i = i + 1;
    }
    assert(all.skip(i as int) =~= Seq::<(Seq<u8>, Seq<u8>)>::empty());
    assert(fields_view(out@) + Seq::<(Seq<u8>, Seq<u8>)>::empty() =~= fields_view(out@));
    Ok(out)
}

/// `content-length` in ASCII, the name as `http` normalizes it.
pub open spec fn content_length_name() -> Seq<u8> {
    seq![99u8, 111u8, 110u8, 116u8, 101u8, 110u8, 116u8, 45u8, 108u8, 101u8, 110u8, 103u8, 116u8, 104u8]
}

/// The value of the first header named `name`, as a header map's lookup finds it.
pub open spec fn first_value(hs: Seq<(Seq<u8>, Seq<u8>)>, name: Seq<u8>) -> Option<Seq<u8>>
    decreases hs.len(),
{
    if hs.len() == 0 {
        None
    } else if hs[0].0 == name {
        Some(hs[0].1)
    } else {
        first_value(hs.skip(1), name)
    }
}

pub open spec fn is_digit(c: u8) -> bool {
    48 <= c <= 57
}

/// The number that a sequence of decimal digits denotes.
pub open spec fn digits_value(d: Seq<u8>) -> nat
    decreases d.len(),
{
    if d.len() == 0 {
        0
    } else {
        digits_value(d.drop_last()) * 10 + (d.last() - 48) as nat
    }
}

/// The digits of an unsigned number: the text without one leading `+`.
pub open spec fn unsigned_digits(s: Seq<u8>) -> Seq<u8> {
    if s.len() > 0 && s[0] == 43 {
        s.skip(1)
    } else {
        s
    }
}

/// The `usize` that `s` spells as Rust's `str::parse` reads it: an optional `+`,
/// then one or more decimal digits, of a value that fits.
pub open spec fn decimal_of(s: Seq<u8>) -> Option<nat> {
    let d = unsigned_digits(s);
    if d.len() > 0 && (forall|i: int| 0 <= i < d.len() ==> is_digit(#[trigger] d[i]))
        && digits_value(d) <= usize::MAX {
        Some(digits_value(d))
    } else {
        None
    }
}

/// The body length that the headers declare: none without a `Content-Length`
/// header; an error when its value is not visible ASCII or not a `usize`.
pub open spec fn declared_length(hs: Seq<(Seq<u8>, Seq<u8>)>) -> Result<Option<nat>, Error> {
    match first_value(hs, content_length_name()) {
        None => Ok(None),
        Some(v) => if !(forall|i: int| 0 <= i < v.len() ==> visible_byte(#[trigger] v[i])) {
            Err(Error::ContentLengthNotString)
        } else {
            match decimal_of(v) {
                None => Err(Error::ContentLengthNotUsize),
                Some(n) => Ok(Some(n)),
            }
        },
    }
}

/// Reads (from ASCII digits, 48 to 57, after an optional `+`, 43) an unsigned decimal number as `usize`'s `FromStr` does.
pub fn parse_decimal(s: &[u8]) -> (r: Option<usize>)
    ensures
        match r {
            Some(n) => decimal_of(s@) == Some(n as nat),
            None => decimal_of(s@) is None,
        },
{
    let start: usize = if s.len() > 0 && s[0] == 43 { 1 } else { 0 };
    let ghost d = unsigned_digits(s@);
    assert(d =~= s@.subrange(start as int, s@.len() as int));
    if start >= s.len() {
        return None;
    }
    let mut acc: usize = 0;
    let mut over = false;
    let mut i: usize = start;
    assert(s@.subrange(start as int, start as int) =~= Seq::<u8>::empty());
    while i < s.len()
        invariant
            start <= i <= s@.len(),
            d == s@.subrange(start as int, s@.len() as int),
            d == unsigned_digits(s@),
            forall|k: int| start <= k < i ==> is_digit(#[trigger] s@[k]),
            !over ==> acc == digits_value(s@.subrange(start as int, i as int)),
            over ==> digits_value(s@.subrange(start as int, i as int)) > usize::MAX,
        decreases s@.len() - i,
    {
        let c = s[i];
        if !(48 <= c && c <= 57) {
            assert(d[i - start] == c);
            assert(!is_digit(d[i - start]));
            return None;
        }
        let digit: usize = (c - 48) as usize;
        let ghost prev = digits_value(s@.subrange(start as int, i as int));
        assert(s@.subrange(start as int, i + 1).drop_last() =~= s@.subrange(start as int, i as int));
        assert(digits_value(s@.subrange(start as int, i + 1)) == prev * 10 + digit);
        if !over {
            if acc > (usize::MAX - digit) / 10 {
                assert(acc * 10 + digit > usize::MAX) by (nonlinear_arith)
                    requires acc > (usize::MAX - digit) / 10, digit <= 9;
                over = true;
            } else {
                assert(acc * 10 + digit <= usize::MAX) by (nonlinear_arith)
                    requires acc <= (usize::MAX - digit) / 10, digit <= 9;
                acc = acc * 10 + digit;
            }
        } else {
            assert(prev * 10 + digit > usize::MAX) by (nonlinear_arith)
                requires prev > usize::MAX;
        }
        i = i + 1;
    }
    assert(s@.subrange(start as int, i as int) == d);
    if over {
        None
    } else {
        Some(acc)
    }
}

/// The body length that the headers declare, as a `Content-Length` lookup reads it.
pub fn content_length(hs: &Vec<Header>) -> (r: Result<Option<usize>, Error>)
    ensures
        match r {
            Ok(Some(n)) => declared_length(fields_view(hs@)) == Ok::<_, Error>(Some(n as nat)),
            Ok(None) => declared_length(fields_view(hs@)) == Ok::<Option<nat>, Error>(None),
            Err(e) => declared_length(fields_view(hs@)) == Err::<Option<nat>, _>(e),
        },
{
    let ghost all = fields_view(hs@);
    let name: Vec<u8> = vec![99u8, 111u8, 110u8, 116u8, 101u8, 110u8, 116u8, 45u8, 108u8, 101u8, 110u8, 103u8, 116u8, 104u8];
    assert(name@ =~= content_length_name());
    let mut i: usize = 0;
    assert(all.skip(0) =~= all);
    while i < hs.len()
        invariant
            i <= hs@.len(),
            all == fields_view(hs@),
            name@ == content_length_name(),
            first_value(all, name@) == first_value(all.skip(i as int), name@),
        decreases hs@.len() - i,
    {
        assert(all.skip(i as int)[0] == hs@[i as int]@);
        assert(all.skip(i as int).skip(1) =~= all.skip(i + 1));
        if same_bytes(hs[i].name.as_slice(), name.as_slice()) {
            let v = hs[i].value.as_slice();
            assert(first_value(all, name@) == Some(v@));
            let mut k: usize = 0;
            while k < v.len()
                invariant
                    k <= v@.len(),
                    forall|j: int| 0 <= j < k ==> visible_byte(#[trigger] v@[j]),
                    first_value(fields_view(hs@), content_length_name()) == Some(v@),
                decreases v@.len() - k,
            {
                let c = v[k];
                if !((c >= 32 && c < 127) || c == 9) {
                    assert(!visible_byte(v@[k as int]));
                    return Err(Error::ContentLengthNotString);
                }
                k = k + 1;
            }
            return match parse_decimal(v) {
                Some(n) => Ok(Some(n)),
                None => Err(Error::ContentLengthNotUsize),
            };
        }
        i = i + 1;
    }
    Ok(None)
}

/// Whether two byte strings are equal.
pub fn same_bytes(a: &[u8], b: &[u8]) -> (r: bool)
    ensures
        r == (a@ == b@),
{
    if a.len() != b.len() {
        return false;
    }
    let mut i: usize = 0;
    while i < a.len()
        invariant
            i <= a@.len(),
            a@.len() == b@.len(),
            forall|j: int| 0 <= j < i ==> a@[j] == b@[j],
        decreases a@.len() - i,
    {
        if a[i] != b[i] {
            return false;
        }
        i = i + 1;
    }
    assert(a@ =~= b@);
    true
}

} // verus!
