//! The incremental multipart parser.
//!
//! Bytes arrive in chunks of any size through [`Parser::feed`]; each call of
//! [`Parser::next_part`] goes as far as the buffered bytes allow: it skips blank
//! lines, matches the boundary line, reads a header block, and takes a body of the
//! declared length, or up to the next boundary line when no length is declared.
//! What each call does is stated by `step`, over the parser's phase and its
//! buffered bytes.

use vstd::prelude::*;
use vstd::string::StringSliceAdditionalSpecFns;
use crate::buffer::{buffered, contents, discard, frozen, new_buffer, append, take_front};
use crate::error::Error;
use crate::headers::{
    check_fields, checked_fields, content_length, declared_length, fields_view, header_block_of,
    scan_headers, Header, HeaderScan,
};

verus! {

/// How many header lines a part may have.
pub const MAX_PART_HEADERS: usize = 16;

/// One part of the stream: its headers, in order, and its body.
#[derive(Debug)]
pub struct Part {
    pub headers: Vec<Header>,
    pub body: bytes::Bytes,
}

impl Part {
    /// The (name, value) pairs of the headers.
    pub open spec fn fields(&self) -> Seq<(Seq<u8>, Seq<u8>)> {
        fields_view(self.headers@)
    }

    /// The bytes of the body.
    pub open spec fn body_bytes(&self) -> Seq<u8> {
        frozen(self.body)
    }
}

/// Where the parser stands, as a mathematical value.
pub ghost enum Phase {
    /// Skipping `\r\n` pairs before a boundary line.
    Newlines,
    /// Matching the boundary line; that many of its bytes are matched already.
    Boundary(nat),
    /// Waiting for a complete header block.
    Headers,
    /// Waiting for a body: the part's headers, and its length once known.
    Body(Seq<(Seq<u8>, Seq<u8>)>, Option<nat>),
    /// Finished: nothing more will be produced.
    Done,
}

/// What one call of [`Parser::next_part`] reports, as a mathematical value.
pub ghost enum Outcome {
    /// More input is needed.
    Pending,
    /// A part: its headers and its body.
    Ready(Seq<(Seq<u8>, Seq<u8>)>, Seq<u8>),
    /// The parser has finished.
    End,
    /// Parsing failed; the parser has finished.
    Failed(Error),
}

/// What one call of [`Parser::next_part`] reports.
#[derive(Debug)]
pub enum Step {
    /// More input is needed: feed the next chunk, or report the end of input.
    Pending,
    /// A complete part.
    Ready(Part),
    /// The parser has finished.
    End,
    /// Parsing failed; the parser has finished.
    Failed(Error),
}

impl Step {
    pub open spec fn view(&self) -> Outcome {
        match self {
            Step::Pending => Outcome::Pending,
            Step::Ready(p) => Outcome::Ready(p.fields(), p.body_bytes()),
            Step::End => Outcome::End,
            Step::Failed(e) => Outcome::Failed(*e),
        }
    }
}

enum State {
    Newlines,
    Boundary { pos: usize },
    Headers,
    Body { headers: Vec<Header>, body_len: Option<usize> },
    Done,
}

impl State {
    spec fn view(&self) -> Phase {
        match self {
            State::Newlines => Phase::Newlines,
            State::Boundary { pos } => Phase::Boundary(*pos as nat),
            State::Headers => Phase::Headers,
            State::Body { headers, body_len } => Phase::Body(
                fields_view(headers@),
                match body_len {
                    Some(n) => Some(*n as nat),
                    None => None,
                },
            ),
            State::Done => Phase::Done,
        }
    }
}

/// Whether `n` occurs in `h` at offset `i`.
pub open spec fn occurs_at(h: Seq<u8>, n: Seq<u8>, i: int) -> bool {
    0 <= i && i + n.len() <= h.len() && h.subrange(i, i + n.len()) == n
}

/// The first offset, from `i` on, where `n` occurs in `h`.
pub open spec fn find_from(h: Seq<u8>, n: Seq<u8>, i: nat) -> Option<nat>
    decreases h.len() + 1 - i,
{
    if i + n.len() > h.len() {
        None
    } else if occurs_at(h, n, i as int) {
        Some(i)
    } else {
        find_from(h, n, i + 1)
    }
}

/// The first offset where `n` occurs in `h`.
pub open spec fn first_occurrence(h: Seq<u8>, n: Seq<u8>) -> Option<nat> {
    find_from(h, n, 0)
}

/// Relies on `memchr::memmem::find`: the offset of the first occurrence of `needle`
/// in `haystack`.
#[verifier::external_body]
fn find_boundary(haystack: &[u8], needle: &[u8]) -> (r: Option<usize>)
    ensures
        match r {
            Some(i) => first_occurrence(haystack@, needle@) == Some(i as nat),
            None => first_occurrence(haystack@, needle@) is None,
        },
{
    memchr::memmem::find(haystack, needle)
}

/// Whether `b` starts with `\r\n`.
pub open spec fn starts_with_crlf(b: Seq<u8>) -> bool {
    b.len() >= 2 && b[0] == 13 && b[1] == 10
}

/// `b` without its leading `\r\n` pairs.
pub open spec fn skip_newlines(b: Seq<u8>) -> Seq<u8>
    decreases b.len(),
{
    if starts_with_crlf(b) {
        skip_newlines(b.skip(2))
    } else {
        b
    }
}

/// The wire form of a boundary token: `--` in front unless it is there already,
/// and `\r\n` after.
pub open spec fn boundary_line(token: Seq<u8>) -> Seq<u8> {
    let dashes = seq![45u8, 45u8];
    let crlf = seq![13u8, 10u8];
    if token.len() >= 2 && token.subrange(0, 2) == dashes {
        token + crlf
    } else {
        dashes + token + crlf
    }
}

/// One call's result: the next phase, the bytes left buffered, and the outcome.
pub type Stepped = (Phase, Seq<u8>, Outcome);

/// The settings a parser runs with: the boundary line and the two ceilings.
pub ghost struct Config {
    pub line: Seq<u8>,
    pub max_header_bytes: usize,
    pub max_body_bytes: usize,
}

/// Waiting for a body: with no declared length, the body runs up to the next
/// boundary line; a buffer past the body ceiling with no boundary in it is an
/// error. A body of known length `n > 0` is taken once `n` bytes are buffered; a
/// zero length never completes.
pub open spec fn step_body(hs: Seq<(Seq<u8>, Seq<u8>)>, len: Option<nat>, b: Seq<u8>, c: Config) -> Stepped {
    let found = if len is None { first_occurrence(b, c.line) } else { len };
    if len is None && found is None && b.len() > c.max_body_bytes {
        (Phase::Done, b, Outcome::Failed(Error::BodyTooLong { len: b.len() as usize, max: c.max_body_bytes }))
    } else {
        match found {
            Some(n) if b.len() >= n && n > 0 => (Phase::Newlines, b.skip(n as int), Outcome::Ready(hs, b.take(n as int))),
            _ => (Phase::Body(hs, found), b, Outcome::Pending),
        }
    }
}

/// Waiting for a header block: an incomplete one at the header ceiling is an
/// error; a complete one is checked, dropped from the buffer, and its declared
/// length checked against the body ceiling.
pub open spec fn step_headers(b: Seq<u8>, c: Config) -> Stepped {
    match header_block_of(b, MAX_PART_HEADERS as nat) {
        Err(()) => (Phase::Done, b, Outcome::Failed(Error::InvalidHeaders)),
        Ok(None) => if b.len() >= c.max_header_bytes {
            (Phase::Done, b, Outcome::Failed(Error::HeaderTooLong { len: b.len() as usize, max: c.max_header_bytes }))
        } else {
            (Phase::Headers, b, Outcome::Pending)
        },
        Ok(Some((n, raw))) => match checked_fields(raw) {
            Err(e) => (Phase::Done, b, Outcome::Failed(e)),
            Ok(hs) => {
                let rest = b.skip(n as int);
                match declared_length(hs) {
                    Err(e) => (Phase::Done, rest, Outcome::Failed(e)),
                    Ok(Some(l)) if l > c.max_body_bytes => (
                        Phase::Done,
                        rest,
                        Outcome::Failed(Error::BodyTooLong { len: l as usize, max: c.max_body_bytes }),
                    ),
                    Ok(len) => step_body(hs, len, rest, c),
                }
            },
        },
    }
}

/// Matching the boundary line from offset `pos`: as many bytes as are buffered
/// must match it; once it is complete, headers follow.
pub open spec fn step_boundary(pos: nat, b: Seq<u8>, c: Config) -> Stepped {
    let want = c.line.len() - pos;
    let len = if want <= b.len() { want } else { b.len() as int };
    if b.take(len) != c.line.subrange(pos as int, pos + len) {
        (Phase::Done, b, Outcome::Failed(Error::BadBoundary))
    } else if pos + len < c.line.len() {
        (Phase::Boundary((pos + len) as nat), b.skip(len), Outcome::Pending)
    } else {
        step_headers(b.skip(len), c)
    }
}

/// Skipping blank lines: a byte that is not part of a `\r\n` pair starts the
/// boundary line.
pub open spec fn step_newlines(b: Seq<u8>, c: Config) -> Stepped {
    let r = skip_newlines(b);
    if r.len() >= 2 || (r.len() == 1 && r[0] != 13) {
        step_boundary(0, r, c)
    } else {
        (Phase::Newlines, r, Outcome::Pending)
    }
}

/// What one call of [`Parser::next_part`] does, from the phase and the buffered bytes.
pub open spec fn step(p: Phase, b: Seq<u8>, c: Config) -> Stepped {
    match p {
        Phase::Newlines => step_newlines(b, c),
        Phase::Boundary(pos) => step_boundary(pos, b, c),
        Phase::Headers => step_headers(b, c),
        Phase::Body(hs, len) => step_body(hs, len, b, c),
        Phase::Done => (Phase::Done, b, Outcome::End),
    }
}

/// Parses a stream of byte chunks into parts. Built by [`ParserBuilder::parse`].
pub struct Parser {
    /// The boundary with `--` prefix and `\r\n` suffix.
    boundary: Vec<u8>,
    buf: bytes::BytesMut,
    state: State,
    max_header_bytes: usize,
    max_body_bytes: usize,
}

impl Parser {
    pub closed spec fn phase(&self) -> Phase {
        self.state@
    }

    /// The bytes received and not yet consumed.
    pub closed spec fn pending(&self) -> Seq<u8> {
        buffered(self.buf)
    }

    pub closed spec fn config(&self) -> Config {
        Config { line: self.boundary@, max_header_bytes: self.max_header_bytes, max_body_bytes: self.max_body_bytes }
    }

    /// The boundary line is never empty, and a partial match stays inside it.
    pub closed spec fn wf(&self) -> bool {
        &&& self.boundary@.len() >= 4
        &&& self.state@ matches Phase::Boundary(pos) ==> pos < self.boundary@.len()
    }

    /// The boundary and the ceilings are those of `other`.
    pub closed spec fn kept(&self, other: Parser) -> bool {
        &&& self.boundary == other.boundary
        &&& self.max_header_bytes == other.max_header_bytes
        &&& self.max_body_bytes == other.max_body_bytes
    }

    /// Goes as far as the buffered bytes allow, as `step` states: at most one part
    /// comes out per call, and after an error the parser is finished.
    pub fn next_part(&mut self) -> (r: Step)
        requires
            old(self).wf(),
        ensures
            (final(self).phase(), final(self).pending(), r@) == step(old(self).phase(), old(self).pending(), old(self).config()),
            final(self).config() == old(self).config(),
            final(self).kept(*old(self)),
            final(self).wf(),
    {
        let mut st = State::Done;
        std::mem::swap(&mut st, &mut self.state);
        match st {
            State::Newlines => self.run_newlines(),
            State::Boundary { pos } => self.run_boundary(pos),
            State::Headers => self.run_headers(),
            State::Body { headers, body_len } => self.run_body(headers, body_len),
            State::Done => Step::End,
        }
    }

    /// Appends a chunk of input to the buffered bytes.
    pub fn feed(&mut self, chunk: &[u8])
        requires
            old(self).pending().len() + chunk@.len() <= isize::MAX,
        ensures
            final(self).pending() == old(self).pending() + chunk@,
            final(self).phase() == old(self).phase(),
            final(self).config() == old(self).config(),
            final(self).kept(*old(self)),
            final(self).wf() == old(self).wf(),
    {
        append(&mut self.buf, chunk);
    }

    /// Reports that the input has ended. Between parts that is a clean end (`None`);
    /// in the middle of a part it is an error. Either way the parser is finished.
    pub fn end_of_input(&mut self) -> (r: Option<Error>)
        requires
            old(self).wf(),
        ensures
            r == (match old(self).phase() {
                Phase::Newlines | Phase::Done => None,
                _ => Some(Error::UnexpectedEof),
            }),
            final(self).phase() == Phase::Done,
            final(self).pending() == old(self).pending(),
            final(self).config() == old(self).config(),
            final(self).kept(*old(self)),
            final(self).wf(),
    {
        let r = match self.state {
            State::Newlines | State::Done => None,
            _ => Some(Error::UnexpectedEof),
        };
        self.state = State::Done;
        r
    }

    /// Reports that reading the input failed with `message`: the error to hand on.
    /// The parser is finished.
    pub fn fail_underlying(&mut self, message: String) -> (r: Error)
        requires
            old(self).wf(),
        ensures
            r == Error::Underlying(message),
            final(self).phase() == Phase::Done,
            final(self).pending() == old(self).pending(),
            final(self).config() == old(self).config(),
            final(self).kept(*old(self)),
            final(self).wf(),
    {
        self.state = State::Done;
        Error::Underlying(message)
    }

    /// How many bytes are buffered and not yet consumed.
    pub fn buffered_len(&self) -> (r: usize)
        ensures
            r == self.pending().len(),
    {
        contents(&self.buf).len()
    }

    /// Whether the parser has finished.
    pub fn is_done(&self) -> (r: bool)
        ensures
            r == (self.phase() == Phase::Done),
    {
        match self.state {
            State::Done => true,
            _ => false,
        }
    }

    fn run_headers(&mut self) -> (r: Step)
        ensures
            (final(self).phase(), final(self).pending(), r@) == step_headers(old(self).pending(), old(self).config()),
            final(self).kept(*old(self)),
    {
        let b = contents(&self.buf);
        let len = b.len();
        match scan_headers(b, MAX_PART_HEADERS) {
            HeaderScan::Invalid => {
                self.state = State::Done;
                Step::Failed(Error::InvalidHeaders)
            },
            HeaderScan::Partial => {
                if len >= self.max_header_bytes {
                    self.state = State::Done;
                    Step::Failed(Error::HeaderTooLong { len, max: self.max_header_bytes })
                } else {
                    self.state = State::Headers;
                    Step::Pending
                }
            },
            HeaderScan::Complete { consumed, fields } => {
                match check_fields(fields) {
                    Err(e) => {
                        self.state = State::Done;
                        Step::Failed(e)
                    },
                    Ok(headers) => {
                        let ghost before = buffered(self.buf);
                        discard(&mut self.buf, consumed);
                        assert(buffered(self.buf) =~= before.skip(consumed as int));
                        match content_length(&headers) {
                            Err(e) => {
                                self.state = State::Done;
                                Step::Failed(e)
                            },
                            Ok(Some(l)) => {
                                if l > self.max_body_bytes {
                                    self.state = State::Done;
                                    Step::Failed(Error::BodyTooLong { len: l, max: self.max_body_bytes })
                                } else {
                                    self.run_body(headers, Some(l))
                                }
                            },
                            Ok(None) => self.run_body(headers, None),
                        }
                    },
                }
            },
        }
    }

    fn run_boundary(&mut self, pos: usize) -> (r: Step)
        requires
            pos < old(self).boundary@.len(),
        ensures
            (final(self).phase(), final(self).pending(), r@) == step_boundary(pos as nat, old(self).pending(), old(self).config()),
            final(self).kept(*old(self)),
    {
        let ghost start = *self;
        let b = contents(&self.buf);
        let want = self.boundary.len() - pos;
        let len = if want <= b.len() { want } else { b.len() };
        let mut i: usize = 0;
        while i < len
            invariant
                start == *old(self),
                *self == start,
                b@ == buffered(start.buf),
                want == self.boundary@.len() - pos,
                self.boundary@.len() <= usize::MAX,
                len == (if want <= b@.len() { want as int } else { b@.len() as int }),
                i <= len <= b@.len(),
                pos + len <= self.boundary@.len(),
                forall|j: int| 0 <= j < i ==> b@[j] == self.boundary@[pos + j],
            decreases len - i,
        {
            if b[i] != self.boundary[pos + i] {
                assert(b@.take(len as int)[i as int] != self.boundary@.subrange(pos as int, pos + len)[i as int]);
                self.state = State::Done;
                return Step::Failed(Error::BadBoundary);
            }
            i = i + 1;
        }
        assert(b@.take(len as int) =~= self.boundary@.subrange(pos as int, pos + len));
        let ghost before = buffered(self.buf);
        discard(&mut self.buf, len);
        assert(buffered(self.buf) =~= before.skip(len as int));
        if pos + len < self.boundary.len() {
            self.state = State::Boundary { pos: pos + len };
            return Step::Pending;
        }
        self.run_headers()
    }

    fn run_newlines(&mut self) -> (r: Step)
        requires
            old(self).boundary@.len() > 0,
        ensures
            (final(self).phase(), final(self).pending(), r@) == step_newlines(old(self).pending(), old(self).config()),
            final(self).kept(*old(self)),
    {
        let ghost start = *self;
        loop
            invariant
                start == *old(self),
                self.kept(start),
                self.boundary@.len() > 0,
                skip_newlines(buffered(self.buf)) == skip_newlines(buffered(start.buf)),
            decreases buffered(self.buf).len(),
        {
            let b = contents(&self.buf);
            if b.len() >= 2 {
                if b[0] == 13 && b[1] == 10 {
                    let ghost before = buffered(self.buf);
                    discard(&mut self.buf, 2);
                    assert(buffered(self.buf) =~= before.skip(2));
                } else {
                    return self.run_boundary(0);
                }
            } else if b.len() == 1 && b[0] != 13 {
                return self.run_boundary(0);
            } else {
                self.state = State::Newlines;
                return Step::Pending;
            }
        }
    }

    fn run_body(&mut self, headers: Vec<Header>, body_len: Option<usize>) -> (r: Step)
        ensures
            (final(self).phase(), final(self).pending(), r@) == step_body(
                fields_view(headers@),
                match body_len { Some(n) => Some(n as nat), None => None },
                old(self).pending(),
                old(self).config(),
            ),
            final(self).kept(*old(self)),
    {
        let mut bl = body_len;
        if bl.is_none() {
            let b = contents(&self.buf);
            match find_boundary(b, self.boundary.as_slice()) {
                Some(n) => {
                    bl = Some(n);
                },
                None => {
                    if b.len() > self.max_body_bytes {
                        let len = b.len();
                        self.state = State::Done;
                        return Step::Failed(Error::BodyTooLong { len, max: self.max_body_bytes });
                    }
                },
            }
        }
        if let Some(n) = bl {
            if contents(&self.buf).len() >= n && n > 0 {
                let ghost before = buffered(self.buf);
                let body = take_front(&mut self.buf, n);
                assert(before.take(n as int) =~= before.subrange(0, n as int));
                assert(before.skip(n as int) =~= before.subrange(n as int, before.len() as int));
                self.state = State::Newlines;
                return Step::Ready(Part { headers, body });
            }
        }
        self.state = State::Body { headers, body_len: bl };
        Step::Pending
    }
}

/// A finished parser stays finished: every later call reports the end and
/// consumes nothing.
pub proof fn lemma_finished_is_terminal(b: Seq<u8>, c: Config)
    ensures
        step(Phase::Done, b, c) == (Phase::Done, b, Outcome::End),
{
}

/// Every error finishes the parser, so nothing follows an error, whatever bytes
/// come after it.
pub proof fn lemma_error_is_terminal(p: Phase, b: Seq<u8>, c: Config)
    ensures
        step(p, b, c).2 is Failed ==> step(p, b, c).0 == Phase::Done,
{
}

/// A header block that is still incomplete at the header ceiling is an error.
pub proof fn lemma_oversized_headers_rejected(b: Seq<u8>, c: Config)
    requires
        header_block_of(b, MAX_PART_HEADERS as nat) == Ok::<_, ()>(None::<(nat, Seq<(Seq<u8>, Seq<u8>)>)>),
        b.len() >= c.max_header_bytes,
    ensures
        step(Phase::Headers, b, c) == (
            Phase::Done,
            b,
            Outcome::Failed(Error::HeaderTooLong { len: b.len() as usize, max: c.max_header_bytes }),
        ),
{
}

/// A declared body length over the body ceiling is an error, before any of the
/// body is read.
pub proof fn lemma_oversized_declared_body_rejected(b: Seq<u8>, c: Config)
    requires
        header_block_of(b, MAX_PART_HEADERS as nat) matches Ok(Some((n, raw)))
            && checked_fields(raw) matches Ok(hs)
            && declared_length(hs) matches Ok(Some(l))
            && l > c.max_body_bytes,
    ensures
        step(Phase::Headers, b, c).0 == Phase::Done,
        step(Phase::Headers, b, c).2 matches Outcome::Failed(Error::BodyTooLong { .. }),
{
}

/// A body of unknown length that passes the body ceiling with no boundary line
/// in sight is an error.
pub proof fn lemma_oversized_body_rejected(hs: Seq<(Seq<u8>, Seq<u8>)>, b: Seq<u8>, c: Config)
    requires
        forall|i: int| !occurs_at(b, c.line, i),
        b.len() > c.max_body_bytes,
    ensures
        step(Phase::Body(hs, None), b, c) == (
            Phase::Done,
            b,
            Outcome::Failed(Error::BodyTooLong { len: b.len() as usize, max: c.max_body_bytes }),
        ),
{
    lemma_find_from_none(b, c.line, 0);
}

/// Bytes that are not valid header syntax, or a header line with a bad name or
/// value, end the stream with an error.
pub proof fn lemma_malformed_headers_rejected(b: Seq<u8>, c: Config)
    requires
        header_block_of(b, MAX_PART_HEADERS as nat) is Err
            || (header_block_of(b, MAX_PART_HEADERS as nat) matches Ok(Some((n, raw))) && checked_fields(raw) is Err),
    ensures
        step(Phase::Headers, b, c).0 == Phase::Done,
        step(Phase::Headers, b, c).2 is Failed,
{
}

/// A body of unknown length ends exactly where the boundary line first occurs:
/// the part holds the bytes before it, and the boundary line stays buffered for
/// the next part.
pub proof fn lemma_body_ends_at_boundary(hs: Seq<(Seq<u8>, Seq<u8>)>, b: Seq<u8>, c: Config, n: int)
    requires
        0 < n,
        occurs_at(b, c.line, n),
        forall|i: int| 0 <= i < n ==> !occurs_at(b, c.line, i),
    ensures
        step(Phase::Body(hs, None), b, c) == (Phase::Newlines, b.skip(n), Outcome::Ready(hs, b.take(n))),
        b.skip(n).take(c.line.len() as int) == c.line,
{
    lemma_find_from_first(b, c.line, 0, n);
    assert(b.skip(n).take(c.line.len() as int) =~= b.subrange(n, n + c.line.len()));
}

/// Blank lines split across chunks: skipping them in the first chunk, then going
/// on with the next, is the same as one call on both chunks together.
pub proof fn lemma_split_blank_lines(b1: Seq<u8>, b2: Seq<u8>, c: Config)
    requires
        step_newlines(b1, c).0 == Phase::Newlines,
        step_newlines(b1, c).2 == Outcome::Pending,
    ensures
        step_newlines(step_newlines(b1, c).1 + b2, c) == step_newlines(b1 + b2, c),
{
    lemma_skip_newlines_append(b1, b2);
    let r = skip_newlines(b1);
    if r.len() >= 2 || (r.len() == 1 && r[0] != 13) {
        lemma_boundary_phase(0, r, c);
    }
}

/// A boundary line split across chunks is matched as if it came whole: the same
/// phase and outcome, and, unless matching failed, the same bytes left buffered.
pub proof fn lemma_split_boundary_line(pos: nat, b1: Seq<u8>, b2: Seq<u8>, c: Config)
    requires
        pos < c.line.len(),
        step_boundary(pos, b1, c).2 == Outcome::Pending,
        step_boundary(pos, b1, c).0 matches Phase::Boundary(_),
    ensures
        ({
            let split = match step_boundary(pos, b1, c).0 {
                Phase::Boundary(q) => step_boundary(q, step_boundary(pos, b1, c).1 + b2, c),
                _ => step_boundary(pos, b1, c),
            };
            let whole = step_boundary(pos, b1 + b2, c);
            &&& split.0 == whole.0
            &&& split.2 == whole.2
            &&& !(whole.2 is Failed) ==> split.1 == whole.1
        }),
{
    let want = c.line.len() - pos;
    let len1 = b1.len() as int;
    assert(pos + len1 < c.line.len());
    let q = (pos + len1) as nat;
    assert(b1.skip(len1) =~= Seq::<u8>::empty());
    assert(b1.take(len1) =~= b1);
    let rest = step_boundary(pos, b1, c).1;
    assert(rest + b2 =~= b2);
    let want2 = c.line.len() - q;
    let len2 = if want2 <= b2.len() { want2 } else { b2.len() as int };
    let all = b1 + b2;
    let len = if want <= all.len() { want } else { all.len() as int };
    assert(len == len1 + len2);
    assert(all.take(len) =~= b1 + b2.take(len2));
    assert(c.line.subrange(pos as int, pos + len) =~= c.line.subrange(pos as int, q as int) + c.line.subrange(q as int, q + len2));
    if b2.take(len2) == c.line.subrange(q as int, q + len2) {
        assert(all.take(len) == c.line.subrange(pos as int, pos + len));
        assert(all.skip(len) =~= b2.skip(len2));
    } else {
        if all.take(len) == c.line.subrange(pos as int, pos + len) {
            assert(b2.take(len2) =~= all.take(len).subrange(len1, len));
            assert(c.line.subrange(q as int, q + len2) =~= c.line.subrange(pos as int, pos + len).subrange(len1, len));
        }
    }
}

/// Once a body is complete, more input does not change it: the same part comes
/// out, and the extra bytes stay buffered behind the rest.
pub proof fn lemma_complete_body_stable(
    hs: Seq<(Seq<u8>, Seq<u8>)>,
    len: Option<nat>,
    b: Seq<u8>,
    more: Seq<u8>,
    c: Config,
)
    requires
        step_body(hs, len, b, c).2 is Ready,
    ensures
        step_body(hs, len, b + more, c).0 == step_body(hs, len, b, c).0,
        step_body(hs, len, b + more, c).1 == step_body(hs, len, b, c).1 + more,
        step_body(hs, len, b + more, c).2 == step_body(hs, len, b, c).2,
{
    let found = if len is None { first_occurrence(b, c.line) } else { len };
    let n = found->Some_0 as int;
    if len is None {
        lemma_find_from_some(b, c.line, 0);
        assert forall|j: int| 0 <= j < n implies !occurs_at(b + more, c.line, j) by {
            assert(!occurs_at(b, c.line, j));
            assert((b + more).subrange(j, j + c.line.len()) =~= b.subrange(j, j + c.line.len()));
        }
        assert((b + more).subrange(n, n + c.line.len()) =~= b.subrange(n, n + c.line.len()));
        lemma_find_from_first(b + more, c.line, 0, n);
    }
    assert((b + more).take(n) =~= b.take(n));
    assert((b + more).skip(n) =~= b.skip(n) + more);
}

/// Leading `\r\n` pairs are skipped the same way whether or not more bytes follow.
proof fn lemma_skip_newlines_append(b1: Seq<u8>, b2: Seq<u8>)
    ensures
        skip_newlines(b1 + b2) == skip_newlines(skip_newlines(b1) + b2),
    decreases b1.len(),
{
    if starts_with_crlf(b1) {
        assert((b1 + b2).skip(2) =~= b1.skip(2) + b2);
        lemma_skip_newlines_append(b1.skip(2), b2);
    }
}

/// Matching a boundary line waits for input only outside the blank-line phase.
proof fn lemma_boundary_phase(pos: nat, b: Seq<u8>, c: Config)
    ensures
        step_boundary(pos, b, c).2 == Outcome::Pending ==> step_boundary(pos, b, c).0 != Phase::Newlines,
{
}

proof fn lemma_find_from_some(h: Seq<u8>, n: Seq<u8>, i: nat)
    requires
        find_from(h, n, i) is Some,
    ensures
        occurs_at(h, n, find_from(h, n, i)->Some_0 as int),
        i <= find_from(h, n, i)->Some_0,
        forall|j: int| i <= j < find_from(h, n, i)->Some_0 ==> !occurs_at(h, n, j),
    decreases h.len() + 1 - i,
{
    if i + n.len() <= h.len() && !occurs_at(h, n, i as int) {
        lemma_find_from_some(h, n, i + 1);
    }
}

proof fn lemma_find_from_none(h: Seq<u8>, n: Seq<u8>, i: nat)
    requires
        forall|j: int| !occurs_at(h, n, j),
    ensures
        find_from(h, n, i) is None,
    decreases h.len() + 1 - i,
{
    if i + n.len() <= h.len() {
        assert(!occurs_at(h, n, i as int));
        lemma_find_from_none(h, n, i + 1);
    }
}

proof fn lemma_find_from_first(h: Seq<u8>, n: Seq<u8>, i: nat, k: int)
    requires
        i <= k,
        occurs_at(h, n, k),
        forall|j: int| i <= j < k ==> !occurs_at(h, n, j),
    ensures
        find_from(h, n, i) == Some(k as nat),
    decreases k - i,
{
    if i < k {
        assert(!occurs_at(h, n, i as int));
        lemma_find_from_first(h, n, i + 1, k);
    }
}

/// Builds a [`Parser`] with ceilings on the size of a header block and of a body.
pub struct ParserBuilder {
    max_header_bytes: usize,
    max_body_bytes: usize,
}

impl ParserBuilder {
    pub closed spec fn header_limit(&self) -> usize {
        self.max_header_bytes
    }

    pub closed spec fn body_limit(&self) -> usize {
        self.max_body_bytes
    }

    /// A builder with no ceilings: both are `usize::MAX`.
    pub fn new() -> (r: Self)
        ensures
            r.header_limit() == usize::MAX,
            r.body_limit() == usize::MAX,
    {
        ParserBuilder { max_header_bytes: usize::MAX, max_body_bytes: usize::MAX }
    }

    /// Sets the header ceiling: an incomplete header block of this many bytes fails.
    pub fn max_header_bytes(self, n: usize) -> (r: Self)
        ensures
            r.header_limit() == n,
            r.body_limit() == self.body_limit(),
    {
        ParserBuilder { max_header_bytes: n, ..self }
    }

    /// Sets the body ceiling: a longer body, declared or buffered, fails.
    pub fn max_body_bytes(self, n: usize) -> (r: Self)
        ensures
            r.header_limit() == self.header_limit(),
            r.body_limit() == n,
    {
        ParserBuilder { max_body_bytes: n, ..self }
    }

    /// A parser for parts separated by `boundary`, as given in the `boundary`
    /// parameter of the `Content-Type` header.
    pub fn parse(self, boundary: &str) -> (r: Parser)
        ensures
            r.wf(),
            r.phase() == Phase::Newlines,
            r.pending() == Seq::<u8>::empty(),
            r.config() == (Config {
                line: boundary_line(boundary.spec_bytes()),
                max_header_bytes: self.header_limit(),
                max_body_bytes: self.body_limit(),
            }),
    {
        let src = boundary.as_bytes();
        let mut line: Vec<u8> = Vec::new();
        let dashed = src.len() >= 2 && src[0] == 45 && src[1] == 45;
        if !dashed {
            line.push(45);
            line.push(45);
        }
        let ghost head = line@;
        let mut i: usize = 0;
        while i < src.len()
            invariant
                i <= src@.len(),
                head.len() <= 2,
                line@ == head + src@.take(i as int),
            decreases src@.len() - i,
        {
            line.push(src[i]);
            assert(src@.take(i + 1) =~= src@.take(i as int).push(src@[i as int]));
            i = i + 1;
        }
        line.push(13);
        line.push(10);
        proof {
            let t = boundary.spec_bytes();
            assert(src@.take(src@.len() as int) =~= t);
            if dashed {
                assert(t.subrange(0, 2) =~= seq![45u8, 45u8]);
                assert(line@ =~= t + seq![13u8, 10u8]);
            } else {
                if t.len() >= 2 {
                    assert(t.subrange(0, 2)[0] != 45 || t.subrange(0, 2)[1] != 45);
                }
                assert(line@ =~= seq![45u8, 45u8] + t + seq![13u8, 10u8]);
            }
        }
        Parser {
            boundary: line,
            buf: new_buffer(),
            state: State::Newlines,
            max_header_bytes: self.max_header_bytes,
            max_body_bytes: self.max_body_bytes,
        }
    }
}

/// A parser with no ceilings, for parts separated by `boundary`.
pub fn parse(boundary: &str) -> (r: Parser)
    ensures
        r.wf(),
        r.phase() == Phase::Newlines,
        r.pending() == Seq::<u8>::empty(),
        r.config() == (Config {
            line: boundary_line(boundary.spec_bytes()),
            max_header_bytes: usize::MAX,
            max_body_bytes: usize::MAX,
        }),
{
    ParserBuilder::new().parse(boundary)
}

} // verus!
