//! The stream format of the chat endpoint, and what both backends share around it.
//!
//! A stream consists of lines. Blank lines and comments are skipped, a
//! `data: [DONE]` line ends it, and any other `data:` line carries a payload.

use crate::req::error;
use crate::req::error::{ApiError, Error, Result};
use crate::text;
use vstd::prelude::*;
use vstd::utf8;

verus! {

/// Path of the chat completions endpoint.
pub const CHAT_PATH: &'static str = "/chat/completions";

/// Path of the list-models endpoint.
pub const MODELS_PATH: &'static str = "/models";

/// Path of the account-balance endpoint.
pub const BALANCE_PATH: &'static str = "/user/balance";

/// Whether a status says that the request succeeded.
pub open spec fn is_success(status: u16) -> bool {
    200 <= status < 300
}

/// Builds an [`Error::Api`] from a non-2xx status code and the raw body.
pub fn api_error(status: u16, body: &str) -> (e: Error)
    ensures
        e matches Error::Api(api) && api.status == status && api.kind == error::kind_of(status)
            && api.message@ == error::message_or_body(
            error::structured_message(body@),
            body@,
        ),
{
    Error::Api(ApiError::from_status(status, body))
}

/// Lets the body of a successful response through; any other status is an API
/// error.
pub fn check_status(status: u16, body: String) -> (r: Result<String>)
    ensures
        if is_success(status) {
            r == Result::<String>::Ok(body)
        } else {
            r matches Err(Error::Api(api)) && api.status == status && api.kind == error::kind_of(
                status,
            ) && api.message@ == error::message_or_body(
                error::structured_message(body@),
                body@,
            )
        },
{
    if 200 <= status && status < 300 {
        Ok(body)
    } else {
        Err(api_error(status, body.as_str()))
    }
}

// ---------------------------------------------------------------------------
// Lines
// ---------------------------------------------------------------------------

/// The outcome of decoding one line of a stream.
#[derive(Debug, PartialEq, Eq)]
pub enum Sse {
    /// A payload.
    Data(String),
    /// The `[DONE]` terminator.
    Done,
    /// A line to ignore.
    Skip,
}

/// The outcome of decoding a line, as contracts see it.
#[verifier::ext_equal]
pub enum SseView {
    /// A payload.
    Data(Seq<char>),
    /// The terminator.
    Done,
    /// A line to ignore.
    Skip,
}

impl View for Sse {
    type V = SseView;

    open spec fn view(&self) -> SseView {
        match self {
            Sse::Data(s) => SseView::Data(s@),
            Sse::Done => SseView::Done,
            Sse::Skip => SseView::Skip,
        }
    }
}

/// `line` without the carriage returns and line feeds at its end.
pub open spec fn unterminated(line: Seq<char>) -> Seq<char>
    decreases line.len(),
{
    if line.len() > 0 && (line.last() == '\r' || line.last() == '\n') {
        unterminated(line.drop_last())
    } else {
        line
    }
}

/// What a line of the stream says.
pub open spec fn decoded(line: Seq<char>) -> SseView {
    let s = unterminated(line);
    if !text::begins_with(s, "data:"@) {
        SseView::Skip
    } else {
        let data = text::trimmed_start(s.skip(5));
        if data == "[DONE]"@ {
            SseView::Done
        } else {
            SseView::Data(data)
        }
    }
}

/// Decodes a single line: blank lines, comments and fields other than `data:` are
/// skipped, `data: [DONE]` terminates, and any other `data:` line is a payload.
pub fn decode_line(line: &str) -> (sse: Sse)
    ensures
        sse@ == decoded(line@),
{
    let chars: Vec<char> = text::chars_of(line);
    let mut end: usize = chars.len();
    assert(line@.take(end as int) == line@);
    while end > 0 && (chars[end - 1] == '\r' || chars[end - 1] == '\n')
        invariant
            end <= chars@.len(),
            chars@ == line@,
            unterminated(line@) == unterminated(line@.take(end as int)),
        decreases end,
    {
        assert(line@.take(end as int).drop_last() == line@.take(end - 1));
        end -= 1;
    }
    let ghost s = line@.take(end as int);
    assert(unterminated(line@) == s);
    let rest = text::from_chars(&chars, 0, end);
    assert(rest@ == s);
    let kept: Vec<char> = text::chars_of(rest.as_str());
    proof {
        reveal_strlit("data:");
    }
    if !text::starts_with(&kept, "data:") {
        return Sse::Skip;
    }
    let mut from: usize = 5;
    while from < kept.len() && text::white(kept[from])
        invariant
            5 <= from <= kept@.len(),
            kept@ == s,
            text::trimmed_start(s.skip(5)) == text::trimmed_start(s.skip(from as int)),
        decreases kept@.len() - from,
    {
        assert(s.skip(from as int)[0] == s[from as int]);
        assert(s.skip(from as int).drop_first() == s.skip(from + 1));
        from += 1;
    }
    proof {
        if from < kept@.len() {
            assert(s.skip(from as int)[0] == s[from as int]);
        }
        assert(text::trimmed_start(s.skip(5)) == s.skip(from as int));
        assert(s.subrange(from as int, s.len() as int) == s.skip(from as int));
    }
    let data = text::from_chars(&kept, from, kept.len());
    if text::text_eq(data.as_str(), "[DONE]") {
        Sse::Done
    } else {
        Sse::Data(data)
    }
}

/// Blank lines and comments carry nothing.
pub proof fn law_comments_are_skipped(line: Seq<char>)
    requires
        unterminated(line).len() == 0 || unterminated(line)[0] == ':',
    ensures
        decoded(line) == SseView::Skip,
{
    reveal_strlit("data:");
    let s = unterminated(line);
    if text::begins_with(s, "data:"@) {
        assert(s.take(5)[0] == s[0]);
    }
}

// ---------------------------------------------------------------------------
// Line by line
// ---------------------------------------------------------------------------

/// What came when the next line was asked for.
#[derive(Debug, PartialEq, Eq)]
pub enum LineRead {
    /// There is none.
    End,
    /// It could not be read; what the reader said.
    Failed(String),
    /// A line, without its ending.
    Line(String),
}

/// What a stream does next.
#[derive(Debug, PartialEq, Eq)]
pub enum StreamStep {
    /// Asks for another line.
    Again,
    /// Ends.
    End,
    /// Yields the chunk that this payload denotes.
    Payload(String),
    /// Yields this error, and ends.
    Fail(Error),
}

/// A synchronous stream of chunks.
#[derive(Debug, PartialEq, Eq)]
pub struct ChatStream {
    /// Whether the stream has ended.
    pub done: bool,
}

impl ChatStream {
    /// A stream that has not ended.
    pub fn new() -> (s: Self)
        ensures
            !s.done,
    {
        ChatStream { done: false }
    }

    /// What the stream does with what came when the next line was asked for. It
    /// ends at the end of the lines, at `[DONE]` and behind an error, and then stays
    /// ended.
    pub fn next(&mut self, read: LineRead) -> (step: StreamStep)
        ensures
            if old(self).done {
                step == StreamStep::End && final(self).done
            } else {
                match read {
                    LineRead::End => step == StreamStep::End && final(self).done,
                    LineRead::Failed(why) => step == StreamStep::Fail(
                        Error::Transport(error::TransportError::Other(why)),
                    ) && final(self).done,
                    LineRead::Line(line) => match decoded(line@) {
                        SseView::Skip => step == StreamStep::Again && !final(self).done,
                        SseView::Done => step == StreamStep::End && final(self).done,
                        SseView::Data(data) => step matches StreamStep::Payload(s) && s@ == data
                            && !final(self).done,
                    },
                }
            },
    {
        if self.done {
            return StreamStep::End;
        }
        match read {
            LineRead::End => {
                self.done = true;
                StreamStep::End
            },
            LineRead::Failed(why) => {
                self.done = true;
                StreamStep::Fail(Error::Transport(error::TransportError::Other(why)))
            },
            LineRead::Line(line) => match decode_line(line.as_str()) {
                Sse::Skip => StreamStep::Again,
                Sse::Done => {
                    self.done = true;
                    StreamStep::End
                },
                Sse::Data(data) => StreamStep::Payload(data),
            },
        }
    }
}

// ---------------------------------------------------------------------------
// Bytes as they arrive
// ---------------------------------------------------------------------------

/// What `String::from_utf8_lossy` makes of a run of bytes.
pub uninterp spec fn lossy_text(bytes: Seq<u8>) -> Seq<char>;

/// Decodes bytes with `String::from_utf8_lossy`. Bytes that are UTF-8 are decoded
/// as such; what takes the place of those that are not is left to that function.
#[verifier::external_body]
fn decode_lossy(bytes: &Vec<u8>) -> (s: String)
    ensures
        s@ == lossy_text(bytes@),
        utf8::valid_utf8(bytes@) ==> s@ == utf8::decode_utf8(bytes@),
{
    String::from_utf8_lossy(bytes).into_owned()
}

/// The text of a line: its bytes decoded where they are UTF-8, and else what
/// `String::from_utf8_lossy` makes of them.
pub open spec fn line_text(bytes: Seq<u8>) -> Seq<char> {
    if utf8::valid_utf8(bytes) {
        utf8::decode_utf8(bytes)
    } else {
        lossy_text(bytes)
    }
}

/// Where the first line feed stands among `bytes`, or how many there are.
pub open spec fn feed_byte(bytes: Seq<u8>) -> int
    decreases bytes.len(),
{
    if bytes.len() == 0 || bytes[0] == 10 {
        0
    } else {
        1 + feed_byte(bytes.drop_first())
    }
}

/// What complete lines yield: the payloads in order, the bytes behind the last
/// line that was looked at, and whether the terminator was met.
pub open spec fn drained(bytes: Seq<u8>) -> (Seq<Seq<char>>, Seq<u8>, bool)
    decreases bytes.len(),
{
    let i = feed_byte(bytes);
    if 0 <= i < bytes.len() {
        let rest = bytes.skip(i + 1);
        match decoded(line_text(bytes.take(i + 1))) {
            SseView::Skip => drained(rest),
            SseView::Done => (Seq::empty(), rest, true),
            SseView::Data(data) => (
                seq![data] + drained(rest).0,
                drained(rest).1,
                drained(rest).2,
            ),
        }
    } else {
        (Seq::empty(), bytes, false)
    }
}

/// A stream of which bytes arrive in pieces of any size.
#[derive(Debug, PartialEq, Eq)]
pub struct SseBuffer {
    /// The bytes of the line that is not complete yet.
    pub buf: Vec<u8>,
    /// Whether the terminator was met.
    pub done: bool,
}

pub proof fn lemma_feed_byte(bytes: Seq<u8>)
    ensures
        0 <= feed_byte(bytes) <= bytes.len(),
        feed_byte(bytes) < bytes.len() ==> bytes[feed_byte(bytes)] == 10,
    decreases bytes.len(),
{
    if bytes.len() > 0 && bytes[0] != 10 {
        lemma_feed_byte(bytes.drop_first());
    }
}

impl SseBuffer {
    /// A stream of which nothing has arrived.
    pub fn new() -> (b: Self)
        ensures
            b.buf@ == Seq::<u8>::empty(),
            !b.done,
    {
        SseBuffer { buf: Vec::new(), done: false }
    }

    /// Takes in the bytes that have arrived, and hands back the payloads of the
    /// lines that are complete now, up to the terminator. Behind the terminator
    /// nothing is taken in.
    pub fn feed(&mut self, bytes: &[u8]) -> (payloads: Vec<String>)
        ensures
            if old(self).done {
                payloads@.len() == 0 && *final(self) == *old(self)
            } else {
                let (data, rest, done) = drained(old(self).buf@ + bytes@);
                text::views(payloads@) == data && final(self).buf@ == rest && final(self).done
                    == done
            },
    {
        let mut payloads: Vec<String> = Vec::new();
        if self.done {
            return payloads;
        }
        let mut all: Vec<u8> = Vec::new();
        all.append(&mut self.buf);
        let ghost held = all@;
        let mut k: usize = 0;
        assert(held + bytes@.take(0) == held);
        while k < bytes.len()
            invariant
                k <= bytes@.len(),
                all@ == held + bytes@.take(k as int),
            decreases bytes@.len() - k,
        {
            all.push(bytes[k]);
            assert(bytes@.take(k + 1) == bytes@.take(k as int).push(bytes@[k as int]));
            k += 1;
        }
        assert(bytes@.take(k as int) == bytes@);
        let ghost whole = all@;
        let ghost total = drained(whole);
        let mut start: usize = 0;
        let mut at: usize = 0;
        proof {
            assert(whole.skip(0) == whole);
            assert(text::views(payloads@) + total.0 == total.0);
        }
        while at < all.len() && !self.done
            invariant
                all@ == whole,
                total == drained(whole),
                start <= at <= all@.len(),
                !self.done ==> feed_byte(whole.skip(start as int)) == (at - start) + feed_byte(
                    whole.skip(at as int),
                ),
                !self.done ==> total == resumed(
                    text::views(payloads@),
                    drained(whole.skip(start as int)),
                ),
                self.done ==> total == (text::views(payloads@), whole.skip(start as int), true),
            decreases all@.len() - at, (if self.done {
                0int
            } else {
                1int
            }),
        {
            let ghost rest = whole.skip(start as int);
            proof {
                lemma_feed_byte(rest);
                assert(whole.skip(at as int)[0] == whole[at as int]);
            }
            if all[at] == 10 {
                let ghost before = text::views(payloads@);
                let line = copy_bytes(&all, start, at + 1);
                proof {
                    assert(feed_byte(rest) == at - start);
                    assert(rest.take(at + 1 - start) == whole.subrange(start as int, at + 1));
                    assert(rest.skip(at + 1 - start) == whole.skip(at + 1));
                }
                match decode_line(decode_lossy(&line).as_str()) {
                    Sse::Skip => {},
                    Sse::Done => {
                        self.done = true;
                        assert(before + Seq::<Seq<char>>::empty() == before);
                    },
                    Sse::Data(data) => {
                        let ghost view = data@;
                        payloads.push(data);
                        proof {
                            assert(text::views(payloads@) == before.push(view));
                            let more = drained(whole.skip(at + 1)).0;
                            assert(before + (seq![view] + more) == text::views(payloads@) + more);
                        }
                    },
                }
                at += 1;
                start = at;
            } else {
                assert(whole.skip(at as int).drop_first() == whole.skip(at + 1));
                at += 1;
            }
        }
        let n: usize = all.len();
        proof {
            if !self.done {
                assert(whole.skip(at as int).len() == 0);
                let rest = whole.skip(start as int);
                assert(feed_byte(rest) == rest.len());
                assert(drained(rest) == (Seq::<Seq<char>>::empty(), rest, false));
                assert(text::views(payloads@) + Seq::<Seq<char>>::empty() == text::views(
                    payloads@,
                ));
            }
            assert(whole.subrange(start as int, n as int) == whole.skip(start as int));
        }
        self.buf = copy_bytes(&all, start, n);
        payloads
    }

    /// The payload of a last line that arrived without a line feed, if it carries
    /// one.
    pub fn finish(&self) -> (payload: Option<String>)
        ensures
            if self.done || self.buf@.len() == 0 {
                payload is None
            } else {
                match decoded(line_text(self.buf@)) {
                    SseView::Data(data) => payload matches Some(s) && s@ == data,
                    _ => payload is None,
                }
            },
    {
        if self.done || self.buf.is_empty() {
            return None;
        }
        match decode_line(decode_lossy(&self.buf).as_str()) {
            Sse::Data(data) => Some(data),
            _ => None,
        }
    }
}

/// `done`, and what the rest yields.
spec fn resumed(done: Seq<Seq<char>>, rest: (Seq<Seq<char>>, Seq<u8>, bool)) -> (
    Seq<Seq<char>>,
    Seq<u8>,
    bool,
) {
    (done + rest.0, rest.1, rest.2)
}

/// The bytes `from..to`.
fn copy_bytes(all: &Vec<u8>, from: usize, to: usize) -> (part: Vec<u8>)
    requires
        from <= to <= all@.len(),
    ensures
        part@ == all@.subrange(from as int, to as int),
{
    let mut part: Vec<u8> = Vec::new();
    let mut i: usize = from;
    while i < to
        invariant
            from <= i <= to <= all@.len(),
            part@ == all@.subrange(from as int, i as int),
        decreases to - i,
    {
        part.push(all[i]);
        assert(all@.subrange(from as int, i + 1) == all@.subrange(from as int, i as int).push(
            all@[i as int],
        ));
        i += 1;
    }
    part
}

proof fn lemma_feed_byte_add(a: Seq<u8>, b: Seq<u8>)
    ensures
        feed_byte(a) < a.len() ==> feed_byte(a + b) == feed_byte(a),
        feed_byte(a) >= a.len() ==> feed_byte(a + b) == a.len() + feed_byte(b),
    decreases a.len(),
{
    if a.len() == 0 {
        assert(a + b == b);
    } else if a[0] != 10 {
        assert((a + b).drop_first() == a.drop_first() + b);
        lemma_feed_byte_add(a.drop_first(), b);
    }
}

/// How the bytes are cut into pieces on their way does not matter: taking in two
/// pieces one after the other yields what taking in both at once yields.
pub proof fn law_pieces_of_a_stream_do_not_matter(a: Seq<u8>, b: Seq<u8>)
    ensures
        ({
            let (data, rest, done) = drained(a);
            let (more, last, ended) = drained(rest + b);
            if done {
                drained(a + b) == (data, rest + b, true)
            } else {
                drained(a + b) == (data + more, last, ended)
            }
        }),
    decreases a.len(),
{
    lemma_feed_byte(a);
    lemma_feed_byte_add(a, b);
    let i = feed_byte(a);
    if i < a.len() {
        let rest = a.skip(i + 1);
        assert((a + b).take(i + 1) == a.take(i + 1));
        assert((a + b).skip(i + 1) == rest + b);
        law_pieces_of_a_stream_do_not_matter(rest, b);
        match decoded(line_text(a.take(i + 1))) {
            SseView::Data(data) => {
                let (d, r, done) = drained(rest);
                let (more, last, ended) = drained(r + b);
                assert(seq![data] + (d + more) == (seq![data] + d) + more);
            },
            _ => {},
        }
    } else {
        assert(Seq::<Seq<char>>::empty() + drained(a + b).0 == drained(a + b).0);
    }
}

} // verus!
