//! The wire format: lines of UTF-8 text, each ended by a line feed.
//!
//! Outbound, a line is written as its bytes and one line feed. Inbound, the
//! bytes of a connection are cut at each line feed; a carriage return just
//! before the line feed belongs to the line ending, not to the line. What
//! stands after the last line feed when the connection ends is a line too,
//! taken as it is.

use vstd::prelude::*;
use vstd::utf8::{decode_utf8, encode_utf8, valid_utf8};

verus! {

/// The byte that ends a line.
pub const LINE_FEED: u8 = 10;

/// The byte that may precede the line feed.
pub const CARRIAGE_RETURN: u8 = 13;

/// One line of input, as the reader sees it.
#[derive(Debug, Clone, PartialEq, Eq)]
pub enum Inbound {
    /// A line of text, without its line ending.
    Line(String),
    /// A line whose bytes are not valid UTF-8.
    Malformed,
}

/// The mathematical value of an [`Inbound`].
pub enum InboundView {
    Line(Seq<char>),
    Malformed,
}

impl View for Inbound {
    type V = InboundView;

    open spec fn view(&self) -> InboundView {
        match self {
            Inbound::Line(s) => InboundView::Line(s@),
            Inbound::Malformed => InboundView::Malformed,
        }
    }
}

/// The bytes that carry `line` on the wire: its UTF-8 encoding and a line
/// feed.
pub open spec fn framed(line: Seq<char>) -> Seq<u8> {
    encode_utf8(line).push(LINE_FEED)
}

/// The position of the first line feed in `bytes`, or their length if there
/// is none.
pub open spec fn first_line_feed(bytes: Seq<u8>) -> nat
    decreases bytes.len(),
{
    if bytes.len() == 0 || bytes[0] == LINE_FEED {
        0
    } else {
        1 + first_line_feed(bytes.drop_first())
    }
}

/// Whether `bytes` hold a complete line, that is, a line feed.
pub open spec fn has_line(bytes: Seq<u8>) -> bool {
    first_line_feed(bytes) < bytes.len()
}

/// `bytes` without a carriage return at their end.
pub open spec fn without_carriage_return(bytes: Seq<u8>) -> Seq<u8> {
    if bytes.len() > 0 && bytes.last() == CARRIAGE_RETURN {
        bytes.drop_last()
    } else {
        bytes
    }
}

/// The line that the bytes of a line's content stand for.
pub open spec fn decoded(content: Seq<u8>) -> InboundView {
    if valid_utf8(content) {
        InboundView::Line(decode_utf8(content))
    } else {
        InboundView::Malformed
    }
}

/// The first line of `bytes`, which hold a line feed.
pub open spec fn first_line(bytes: Seq<u8>) -> InboundView {
    decoded(without_carriage_return(bytes.subrange(0, first_line_feed(bytes) as int)))
}

/// What follows the first line of `bytes`, which hold a line feed.
pub open spec fn after_first_line(bytes: Seq<u8>) -> Seq<u8> {
    bytes.subrange(first_line_feed(bytes) as int + 1, bytes.len() as int)
}

/// The first line feed is a line feed, and no byte before it is one.
pub proof fn lemma_first_line_feed(bytes: Seq<u8>)
    ensures
        0 <= first_line_feed(bytes) <= bytes.len(),
        has_line(bytes) ==> bytes[first_line_feed(bytes) as int] == LINE_FEED,
        forall|i: int| 0 <= i < first_line_feed(bytes) ==> bytes[i] != LINE_FEED,
    decreases bytes.len(),
{
    if !(bytes.len() == 0 || bytes[0] == LINE_FEED) {
        lemma_first_line_feed(bytes.drop_first());
        assert forall|i: int| 0 <= i < first_line_feed(bytes) implies bytes[i] != LINE_FEED by {
            if i > 0 {
                assert(bytes[i] == bytes.drop_first()[i - 1]);
            }
        }
    }
}

/// A position that holds a line feed, with none before it, is the first line
/// feed.
pub proof fn lemma_first_line_feed_is(bytes: Seq<u8>, at: int)
    requires
        0 <= at <= bytes.len(),
        at < bytes.len() ==> bytes[at] == LINE_FEED,
        forall|i: int| 0 <= i < at ==> bytes[i] != LINE_FEED,
    ensures
        first_line_feed(bytes) == at,
{
    lemma_first_line_feed(bytes);
}

/// Calls `String::from_utf8`.
///
/// Trusted: the bytes are accepted exactly when they are valid UTF-8, and the
/// string is then the text that they encode.
#[verifier::external_body]
fn string_from_utf8(bytes: Vec<u8>) -> (r: Option<String>)
    ensures
        r is Some <==> valid_utf8(bytes@),
        r matches Some(s) ==> s@ == decode_utf8(bytes@),
{
    match String::from_utf8(bytes) {
        Ok(s) => Some(s),
        Err(_) => None,
    }
}

/// Decodes the content of one line.
fn decode(content: Vec<u8>) -> (line: Inbound)
    ensures
        line@ == decoded(content@),
{
    match string_from_utf8(content) {
        Some(s) => Inbound::Line(s),
        None => Inbound::Malformed,
    }
}

/// The bytes to write for `line`: its text and a line feed.
pub fn frame(line: &str) -> (bytes: Vec<u8>)
    ensures
        bytes@ == framed(line@),
{
    let text = line.as_bytes();
    let mut bytes: Vec<u8> = Vec::new();
    let mut i: usize = 0;
    while i < text.len()
        invariant
            i <= text@.len(),
            bytes@ == text@.subrange(0, i as int),
        decreases text@.len() - i,
    {
        bytes.push(text[i]);
        i = i + 1;
    }
    bytes.push(LINE_FEED);
    bytes
}

/// Cuts the bytes of a connection into lines. Its value is the bytes that
/// have arrived and belong to no line handed out yet.
pub struct LineDecoder {
    buffer: Vec<u8>,
}

impl View for LineDecoder {
    type V = Seq<u8>;

    closed spec fn view(&self) -> Seq<u8> {
        self.buffer@
    }
}

impl LineDecoder {
    /// A decoder that has seen no bytes.
    pub fn new() -> (decoder: LineDecoder)
        ensures
            decoder@ == Seq::<u8>::empty(),
    {
        LineDecoder { buffer: Vec::new() }
    }

    /// Takes in the bytes that have arrived.
    pub fn feed(&mut self, bytes: &[u8])
        ensures
            final(self)@ == old(self)@ + bytes@,
    {
        let mut i: usize = 0;
        while i < bytes.len()
            invariant
                i <= bytes@.len(),
                self.buffer@ == old(self).buffer@ + bytes@.subrange(0, i as int),
            decreases bytes@.len() - i,
        {
            self.buffer.push(bytes[i]);
            i = i + 1;
        }
    }

    /// Hands out the next complete line, if the bytes taken in hold one, and
    /// keeps what follows it. Without a line feed nothing changes.
    pub fn next_line(&mut self) -> (line: Option<Inbound>)
        ensures
            has_line(old(self)@) ==> line is Some && line->Some_0@ == first_line(old(self)@)
                && final(self)@ == after_first_line(old(self)@),
            !has_line(old(self)@) ==> line is None && final(self)@ == old(self)@,
    {
        let mut at: usize = 0;
        while at < self.buffer.len() && self.buffer[at] != LINE_FEED
            invariant
                at <= self.buffer@.len(),
                self.buffer@ == old(self).buffer@,
                forall|i: int| 0 <= i < at ==> self.buffer@[i] != LINE_FEED,
            decreases self.buffer@.len() - at,
        {
            at = at + 1;
        }
        proof {
            lemma_first_line_feed_is(self.buffer@, at as int);
        }
        if at == self.buffer.len() {
            return None;
        }
        let rest = self.buffer.split_off(at + 1);
        let _ = self.buffer.pop();
        if self.buffer.len() > 0 && self.buffer[self.buffer.len() - 1] == CARRIAGE_RETURN {
            let _ = self.buffer.pop();
        }
        assert(self.buffer@ =~= without_carriage_return(old(self).buffer@.subrange(0, at as int)));
        let mut content = rest;
        std::mem::swap(&mut self.buffer, &mut content);
        Some(decode(content))
    }

    /// Hands out the next line once the input has ended: the next complete
    /// line as `next_line` does, and after the last of them what stands
    /// behind it, taken as it is, unless that is empty.
    pub fn finish(&mut self) -> (line: Option<Inbound>)
        ensures
            has_line(old(self)@) ==> line is Some && line->Some_0@ == first_line(old(self)@)
                && final(self)@ == after_first_line(old(self)@),
            !has_line(old(self)@) ==> final(self)@ == Seq::<u8>::empty(),
            !has_line(old(self)@) && old(self)@.len() == 0 ==> line is None,
            !has_line(old(self)@) && old(self)@.len() > 0 ==> line is Some && line->Some_0@
                == decoded(old(self)@),
    {
        match self.next_line() {
            Some(line) => Some(line),
            None => {
                if self.buffer.len() == 0 {
                    None
                } else {
                    let mut content: Vec<u8> = Vec::new();
                    std::mem::swap(&mut self.buffer, &mut content);
                    Some(decode(content))
                }
            },
        }
    }
}

/// The bytes that write a character: an ASCII character is one byte, its
/// code; every byte of any other character is 0x80 or more.
pub proof fn lemma_encode_scalar(c: char)
    ensures
        (c as u32) < 0x80 ==> vstd::utf8::encode_scalar(c as u32) == seq![(c as u32) as u8],
        (c as u32) >= 0x80 ==> vstd::utf8::encode_scalar(c as u32).len() >= 2 && forall|i: int|
            0 <= i < vstd::utf8::encode_scalar(c as u32).len()
                ==> #[trigger] vstd::utf8::encode_scalar(c as u32)[i] >= 0x80,
{
    let v = c as u32;
    vstd::utf8::char_is_scalar(c);
    if v < 0x80 {
        assert((v & 0x7F) as u8 == v as u8) by (bit_vector)
            requires
                v < 0x80,
        ;
    } else {
        assert(0xC0u8 | ((v >> 6) & 0x1F) as u8 >= 0x80) by (bit_vector);
        assert(0xE0u8 | ((v >> 12) & 0x0F) as u8 >= 0x80) by (bit_vector);
        assert(0xF0u8 | ((v >> 18) & 0x7) as u8 >= 0x80) by (bit_vector);
        assert(0x80u8 | (v & 0x3F) as u8 >= 0x80) by (bit_vector);
        assert(0x80u8 | ((v >> 6) & 0x3F) as u8 >= 0x80) by (bit_vector);
        assert(0x80u8 | ((v >> 12) & 0x3F) as u8 >= 0x80) by (bit_vector);
    }
}

/// A text is written character by character.
pub proof fn lemma_encode_push(text: Seq<char>, c: char)
    ensures
        encode_utf8(text.push(c)) == encode_utf8(text) + vstd::utf8::encode_scalar(c as u32),
    decreases text.len(),
{
    if text.len() == 0 {
        assert(text.push(c).drop_first() =~= text);
    } else {
        lemma_encode_push(text.drop_first(), c);
        assert(text.push(c).drop_first() =~= text.drop_first().push(c));
    }
}

/// An ASCII byte stands in the encoding of a text only where the text holds
/// that character: a text without a line feed is written without the byte,
/// and the bytes of a text end in a carriage return only if the text does.
pub proof fn lemma_encode_ascii(text: Seq<char>)
    ensures
        (forall|i: int| 0 <= i < text.len() ==> text[i] != '\n') ==> (forall|j: int|
            0 <= j < encode_utf8(text).len() ==> encode_utf8(text)[j] != LINE_FEED),
        text.len() == 0 ==> encode_utf8(text).len() == 0,
        text.len() > 0 ==> encode_utf8(text).len() > 0,
        text.len() > 0 && text.last() != '\r' ==> encode_utf8(text).last() != CARRIAGE_RETURN,
    decreases text.len(),
{
    if text.len() > 0 {
        let front = text.drop_last();
        let c = text.last();
        assert(text =~= front.push(c));
        lemma_encode_push(front, c);
        lemma_encode_scalar(c);
        lemma_encode_ascii(front);
        let tail = vstd::utf8::encode_scalar(c as u32);
        if (c as u32) < 0x80 {
            if tail[0] == LINE_FEED {
                vstd::utf8::char_u32_cast(c, 10u32);
                vstd::utf8::char_u32_cast('\n', 10u32);
            }
            if tail[0] == CARRIAGE_RETURN {
                vstd::utf8::char_u32_cast(c, 13u32);
                vstd::utf8::char_u32_cast('\r', 13u32);
            }
        }
    }
}

/// What `frame` writes, the decoder reads back: a text that holds no line
/// feed and does not end in a carriage return comes out of its framed bytes
/// as it went in, and what followed those bytes is what remains.
pub proof fn lemma_round_trip(line: Seq<char>, rest: Seq<u8>)
    requires
        forall|i: int| 0 <= i < line.len() ==> line[i] != '\n',
        line.len() > 0 ==> line.last() != '\r',
    ensures
        has_line(framed(line) + rest),
        first_line(framed(line) + rest) == InboundView::Line(line),
        after_first_line(framed(line) + rest) == rest,
{
    let text = encode_utf8(line);
    let bytes = framed(line) + rest;
    lemma_encode_ascii(line);
    lemma_first_line_feed_is(bytes, text.len() as int);
    assert(bytes.subrange(0, text.len() as int) =~= text);
    vstd::utf8::encode_utf8_valid_utf8(line);
    vstd::utf8::encode_utf8_decode_utf8(line);
}

/// A line goes out as it came in: for input that holds a line of valid UTF-8,
/// the bytes that `frame` writes for the decoded line are the bytes of that
/// line, ended by a single line feed whatever ended it on the way in.
pub proof fn lemma_relayed_verbatim(content: Seq<u8>, rest: Seq<u8>)
    requires
        forall|i: int| 0 <= i < content.len() ==> content[i] != LINE_FEED,
        valid_utf8(without_carriage_return(content)),
    ensures
        has_line(content.push(LINE_FEED) + rest),
        first_line(content.push(LINE_FEED) + rest) == InboundView::Line(
            decode_utf8(without_carriage_return(content)),
        ),
        after_first_line(content.push(LINE_FEED) + rest) == rest,
        framed(decode_utf8(without_carriage_return(content))) == without_carriage_return(
            content,
        ).push(LINE_FEED),
{
    let bytes = content.push(LINE_FEED) + rest;
    lemma_first_line_feed_is(bytes, content.len() as int);
    assert(bytes.subrange(0, content.len() as int) =~= content);
    vstd::utf8::decode_utf8_encode_utf8(without_carriage_return(content));
}

/// Lines do not depend on how the bytes arrive: the first line of a stream is
/// the same whether or not more bytes have come in behind it, and those
/// bytes are kept for the lines that follow.
pub proof fn lemma_more_bytes(bytes: Seq<u8>, more: Seq<u8>)
    ensures
        has_line(bytes) ==> has_line(bytes + more) && first_line(bytes + more) == first_line(
            bytes,
        ) && after_first_line(bytes + more) == after_first_line(bytes) + more,
        !has_line(bytes) ==> first_line_feed(bytes + more) == bytes.len() + first_line_feed(more),
{
    lemma_first_line_feed(bytes);
    lemma_first_line_feed(more);
    let all = bytes + more;
    if has_line(bytes) {
        let at = first_line_feed(bytes) as int;
        lemma_first_line_feed_is(all, at);
        assert(all.subrange(0, at) =~= bytes.subrange(0, at));
    } else {
        let at = (bytes.len() + first_line_feed(more)) as int;
        lemma_first_line_feed_is(all, at);
    }
}

} // verus!
