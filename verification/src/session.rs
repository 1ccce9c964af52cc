//! One connection: a reader and a writer that run side by side.
//!
//! The reader turns the bytes that arrive into lines and ends with the input
//! or with the first line that is no text. The writer asks the hub for the
//! subscriber's next line and turns it into bytes to write; a write that
//! fails does not end it. Neither ends the other: the connection is closed
//! when both have ended.

use crate::hub::{Delivery, DeliveryView, Hub, HubView, SubscriberId};
use crate::wire::{
    after_first_line, decoded, first_line, frame, framed, has_line, Inbound, InboundView,
    LineDecoder,
};
use vstd::prelude::*;

verus! {

/// The texts of a sequence of strings.
pub open spec fn texts(lines: Seq<String>) -> Seq<Seq<char>> {
    lines.map_values(|s: String| s@)
}

/// What a stretch of input holds.
pub struct Scan {
    /// The complete lines, in order, up to the first that is no text.
    pub lines: Seq<Seq<char>>,
    /// The bytes behind the last line feed.
    pub rest: Seq<u8>,
    /// Whether a complete line was no text.
    pub malformed: bool,
}

/// Reads `bytes` line by line, until they hold no further line feed or a
/// line is not valid UTF-8.
pub open spec fn scan(bytes: Seq<u8>) -> Scan
    decreases bytes.len(),
{
    if !has_line(bytes) {
        Scan { lines: Seq::empty(), rest: bytes, malformed: false }
    } else {
        match first_line(bytes) {
            InboundView::Malformed => Scan {
                lines: Seq::empty(),
                rest: Seq::empty(),
                malformed: true,
            },
            InboundView::Line(line) => {
                let more = scan(after_first_line(bytes));
                Scan { lines: seq![line] + more.lines, rest: more.rest, malformed: more.malformed }
            },
        }
    }
}

/// Reading does not depend on how the input is cut into pieces: the lines of
/// two pieces read one after the other, the second together with what the
/// first left over, are the lines of both read at once.
pub proof fn lemma_scan_in_pieces(first: Seq<u8>, second: Seq<u8>)
    ensures
        scan(first).malformed ==> scan(first + second) == scan(first),
        !scan(first).malformed ==> {
            let later = scan(scan(first).rest + second);
            scan(first + second) == (Scan {
                lines: scan(first).lines + later.lines,
                rest: later.rest,
                malformed: later.malformed,
            })
        },
    decreases first.len(),
{
    crate::wire::lemma_more_bytes(first, second);
    crate::wire::lemma_first_line_feed(first);
    if has_line(first) {
        match first_line(first) {
            InboundView::Malformed => {},
            InboundView::Line(line) => {
                let tail = after_first_line(first);
                lemma_scan_in_pieces(tail, second);
                if !scan(tail).malformed {
                    let later = scan(scan(tail).rest + second);
                    assert(seq![line] + (scan(tail).lines + later.lines) =~= (seq![line] + scan(
                        tail,
                    ).lines) + later.lines);
                }
            },
        }
    }
}

/// The mathematical value of a [`Reader`].
pub struct ReaderView {
    /// The bytes that have arrived behind the last line feed.
    pub partial: Seq<u8>,
    /// Whether the reader has ended.
    pub finished: bool,
}

/// The reading half of a connection.
pub struct Reader {
    decoder: LineDecoder,
    finished: bool,
}

impl View for Reader {
    type V = ReaderView;

    closed spec fn view(&self) -> ReaderView {
        ReaderView { partial: self.decoder@, finished: self.finished }
    }
}

impl Reader {
    /// A reader holds complete lines only while it takes them out.
    pub closed spec fn wf(&self) -> bool {
        !has_line(self.decoder@)
    }

    /// A reader at the start of a connection.
    pub fn new() -> (reader: Reader)
        ensures
            reader.wf(),
            reader@ == (ReaderView { partial: Seq::empty(), finished: false }),
    {
        Reader { decoder: LineDecoder::new(), finished: false }
    }

    /// Whether the reader has ended.
    pub fn is_finished(&self) -> (b: bool)
        ensures
            b == self@.finished,
    {
        self.finished
    }

    /// Takes in bytes that have arrived and returns the lines to publish, in
    /// order. A line that is no text ends the reader: the lines before it are
    /// returned, nothing after it is read. A reader that has ended returns
    /// nothing.
    pub fn on_bytes(&mut self, bytes: &[u8]) -> (lines: Vec<String>)
        requires
            old(self).wf(),
        ensures
            final(self).wf(),
            old(self)@.finished ==> final(self)@ == old(self)@ && lines@.len() == 0,
            !old(self)@.finished ==> {
                let found = scan(old(self)@.partial + bytes@);
                &&& texts(lines@) == found.lines
                &&& final(self)@ == (ReaderView { partial: found.rest, finished: found.malformed })
            },
    {
        let mut lines: Vec<String> = Vec::new();
        if self.finished {
            return lines;
        }
        self.decoder.feed(bytes);
        let ghost all = self.decoder@;
        loop
            invariant_except_break
                !self.finished,
                scan(all).lines == texts(lines@) + scan(self.decoder@).lines,
                scan(all).rest == scan(self.decoder@).rest,
                scan(all).malformed == scan(self.decoder@).malformed,
            ensures
                self.wf(),
                texts(lines@) == scan(all).lines,
                self@ == (ReaderView { partial: scan(all).rest, finished: scan(all).malformed }),
            decreases self.decoder@.len(),
        {
            let ghost before = self.decoder@;
            proof {
                crate::wire::lemma_first_line_feed(before);
            }
            match self.decoder.next_line() {
                None => {
                    break ;
                },
                Some(Inbound::Malformed) => {
                    self.decoder = LineDecoder::new();
                    self.finished = true;
                    proof {
                        crate::wire::lemma_first_line_feed(Seq::<u8>::empty());
                    }
                    break ;
                },
                Some(Inbound::Line(line)) => {
                    lines.push(line);
                },
            }
        }
        lines
    }

    /// Ends the reader because the input has ended. What stood behind the
    /// last line feed is a last line to publish, if it is not empty and is
    /// text.
    pub fn on_end(&mut self) -> (line: Option<String>)
        requires
            old(self).wf(),
        ensures
            final(self).wf(),
            final(self)@ == (ReaderView { partial: Seq::empty(), finished: true }),
            line matches Some(s) ==> !old(self)@.finished && old(self)@.partial.len() > 0
                && decoded(old(self)@.partial) == InboundView::Line(s@),
            line is None ==> old(self)@.finished || old(self)@.partial.len() == 0 || decoded(
                old(self)@.partial,
            ) == InboundView::Malformed,
    {
        proof {
            crate::wire::lemma_first_line_feed(Seq::<u8>::empty());
        }
        let was_finished = self.finished;
        self.finished = true;
        let last = self.decoder.finish();
        if was_finished {
            return None;
        }
        match last {
            Some(Inbound::Line(line)) => Some(line),
            _ => None,
        }
    }

    /// Ends the reader because reading failed. Bytes of an unfinished line
    /// are dropped.
    pub fn on_error(&mut self)
        ensures
            final(self).wf(),
            final(self)@ == (ReaderView { partial: Seq::empty(), finished: true }),
    {
        proof {
            crate::wire::lemma_first_line_feed(Seq::<u8>::empty());
        }
        self.decoder = LineDecoder::new();
        self.finished = true;
    }
}

/// The hub after the lines have been published, in order.
pub open spec fn publish_all(h: HubView, lines: Seq<Seq<char>>) -> HubView {
    HubView { history: h.history + lines, cursors: h.cursors }
}

/// Publishing lines one by one is publishing them all.
pub proof fn lemma_publish_all(h: HubView, lines: Seq<Seq<char>>, line: Seq<char>)
    ensures
        publish_all(h, Seq::empty()) == h,
        publish_all(h, lines).publish(line) == publish_all(h, lines.push(line)),
{
}

/// Publishes the lines that a reader has read, in order, and returns how many
/// of them found no subscriber. Such a line is dropped; the others are
/// published all the same.
pub fn publish_lines(hub: &mut Hub, lines: &Vec<String>) -> (dropped: usize)
    requires
        old(hub).wf(),
    ensures
        final(hub).wf(),
        final(hub)@ == publish_all(old(hub)@, texts(lines@)),
        dropped == (if old(hub)@.cursors.dom().len() == 0 {
            lines@.len()
        } else {
            0
        }),
{
    let mut dropped: usize = 0;
    let mut i: usize = 0;
    proof {
        lemma_publish_all(hub@, Seq::empty(), Seq::empty());
    }
    while i < lines.len()
        invariant
            i <= lines@.len(),
            hub.wf(),
            hub@ == publish_all(old(hub)@, texts(lines@.subrange(0, i as int))),
            dropped == (if old(hub)@.cursors.dom().len() == 0 {
                i
            } else {
                0
            }),
        decreases lines@.len() - i,
    {
        let line = lines[i].clone();
        proof {
            lemma_publish_all(old(hub)@, texts(lines@.subrange(0, i as int)), line@);
            assert(texts(lines@.subrange(0, i as int)).push(line@) =~= texts(
                lines@.subrange(0, i + 1),
            ));
        }
        match hub.publish(line) {
            Ok(_) => {},
            Err(_) => {
                dropped = dropped + 1;
            },
        }
        i = i + 1;
    }
    assert(lines@.subrange(0, lines@.len() as int) =~= lines@);
    dropped
}

/// What the writer does next.
#[derive(Debug, Clone, PartialEq, Eq)]
pub enum WriterStep {
    /// Write these bytes to the client, then ask again.
    Write(Vec<u8>),
    /// This many lines were lost for the client; ask again.
    Lagged(u64),
    /// Nothing to write; ask again when something has been published.
    Wait,
    /// The writer has ended.
    Stop,
}

/// The mathematical value of a [`WriterStep`].
pub enum WriterStepView {
    Write(Seq<u8>),
    Lagged(nat),
    Wait,
    Stop,
}

impl View for WriterStep {
    type V = WriterStepView;

    open spec fn view(&self) -> WriterStepView {
        match self {
            WriterStep::Write(bytes) => WriterStepView::Write(bytes@),
            WriterStep::Lagged(n) => WriterStepView::Lagged(*n as nat),
            WriterStep::Wait => WriterStepView::Wait,
            WriterStep::Stop => WriterStepView::Stop,
        }
    }
}

/// What the writer does with what the hub handed it: a line is written with
/// its line feed, lag is passed over, and only a closed subscription ends
/// the writer.
pub open spec fn step_for(delivery: DeliveryView) -> WriterStepView {
    match delivery {
        DeliveryView::Line(line) => WriterStepView::Write(framed(line)),
        DeliveryView::Lagged(n) => WriterStepView::Lagged(n),
        DeliveryView::Empty => WriterStepView::Wait,
        DeliveryView::Closed => WriterStepView::Stop,
    }
}

/// Decides what the writer does with what the hub handed it.
pub fn writer_step(delivery: Delivery) -> (step: WriterStep)
    ensures
        step@ == step_for(delivery@),
{
    match delivery {
        Delivery::Line(line) => WriterStep::Write(frame(line.as_str())),
        Delivery::Lagged(n) => WriterStep::Lagged(n),
        Delivery::Empty => WriterStep::Wait,
        Delivery::Closed => WriterStep::Stop,
    }
}

/// From one client's input to every client's output: when a client sends a
/// line of text, and a subscriber, that client's own or another's, has read
/// everything published before, then the next thing its writer is given to
/// write is that line as it was sent, ended by a line feed.
pub proof fn lemma_line_is_echoed(h: HubView, id: SubscriberId, content: Seq<u8>)
    requires
        h.wf(),
        h.subscribed(id),
        h.delivery(id) == DeliveryView::Empty,
        forall|i: int| 0 <= i < content.len() ==> content[i] != crate::wire::LINE_FEED,
        content.len() > 0 ==> content.last() != crate::wire::CARRIAGE_RETURN,
        vstd::utf8::valid_utf8(content),
    ensures
        scan(content.push(crate::wire::LINE_FEED)) == (Scan {
            lines: seq![vstd::utf8::decode_utf8(content)],
            rest: Seq::empty(),
            malformed: false,
        }),
        step_for(
            publish_all(h, scan(content.push(crate::wire::LINE_FEED)).lines).delivery(id),
        ) == WriterStepView::Write(content.push(crate::wire::LINE_FEED)),
{
    let input = content.push(crate::wire::LINE_FEED);
    crate::wire::lemma_relayed_verbatim(content, Seq::empty());
    assert(input =~= input + Seq::<u8>::empty());
    crate::wire::lemma_first_line_feed(Seq::<u8>::empty());
    reveal_with_fuel(scan, 2);
    assert(scan(input).lines =~= seq![vstd::utf8::decode_utf8(content)]);
}

/// The writing half of a connection: a subscriber of the hub.
pub struct Writer {
    id: SubscriberId,
    finished: bool,
}

impl Writer {
    /// The subscription that the writer reads from.
    pub closed spec fn subscriber(&self) -> SubscriberId {
        self.id
    }

    /// Whether the writer has ended.
    pub closed spec fn finished(&self) -> bool {
        self.finished
    }

    /// Subscribes a new connection to the hub. The writer will be handed the
    /// lines published from now on.
    pub fn attach(hub: &mut Hub) -> (writer: Writer)
        requires
            old(hub).wf(),
        ensures
            final(hub).wf(),
            !writer.finished(),
            !old(hub)@.subscribed(writer.subscriber()),
            final(hub)@ == old(hub)@.subscribe(writer.subscriber()),
    {
        let id = hub.subscribe();
        Writer { id, finished: false }
    }

    /// The writer's subscription.
    pub fn id(&self) -> (id: SubscriberId)
        ensures
            id == self.subscriber(),
    {
        self.id
    }

    /// Whether the writer has ended.
    pub fn is_finished(&self) -> (b: bool)
        ensures
            b == self.finished(),
    {
        self.finished
    }

    /// Asks the hub for the subscriber's next line and decides what to do
    /// with the answer. The writer ends when its subscription is closed, and
    /// on nothing else; once ended it leaves the hub alone.
    pub fn next(&mut self, hub: &mut Hub) -> (step: WriterStep)
        requires
            old(hub).wf(),
        ensures
            final(hub).wf(),
            final(self).subscriber() == old(self).subscriber(),
            old(self).finished() ==> step@ == WriterStepView::Stop && final(self).finished()
                && final(hub)@ == old(hub)@,
            !old(self).finished() ==> {
                &&& step@ == step_for(old(hub)@.delivery(old(self).subscriber()))
                &&& final(hub)@ == old(hub)@.receive(old(self).subscriber())
                &&& final(self).finished() == !old(hub)@.subscribed(old(self).subscriber())
            },
    {
        if self.finished {
            return WriterStep::Stop;
        }
        let step = writer_step(hub.receive(self.id));
        if let WriterStep::Stop = step {
            self.finished = true;
        }
        step
    }

    /// Whether the writer goes on after a write: it does, whether or not the
    /// write succeeded.
    pub fn continues_after_write(&self, succeeded: bool) -> (goes_on: bool)
        ensures
            goes_on == !self.finished(),
    {
        let _ = succeeded;
        !self.finished
    }

    /// Gives the subscription back to the hub, when the connection is closed.
    pub fn detach(self, hub: &mut Hub)
        requires
            old(hub).wf(),
        ensures
            final(hub).wf(),
            final(hub)@ == old(hub)@.unsubscribe(self.subscriber()),
    {
        let _ = hub.unsubscribe(self.id);
    }
}

/// Whether a connection is closed: it is when its reader and its writer have
/// both ended, and not before.
pub fn connection_closed(reader: &Reader, writer: &Writer) -> (closed: bool)
    ensures
        closed == (reader@.finished && writer.finished()),
{
    reader.is_finished() && writer.is_finished()
}

} // verus!
