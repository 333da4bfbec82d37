//! The stream forwarder: cuts the bridge's output into lines and turns each
//! line into an event for the host shell, tagged by the stream it came from.

use vstd::prelude::*;
use vstd::utf8::{decode_utf8, valid_utf8};

verus! {

/// The byte that ends a line.
pub const LINE_FEED: u8 = 10;

/// The byte that may stand before the line feed and is dropped with it.
pub const CARRIAGE_RETURN: u8 = 13;

/// Which of the bridge's output streams a line came from.
#[derive(Debug, Clone, Copy, PartialEq, Eq, Structural)]
pub enum StreamOrigin {
    Stdout,
    Stderr,
}

/// One line of the bridge's output, ready to be published.
#[derive(Debug, Clone, PartialEq, Eq)]
pub struct BridgeEvent {
    pub origin: StreamOrigin,
    pub line: String,
}

/// An event as plain mathematical data.
pub struct EventModel {
    pub origin: StreamOrigin,
    pub line: Seq<char>,
}

impl View for BridgeEvent {
    type V = EventModel;

    open spec fn view(&self) -> EventModel {
        EventModel { origin: self.origin, line: self.line@ }
    }
}

/// The views of a sequence of events.
pub open spec fn event_models(v: Seq<BridgeEvent>) -> Seq<EventModel> {
    Seq::new(v.len(), |i: int| v[i]@)
}

/// The name under which lines of `origin` are published.
pub open spec fn channel_name(origin: StreamOrigin) -> Seq<char> {
    match origin {
        StreamOrigin::Stdout => "bridge-stdout"@,
        StreamOrigin::Stderr => "bridge-stderr"@,
    }
}

/// The name under which lines of `origin` are published.
pub fn event_name(origin: StreamOrigin) -> (r: &'static str)
    ensures
        r@ == channel_name(origin),
{
    match origin {
        StreamOrigin::Stdout => "bridge-stdout",
        StreamOrigin::Stderr => "bridge-stderr",
    }
}

/// A raw line without its ending: a final line feed is dropped, and with it
/// a carriage return that stands directly before it.
pub open spec fn trimmed(raw: Seq<u8>) -> Seq<u8> {
    if raw.len() > 0 && raw.last() == LINE_FEED {
        let body = raw.drop_last();
        if body.len() > 0 && body.last() == CARRIAGE_RETURN {
            body.drop_last()
        } else {
            body
        }
    } else {
        raw
    }
}

/// The event that a raw line gives: none when its bytes are not valid text.
pub open spec fn event_of(origin: StreamOrigin, raw: Seq<u8>) -> Option<EventModel> {
    if valid_utf8(trimmed(raw)) {
        Some(EventModel { origin, line: decode_utf8(trimmed(raw)) })
    } else {
        None
    }
}

/// The events that a sequence of raw lines gives, in the order of the lines;
/// lines that are not valid text are left out.
pub open spec fn events_of(origin: StreamOrigin, lines: Seq<Seq<u8>>) -> Seq<EventModel>
    decreases lines.len(),
{
    if lines.len() == 0 {
        Seq::empty()
    } else {
        let before = events_of(origin, lines.drop_last());
        match event_of(origin, lines.last()) {
            Some(e) => before.push(e),
            None => before,
        }
    }
}

/// Reading `bytes` from the left: the raw lines already closed by a line
/// feed (each with its ending), and the index at which the open line begins.
pub open spec fn cut(bytes: Seq<u8>) -> (Seq<Seq<u8>>, int)
    decreases bytes.len(),
{
    if bytes.len() == 0 {
        (Seq::empty(), 0)
    } else {
        let (closed, start) = cut(bytes.drop_last());
        if bytes.last() == LINE_FEED {
            (closed.push(bytes.subrange(start, bytes.len() as int)), bytes.len() as int)
        } else {
            (closed, start)
        }
    }
}

/// Removes the line ending from a raw line.
pub fn trim_line(raw: Vec<u8>) -> (r: Vec<u8>)
    ensures
        r@ == trimmed(raw@),
{
    let mut line = raw;
    let n: usize = line.len();
    if n > 0 && line[n - 1] == LINE_FEED {
        line.pop();
        if n > 1 && line[n - 2] == CARRIAGE_RETURN {
            line.pop();
        }
    }
    assert(line@ =~= trimmed(raw@));
    line
}

/// Decodes bytes as UTF-8 text with `String::from_utf8` of the standard
/// library. Trusted: the bytes decode exactly when they are valid UTF-8, and
/// the text is then their decoding.
#[verifier::external_body]
fn decode_text(bytes: Vec<u8>) -> (r: Option<String>)
    ensures
        r is Some <==> valid_utf8(bytes@),
        r matches Some(text) ==> text@ == decode_utf8(bytes@),
{
    String::from_utf8(bytes).ok()
}

/// Turns one raw line into the event to publish, or drops it when it is not
/// valid text.
pub fn line_event(origin: StreamOrigin, raw: Vec<u8>) -> (r: Option<BridgeEvent>)
    ensures
        r is Some <==> event_of(origin, raw@) is Some,
        r matches Some(e) ==> Some(e@) == event_of(origin, raw@),
{
    match decode_text(trim_line(raw)) {
        Some(line) => Some(BridgeEvent { origin, line }),
        None => None,
    }
}

/// Collects the bytes of one output stream and hands out its lines as
/// events, in the order in which the lines were written.
pub struct LineAssembler {
    origin: StreamOrigin,
    open: Vec<u8>,
}

/// Whether `bytes` holds no line feed.
pub open spec fn unbroken(bytes: Seq<u8>) -> bool {
    forall|i: int| 0 <= i < bytes.len() ==> #[trigger] bytes[i] != LINE_FEED
}

/// Bytes without a line feed close no line.
pub proof fn lemma_cut_unbroken(bytes: Seq<u8>)
    requires
        unbroken(bytes),
    ensures
        cut(bytes) == (Seq::<Seq<u8>>::empty(), 0int),
    decreases bytes.len(),
{
    if bytes.len() > 0 {
        let before = bytes.drop_last();
        assert forall|i: int| 0 <= i < before.len() implies #[trigger] before[i] != LINE_FEED by {
            assert(before[i] == bytes[i]);
        }
        lemma_cut_unbroken(before);
        assert(bytes.last() == bytes[bytes.len() - 1]);
    }
}

/// The open line begins inside the bytes or at their end and holds no line
/// feed.
pub proof fn lemma_cut_bounds(bytes: Seq<u8>)
    ensures
        0 <= cut(bytes).1 <= bytes.len(),
        unbroken(bytes.subrange(cut(bytes).1, bytes.len() as int)),
    decreases bytes.len(),
{
    if bytes.len() > 0 {
        let before = bytes.drop_last();
        lemma_cut_bounds(before);
        let start = cut(before).1;
        if bytes.last() != LINE_FEED {
            let tail = bytes.subrange(start, bytes.len() as int);
            let old_tail = before.subrange(start, before.len() as int);
            assert forall|i: int| 0 <= i < tail.len() implies #[trigger] tail[i] != LINE_FEED by {
                if i < old_tail.len() {
                    assert(tail[i] == old_tail[i]);
                }
            }
        }
    }
}

/// The raw lines that are closed when `chunk` arrives behind the open line
/// `open`, oldest first, each with its ending.
pub open spec fn closed_by(open: Seq<u8>, chunk: Seq<u8>) -> Seq<Seq<u8>> {
    cut(open + chunk).0
}

/// The open line after `chunk` has arrived behind the open line `open`: the
/// bytes after the last line feed.
pub open spec fn left_open(open: Seq<u8>, chunk: Seq<u8>) -> Seq<u8> {
    (open + chunk).subrange(cut(open + chunk).1, (open + chunk).len() as int)
}

/// Cutting `head + tail` goes on from where cutting `head` stopped: with
/// the lines that `head` closed, and with its open line in front of `tail`.
pub proof fn lemma_cut_resumes(head: Seq<u8>, tail: Seq<u8>)
    ensures
        cut(head + tail).0 == cut(head).0 + closed_by(left_open(head, Seq::empty()), tail),
        cut(head + tail).1 == cut(head).1 + cut(left_open(head, Seq::empty()) + tail).1,
        left_open(head, tail) == left_open(left_open(head, Seq::empty()), tail),
    decreases tail.len(),
{
    let none = Seq::<u8>::empty();
    assert(head + none =~= head);
    let start = cut(head).1;
    let open = left_open(head, none);
    lemma_cut_bounds(head);
    assert(open =~= head.subrange(start, head.len() as int));
    if tail.len() == 0 {
        assert(head + tail =~= head);
        assert(open + tail =~= open);
        lemma_cut_unbroken(open);
        assert(cut(head).0 + Seq::<Seq<u8>>::empty() =~= cut(head).0);
        assert(open.subrange(0, open.len() as int) =~= open);
    } else {
        let shorter = tail.drop_last();
        lemma_cut_resumes(head, shorter);
        lemma_cut_bounds(open + shorter);
        assert((head + tail).drop_last() =~= head + shorter);
        assert((open + tail).drop_last() =~= open + shorter);
        let inner = cut(open + shorter).1;
        assert((head + tail).subrange(start + inner, (head + tail).len() as int) =~= (open
            + tail).subrange(inner, (open + tail).len() as int));
        if tail.last() == LINE_FEED {
            assert(cut(head + tail).0 =~= cut(head).0 + cut(open + tail).0);
            assert((head + tail).subrange((head + tail).len() as int, (head + tail).len() as int)
                =~= (open + tail).subrange((open + tail).len() as int, (open + tail).len() as int));
        }
    }
}

/// How the stream is cut into reads does not matter: bytes that arrive in
/// two reads close the same lines, in the same order, and leave the same
/// open line as if they had arrived in one.
pub proof fn lemma_chunking_is_immaterial(open: Seq<u8>, first: Seq<u8>, second: Seq<u8>)
    ensures
        closed_by(open, first + second) == closed_by(open, first) + closed_by(
            left_open(open, first),
            second,
        ),
        left_open(open, first + second) == left_open(left_open(open, first), second),
{
    assert(open + (first + second) =~= (open + first) + second);
    lemma_cut_resumes(open + first, second);
    let none = Seq::<u8>::empty();
    assert((open + first) + none =~= open + first);
}

/// Events keep the order of their lines: the events of two runs of lines,
/// one after the other, are the events of the first run followed by those
/// of the second.
pub proof fn lemma_events_keep_order(
    origin: StreamOrigin,
    first: Seq<Seq<u8>>,
    second: Seq<Seq<u8>>,
)
    ensures
        events_of(origin, first + second) == events_of(origin, first) + events_of(origin, second),
    decreases second.len(),
{
    if second.len() == 0 {
        assert(first + second =~= first);
        assert(events_of(origin, first) + Seq::<EventModel>::empty() =~= events_of(origin, first));
    } else {
        lemma_events_keep_order(origin, first, second.drop_last());
        assert((first + second).drop_last() =~= first + second.drop_last());
        assert((first + second).last() == second.last());
        let before = events_of(origin, first) + events_of(origin, second.drop_last());
        match event_of(origin, second.last()) {
            Some(e) => {
                assert(before.push(e) =~= events_of(origin, first) + events_of(
                    origin,
                    second.drop_last(),
                ).push(e));
            },
            None => {},
        }
    }
}

impl LineAssembler {
    /// The stream whose lines are assembled.
    pub closed spec fn origin_of(&self) -> StreamOrigin {
        self.origin
    }

    /// The bytes of the line that is still open. They hold no line feed.
    pub closed spec fn open_bytes(&self) -> Seq<u8> {
        self.open@
    }

    /// What holds of every assembler: the open line holds no line feed.
    #[verifier::type_invariant]
    spec fn open_line_is_unbroken(&self) -> bool {
        unbroken(self.open@)
    }

    /// Starts an assembler for the stream `origin`, with nothing read.
    pub fn new(origin: StreamOrigin) -> (r: LineAssembler)
        ensures
            r.origin_of() == origin,
            r.open_bytes() == Seq::<u8>::empty(),
    {
        LineAssembler { origin, open: Vec::new() }
    }

    /// Takes the bytes read next from the stream and returns the events of
    /// the lines that they close, oldest first. What follows the last line
    /// feed stays in the assembler as the open line.
    pub fn feed(&mut self, chunk: &[u8]) -> (r: Vec<BridgeEvent>)
        ensures
            final(self).origin_of() == old(self).origin_of(),
            event_models(r@) == events_of(
                old(self).origin_of(),
                closed_by(old(self).open_bytes(), chunk@),
            ),
            final(self).open_bytes() == left_open(old(self).open_bytes(), chunk@),
    {
        proof {
            use_type_invariant(&*self);
        }
        let ghost whole = self.open@ + chunk@;
        let ghost base = self.open@.len() as int;
        let origin = self.origin;
        let mut cur: Vec<u8> = Vec::new();
        core::mem::swap(&mut cur, &mut self.open);
        let mut out: Vec<BridgeEvent> = Vec::new();
        let ghost mut closed: Seq<Seq<u8>> = Seq::empty();
        let mut i: usize = 0;
        proof {
            assert(whole.take(base) =~= cur@);
            lemma_cut_unbroken(cur@);
            assert(cur@.subrange(0, base) =~= cur@);
            assert(event_models(out@) =~= Seq::<EventModel>::empty());
        }
        while i < chunk.len()
            invariant
                0 <= i <= chunk.len(),
                whole.len() == base + chunk@.len(),
                forall|k: int| 0 <= k < chunk@.len() ==> whole[base + k] == chunk@[k],
                cut(whole.take(base + i)).0 == closed,
                0 <= cut(whole.take(base + i)).1 <= base + i,
                cur@ == whole.subrange(cut(whole.take(base + i)).1, base + i),
                event_models(out@) == events_of(origin, closed),
                unbroken(cur@),
            decreases chunk.len() - i,
        {
            let b: u8 = chunk[i];
            let ghost prev = whole.take(base + i);
            let ghost next = whole.take(base + i + 1);
            let ghost start = cut(prev).1;
            proof {
                assert(next.drop_last() =~= prev);
                assert(next.last() == b);
            }
            cur.push(b);
            assert(cur@ =~= whole.subrange(start, base + i + 1));
            if b == LINE_FEED {
                let mut line: Vec<u8> = Vec::new();
                core::mem::swap(&mut line, &mut cur);
                proof {
                    assert(next.subrange(start, next.len() as int) =~= line@);
                    closed = closed.push(line@);
                    assert(closed.drop_last() =~= cut(prev).0);
                    assert(cur@ =~= whole.subrange(base + i + 1, base + i + 1));
                }
                let ghost before = out@;
                match line_event(origin, line) {
                    Some(e) => {
                        out.push(e);
                        assert(event_models(out@) =~= event_models(before).push(e@));
                    },
                    None => {},
                }
            } else {
                assert forall|k: int| 0 <= k < cur@.len() implies #[trigger] cur@[k]
                    != LINE_FEED by {
                    if k < cur@.len() - 1 {
                        assert(cur@[k] == whole.subrange(start, base + i)[k]);
                    }
                }
            }
            i = i + 1;
        }
        proof {
            assert(whole.take(base + chunk@.len()) =~= whole);
        }
        self.open = cur;
        out
    }

    /// Ends the stream: the open line, if it holds any byte, gives the last
    /// event.
    pub fn finish(self) -> (r: Option<BridgeEvent>)
        ensures
            r is Some <==> self.open_bytes().len() > 0 && event_of(
                self.origin_of(),
                self.open_bytes(),
            ) is Some,
            r matches Some(e) ==> Some(e@) == event_of(self.origin_of(), self.open_bytes()),
    {
        if self.open.len() == 0 {
            None
        } else {
            line_event(self.origin, self.open)
        }
    }
}

} // verus!
