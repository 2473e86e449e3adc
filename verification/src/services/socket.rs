//! What a stream socket's reads and writes amount to.
use vstd::prelude::*;

verus! {

/// What to do after a read or a write that did not end the transfer.
#[derive(Clone, Copy, Debug, PartialEq, Eq, Structural)]
pub enum TransferStep {
    /// Go on at once.
    Again,
    /// Let others run, then try again.
    Yield,
    /// The transfer is over.
    Done,
}

// ---------------------------------------------------------------------------
// Writing
// ---------------------------------------------------------------------------

/// What to do after a write: nothing more once all was written; try again later if
/// the write took nothing; else go on.
pub open spec fn step_after(before: nat, after: nat, total: nat) -> TransferStep {
    if after == total {
        TransferStep::Done
    } else if after == before {
        TransferStep::Yield
    } else {
        TransferStep::Again
    }
}

/// How much of a buffer was written.
#[derive(Debug)]
pub struct WriteProgress {
    written: usize,
    total: usize,
}

impl WriteProgress {
    /// How many bytes were written.
    pub closed spec fn written(&self) -> nat {
        self.written as nat
    }

    /// How many bytes there are.
    pub closed spec fn total(&self) -> nat {
        self.total as nat
    }

    #[verifier::type_invariant]
    spec fn within_total(&self) -> bool {
        self.written <= self.total
    }

    /// Nothing of a buffer was written yet.
    pub fn new(total: usize) -> (r: Self)
        ensures
            r.written() == 0,
            r.total() == total,
    {
        WriteProgress { written: 0, total }
    }

    /// Where the next write starts.
    pub fn position(&self) -> (r: usize)
        ensures
            r == self.written(),
            r <= self.total(),
    {
        proof {
            use_type_invariant(self);
        }
        self.written
    }

    /// Whether all was written.
    pub fn is_done(&self) -> (r: bool)
        ensures
            r == (self.written() == self.total()),
    {
        self.written == self.total
    }

    /// Takes the result of a write: the number of bytes, or none if the socket
    /// was not ready.
    pub fn wrote(&mut self, n: Option<usize>) -> (r: TransferStep)
        requires
            n matches Some(n) ==> old(self).written() + n <= old(self).total(),
        ensures
            final(self).total() == old(self).total(),
            final(self).written() == old(self).written() + (match n {
                Some(n) => n as int,
                None => 0,
            }),
            r == (if final(self).written() == final(self).total() {
                TransferStep::Done
            } else if final(self).written() == old(self).written() {
                TransferStep::Yield
            } else {
                TransferStep::Again
            }),
            r == step_after(old(self).written(), final(self).written(), final(self).total()),
    {
        proof {
            use_type_invariant(&*self);
        }
        let more: usize = match n {
            Some(n) => n,
            None => 0,
        };
        self.written = self.written + more;
        if self.written == self.total {
            TransferStep::Done
        } else if more == 0 {
            TransferStep::Yield
        } else {
            TransferStep::Again
        }
    }
}

/// Whether a single write took a whole buffer.
pub fn wrote_all(n: Option<usize>, total: usize) -> (r: bool)
    ensures
        r == (n == Some(total)),
{
    match n {
        Some(n) => n == total,
        None => false,
    }
}

// ---------------------------------------------------------------------------
// Reading a line
// ---------------------------------------------------------------------------

/// The byte that ends a line.
pub const LINE_FEED: u8 = 10;

/// What a read of at most one byte gave.
#[derive(Clone, Copy, Debug, PartialEq, Eq, Structural)]
pub enum ByteRead {
    /// The byte.
    Byte(u8),
    /// The other side has closed.
    Closed,
    /// The socket was not ready.
    NotReady,
}

/// What came of a line so far.
#[derive(Debug, PartialEq, Eq)]
pub enum LineStep {
    /// Read the next byte.
    Again,
    /// Let others run, then read again.
    Yield,
    /// The line is there, its line feed with it; or it is as long as a line may be.
    Line(Vec<u8>),
    /// The other side closed before the line was there.
    Closed,
}

/// A line that is being read, byte by byte.
#[derive(Debug)]
pub struct LineReader {
    line: Vec<u8>,
    max_len: usize,
}

impl LineReader {
    /// The bytes so far.
    pub closed spec fn bytes(&self) -> Seq<u8> {
        self.line@
    }

    /// The length at which a line ends without a line feed.
    pub closed spec fn limit(&self) -> nat {
        self.max_len as nat
    }

    /// A line of which nothing was read.
    pub fn new(max_len: usize) -> (r: Self)
        ensures
            r.bytes() == Seq::<u8>::empty(),
            r.limit() == max_len,
    {
        LineReader { line: Vec::new(), max_len }
    }

    /// Takes the result of a read. After a line was handed out the next one starts.
    pub fn read(&mut self, read: ByteRead) -> (r: LineStep)
        ensures
            final(self).limit() == old(self).limit(),
            match read {
                ByteRead::Byte(b) => match line_from(old(self).bytes(), seq![b], old(self).limit()) {
                    Some(line) => {
                        &&& r matches LineStep::Line(whole) && whole@ == line
                        &&& final(self).bytes() == Seq::<u8>::empty()
                    },
                    None => r == LineStep::Again && final(self).bytes() == old(self).bytes().push(b),
                },
                ByteRead::Closed => r == LineStep::Closed && final(self).bytes() == old(
                    self,
                ).bytes(),
                ByteRead::NotReady => r == LineStep::Yield && final(self).bytes() == old(
                    self,
                ).bytes(),
            },
    {
        match read {
            ByteRead::Byte(b) => {
                assert(line_from(self.bytes().push(b), seq![b].drop_first(), self.limit()) is None);
                self.line.push(b);
                if b == LINE_FEED || self.line.len() >= self.max_len {
                    let mut whole: Vec<u8> = Vec::new();
                    std::mem::swap(&mut whole, &mut self.line);
                    LineStep::Line(whole)
                } else {
                    LineStep::Again
                }
            },
            ByteRead::Closed => LineStep::Closed,
            ByteRead::NotReady => LineStep::Yield,
        }
    }
}

/// The line that starts with `line` and goes on with the stream: up to and with
/// the first line feed, or as many bytes as a line may have, if either is there.
pub open spec fn line_from(line: Seq<u8>, stream: Seq<u8>, limit: nat) -> Option<Seq<u8>>
    decreases stream.len(),
{
    if stream.len() == 0 {
        None
    } else {
        let more = line.push(stream[0]);
        if stream[0] == LINE_FEED || more.len() >= limit {
            Some(more)
        } else {
            line_from(more, stream.drop_first(), limit)
        }
    }
}

/// It makes no difference in which pieces a stream is read: where a first piece
/// holds no line, the line goes on with the second.
pub proof fn law_line_goes_on(line: Seq<u8>, first: Seq<u8>, second: Seq<u8>, limit: nat)
    ensures
        line_from(line, first + second, limit) == match line_from(line, first, limit) {
            Some(whole) => Some(whole),
            None => line_from(line + first, second, limit),
        },
    decreases first.len(),
{
    if first.len() == 0 {
        assert(first + second == second);
        assert(line + first == line);
    } else {
        let more = line.push(first[0]);
        assert((first + second)[0] == first[0]);
        assert((first + second).drop_first() == first.drop_first() + second);
        assert(more + first.drop_first() == line + first);
        law_line_goes_on(more, first.drop_first(), second, limit);
    }
}

proof fn lemma_line_is_first(line: Seq<u8>, stream: Seq<u8>, limit: nat)
    requires
        forall|i: int| 0 <= i < line.len() ==> #[trigger] line[i] != LINE_FEED,
        line.len() == 0 || line.len() < limit,
    ensures
        match line_from(line, stream, limit) {
            Some(whole) => {
                &&& whole.len() > line.len()
                &&& whole.is_prefix_of(line + stream)
                &&& forall|i: int| 0 <= i < whole.len() - 1 ==> #[trigger] whole[i] != LINE_FEED
                &&& whole.last() == LINE_FEED || whole.len() >= limit
                &&& whole.len() == 1 || whole.len() <= limit
            },
            None => forall|i: int| 0 <= i < stream.len() ==> #[trigger] stream[i] != LINE_FEED,
        },
    decreases stream.len(),
{
    if stream.len() > 0 {
        let more = line.push(stream[0]);
        if stream[0] == LINE_FEED || more.len() >= limit {
            assert(more.is_prefix_of(line + stream));
        } else {
            lemma_line_is_first(more, stream.drop_first(), limit);
            assert(more + stream.drop_first() =~= line + stream);
            if line_from(line, stream, limit) is None {
                assert forall|i: int| 0 <= i < stream.len() implies #[trigger] stream[i]
                    != LINE_FEED by {
                    if i > 0 {
                        assert(stream.drop_first()[i - 1] == stream[i]);
                    }
                }
            }
        }
    }
}

/// The line of a stream is a start of it. Only its last byte may be a line feed;
/// without one it has as many bytes as a line may have, but at least one. A stream
/// without a line has no line feed.
pub proof fn law_line_is_first(stream: Seq<u8>, limit: nat)
    ensures
        match line_from(Seq::empty(), stream, limit) {
            Some(whole) => {
                &&& whole.len() > 0
                &&& whole.is_prefix_of(stream)
                &&& forall|i: int| 0 <= i < whole.len() - 1 ==> #[trigger] whole[i] != LINE_FEED
                &&& whole.last() == LINE_FEED || whole.len() >= limit
                &&& whole.len() == 1 || whole.len() <= limit
            },
            None => forall|i: int| 0 <= i < stream.len() ==> #[trigger] stream[i] != LINE_FEED,
        },
{
    lemma_line_is_first(Seq::empty(), stream, limit);
    assert(Seq::<u8>::empty() + stream =~= stream);
}

/// A stream with a line feed, or with as many bytes as a line may have, has a line:
/// it ends right behind the first line feed, or at the limit if that comes first.
pub proof fn law_line_ends_at_feed_or_limit(line: Seq<u8>, rest: Seq<u8>, limit: nat)
    requires
        forall|i: int| 0 <= i < line.len() ==> #[trigger] line[i] != LINE_FEED,
    ensures
        line.len() + 1 <= limit ==> line_from(Seq::empty(), line + seq![10u8] + rest, limit)
            == Some(line + seq![10u8]),
        0 < line.len() == limit ==> line_from(Seq::empty(), line + rest, limit) == Some(line),
        line.len() < limit ==> line_from(Seq::empty(), line, limit) is None,
{
    let none = Seq::<u8>::empty();
    if line.len() < limit {
        lemma_no_line(none, line, limit);
        law_line_goes_on(none, line, seq![10u8] + rest, limit);
        assert(line + (seq![10u8] + rest) =~= line + seq![10u8] + rest);
        assert(none + line =~= line);
        assert((seq![10u8] + rest)[0] == LINE_FEED);
        assert(line.push(10u8) =~= line + seq![10u8]);
    }
    if 0 < line.len() && line.len() == limit {
        let front = line.drop_last();
        assert forall|i: int| 0 <= i < front.len() implies #[trigger] front[i] != LINE_FEED by {
            assert(front[i] == line[i]);
        }
        lemma_no_line(none, front, limit);
        let tail = seq![line.last()] + rest;
        law_line_goes_on(none, front, tail, limit);
        assert(front + tail =~= line + rest);
        assert(none + front =~= front);
        assert(tail[0] == line.last());
        assert(front.push(line.last()) =~= line);
    }
}

proof fn lemma_no_line(line: Seq<u8>, stream: Seq<u8>, limit: nat)
    requires
        forall|i: int| 0 <= i < stream.len() ==> #[trigger] stream[i] != LINE_FEED,
        line.len() + stream.len() < limit,
    ensures
        line_from(line, stream, limit) is None,
    decreases stream.len(),
{
    if stream.len() > 0 {
        let rest = stream.drop_first();
        assert forall|i: int| 0 <= i < rest.len() implies #[trigger] rest[i] != LINE_FEED by {
            assert(rest[i] == stream[i + 1]);
        }
        assert(stream[0] != LINE_FEED);
        lemma_no_line(line.push(stream[0]), rest, limit);
    }
}

/// A transfer is over exactly when all was written. Before that, a write that took
/// something goes on at once and one that took nothing lets others run.
pub proof fn law_transfer_ends_when_all_is_written(before: nat, after: nat, total: nat)
    requires
        before <= after <= total,
    ensures
        step_after(before, after, total) == TransferStep::Done <==> after == total,
        before < after < total ==> step_after(before, after, total) == TransferStep::Again,
        before == after < total ==> step_after(before, after, total) == TransferStep::Yield,
{
}

} // verus!
