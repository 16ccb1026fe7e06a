//! The log of a supervised process: kept in memory, bounded, read by any number of readers.
use crate::frame::SubStreamLabel;
use crate::log_view::{least, LogView};
use crate::outside::circ_buf::{ring_bytes, ring_cap, ring_write};
use crate::outside::watch::{channel, clone_receiver, connected, seen, send, sent};
use circbuf::CircBuf;
use tokio::sync::watch;
use vstd::arithmetic::power2::{lemma2_to64, pow2};
use vstd::math::{max, min};
use vstd::prelude::*;
use vstd::slice::slice_subrange;

verus! {

/// How much storage a log asks for. It keeps one byte less than that.
pub const APP_LOG_CAPACITY: usize = 131072;

/// Where a reader stands in a log.
pub struct LogCursor {
    pos: usize,
}

impl View for LogCursor {
    type V = nat;

    closed spec fn view(&self) -> nat {
        self.pos as nat
    }
}

impl LogCursor {
    /// A cursor at the start of a log.
    pub fn new() -> (cursor: Self)
        ensures
            cursor@ == 0,
    {
        Self { pos: 0usize }
    }
}

/// Copies `src` over the bytes of `dst` from index `at` on.
fn copy_into(dst: &mut [u8], at: usize, src: &[u8])
    requires
        at + src@.len() <= old(dst)@.len(),
    ensures
        final(dst)@ == old(dst)@.take(at as int) + src@ + old(dst)@.skip(at + src@.len()),
{
    let ghost room = dst@;
    assert(dst.len() == room.len());
    let mut i: usize = 0;
    while i < src.len()
        invariant
            i <= src@.len(),
            at + src@.len() <= room.len() <= usize::MAX,
            dst@ == room.take(at as int) + src@.take(i as int) + room.skip(at + i),
        decreases src@.len() - i,
    {
        dst[at + i] = src[i];
        i += 1;
        assert(dst@ =~= room.take(at as int) + src@.take(i as int) + room.skip(at + i));
    }
    assert(src@.take(i as int) =~= src@);
}

/// A bounded log of bytes. Appending to a full log trims it from the head.
pub struct ByteLog {
    buffer: CircBuf,
    head: usize,
    watch_tx: watch::Sender<()>,
    watch_rx: watch::Receiver<()>,
}

impl View for ByteLog {
    type V = LogView;

    closed spec fn view(&self) -> LogView {
        LogView {
            head: self.head as nat,
            bytes: ring_bytes(self.buffer),
            cap: ring_cap(self.buffer) as nat,
        }
    }
}

impl ByteLog {
    /// Every log that `new` made and the other methods changed is well-formed: it keeps no more than
    /// it can, and its parts are in order.
    pub open spec fn wf(&self) -> bool {
        &&& self@.valid()
        &&& self.in_order()
    }

    /// The ring has storage, and the log's own receiver, which has taken note of nothing, keeps the
    /// channel open.
    pub closed spec fn in_order(&self) -> bool {
        &&& ring_cap(self.buffer) >= 0
        &&& connected(self.watch_tx, self.watch_rx)
        &&& seen(self.watch_rx) == 0
    }

    /// The end of the channel through which the watchers of the log are told of appends.
    pub closed spec fn sender(&self) -> watch::Sender<()> {
        self.watch_tx
    }

    /// How many times the watchers of the log were told of an append.
    pub open spec fn notices(&self) -> nat {
        sent(self.sender())
    }

    /// `rx` is told of the appends to this log.
    pub open spec fn is_watched_by(&self, rx: watch::Receiver<()>) -> bool {
        connected(self.sender(), rx)
    }

    /// `rx` is told of the appends to this log, and has not taken note of all of them.
    pub open spec fn has_news_for(&self, rx: watch::Receiver<()>) -> bool {
        self.is_watched_by(rx) && seen(rx) < self.notices()
    }

    /// An empty log.
    pub fn new() -> (log: Self)
        ensures
            log.wf(),
            log@ == LogView::empty((APP_LOG_CAPACITY - 1) as nat),
            log@.head == 0,
            log@.bytes.len() == 0,
            log@.cap == 131071,
            log.notices() == 0,
            sent(log.sender()) == 0,
    {
        let (tx, rx) = channel();
        let buffer = CircBuf::with_capacity(APP_LOG_CAPACITY).unwrap();
        proof {
            lemma2_to64();
            assert(pow2(17) >= APP_LOG_CAPACITY);
        }
        Self { buffer, head: 0usize, watch_rx: rx, watch_tx: tx }
    }

    /// Appends `data`, trims as many bytes from the head as it takes to make room for it, and tells
    /// the watchers. Returns the number of bytes trimmed.
    pub fn append(&mut self, data: &[u8]) -> (trimmed: usize)
        requires
            old(self).wf(),
            data@.len() <= old(self)@.cap,
            old(self)@.append(data@).head <= usize::MAX,
        ensures
            final(self).wf(),
            final(self)@ == old(self)@.append(data@),
            trimmed == old(self)@.excess(data@.len()),
            trimmed == max(0, old(self)@.bytes.len() + data@.len() - old(self)@.cap),
            final(self)@.bytes == old(self)@.bytes.skip(trimmed as int) + data@,
            final(self)@.head == old(self)@.head + trimmed,
            final(self)@.cap == old(self)@.cap,
            sent(final(self).sender()) == sent(old(self).sender()) + 1,
            forall|rx: watch::Receiver<()>|
                connected(old(self).sender(), rx) ==> #[trigger] connected(final(self).sender(), rx),
            final(self).notices() == old(self).notices() + 1,
            forall|rx: watch::Receiver<()>|
                old(self).is_watched_by(rx) ==> #[trigger] final(self).is_watched_by(rx),
            forall|rx: watch::Receiver<()>|
                old(self).is_watched_by(rx) && seen(rx) <= old(self).notices()
                    ==> #[trigger] final(self).has_news_for(rx),
    {
        let mut trim_cnt: usize = 0;
        let avail: usize = self.buffer.avail();
        if avail < data.len() {
            trim_cnt = data.len() - avail;
            let _ = self.buffer.advance_read(trim_cnt);
            self.head += trim_cnt;
        }
        let _ = ring_write(&mut self.buffer, data);
        let _ = send(&mut self.watch_tx, &self.watch_rx);
        trim_cnt
    }

    /// Fills `buf` from where the cursor stands, or from the head where the log was trimmed past
    /// the cursor, and moves the cursor behind what was read. Returns the number of bytes read; it
    /// is less than there is room for only where the log ends.
    pub fn read(&self, cursor: &mut LogCursor, buf: &mut [u8]) -> (copied: usize)
        requires
            self.wf(),
            self@.start(old(cursor)@) - self@.head + old(buf)@.len() <= usize::MAX,
            self@.next(old(cursor)@, old(buf)@.len()) <= usize::MAX,
        ensures
            copied == self@.window(old(cursor)@, old(buf)@.len()).len(),
            final(buf)@ == self@.window(old(cursor)@, old(buf)@.len()) + old(buf)@.skip(
                copied as int,
            ),
            final(cursor)@ == self@.next(old(cursor)@, old(buf)@.len()),
            ({
                let start = max(old(cursor)@ as int, self@.head as int);
                let n = min(
                    old(buf)@.len() as int,
                    max(0, self@.head + self@.bytes.len() - start),
                );
                &&& copied == n
                &&& final(cursor)@ == start + n
                &&& final(buf)@.len() == old(buf)@.len()
                &&& forall|i: int|
                    0 <= i < n ==> #[trigger] final(buf)@[i] == self@.bytes[start - self@.head
                        + i]
                &&& forall|i: int|
                    n <= i < old(buf)@.len() ==> #[trigger] final(buf)@[i] == old(buf)@[i]
            }),
    {
        let ghost pos = cursor@;
        let ghost room = buf@;
        let mut copied: usize = 0;
        let mut offset: usize = if cursor.pos < self.head {
            cursor.pos = self.head;
            0
        } else {
            cursor.pos - self.head
        };
        let ghost from = offset as int;
        let runs: [&[u8]; 2] = self.buffer.get_bytes_upto_size(buf.len() + offset);
        let ghost whole = runs@[0]@ + runs@[1]@;
        let mut i: usize = 0;
        let ghost mut passed: Seq<u8> = Seq::empty();
        while i < 2
            invariant
                i <= 2,
                passed == if i == 0 {
                    Seq::<u8>::empty()
                } else if i == 1 {
                    runs@[0]@
                } else {
                    whole
                },
                whole == runs@[0]@ + runs@[1]@,
                whole.len() <= room.len() + from,
                buf@.len() == room.len() <= usize::MAX,
                from >= 0,
                offset == if passed.len() < from {
                    from - passed.len()
                } else {
                    0
                },
                copied == if passed.len() < from {
                    0
                } else {
                    passed.len() - from
                },
                buf@ == passed.skip(least(passed.len() as int, from)) + room.skip(copied as int),
            decreases 2 - i,
        {
            let data: &[u8] = runs[i];
            proof {
                passed = passed + data@;
                assert(passed =~= if i == 0 {
                    runs@[0]@
                } else {
                    whole
                });
            }
            if offset < data.len() {
                copy_into(buf, copied, slice_subrange(data, offset, data.len()));
                copied += data.len() - offset;
                offset = 0;
                assert(buf@ =~= passed.skip(from) + room.skip(copied as int));
            } else {
                offset -= data.len();
                assert(buf@ =~= passed.skip(least(passed.len() as int, from)) + room.skip(
                    copied as int,
                ));
            }
            i += 1;
        }
        assert(whole.skip(least(whole.len() as int, from)) =~= self@.window(pos, room.len()));
        cursor.pos += copied;
        copied
    }

    /// Another watcher of the log. It has taken note of none of the appends so far, so it has news
    /// at once where there were any, and is told of every later one.
    pub fn watch(&mut self) -> (rx: watch::Receiver<()>)
        requires
            old(self).wf(),
        ensures
            *final(self) == *old(self),
            final(self).is_watched_by(rx),
            connected(final(self).sender(), rx),
            seen(rx) == 0,
            final(self).has_news_for(rx) <==> final(self).notices() > 0,
            final(self).has_news_for(rx) <==> sent(final(self).sender()) > 0,
    {
        clone_receiver(&self.watch_rx)
    }

    /// The most bytes that the log keeps.
    pub fn cap(&self) -> (n: usize)
        requires
            self.wf(),
        ensures
            n == self@.cap,
    {
        self.buffer.cap()
    }

    /// How many bytes the log holds.
    pub fn len(&self) -> (n: usize)
        requires
            self.wf(),
        ensures
            n == self@.bytes.len(),
    {
        self.buffer.len()
    }

    /// Whether `len` more bytes can be appended: they fit in the log, and the number of bytes
    /// trimmed since the start still fits in `usize`.
    pub fn can_append(&self, len: usize) -> (ok: bool)
        requires
            self.wf(),
        ensures
            ok == (len <= self@.cap && self@.head + self@.excess(len as nat) <= usize::MAX),
            ok == (len <= self@.cap && self@.head + max(
                0,
                self@.bytes.len() + len - self@.cap,
            ) <= usize::MAX),
    {
        let avail: usize = self.buffer.avail();
        len <= self.buffer.cap() && (len <= avail || len - avail <= usize::MAX - self.head)
    }

    /// Whether a read into room for `len` bytes keeps within `usize`.
    pub fn can_read(&self, cursor: &LogCursor, len: usize) -> (ok: bool)
        requires
            self.wf(),
        ensures
            ok == (self@.start(cursor@) - self@.head + len <= usize::MAX && self@.next(
                cursor@,
                len as nat,
            ) <= usize::MAX),
            ({
                let start = max(cursor@ as int, self@.head as int);
                let n = min(len as int, max(0, self@.head + self@.bytes.len() - start));
                ok == (start - self@.head + len <= usize::MAX && start + n <= usize::MAX)
            }),
    {
        let start: usize = if cursor.pos < self.head {
            self.head
        } else {
            cursor.pos
        };
        let offset: usize = start - self.head;
        let held: usize = self.buffer.len();
        let left: usize = if offset < held {
            held - offset
        } else {
            0
        };
        let copied: usize = if len < left {
            len
        } else {
            left
        };
        len <= usize::MAX - offset && copied <= usize::MAX - start
    }
}

/// A well-formed log keeps within its capacity.
pub proof fn law_log_keeps_within_its_capacity(log: ByteLog)
    requires
        log.wf(),
    ensures
        log@.valid(),
        log@.bytes.len() <= log@.cap,
{
}

/// A cursor stands at a position that `usize` can count.
pub proof fn law_cursor_is_a_position(cursor: LogCursor)
    ensures
        0 <= cursor@ <= usize::MAX,
{
}

/// The room that data from a process is read into before it is appended to a log.
pub const FEED_BUF_LEN: usize = 16384;

/// The room that data from a log is read into before it is sent.
pub const STREAM_BUF_LEN: usize = 4096;

/// One stream of a process, and the log that it is kept in.
pub struct SubStream {
    pub log: ByteLog,
    pub label: SubStreamLabel,
}

/// What to do after some data of a process was taken in.
#[derive(Clone, Copy, Debug, PartialEq, Eq, Structural)]
pub enum FeedStep {
    /// Read more of it.
    Read,
    /// Stop: the process has closed its end.
    Done,
}

impl SubStream {
    /// A stream with an empty log.
    pub fn new(label: SubStreamLabel) -> (stream: Self)
        ensures
            stream.log.wf(),
            stream.log@ == LogView::empty((APP_LOG_CAPACITY - 1) as nat),
            stream.log@.head == 0,
            stream.log@.bytes.len() == 0,
            stream.log@.cap == 131071,
            stream.log.notices() == 0,
            sent(stream.log.sender()) == 0,
            stream.label == label,
    {
        SubStream { log: ByteLog::new(), label }
    }

    /// A reader that stands at the start of the stream.
    pub fn reader(&self) -> (reader: LogReader)
        ensures
            reader.label == self.label,
            reader.cursor@ == 0,
    {
        LogReader { label: self.label, cursor: LogCursor::new() }
    }

    /// Takes in what a read from the process gave: the first `n` bytes of `buf` go to the log; no
    /// bytes are the end of the stream.
    pub fn feed(&mut self, buf: &[u8], n: usize) -> (step: FeedStep)
        requires
            old(self).log.wf(),
            n <= buf@.len(),
            n <= old(self).log@.cap,
            old(self).log@.head + old(self).log@.excess(n as nat) <= usize::MAX,
        ensures
            final(self).log.wf(),
            final(self).label == old(self).label,
            n == 0 ==> step == FeedStep::Done && *final(self) == *old(self),
            n > 0 ==> {
                &&& step == FeedStep::Read
                &&& final(self).log@ == old(self).log@.append(buf@.take(n as int))
                &&& final(self).log@.bytes == old(self).log@.bytes.skip(
                    max(0, old(self).log@.bytes.len() + n - old(self).log@.cap),
                ) + buf@.subrange(0, n as int)
                &&& final(self).log@.end() == old(self).log@.end() + n
                &&& final(self).log@.head + final(self).log@.bytes.len() == old(self).log@.head
                    + old(self).log@.bytes.len() + n
                &&& final(self).log@.cap == old(self).log@.cap
                &&& final(self).log.notices() == old(self).log.notices() + 1
                &&& sent(final(self).log.sender()) == sent(old(self).log.sender()) + 1
                &&& forall|rx: watch::Receiver<()>|
                    old(self).log.is_watched_by(rx) ==> #[trigger] final(self).log.is_watched_by(rx)
            },
    {
        if n == 0 {
            return FeedStep::Done;
        }
        let data: &[u8] = slice_subrange(buf, 0, n);
        assert(data@ =~= buf@.take(n as int));
        let _ = self.log.append(data);
        FeedStep::Read
    }
}

/// A reader of a stream: where it stands, and the label that it sends the data under.
pub struct LogReader {
    pub label: SubStreamLabel,
    pub cursor: LogCursor,
}

/// What to do next to bring a reader to the end of its log.
#[derive(Clone, Copy, Debug, PartialEq, Eq, Structural)]
pub enum StreamStep {
    /// Send the first `len` bytes of the buffer in a frame under `label`, then go on.
    Write { label: SubStreamLabel, len: usize },
    /// Stop: the reader has caught up with the log.
    Done,
}

impl LogReader {
    /// Reads on in the log of the reader's stream.
    pub fn read(&mut self, log: &ByteLog, buf: &mut [u8]) -> (copied: usize)
        requires
            log.wf(),
            log@.start(old(self).cursor@) - log@.head + old(buf)@.len() <= usize::MAX,
            log@.next(old(self).cursor@, old(buf)@.len()) <= usize::MAX,
        ensures
            copied == log@.window(old(self).cursor@, old(buf)@.len()).len(),
            final(buf)@ == log@.window(old(self).cursor@, old(buf)@.len()) + old(buf)@.skip(
                copied as int,
            ),
            final(self).cursor@ == log@.next(old(self).cursor@, old(buf)@.len()),
            final(self).label == old(self).label,
            ({
                let start = max(old(self).cursor@ as int, log@.head as int);
                let n = min(
                    old(buf)@.len() as int,
                    max(0, log@.head + log@.bytes.len() - start),
                );
                &&& copied == n
                &&& final(self).cursor@ == start + n
                &&& final(buf)@.len() == old(buf)@.len()
                &&& forall|i: int|
                    0 <= i < n ==> #[trigger] final(buf)@[i] == log@.bytes[start - log@.head
                        + i]
                &&& forall|i: int|
                    n <= i < old(buf)@.len() ==> #[trigger] final(buf)@[i] == old(buf)@[i]
            }),
    {
        log.read(&mut self.cursor, buf)
    }

    /// Reads on in the log of the reader's stream, and says what is to be done with what was read.
    pub fn stream(&mut self, log: &ByteLog, buf: &mut [u8]) -> (step: StreamStep)
        requires
            log.wf(),
            log@.start(old(self).cursor@) - log@.head + old(buf)@.len() <= usize::MAX,
            log@.next(old(self).cursor@, old(buf)@.len()) <= usize::MAX,
        ensures
            final(self).cursor@ == log@.next(old(self).cursor@, old(buf)@.len()),
            final(self).label == old(self).label,
            ({
                let data = log@.window(old(self).cursor@, old(buf)@.len());
                &&& final(buf)@ == data + old(buf)@.skip(data.len() as int)
                &&& data.len() == 0 ==> step == StreamStep::Done
                &&& data.len() > 0 ==> step == (StreamStep::Write {
                    label: old(self).label,
                    len: data.len() as usize,
                })
                &&& data.len() <= usize::MAX
            }),
            ({
                let start = max(old(self).cursor@ as int, log@.head as int);
                let n = min(
                    old(buf)@.len() as int,
                    max(0, log@.head + log@.bytes.len() - start),
                );
                &&& n == 0 <==> step == StreamStep::Done
                &&& n > 0 ==> step == (StreamStep::Write {
                    label: old(self).label,
                    len: n as usize,
                })
                &&& n <= usize::MAX
                &&& final(self).cursor@ == start + n
                &&& final(buf)@.len() == old(buf)@.len()
                &&& forall|i: int|
                    0 <= i < n ==> #[trigger] final(buf)@[i] == log@.bytes[start - log@.head
                        + i]
                &&& forall|i: int|
                    n <= i < old(buf)@.len() ==> #[trigger] final(buf)@[i] == old(buf)@[i]
            }),
    {
        let nread: usize = self.read(log, buf);
        if nread == 0 {
            StreamStep::Done
        } else {
            StreamStep::Write { label: self.label, len: nread }
        }
    }
}

} // verus!
