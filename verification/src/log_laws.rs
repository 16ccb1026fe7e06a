//! What holds of a log over any number of appends and reads.
use crate::log_view::{least, LogView};
use vstd::math::{max, min};
use vstd::prelude::*;

verus! {

/// The chunks, one behind the other.
pub open spec fn joined(chunks: Seq<Seq<u8>>) -> Seq<u8>
    decreases chunks.len(),
{
    if chunks.len() == 0 {
        Seq::empty()
    } else {
        joined(chunks.drop_last()) + chunks.last()
    }
}

/// A log after the chunks were appended to it, one by one.
pub open spec fn append_all(log: LogView, chunks: Seq<Seq<u8>>) -> LogView
    decreases chunks.len(),
{
    if chunks.len() == 0 {
        log
    } else {
        append_all(log, chunks.drop_last()).append(chunks.last())
    }
}

/// Every chunk is one that a log of capacity `cap` takes.
pub open spec fn all_fit(chunks: Seq<Seq<u8>>, cap: nat) -> bool {
    forall|i: int| 0 <= i < chunks.len() ==> (#[trigger] chunks[i]).len() <= cap
}

/// The last bytes of `all`, as many as a log of capacity `cap` keeps.
pub open spec fn tail(all: Seq<u8>, cap: nat) -> Seq<u8> {
    all.skip(all.len() - least(all.len() as int, cap as int))
}

/// What an append does, byte by byte: of the bytes that were held and then the bytes of `data`, the
/// last ones stay, all of them or as many as the capacity allows, and the head goes on by the others.
pub proof fn law_append_byte_by_byte(log: LogView, data: Seq<u8>)
    requires
        log.bytes.len() <= log.cap,
        data.len() <= log.cap,
    ensures
        ({
            let after = log.append(data);
            let gone = max(0, log.bytes.len() + data.len() - log.cap);
            &&& log.excess(data.len()) == gone
            &&& after.cap == log.cap
            &&& after.head == log.head + gone
            &&& after.bytes.len() == min(log.cap as int, (log.bytes.len() + data.len()) as int)
            &&& after.head + after.bytes.len() == log.head + log.bytes.len() + data.len()
            &&& forall|i: int|
                0 <= i < log.bytes.len() - gone ==> #[trigger] after.bytes[i] == log.bytes[i + gone]
            &&& forall|i: int|
                0 <= i < data.len() ==> #[trigger] after.bytes[after.bytes.len() - data.len() + i]
                    == data[i]
        }),
{
}

/// What a read gives, byte by byte: it starts at the reader's position or at the head, whichever is
/// later, and gives the bytes from there on, all of them or as many as there is room for; the next
/// read goes on behind them.
pub proof fn law_read_byte_by_byte(log: LogView, pos: nat, n: nat)
    ensures
        ({
            let from = max(pos as int, log.head as int);
            let left = max(0, log.head + log.bytes.len() - from);
            let data = log.window(pos, n);
            &&& log.start(pos) == from
            &&& log.after(pos).len() == left
            &&& forall|i: int|
                0 <= i < left ==> #[trigger] log.after(pos)[i] == log.bytes[from - log.head + i]
            &&& data.len() == min(n as int, left)
            &&& forall|i: int|
                0 <= i < data.len() ==> #[trigger] data[i] == log.bytes[from - log.head + i]
            &&& log.next(pos, n) == from + data.len()
        }),
{
}

/// An empty log holds nothing, and nothing went before; a log is within its capacity where it holds
/// no more bytes than that; and its end counts the bytes that are gone and those that are held.
pub proof fn law_what_a_log_counts(log: LogView, cap: nat)
    ensures
        LogView::empty(cap).head == 0,
        LogView::empty(cap).bytes.len() == 0,
        LogView::empty(cap).cap == cap,
        log.valid() <==> log.bytes.len() <= log.cap,
        log.end() == log.head + log.bytes.len(),
{
}

/// An append keeps a log within its capacity, counts what was appended, and keeps the newest
/// bytes: the log holds the tail of what it held and what was appended.
pub proof fn law_append_keeps_newest(log: LogView, data: Seq<u8>)
    requires
        log.valid(),
        data.len() <= log.cap,
    ensures
        log.append(data).valid(),
        log.append(data).cap == log.cap,
        log.append(data).end() == log.end() + data.len(),
        log.append(data).bytes == tail(log.bytes + data, log.cap),
        log.append(data).head == log.head + log.excess(data.len()),
{
    assert(log.append(data).bytes =~= tail(log.bytes + data, log.cap));
}

/// An append drops bytes only where the log would otherwise outgrow its capacity, and no more than
/// it takes: a log that dropped any is full.
pub proof fn law_append_drops_no_more_than_needed(log: LogView, data: Seq<u8>)
    requires
        log.valid(),
        data.len() <= log.cap,
    ensures
        log.excess(data.len()) == 0 <==> log.bytes.len() + data.len() <= log.cap,
        log.excess(data.len()) > 0 ==> log.append(data).bytes.len() == log.cap,
        log.excess(data.len()) == 0 ==> log.append(data).bytes == log.bytes + data,
{
    if log.excess(data.len()) == 0 {
        assert(log.append(data).bytes =~= log.bytes + data);
    }
}

/// A byte keeps its position in the log for as long as it is kept.
pub proof fn law_bytes_keep_their_position(log: LogView, data: Seq<u8>, pos: nat)
    requires
        log.valid(),
        data.len() <= log.cap,
        log.append(data).head <= pos < log.end(),
    ensures
        log.append(data).bytes[pos - log.append(data).head] == log.bytes[pos - log.head],
{
}

/// A log holds the tail of everything that was ever appended to it, and its head counts the rest.
pub proof fn law_log_is_tail_of_everything(cap: nat, chunks: Seq<Seq<u8>>)
    requires
        all_fit(chunks, cap),
    ensures
        append_all(LogView::empty(cap), chunks) == (LogView {
            head: (joined(chunks).len() - tail(joined(chunks), cap).len()) as nat,
            bytes: tail(joined(chunks), cap),
            cap,
        }),
    decreases chunks.len(),
{
    if chunks.len() == 0 {
        assert(tail(joined(chunks), cap) =~= Seq::empty());
    } else {
        let before = joined(chunks.drop_last());
        let data = chunks.last();
        let log = append_all(LogView::empty(cap), chunks.drop_last());
        assert(all_fit(chunks.drop_last(), cap));
        law_log_is_tail_of_everything(cap, chunks.drop_last());
        law_append_keeps_newest(log, data);
        assert(log.append(data).bytes =~= tail(before + data, cap));
    }
}

/// What a read gives is what was appended at the positions that it covers, in order and without a
/// gap, from where the reader stood or from the oldest byte that is left.
pub proof fn law_read_gives_what_was_appended(cap: nat, chunks: Seq<Seq<u8>>, pos: nat, n: nat)
    requires
        all_fit(chunks, cap),
    ensures
        ({
            let all = joined(chunks);
            let log = append_all(LogView::empty(cap), chunks);
            &&& log.end() == all.len()
            &&& pos <= all.len() ==> {
                &&& log.start(pos) <= log.next(pos, n) <= all.len()
                &&& log.window(pos, n) == all.subrange(log.start(pos) as int, log.next(pos, n) as int)
            }
            &&& pos > all.len() ==> log.window(pos, n).len() == 0
        }),
{
    let all = joined(chunks);
    let log = append_all(LogView::empty(cap), chunks);
    law_log_is_tail_of_everything(cap, chunks);
    if pos <= all.len() {
        assert(log.window(pos, n) =~= all.subrange(log.start(pos) as int, log.next(pos, n) as int));
    }
}

/// A read gives nothing only where there is no room or the reader has caught up.
pub proof fn law_read_gives_nothing_only_at_the_end(log: LogView, pos: nat, n: nat)
    requires
        log.valid(),
    ensures
        log.window(pos, n).len() == 0 <==> n == 0 || log.start(pos) >= log.end(),
{
}

/// Two reads in a row give what one read into as much room gives.
pub proof fn law_reads_add_up(log: LogView, pos: nat, n: nat, m: nat)
    requires
        log.valid(),
    ensures
        log.window(pos, n) + log.window(log.next(pos, n), m) == log.window(pos, n + m),
        log.next(log.next(pos, n), m) == log.next(pos, n + m),
{
    assert(log.window(pos, n) + log.window(log.next(pos, n), m) =~= log.window(pos, n + m));
}

/// What reads into room for `n` bytes give, one behind the other, until one gives nothing.
pub open spec fn read_all(log: LogView, pos: nat, n: nat) -> Seq<u8>
    decreases log.end() - log.start(pos),
{
    if log.window(pos, n).len() == 0 {
        Seq::empty()
    } else {
        log.window(pos, n) + read_all(log, log.next(pos, n), n)
    }
}

/// Reading until there is nothing left gives every byte of the log from the reader's position on,
/// whatever the room for each read.
pub proof fn law_reading_on_gives_everything(log: LogView, pos: nat, n: nat)
    requires
        log.valid(),
        n > 0,
    ensures
        read_all(log, pos, n) == log.after(pos),
    decreases log.end() - log.start(pos),
{
    if log.window(pos, n).len() == 0 {
        assert(log.after(pos) =~= Seq::empty());
    } else {
        law_reading_on_gives_everything(log, log.next(pos, n), n);
        assert(log.window(pos, n) + log.after(log.next(pos, n)) =~= log.after(pos));
    }
}

/// A reader that the log was not trimmed past loses nothing to an append: what it has yet to read
/// is what it had to read before, and then what was appended.
pub proof fn law_append_reaches_the_reader(log: LogView, data: Seq<u8>, pos: nat)
    requires
        log.valid(),
        data.len() <= log.cap,
        log.append(data).head <= pos <= log.end(),
    ensures
        log.append(data).after(pos) == log.after(pos) + data,
{
    assert(log.append(data).after(pos) =~= log.after(pos) + data);
}

/// A reader that the log was trimmed past goes on at the oldest byte that is left: it gets the
/// whole log, and misses the bytes between its position and the head.
pub proof fn law_trimmed_reader_goes_on_at_the_head(log: LogView, pos: nat)
    requires
        log.valid(),
        pos < log.head,
    ensures
        log.start(pos) == log.head,
        log.after(pos) == log.bytes,
{
    assert(log.after(pos) =~= log.bytes);
}

/// How many bytes the appends of the chunks, one by one, trim together.
pub open spec fn trimmed_by(log: LogView, chunks: Seq<Seq<u8>>) -> int
    decreases chunks.len(),
{
    if chunks.len() == 0 {
        0
    } else {
        trimmed_by(log, chunks.drop_last()) + append_all(log, chunks.drop_last()).excess(
            chunks.last().len(),
        )
    }
}

/// What was appended is held or was trimmed: the numbers of bytes trimmed add up to the head, and
/// with the length of the log to the number of bytes appended. The log holds all of them, or as many
/// as its capacity allows; the capacity stays what it was.
pub proof fn law_trimmed_and_held_add_up(cap: nat, chunks: Seq<Seq<u8>>)
    requires
        all_fit(chunks, cap),
    ensures
        ({
            let log = append_all(LogView::empty(cap), chunks);
            &&& trimmed_by(LogView::empty(cap), chunks) == log.head
            &&& trimmed_by(LogView::empty(cap), chunks) + log.bytes.len() == joined(chunks).len()
            &&& log.bytes.len() == least(cap as int, joined(chunks).len() as int)
            &&& log.cap == cap
        }),
    decreases chunks.len(),
{
    law_log_is_tail_of_everything(cap, chunks);
    if chunks.len() > 0 {
        assert(all_fit(chunks.drop_last(), cap));
        law_trimmed_and_held_add_up(cap, chunks.drop_last());
        law_log_is_tail_of_everything(cap, chunks.drop_last());
        law_append_keeps_newest(
            append_all(LogView::empty(cap), chunks.drop_last()),
            chunks.last(),
        );
    }
}

/// Data may be appended in one piece or in two: as many bytes are trimmed, and the same bytes are
/// left, on any two logs that hold the same bytes.
pub proof fn law_append_in_pieces(x: LogView, y: LogView, a: Seq<u8>, b: Seq<u8>)
    requires
        x.valid(),
        x.bytes == y.bytes,
        x.cap == y.cap,
        a.len() + b.len() <= x.cap,
    ensures
        x.excess((a + b).len()) == y.excess(a.len()) + y.append(a).excess(b.len()),
        x.append(a + b).bytes == y.append(a).append(b).bytes,
        x.append(a + b).cap == y.append(a).append(b).cap,
        x.append(a + b).head - x.head == y.append(a).append(b).head - y.head,
{
    assert(x.append(a + b).bytes =~= y.append(a).append(b).bytes);
}

/// As long as `usize` can count all that was ever appended, it can count the head: an append that
/// keeps within it is one that a log takes.
pub proof fn law_append_keeps_within_usize(log: LogView, data: Seq<u8>)
    requires
        log.valid(),
        data.len() <= log.cap,
        log.end() + data.len() <= usize::MAX,
    ensures
        log.append(data).head <= usize::MAX,
        log.append(data).end() <= usize::MAX,
{
    law_append_keeps_newest(log, data);
}

/// As long as `usize` can count all that was ever appended, and the capacity and the room together,
/// a reader that stands within the log can read.
pub proof fn law_read_keeps_within_usize(log: LogView, pos: nat, n: nat)
    requires
        log.valid(),
        log.end() <= usize::MAX,
        pos <= log.end(),
        log.cap + n <= usize::MAX,
    ensures
        log.start(pos) - log.head + n <= usize::MAX,
        log.next(pos, n) <= log.end(),
        log.next(pos, n) <= usize::MAX,
{
}

/// What reads into rooms of these sizes give, one behind the other.
pub open spec fn reads(log: LogView, pos: nat, sizes: Seq<nat>) -> Seq<u8>
    decreases sizes.len(),
{
    if sizes.len() == 0 {
        Seq::empty()
    } else {
        reads(log, pos, sizes.drop_last()) + log.window(
            reads_to(log, pos, sizes.drop_last()),
            sizes.last(),
        )
    }
}

/// Where the reader stands behind them.
pub open spec fn reads_to(log: LogView, pos: nat, sizes: Seq<nat>) -> nat
    decreases sizes.len(),
{
    if sizes.len() == 0 {
        pos
    } else {
        log.next(reads_to(log, pos, sizes.drop_last()), sizes.last())
    }
}

/// Reads into rooms of any sizes leave out nothing: what they gave, and what is from there on, is
/// what was from the reader's position on.
pub proof fn law_reads_leave_out_nothing(log: LogView, pos: nat, sizes: Seq<nat>)
    requires
        log.valid(),
    ensures
        reads(log, pos, sizes) + log.after(reads_to(log, pos, sizes)) == log.after(pos),
    decreases sizes.len(),
{
    if sizes.len() == 0 {
        assert(reads(log, pos, sizes) + log.after(pos) =~= log.after(pos));
    } else {
        let before = sizes.drop_last();
        let n = sizes.last();
        let at = reads_to(log, pos, before);
        law_reads_leave_out_nothing(log, pos, before);
        assert(log.window(at, n) + log.after(log.next(at, n)) =~= log.after(at));
        assert(reads(log, pos, sizes) + log.after(reads_to(log, pos, sizes)) =~= reads(
            log,
            pos,
            before,
        ) + log.after(at));
    }
}

/// Reading until a read with room gives nothing gives every byte of the log from the reader's
/// position on, whatever the room for each read.
pub proof fn law_reading_on_in_any_sizes_gives_everything(
    log: LogView,
    pos: nat,
    sizes: Seq<nat>,
    n: nat,
)
    requires
        log.valid(),
        n > 0,
        log.window(reads_to(log, pos, sizes), n).len() == 0,
    ensures
        reads(log, pos, sizes) == log.after(pos),
{
    law_reads_leave_out_nothing(log, pos, sizes);
    assert(reads(log, pos, sizes) =~= reads(log, pos, sizes) + log.after(
        reads_to(log, pos, sizes),
    ));
}

/// A new reader that reads on until nothing is left, with whatever room for each read, gets the log
/// in full: the last bytes of everything that was ever appended.
pub proof fn law_new_reader_gets_the_tail_of_everything(
    cap: nat,
    chunks: Seq<Seq<u8>>,
    sizes: Seq<nat>,
    n: nat,
)
    requires
        all_fit(chunks, cap),
        n > 0,
        append_all(LogView::empty(cap), chunks).window(
            reads_to(append_all(LogView::empty(cap), chunks), 0, sizes),
            n,
        ).len() == 0,
    ensures
        ({
            let log = append_all(LogView::empty(cap), chunks);
            let all = joined(chunks);
            &&& reads(log, 0, sizes).len() == log.bytes.len()
            &&& reads(log, 0, sizes) == all.skip(all.len() - log.bytes.len())
        }),
{
    let log = append_all(LogView::empty(cap), chunks);
    law_log_is_tail_of_everything(cap, chunks);
    law_reading_on_in_any_sizes_gives_everything(log, 0, sizes, n);
    assert(log.after(0) =~= log.bytes);
}

/// Where the bytes appended count up from 0, round and round, the bytes that a new reader gets count
/// up from the number of bytes trimmed.
pub proof fn law_counting_bytes_count_on(cap: nat, chunks: Seq<Seq<u8>>, sizes: Seq<nat>, n: nat)
    requires
        all_fit(chunks, cap),
        forall|k: int| 0 <= k < joined(chunks).len() ==> #[trigger] joined(chunks)[k] == k % 256,
        n > 0,
        append_all(LogView::empty(cap), chunks).window(
            reads_to(append_all(LogView::empty(cap), chunks), 0, sizes),
            n,
        ).len() == 0,
    ensures
        ({
            let log = append_all(LogView::empty(cap), chunks);
            let got = reads(log, 0, sizes);
            &&& got.len() == log.bytes.len()
            &&& forall|k: int|
                0 <= k < got.len() ==> #[trigger] got[k] == (trimmed_by(
                    LogView::empty(cap),
                    chunks,
                ) + k) % 256
        }),
{
    law_new_reader_gets_the_tail_of_everything(cap, chunks, sizes, n);
    law_trimmed_and_held_add_up(cap, chunks);
}

/// A reader that has caught up gets nothing more until something is appended.
pub proof fn law_caught_up_reader_gets_nothing(log: LogView, pos: nat, n: nat, m: nat)
    requires
        log.valid(),
        n > 0,
        log.window(pos, n).len() == 0,
    ensures
        log.window(log.next(pos, n), m).len() == 0,
        log.next(log.next(pos, n), m) == log.next(pos, n),
{
}

/// Something that happens to a log with one reader.
pub enum Op {
    /// Data is appended.
    Append(Seq<u8>),
    /// The reader reads into room for this many bytes.
    Read(nat),
}

/// What became of a log with one reader.
pub struct Run {
    /// The log.
    pub log: LogView,
    /// Everything that was appended to it.
    pub all: Seq<u8>,
    /// Where the reader stands.
    pub pos: nat,
    /// Everything that the reader got.
    pub got: Seq<u8>,
    /// How many bytes were trimmed before the reader came to them.
    pub missed: int,
}

impl Run {
    /// An empty log with a reader at its start.
    pub open spec fn start(cap: nat) -> Run {
        Run {
            log: LogView::empty(cap),
            all: Seq::empty(),
            pos: 0,
            got: Seq::empty(),
            missed: 0,
        }
    }

    /// One thing more happens.
    pub open spec fn step(self, op: Op) -> Run {
        match op {
            Op::Append(data) => Run {
                log: self.log.append(data),
                all: self.all + data,
                ..self
            },
            Op::Read(n) => Run {
                pos: self.log.next(self.pos, n),
                got: self.got + self.log.window(self.pos, n),
                missed: self.missed + (self.log.start(self.pos) - self.pos),
                ..self
            },
        }
    }

    /// A number of things happen, one by one.
    pub open spec fn steps(self, ops: Seq<Op>) -> Run
        decreases ops.len(),
    {
        if ops.len() == 0 {
            self
        } else {
            self.steps(ops.drop_last()).step(ops.last())
        }
    }
}

/// What holds of a log of capacity `cap` with one reader at any time.
pub open spec fn sound(run: Run, cap: nat) -> bool {
    &&& run.log.valid()
    &&& run.log.cap == cap
    &&& run.log.bytes == tail(run.all, cap)
    &&& run.log.end() == run.all.len()
    &&& 0 <= run.pos <= run.all.len()
    &&& 0 <= run.missed
    &&& run.got.len() + run.missed == run.pos
    &&& run.missed == 0 ==> run.got == run.all.take(run.pos as int)
}

proof fn lemma_append_stays_sound(run: Run, cap: nat, data: Seq<u8>)
    requires
        sound(run, cap),
        data.len() <= cap,
    ensures
        sound(run.step(Op::Append(data)), cap),
{
    let after = run.step(Op::Append(data));
    law_append_keeps_newest(run.log, data);
    assert(after.log.bytes =~= tail(after.all, cap));
    assert(after.all.take(run.pos as int) =~= run.all.take(run.pos as int));
}

proof fn lemma_read_stays_sound(run: Run, cap: nat, n: nat)
    requires
        sound(run, cap),
    ensures
        sound(run.step(Op::Read(n)), cap),
{
    let after = run.step(Op::Read(n));
    if after.missed == 0 {
        assert(after.got =~= after.all.take(after.pos as int));
    }
}

/// Whatever is appended is data that a log of capacity `cap` takes.
pub open spec fn ops_fit(ops: Seq<Op>, cap: nat) -> bool {
    forall|i: int| 0 <= i < ops.len() ==> (#[trigger] ops[i] matches Op::Append(data) ==> data.len() <= cap)
}

/// However appends and reads follow each other: the log holds the tail of everything; the reader
/// got, or missed, each byte before its position once; and a reader that missed none got exactly
/// what was appended, from the first byte to its position.
pub proof fn law_reader_that_keeps_up_gets_everything(cap: nat, ops: Seq<Op>)
    requires
        ops_fit(ops, cap),
    ensures
        sound(Run::start(cap).steps(ops), cap),
    decreases ops.len(),
{
    if ops.len() == 0 {
        let run = Run::start(cap);
        assert(tail(run.all, cap) =~= Seq::empty());
        assert(run.got =~= run.all.take(run.pos as int));
    } else {
        let before = ops.drop_last();
        assert forall|i: int| 0 <= i < before.len() implies (
        #[trigger] before[i] matches Op::Append(data) ==> data.len() <= cap) by {
            assert(before[i] == ops[i]);
        }
        law_reader_that_keeps_up_gets_everything(cap, before);
        assert(ops.last() == ops[ops.len() - 1]);
        match ops.last() {
            Op::Append(data) => {
                lemma_append_stays_sound(Run::start(cap).steps(before), cap, data);
            },
            Op::Read(n) => {
                lemma_read_stays_sound(Run::start(cap).steps(before), cap, n);
            },
        }
    }
}

/// However appends and reads went before, a read delivers the bytes that were appended at the
/// positions that it covers, right behind each other. It starts where the reader stands, or later
/// where bytes were trimmed before the reader came to them, and then at the oldest that is left; so
/// the reader never goes back, gets no byte twice and none out of order, and stays within the log.
pub proof fn law_reader_never_goes_back(cap: nat, ops: Seq<Op>, n: nat)
    requires
        ops_fit(ops, cap),
    ensures
        ({
            let run = Run::start(cap).steps(ops);
            let data = run.log.window(run.pos, n);
            let next = run.log.next(run.pos, n);
            let p = next - data.len();
            &&& run.step(Op::Read(n)).pos == next
            &&& run.step(Op::Read(n)).got == run.got + data
            &&& run.pos <= p <= next <= run.all.len()
            &&& p == if run.pos < run.log.head {
                run.log.head
            } else {
                run.pos
            }
            &&& data == run.all.subrange(p, next as int)
        }),
{
    let run = Run::start(cap).steps(ops);
    law_reader_that_keeps_up_gets_everything(cap, ops);
    let next = run.log.next(run.pos, n);
    let p = next - run.log.window(run.pos, n).len();
    assert(run.log.window(run.pos, n) =~= run.all.subrange(p, next as int));
}

} // verus!
