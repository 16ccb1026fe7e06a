//! What holds of a log on its way through a connection to a client.
use crate::console::{APP_LOG_CAPACITY, FEED_BUF_LEN, STREAM_BUF_LEN};
use crate::frame::{frame, max_data_len, receive, FrameRead, Received, SubStreamLabel};
use crate::frame_laws::law_read_what_was_written;
use crate::log_laws::{
    all_fit, append_all, joined, law_caught_up_reader_gets_nothing, law_log_is_tail_of_everything,
    law_reading_on_gives_everything, read_all, tail,
};
use crate::log_view::LogView;
use vstd::prelude::*;

verus! {

/// What a frame says.
#[verifier::ext_equal]
pub struct FrameView {
    pub label: SubStreamLabel,
    pub data: Seq<u8>,
}

/// Frames as they travel, one behind the other.
pub open spec fn wire(frames: Seq<FrameView>) -> Seq<u8>
    decreases frames.len(),
{
    if frames.len() == 0 {
        Seq::empty()
    } else {
        frame(frames[0].label, frames[0].data) + wire(frames.drop_first())
    }
}

/// No data is longer than a frame can hold.
pub open spec fn all_sendable(frames: Seq<FrameView>) -> bool {
    forall|i: int| 0 <= i < frames.len() ==> (#[trigger] frames[i]).data.len() <= max_data_len()
}

/// The frames that a client reads off a stream, up to its end or to where it holds no frame.
pub open spec fn received(stream: Seq<u8>) -> Seq<FrameView>
    decreases stream.len(),
    via received_decreases
{
    match receive(FrameRead::Header, stream) {
        Received::Frame { label, data, rest } => seq![FrameView { label, data }] + received(rest),
        _ => Seq::empty(),
    }
}

#[via_fn]
proof fn received_decreases(stream: Seq<u8>) {
    reveal_with_fuel(receive, 2);
}

/// The data of the frames under `label`, one behind the other.
pub open spec fn data_of(frames: Seq<FrameView>, label: SubStreamLabel) -> Seq<u8>
    decreases frames.len(),
{
    if frames.len() == 0 {
        Seq::empty()
    } else if frames[0].label == label {
        frames[0].data + data_of(frames.drop_first(), label)
    } else {
        data_of(frames.drop_first(), label)
    }
}

/// The frames that are sent to bring a reader at position `pos` to the end of a log: one under
/// `label` for each read into room for `n` bytes, until one gives nothing.
pub open spec fn sent_frames(log: LogView, label: SubStreamLabel, pos: nat, n: nat) -> Seq<FrameView>
    decreases log.end() - log.start(pos),
{
    if log.window(pos, n).len() == 0 {
        Seq::empty()
    } else {
        seq![FrameView { label, data: log.window(pos, n) }] + sent_frames(
            log,
            label,
            log.next(pos, n),
            n,
        )
    }
}

/// A client reads the frames that were sent, in order, whatever labels they have.
pub proof fn law_client_reads_what_was_sent(frames: Seq<FrameView>)
    requires
        all_sendable(frames),
    ensures
        received(wire(frames)) == frames,
    decreases frames.len(),
{
    if frames.len() == 0 {
        assert(received(wire(frames)) =~= frames);
    } else {
        let rest = frames.drop_first();
        assert forall|i: int| 0 <= i < rest.len() implies (#[trigger] rest[i]).data.len()
            <= max_data_len() by {
            assert(rest[i] == frames[i + 1]);
        }
        law_client_reads_what_was_sent(rest);
        law_read_what_was_written(frames[0].label, frames[0].data, wire(rest));
        assert(received(wire(frames)) =~= frames);
    }
}

/// Streams that share a connection do not mix: what a client gets under one label is what was sent
/// under it, before and after whatever else was sent.
pub proof fn law_streams_do_not_mix(a: Seq<FrameView>, b: Seq<FrameView>, label: SubStreamLabel)
    ensures
        data_of(a + b, label) == data_of(a, label) + data_of(b, label),
        (forall|i: int| 0 <= i < a.len() ==> (#[trigger] a[i]).label != label) ==> data_of(a, label)
            == Seq::<u8>::empty(),
    decreases a.len(),
{
    if a.len() == 0 {
        assert(a + b =~= b);
        assert(data_of(a + b, label) =~= data_of(a, label) + data_of(b, label));
    } else {
        let rest = a.drop_first();
        law_streams_do_not_mix(rest, b, label);
        assert((a + b).drop_first() =~= rest + b);
        assert(data_of(a + b, label) =~= data_of(a, label) + data_of(b, label));
        if forall|i: int| 0 <= i < a.len() ==> (#[trigger] a[i]).label != label {
            assert forall|i: int| 0 <= i < rest.len() implies (#[trigger] rest[i]).label
                != label by {
                assert(rest[i] == a[i + 1]);
            }
        }
    }
}

/// The frames that are sent of a log have its label, can be sent, and hold together what reading on
/// gives.
pub proof fn law_sent_frames_hold_what_is_read(
    log: LogView,
    label: SubStreamLabel,
    pos: nat,
    n: nat,
)
    requires
        log.valid(),
        0 < n <= max_data_len(),
    ensures
        all_sendable(sent_frames(log, label, pos, n)),
        forall|i: int|
            0 <= i < sent_frames(log, label, pos, n).len() ==> (#[trigger] sent_frames(
                log,
                label,
                pos,
                n,
            )[i]).label == label,
        data_of(sent_frames(log, label, pos, n), label) == read_all(log, pos, n),
    decreases log.end() - log.start(pos),
{
    if log.window(pos, n).len() > 0 {
        let frames = sent_frames(log, label, pos, n);
        let rest = sent_frames(log, label, log.next(pos, n), n);
        law_sent_frames_hold_what_is_read(log, label, log.next(pos, n), n);
        assert(frames.drop_first() =~= rest);
        assert forall|i: int| 0 <= i < frames.len() implies (#[trigger] frames[i]).data.len()
            <= max_data_len() && frames[i].label == label by {
            if i > 0 {
                assert(frames[i] == rest[i - 1]);
            }
        }
    }
}

/// Where a reader stands once it has caught up with a log that does not grow.
pub open spec fn caught_up(log: LogView, pos: nat, n: nat) -> nat
    decreases log.end() - log.start(pos),
{
    if log.window(pos, n).len() == 0 {
        log.next(pos, n)
    } else {
        caught_up(log, log.next(pos, n), n)
    }
}

/// No frame is sent without data, and once a reader has caught up with its log, nothing is sent, not
/// even a frame without data, until something is appended.
pub proof fn law_nothing_is_sent_twice(
    log: LogView,
    label: SubStreamLabel,
    pos: nat,
    n: nat,
    m: nat,
)
    requires
        log.valid(),
        n > 0,
    ensures
        forall|i: int|
            0 <= i < sent_frames(log, label, pos, n).len() ==> (#[trigger] sent_frames(
                log,
                label,
                pos,
                n,
            )[i]).data.len() > 0,
        log.window(caught_up(log, pos, n), m).len() == 0,
        log.next(caught_up(log, pos, n), m) == caught_up(log, pos, n),
        sent_frames(log, label, caught_up(log, pos, n), m) == Seq::<FrameView>::empty(),
    decreases log.end() - log.start(pos),
{
    if log.window(pos, n).len() == 0 {
        law_caught_up_reader_gets_nothing(log, pos, n, m);
    } else {
        let frames = sent_frames(log, label, pos, n);
        let rest = sent_frames(log, label, log.next(pos, n), n);
        law_nothing_is_sent_twice(log, label, log.next(pos, n), n, m);
        assert forall|i: int| 0 <= i < frames.len() implies (#[trigger] frames[i]).data.len()
            > 0 by {
            if i > 0 {
                assert(frames[i] == rest[i - 1]);
            }
        }
    }
}

/// A client gets through a connection exactly the bytes that the log holds from the reader's
/// position on, as long as no read is longer than a frame can hold.
pub proof fn law_client_gets_the_log(log: LogView, label: SubStreamLabel, pos: nat, n: nat)
    requires
        log.valid(),
        0 < n <= max_data_len(),
    ensures
        data_of(received(wire(sent_frames(log, label, pos, n))), label) == log.after(pos),
{
    law_sent_frames_hold_what_is_read(log, label, pos, n);
    law_client_reads_what_was_sent(sent_frames(log, label, pos, n));
    law_reading_on_gives_everything(log, pos, n);
}

/// A client that connects at any time gets the tail of everything that was ever appended to the
/// log, as much as the log keeps.
pub proof fn law_new_client_gets_the_tail_of_everything(
    cap: nat,
    chunks: Seq<Seq<u8>>,
    label: SubStreamLabel,
    n: nat,
)
    requires
        all_fit(chunks, cap),
        0 < n <= max_data_len(),
    ensures
        ({
            let log = append_all(LogView::empty(cap), chunks);
            data_of(received(wire(sent_frames(log, label, 0, n))), label) == tail(
                joined(chunks),
                cap,
            )
        }),
{
    let log = append_all(LogView::empty(cap), chunks);
    law_log_is_tail_of_everything(cap, chunks);
    law_client_gets_the_log(log, label, 0, n);
    assert(log.after(0) =~= log.bytes);
}

/// Whatever one read off a process gives can be appended to a log, and whatever one read off a log
/// for sending gives can be sent in a frame: a log keeps 131071 bytes, a read off a process gives at
/// most 16384, a read for sending at most 4096, and a frame holds up to 65535.
pub proof fn law_buffers_fit()
    ensures
        APP_LOG_CAPACITY == 131072,
        FEED_BUF_LEN == 16384,
        STREAM_BUF_LEN == 4096,
        max_data_len() == 65535,
        LogView::empty((APP_LOG_CAPACITY - 1) as nat).cap >= FEED_BUF_LEN,
        STREAM_BUF_LEN <= max_data_len(),
{
}

} // verus!
