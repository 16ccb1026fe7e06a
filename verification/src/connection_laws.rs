//! What holds of a connection over several streams that grow while they are sent.
use crate::frame::{frame, max_data_len, receive, SubStreamLabel};
use crate::frame_laws::{
    law_decode_waits_for_the_whole_frame, law_read_and_decode_agree, law_read_what_was_written,
};
use crate::log_laws::law_append_keeps_newest;
use crate::log_view::LogView;
use crate::stream_laws::{
    all_sendable, data_of, law_streams_do_not_mix, received, wire, FrameView,
};
use vstd::prelude::*;

verus! {

/// A stream that a connection serves.
pub struct Served {
    /// The label that it is sent under.
    pub label: SubStreamLabel,
    /// Its log.
    pub log: LogView,
    /// Where the connection's reader stands.
    pub pos: nat,
    /// The bytes of the log from where the reader began, and all that was appended since.
    pub due: Seq<u8>,
    /// Whether bytes were trimmed that the reader had yet to read.
    pub lost: bool,
}

impl Served {
    /// A stream at the start of a connection.
    pub open spec fn begin(label: SubStreamLabel, log: LogView, pos: nat) -> Served {
        Served { label, log, pos, due: log.after(pos), lost: false }
    }

    /// The stream after an append.
    pub open spec fn append(self, data: Seq<u8>) -> Served {
        Served {
            log: self.log.append(data),
            due: self.due + data,
            lost: self.lost || self.log.append(data).head > self.log.start(self.pos),
            ..self
        }
    }

    /// The stream after a read into room for `n` bytes.
    pub open spec fn read(self, n: nat) -> Served {
        Served { pos: self.log.next(self.pos, n), ..self }
    }
}

/// Something that happens while a connection is served.
pub enum Step {
    /// Data is appended to the log of a stream.
    Append { stream: int, data: Seq<u8> },
    /// The reader of a stream reads into room for `n` bytes, and what it got, if anything, is sent
    /// in a frame.
    Send { stream: int, n: nat },
}

/// The streams of a connection, and the frames that were sent so far.
pub struct Service {
    pub streams: Seq<Served>,
    pub frames: Seq<FrameView>,
}

impl Service {
    /// One thing more happens.
    pub open spec fn step(self, step: Step) -> Service {
        match step {
            Step::Append { stream, data } => Service {
                streams: self.streams.update(stream, self.streams[stream].append(data)),
                ..self
            },
            Step::Send { stream, n } => {
                let served = self.streams[stream];
                let data = served.log.window(served.pos, n);
                Service {
                    streams: self.streams.update(stream, served.read(n)),
                    frames: if data.len() == 0 {
                        self.frames
                    } else {
                        self.frames.push(FrameView { label: served.label, data })
                    },
                }
            },
        }
    }

    /// A number of things happen, one by one.
    pub open spec fn steps(self, steps: Seq<Step>) -> Service
        decreases steps.len(),
    {
        if steps.len() == 0 {
            self
        } else {
            self.steps(steps.drop_last()).step(steps.last())
        }
    }

    /// No two streams have one label.
    pub open spec fn labels_differ(self) -> bool {
        forall|i: int, j: int|
            0 <= i < j < self.streams.len() ==> (#[trigger] self.streams[i]).label != (
            #[trigger] self.streams[j]).label
    }

    /// A connection that nothing was sent through yet, with a reader for each stream that stands
    /// within its log.
    pub open spec fn fresh(self) -> bool {
        &&& self.labels_differ()
        &&& self.frames == Seq::<FrameView>::empty()
        &&& forall|i: int|
            #![trigger self.streams[i]]
            0 <= i < self.streams.len() ==> {
                let s = self.streams[i];
                &&& s.log.valid()
                &&& s.pos <= s.log.end()
                &&& s == Served::begin(s.label, s.log, s.pos)
            }
    }

    /// The step can happen: its stream is one of the connection's, data that is appended fits in the
    /// log, and what is read fits in a frame.
    pub open spec fn allows(self, step: Step) -> bool {
        match step {
            Step::Append { stream, data } => {
                &&& 0 <= stream < self.streams.len()
                &&& data.len() <= self.streams[stream].log.cap
            },
            Step::Send { stream, n } => {
                &&& 0 <= stream < self.streams.len()
                &&& n <= max_data_len()
            },
        }
    }

    /// Each of the steps can happen.
    pub open spec fn allows_all(self, steps: Seq<Step>) -> bool {
        forall|i: int| 0 <= i < steps.len() ==> self.allows(#[trigger] steps[i])
    }

    /// What was sent of a stream so far and what is yet to be read of it are what is due.
    pub open spec fn on_time(self, i: int) -> bool {
        let s = self.streams[i];
        !s.lost ==> data_of(self.frames, s.label) + s.log.after(s.pos) == s.due
    }

    /// What holds of a connection at any time. `start` is the connection as it began.
    pub open spec fn sound(self, start: Service) -> bool {
        &&& self.streams.len() == start.streams.len()
        &&& self.labels_differ()
        &&& all_sendable(self.frames)
        &&& forall|i: int|
            #![trigger self.streams[i]]
            0 <= i < self.streams.len() ==> {
                let s = self.streams[i];
                &&& s.label == start.streams[i].label
                &&& s.log.cap == start.streams[i].log.cap
                &&& s.log.valid()
                &&& s.pos <= s.log.end()
                &&& self.on_time(i)
            }
    }
}

proof fn lemma_append_is_due(s: Served, data: Seq<u8>)
    requires
        s.log.valid(),
        s.pos <= s.log.end(),
        data.len() <= s.log.cap,
    ensures
        s.append(data).log.valid(),
        s.append(data).log.cap == s.log.cap,
        s.pos <= s.append(data).log.end(),
        !s.append(data).lost ==> s.append(data).log.after(s.pos) == s.log.after(s.pos) + data,
{
    law_append_keeps_newest(s.log, data);
    if !s.append(data).lost {
        assert(s.append(data).log.after(s.pos) =~= s.log.after(s.pos) + data);
    }
}

proof fn lemma_read_is_next(s: Served, n: nat)
    requires
        s.log.valid(),
        s.pos <= s.log.end(),
    ensures
        s.read(n).pos <= s.log.end(),
        s.log.window(s.pos, n) + s.log.after(s.read(n).pos) == s.log.after(s.pos),
        s.log.window(s.pos, n).len() <= n,
{
    assert(s.log.window(s.pos, n) + s.log.after(s.read(n).pos) =~= s.log.after(s.pos));
}

proof fn lemma_one_more_frame(frames: Seq<FrameView>, frame: FrameView, label: SubStreamLabel)
    ensures
        data_of(frames.push(frame), label) == data_of(frames, label) + if frame.label == label {
            frame.data
        } else {
            Seq::empty()
        },
{
    law_streams_do_not_mix(frames, seq![frame], label);
    assert(frames.push(frame) =~= frames + seq![frame]);
    reveal_with_fuel(data_of, 2);
    assert(seq![frame].drop_first() =~= Seq::empty());
    assert(data_of(seq![frame], label) =~= if frame.label == label {
        frame.data
    } else {
        Seq::empty()
    });
}

proof fn lemma_append_stays_sound(service: Service, start: Service, stream: int, data: Seq<u8>)
    requires
        service.sound(start),
        start.allows(Step::Append { stream, data }),
    ensures
        service.step(Step::Append { stream, data }).sound(start),
{
    let after = service.step(Step::Append { stream, data });
    assert forall|i: int| #![trigger after.streams[i]] 0 <= i < after.streams.len() implies {
        let s = after.streams[i];
        &&& s.label == start.streams[i].label
        &&& s.log.cap == start.streams[i].log.cap
        &&& s.log.valid()
        &&& s.pos <= s.log.end()
        &&& after.on_time(i)
    } by {
        let s = service.streams[i];
        assert(service.on_time(i));
        if i == stream {
            lemma_append_is_due(s, data);
            if !after.streams[i].lost {
                assert(data_of(after.frames, s.label) + after.streams[i].log.after(s.pos)
                    =~= data_of(service.frames, s.label) + s.log.after(s.pos) + data);
            }
        }
    }
    assert forall|i: int, j: int| 0 <= i < j < after.streams.len() implies (
    #[trigger] after.streams[i]).label != (#[trigger] after.streams[j]).label by {
        assert(service.streams[i].label != service.streams[j].label);
    }
}

proof fn lemma_send_stays_sound(service: Service, start: Service, stream: int, n: nat)
    requires
        service.sound(start),
        start.allows(Step::Send { stream, n }),
    ensures
        service.step(Step::Send { stream, n }).sound(start),
{
    let after = service.step(Step::Send { stream, n });
    let served = service.streams[stream];
    let sent = FrameView { label: served.label, data: served.log.window(served.pos, n) };
    lemma_read_is_next(served, n);
    assert forall|i: int| #![trigger after.streams[i]] 0 <= i < after.streams.len() implies {
        let s = after.streams[i];
        &&& s.label == start.streams[i].label
        &&& s.log.cap == start.streams[i].log.cap
        &&& s.log.valid()
        &&& s.pos <= s.log.end()
        &&& after.on_time(i)
    } by {
        let s = service.streams[i];
        assert(service.on_time(i));
        if sent.data.len() > 0 {
            lemma_one_more_frame(service.frames, sent, s.label);
        }
        if i == stream {
            if !s.lost {
                assert(data_of(after.frames, s.label) =~= data_of(service.frames, s.label)
                    + sent.data);
                assert(data_of(after.frames, s.label) + after.streams[i].log.after(
                    after.streams[i].pos,
                ) =~= data_of(service.frames, s.label) + s.log.after(s.pos));
            }
        } else {
            assert(s.label != served.label);
            assert(data_of(after.frames, s.label) =~= data_of(service.frames, s.label));
        }
    }
    assert forall|i: int, j: int| 0 <= i < j < after.streams.len() implies (
    #[trigger] after.streams[i]).label != (#[trigger] after.streams[j]).label by {
        assert(service.streams[i].label != service.streams[j].label);
    }
}

/// However appends to the logs and sends from them follow each other on a connection, at any time,
/// for each stream of which nothing was trimmed before it was read: what was sent under its label,
/// and what is yet to be read of its log, are the bytes of the log from where the reader began and
/// what was appended since. None is missing, repeated, out of order or under another label.
pub proof fn law_connection_sends_what_is_due(start: Service, steps: Seq<Step>)
    requires
        start.fresh(),
        start.allows_all(steps),
    ensures
        start.steps(steps).sound(start),
    decreases steps.len(),
{
    if steps.len() == 0 {
        assert forall|i: int| #![trigger start.streams[i]] 0 <= i < start.streams.len() implies {
            start.on_time(i)
        } by {
            let s = start.streams[i];
            assert(s == Served::begin(s.label, s.log, s.pos));
            assert(data_of(start.frames, s.label) + s.log.after(s.pos) =~= s.due);
        }
    } else {
        let before = steps.drop_last();
        assert forall|i: int| 0 <= i < before.len() implies start.allows(#[trigger] before[i]) by {
            assert(before[i] == steps[i]);
        }
        law_connection_sends_what_is_due(start, before);
        assert(start.allows(steps[steps.len() - 1]));
        match steps.last() {
            Step::Append { stream, data } => {
                lemma_append_stays_sound(start.steps(before), start, stream, data);
            },
            Step::Send { stream, n } => {
                lemma_send_stays_sound(start.steps(before), start, stream, n);
            },
        }
    }
}

/// A client that has received the first `k` bytes of what was sent has whole frames, the first of
/// those that were sent, and perhaps a part of the next, which it does not take for a frame.
pub proof fn law_cut_off_client_reads_the_first_frames(frames: Seq<FrameView>, k: nat)
    requires
        all_sendable(frames),
        k <= wire(frames).len(),
    ensures
        ({
            let got = received(wire(frames).take(k as int));
            &&& got.len() <= frames.len()
            &&& got == frames.take(got.len() as int)
        }),
    decreases frames.len(),
{
    let part = wire(frames).take(k as int);
    if frames.len() == 0 {
        reveal_with_fuel(receive, 2);
        assert(received(part) =~= frames.take(0));
    } else {
        let first = frame(frames[0].label, frames[0].data);
        let rest = frames.drop_first();
        assert(frames[0].data.len() <= max_data_len());
        if k < first.len() {
            assert(part =~= first.take(k as int));
            law_decode_waits_for_the_whole_frame(frames[0].label, frames[0].data, k);
            law_read_and_decode_agree(part);
            assert(received(part) =~= frames.take(0));
        } else {
            assert forall|i: int| 0 <= i < rest.len() implies (#[trigger] rest[i]).data.len()
                <= max_data_len() by {
                assert(rest[i] == frames[i + 1]);
            }
            let left = (k - first.len()) as nat;
            assert(part =~= first + wire(rest).take(left as int));
            law_read_what_was_written(
                frames[0].label,
                frames[0].data,
                wire(rest).take(left as int),
            );
            law_cut_off_client_reads_the_first_frames(rest, left);
            let got = received(wire(rest).take(left as int));
            assert(received(part) =~= seq![frames[0]] + got);
            assert(frames.take(got.len() + 1int) =~= seq![frames[0]] + rest.take(got.len() as int));
        }
    }
}

/// At any time, whatever part of what was sent has arrived, and for each stream of which nothing was
/// trimmed before it was read: the data that the client got under its label is the beginning of the
/// log from where the reader began and what was appended since.
pub proof fn law_client_gets_the_beginning_of_each_log(
    start: Service,
    steps: Seq<Step>,
    k: nat,
    i: int,
)
    requires
        start.fresh(),
        start.allows_all(steps),
        k <= wire(start.steps(steps).frames).len(),
        0 <= i < start.streams.len(),
        !start.steps(steps).streams[i].lost,
    ensures
        ({
            let now = start.steps(steps);
            let got = data_of(received(wire(now.frames).take(k as int)), start.streams[i].label);
            &&& got.len() <= now.streams[i].due.len()
            &&& got == now.streams[i].due.take(got.len() as int)
        }),
{
    let now = start.steps(steps);
    let label = start.streams[i].label;
    law_connection_sends_what_is_due(start, steps);
    law_cut_off_client_reads_the_first_frames(now.frames, k);
    assert(now.streams[i].label == label);
    assert(now.on_time(i));
    let n = received(wire(now.frames).take(k as int)).len() as int;
    law_streams_do_not_mix(now.frames.take(n), now.frames.skip(n), label);
    assert(now.frames.take(n) + now.frames.skip(n) =~= now.frames);
    let got = data_of(now.frames.take(n), label);
    assert(got =~= now.streams[i].due.take(got.len() as int));
}

} // verus!
