//! How log data travels: a stream of frames, each of a label, a length and data.
use crate::decimal;
use crate::outside::bytes_mut;
use bytes::BytesMut;
use vstd::prelude::*;

verus! {

/// The length of a frame's header: one byte of label, two of data length.
pub const HDR_LEN: usize = 3;

/// Which of the streams of an enclave some data belongs to.
#[derive(Clone, Copy, Debug, PartialEq, Eq, Structural)]
pub enum SubStreamLabel {
    Supervisor,
    AppStdout,
    AppStderr,
}

/// A byte that is no label.
#[derive(Clone, Copy, Debug, PartialEq, Eq, Structural)]
pub struct UnknownLabel {
    pub value: u8,
}

impl UnknownLabel {
    /// The error's text.
    pub open spec fn text(self) -> Seq<char> {
        "Unknown SubStreamLabel value: "@ + decimal::decimal(self.value as nat)
    }

    /// The error in words.
    pub fn message(&self) -> (text: String)
        ensures
            text@ == self.text(),
            text@ == "Unknown SubStreamLabel value: "@ + decimal::decimal(self.value as nat),
    {
        let mut text: String = String::new();
        text.append("Unknown SubStreamLabel value: ");
        decimal::push_decimal(&mut text, self.value as u64);
        text
    }
}

impl SubStreamLabel {
    /// The byte that stands for the label in a frame.
    pub open spec fn byte(self) -> u8 {
        match self {
            SubStreamLabel::Supervisor => 1,
            SubStreamLabel::AppStdout => 2,
            SubStreamLabel::AppStderr => 3,
        }
    }

    /// The label that a byte stands for.
    pub open spec fn of_byte(val: u8) -> Option<SubStreamLabel> {
        if val == 1 {
            Some(SubStreamLabel::Supervisor)
        } else if val == 2 {
            Some(SubStreamLabel::AppStdout)
        } else if val == 3 {
            Some(SubStreamLabel::AppStderr)
        } else {
            None
        }
    }

    /// The name of the label.
    pub open spec fn name(self) -> Seq<char> {
        match self {
            SubStreamLabel::Supervisor => "odyn"@,
            SubStreamLabel::AppStdout => "stdout"@,
            SubStreamLabel::AppStderr => "stderr"@,
        }
    }

    /// The byte that stands for the label in a frame.
    pub fn to_u8(self) -> (val: u8)
        ensures
            val == self.byte(),
            self is Supervisor ==> val == 1,
            self is AppStdout ==> val == 2,
            self is AppStderr ==> val == 3,
    {
        match self {
            SubStreamLabel::Supervisor => 1,
            SubStreamLabel::AppStdout => 2,
            SubStreamLabel::AppStderr => 3,
        }
    }

    /// The label that a byte stands for.
    pub fn from_u8(val: u8) -> (res: Result<SubStreamLabel, UnknownLabel>)
        ensures
            res == match SubStreamLabel::of_byte(val) {
                Some(label) => Ok::<SubStreamLabel, UnknownLabel>(label),
                None => Err(UnknownLabel { value: val }),
            },
            res is Ok <==> 1 <= val <= 3,
            res matches Ok(label) ==> label.byte() == val,
            res matches Ok(label) ==> (label is Supervisor <==> val == 1),
            res matches Ok(label) ==> (label is AppStdout <==> val == 2),
            res matches Ok(label) ==> (label is AppStderr <==> val == 3),
            res matches Err(e) ==> e.value == val,
    {
        match val {
            1 => Ok(SubStreamLabel::Supervisor),
            2 => Ok(SubStreamLabel::AppStdout),
            3 => Ok(SubStreamLabel::AppStderr),
            _ => Err(UnknownLabel { value: val }),
        }
    }

    /// The name of the label, as a reader of the log is shown it.
    pub fn to_string(&self) -> (text: String)
        ensures
            text@ == self.name(),
            self is Supervisor ==> text@ == "odyn"@,
            self is AppStdout ==> text@ == "stdout"@,
            self is AppStderr ==> text@ == "stderr"@,
    {
        match self {
            SubStreamLabel::Supervisor => "odyn".to_owned(),
            SubStreamLabel::AppStdout => "stdout".to_owned(),
            SubStreamLabel::AppStderr => "stderr".to_owned(),
        }
    }
}

/// The longest data that a frame can hold.
pub const MAX_DATA_LEN: usize = 65535;

/// The longest data that a frame can hold.
pub open spec fn max_data_len() -> nat {
    MAX_DATA_LEN as nat
}

/// Data that is longer than a frame can hold.
#[derive(Clone, Copy, Debug, PartialEq, Eq, Structural)]
pub struct DataTooLong {
    pub len: usize,
}

impl DataTooLong {
    /// The error's text.
    pub open spec fn text(self) -> Seq<char> {
        "Data too long for a frame: "@ + decimal::decimal(self.len as nat)
    }

    /// The error in words.
    pub fn message(&self) -> (text: String)
        ensures
            text@ == self.text(),
            text@ == "Data too long for a frame: "@ + decimal::decimal(self.len as nat),
    {
        let mut text: String = String::new();
        text.append("Data too long for a frame: ");
        decimal::push_decimal(&mut text, self.len as u64);
        text
    }
}

/// The header of a frame: its label, then the length of its data, low byte first. A length above
/// `max_data_len` has no header.
pub open spec fn header(label: SubStreamLabel, len: nat) -> Seq<u8>
    recommends
        len <= max_data_len(),
{
    seq![label.byte(), (len % 256) as u8, (len / 256) as u8]
}

/// A frame as it travels.
pub open spec fn frame(label: SubStreamLabel, data: Seq<u8>) -> Seq<u8>
    recommends
        data.len() <= max_data_len(),
{
    header(label, data.len()) + data
}

/// The length of data that a header announces.
pub open spec fn announced(bytes: Seq<u8>) -> nat {
    (bytes[1] + 256 * bytes[2]) as nat
}

/// What stands at the front of some bytes.
pub enum Front {
    /// Less than a frame.
    Incomplete,
    /// A byte that is no label, where a label should be.
    Unknown(u8),
    /// A frame, `len` bytes long with its header.
    Frame { label: SubStreamLabel, len: nat },
}

/// What stands at the front of `bytes`.
pub open spec fn front(bytes: Seq<u8>) -> Front {
    if bytes.len() < HDR_LEN {
        Front::Incomplete
    } else {
        match SubStreamLabel::of_byte(bytes[0]) {
            None => Front::Unknown(bytes[0]),
            Some(label) => if bytes.len() < HDR_LEN + announced(bytes) {
                Front::Incomplete
            } else {
                Front::Frame { label, len: HDR_LEN as nat + announced(bytes) }
            },
        }
    }
}

/// What to write, in order, to send `data` under `label`: first the header, in one piece, then the
/// data, which can be large. Data whose length the header has no room for is refused.
pub fn write_parts<'a>(label: SubStreamLabel, data: &'a [u8]) -> (res: Result<
    ([u8; 3], &'a [u8]),
    DataTooLong,
>)
    ensures
        res is Ok <==> data@.len() <= max_data_len(),
        res is Ok <==> data@.len() <= 65535,
        res matches Ok(parts) ==> {
            &&& parts.0@ == header(label, data@.len())
            &&& parts.1@ == data@
            &&& parts.0@ + parts.1@ == frame(label, data@)
            &&& announced(parts.0@) == data@.len()
            &&& parts.0@.len() == 3
            &&& label is Supervisor ==> parts.0@[0] == 1
            &&& label is AppStdout ==> parts.0@[0] == 2
            &&& label is AppStderr ==> parts.0@[0] == 3
            &&& parts.0@[1] == data@.len() % 256
            &&& parts.0@[2] == data@.len() / 256
            &&& parts.0@[1] + 256 * parts.0@[2] == data@.len()
        },
        res matches Err(e) ==> e.len == data@.len(),
{
    let len: usize = data.len();
    if len > MAX_DATA_LEN {
        return Err(DataTooLong { len });
    }
    let hdr: [u8; 3] = [label.to_u8(), (len % 256) as u8, (len / 256) as u8];
    assert(hdr@ =~= header(label, data@.len()));
    Ok((hdr, data))
}

/// Takes a header apart: the label, and the length of the data that follows.
fn parse_header(hdr: &[u8]) -> (res: Result<(SubStreamLabel, usize), UnknownLabel>)
    requires
        hdr@.len() >= HDR_LEN,
    ensures
        res == match SubStreamLabel::of_byte(hdr@[0]) {
            Some(label) => Ok::<(SubStreamLabel, usize), UnknownLabel>(
                (label, announced(hdr@) as usize),
            ),
            None => Err(UnknownLabel { value: hdr@[0] }),
        },
        announced(hdr@) <= max_data_len(),
{
    let label: SubStreamLabel = match SubStreamLabel::from_u8(hdr[0]) {
        Ok(label) => label,
        Err(e) => return Err(e),
    };
    let data_len: usize = hdr[1] as usize + 256 * (hdr[2] as usize);
    Ok((label, data_len))
}

/// How far the reading of one frame has come.
#[derive(Clone, Copy, Debug, PartialEq, Eq, Structural)]
pub enum FrameRead {
    /// The header comes next.
    Header,
    /// The data comes next.
    Data { label: SubStreamLabel, len: usize },
}

/// What to do once the bytes that a `FrameRead` wanted are there.
pub enum ReadStep {
    /// Read more.
    More(FrameRead),
    /// Stop: the frame is read.
    Done(SubStreamLabel, Vec<u8>),
}

/// What the bytes that a `FrameRead` wanted lead to.
pub enum Supplied {
    Unknown(u8),
    More(FrameRead),
    Done(SubStreamLabel, Seq<u8>),
}

impl FrameRead {
    /// How many bytes come next.
    pub open spec fn want(self) -> nat {
        match self {
            FrameRead::Header => HDR_LEN as nat,
            FrameRead::Data { label: _, len } => len as nat,
        }
    }

    /// How many pieces of the frame are yet to come.
    pub open spec fn pieces(self) -> nat {
        match self {
            FrameRead::Header => 2,
            FrameRead::Data { .. } => 1,
        }
    }

    /// What these bytes lead to.
    pub open spec fn supplied(self, bytes: Seq<u8>) -> Supplied {
        match self {
            FrameRead::Header => match SubStreamLabel::of_byte(bytes[0]) {
                None => Supplied::Unknown(bytes[0]),
                Some(label) => Supplied::More(
                    FrameRead::Data { label, len: announced(bytes) as usize },
                ),
            },
            FrameRead::Data { label, len: _ } => Supplied::Done(label, bytes),
        }
    }

    /// A reading that is about to begin.
    pub fn new() -> (read: Self)
        ensures
            read == FrameRead::Header,
    {
        FrameRead::Header
    }

    /// How many bytes to read next, neither more nor fewer.
    pub fn wanted(&self) -> (n: usize)
        ensures
            n == self.want(),
            self is Header ==> n == 3,
            self matches FrameRead::Data { label: _, len } ==> n == len,
    {
        match self {
            FrameRead::Header => HDR_LEN,
            FrameRead::Data { label: _, len } => *len,
        }
    }

    /// Goes on with the bytes that were wanted.
    pub fn supply(self, bytes: Vec<u8>) -> (res: Result<ReadStep, UnknownLabel>)
        requires
            bytes@.len() == self.want(),
        ensures
            self is Header ==> {
                &&& bytes@.len() == 3
                &&& res is Ok <==> 1 <= bytes@[0] <= 3
                &&& res matches Err(e) ==> e.value == bytes@[0]
                &&& res matches Ok(step) ==> {
                    &&& step matches ReadStep::More(FrameRead::Data { label, len })
                    &&& label.byte() == bytes@[0]
                    &&& label is Supervisor <==> bytes@[0] == 1
                    &&& label is AppStdout <==> bytes@[0] == 2
                    &&& label is AppStderr <==> bytes@[0] == 3
                    &&& len == bytes@[1] + 256 * bytes@[2]
                }
            },
            self matches FrameRead::Data { label, len } ==> {
                &&& bytes@.len() == len
                &&& res matches Ok(ReadStep::Done(l, d))
                &&& l == label
                &&& d@ == bytes@
            },
            match self.supplied(bytes@) {
                Supplied::Unknown(value) => res == Err::<ReadStep, UnknownLabel>(
                    UnknownLabel { value },
                ),
                Supplied::More(read) => res == Ok::<ReadStep, UnknownLabel>(ReadStep::More(read)),
                Supplied::Done(label, data) => {
                    &&& res matches Ok(ReadStep::Done(l, d))
                    &&& l == label
                    &&& d@ == data
                },
            },
    {
        match self {
            FrameRead::Header => match parse_header(bytes.as_slice()) {
                Ok((label, len)) => Ok(ReadStep::More(FrameRead::Data { label, len })),
                Err(e) => Err(e),
            },
            FrameRead::Data { label, len: _ } => Ok(ReadStep::Done(label, bytes)),
        }
    }
}

/// What the reading of one frame off a stream of bytes comes to.
pub enum Received {
    /// The stream ends before the frame does.
    Short,
    /// The frame starts with a byte that is no label.
    Unknown(u8),
    /// A frame, taken off the stream.
    Frame { label: SubStreamLabel, data: Seq<u8>, rest: Seq<u8> },
}

/// Reads on with the bytes that are wanted, taken off the front of `stream`, until the frame is
/// read: the header, then the data.
pub open spec fn receive(read: FrameRead, stream: Seq<u8>) -> Received
    decreases read.pieces(),
{
    if stream.len() < read.want() {
        Received::Short
    } else {
        let rest = stream.skip(read.want() as int);
        match read.supplied(stream.take(read.want() as int)) {
            Supplied::Unknown(value) => Received::Unknown(value),
            Supplied::Done(label, data) => Received::Frame { label, data, rest },
            Supplied::More(next) => receive(next, rest),
        }
    }
}

/// Finds the frames in a buffer that fills up bit by bit.
pub struct SubStreamCodec;

impl SubStreamCodec {
    /// A codec. It keeps nothing between calls.
    pub fn new() -> (codec: Self)
        ensures
            codec == SubStreamCodec,
    {
        Self
    }

    /// Takes the first frame off the front of `src`, header and data, once both are there in full.
    /// Until then, and where the front of `src` is no frame, `src` stays as it is.
    pub fn decode(&mut self, src: &mut BytesMut) -> (res: Result<
        Option<(SubStreamLabel, BytesMut)>,
        UnknownLabel,
    >)
        ensures
            *final(self) == *old(self),
            ({
                let held = bytes_mut::buffered(*old(src));
                let len = 3 + held[1] + 256 * held[2];
                &&& res is Err <==> held.len() >= 3 && !(1 <= held[0] <= 3)
                &&& res matches Err(e) ==> e.value == held[0]
                &&& (res matches Ok(Some(_))) <==> held.len() >= 3 && 1 <= held[0] <= 3
                    && held.len() >= len
                &&& res matches Ok(Some(item)) ==> {
                    &&& item.0.byte() == held[0]
                    &&& item.0 is Supervisor <==> held[0] == 1
                    &&& item.0 is AppStdout <==> held[0] == 2
                    &&& item.0 is AppStderr <==> held[0] == 3
                    &&& bytes_mut::buffered(item.1) == held.subrange(0, len)
                    &&& bytes_mut::buffered(*final(src)) == held.subrange(len, held.len() as int)
                }
                &&& !(res matches Ok(Some(_))) ==> *final(src) == *old(src)
            }),
            match front(bytes_mut::buffered(*old(src))) {
                Front::Incomplete => {
                    &&& res == Ok::<Option<(SubStreamLabel, BytesMut)>, UnknownLabel>(None)
                    &&& *final(src) == *old(src)
                },
                Front::Unknown(value) => {
                    &&& res == Err::<Option<(SubStreamLabel, BytesMut)>, UnknownLabel>(
                        UnknownLabel { value },
                    )
                    &&& *final(src) == *old(src)
                },
                Front::Frame { label, len } => {
                    &&& res matches Ok(Some(item))
                    &&& item.0 == label
                    &&& bytes_mut::buffered(item.1) == bytes_mut::buffered(*old(src)).take(len as int)
                    &&& bytes_mut::buffered(*final(src)) == bytes_mut::buffered(*old(src)).skip(
                        len as int,
                    )
                },
            },
    {
        // check that at least header is there
        if src.len() < HDR_LEN {
            return Ok(None);
        }
        let (label, data_len) = match parse_header(bytes_mut::as_slice(src)) {
            Ok(hdr) => hdr,
            Err(e) => return Err(e),
        };
        let frame_len: usize = HDR_LEN + data_len;
        if src.len() < frame_len {
            return Ok(None);
        }
        // both the header and data are there, can return
        let data: BytesMut = src.split_to(frame_len);
        Ok(Some((label, data)))
    }
}

} // verus!
