//! What holds of frames, whoever writes and reads them.
use crate::decimal::{decimal, law_decimal_can_be_read_back, value};
use crate::frame::{
    announced, frame, front, header, max_data_len, receive, DataTooLong, FrameRead, Front, Received,
    SubStreamLabel, Supplied, UnknownLabel, HDR_LEN,
};
use vstd::prelude::*;

verus! {

/// The labels, the bytes that stand for them in a frame and the names that they are shown by. No
/// other byte stands for a label.
pub proof fn law_bytes_and_names_of_labels(val: u8)
    ensures
        SubStreamLabel::Supervisor.byte() == 1,
        SubStreamLabel::AppStdout.byte() == 2,
        SubStreamLabel::AppStderr.byte() == 3,
        SubStreamLabel::Supervisor.name() == seq!['o', 'd', 'y', 'n'],
        SubStreamLabel::AppStdout.name() == seq!['s', 't', 'd', 'o', 'u', 't'],
        SubStreamLabel::AppStderr.name() == seq!['s', 't', 'd', 'e', 'r', 'r'],
        SubStreamLabel::of_byte(val) is Some <==> 1 <= val <= 3,
        SubStreamLabel::of_byte(val) matches Some(label) ==> label.byte() == val,
{
    reveal_strlit("odyn");
    reveal_strlit("stdout");
    reveal_strlit("stderr");
    assert(SubStreamLabel::Supervisor.name() =~= seq!['o', 'd', 'y', 'n']);
    assert(SubStreamLabel::AppStdout.name() =~= seq!['s', 't', 'd', 'o', 'u', 't']);
    assert(SubStreamLabel::AppStderr.name() =~= seq!['s', 't', 'd', 'e', 'r', 'r']);
}

/// The length stands in a header low byte first, behind the label: the second byte counts ones, the
/// third counts 256s, and any such bytes announce that length. A frame is such a header and the data.
pub proof fn law_length_is_low_byte_first(label: SubStreamLabel, data: Seq<u8>, bytes: Seq<u8>)
    requires
        data.len() <= 65535,
    ensures
        max_data_len() == 65535,
        HDR_LEN == 3,
        header(label, data.len()).len() == 3,
        header(label, data.len())[0] == label.byte(),
        header(label, data.len())[1] + 256 * header(label, data.len())[2] == data.len(),
        frame(label, data).len() == 3 + data.len(),
        frame(label, data)[0] == label.byte(),
        frame(label, data)[1] + 256 * frame(label, data)[2] == data.len(),
        frame(label, data).subrange(3, 3int + data.len()) == data,
        announced(bytes) == bytes[1] + 256 * bytes[2],
{
    assert(frame(label, data).subrange(3, 3int + data.len()) =~= data);
}

/// Bytes are refused exactly where they are a header or more and the first of them is no label. A
/// frame is found exactly where the first byte is a label and as much data is there as the next two
/// announce, low byte first; it has that label, and ends with that data.
pub proof fn law_what_is_a_frame(bytes: Seq<u8>)
    ensures
        ({
            let len = 3 + bytes[1] + 256 * bytes[2];
            let labelled = bytes.len() >= 3 && 1 <= bytes[0] <= 3;
            &&& front(bytes) is Unknown <==> bytes.len() >= 3 && !labelled
            &&& front(bytes) matches Front::Unknown(value) ==> value == bytes[0]
            &&& front(bytes) is Frame <==> labelled && bytes.len() >= len
            &&& front(bytes) matches Front::Frame { label, len: l } ==> {
                &&& label.byte() == bytes[0]
                &&& l == len
            }
        }),
{
}

/// What reading one frame off a stream comes to: it is refused exactly where the first byte of a
/// header is no label, and gives a frame exactly where the header and the data that it announces, low
/// byte first, are there. The label is the one whose byte stands first, the data is what stands
/// behind the header, and what comes behind the data is left.
pub proof fn law_what_is_read(stream: Seq<u8>)
    ensures
        ({
            let len = 3 + stream[1] + 256 * stream[2];
            let labelled = stream.len() >= 3 && 1 <= stream[0] <= 3;
            let got = receive(FrameRead::Header, stream);
            &&& got is Unknown <==> stream.len() >= 3 && !labelled
            &&& got matches Received::Unknown(value) ==> value == stream[0]
            &&& got is Frame <==> labelled && stream.len() >= len
            &&& got matches Received::Frame { label, data, rest } ==> {
                &&& label.byte() == stream[0]
                &&& data == stream.subrange(3, len)
                &&& rest == stream.subrange(len, stream.len() as int)
            }
        }),
{
    law_what_is_a_frame(stream);
    law_read_and_decode_agree(stream);
    let len = 3 + stream[1] + 256 * stream[2];
    if front(stream) is Frame {
        assert(stream.skip(len) =~= stream.subrange(len, stream.len() as int));
    }
}

/// What a reading wants and makes of it, piece by piece: three bytes of header, refused exactly where
/// the first is no label; then as many bytes of data as the other two announce, low byte first, which
/// are handed out as they are, under the label whose byte stood first.
pub proof fn law_steps_of_a_reading(hdr: Seq<u8>, label: SubStreamLabel, len: usize, data: Seq<u8>)
    requires
        hdr.len() == 3,
        data.len() == len,
    ensures
        FrameRead::Header.want() == 3,
        (FrameRead::Data { label, len }).want() == len,
        FrameRead::Header.supplied(hdr) is Unknown <==> !(1 <= hdr[0] <= 3),
        FrameRead::Header.supplied(hdr) is More <==> 1 <= hdr[0] <= 3,
        FrameRead::Header.supplied(hdr) matches Supplied::Unknown(value) ==> value == hdr[0],
        FrameRead::Header.supplied(hdr) matches Supplied::More(next) ==> {
            &&& next matches FrameRead::Data { label: l, len: n }
            &&& l.byte() == hdr[0]
            &&& n == hdr[1] + 256 * hdr[2]
        },
        (FrameRead::Data { label, len }).supplied(data) == Supplied::Done(label, data),
{
}

/// The texts of the errors end in the number that they are about.
pub proof fn law_errors_say_their_number(e: UnknownLabel, f: DataTooLong)
    ensures
        e.text() == "Unknown SubStreamLabel value: "@ + e.text().skip(30),
        value(e.text().skip(30)) == e.value,
        f.text() == "Data too long for a frame: "@ + f.text().skip(27),
        value(f.text().skip(27)) == f.len,
{
    reveal_strlit("Unknown SubStreamLabel value: ");
    reveal_strlit("Data too long for a frame: ");
    law_decimal_can_be_read_back(e.value as nat);
    law_decimal_can_be_read_back(f.len as nat);
    assert(e.text().skip(30) =~= decimal(e.value as nat));
    assert(f.text().skip(27) =~= decimal(f.len as nat));
}

/// The byte of a label stands for that label.
pub proof fn law_byte_of_label(label: SubStreamLabel)
    ensures
        SubStreamLabel::of_byte(label.byte()) == Some(label),
{
}

/// A byte that stands for a label is the byte of that label, so no two bytes stand for one.
pub proof fn law_label_of_byte(val: u8)
    ensures
        SubStreamLabel::of_byte(val) matches Some(label) ==> label.byte() == val,
{
}

/// A header says which label it has, and how long the data is, up to the longest that a frame can
/// hold.
pub proof fn law_header_announces_data(label: SubStreamLabel, len: nat, rest: Seq<u8>)
    requires
        len <= max_data_len(),
    ensures
        (header(label, len) + rest)[0] == label.byte(),
        announced(header(label, len) + rest) == len,
{
}

/// A frame at the front of a buffer is found in full, whatever comes behind it: what was written is
/// decoded.
pub proof fn law_decode_what_was_written(label: SubStreamLabel, data: Seq<u8>, rest: Seq<u8>)
    requires
        data.len() <= max_data_len(),
    ensures
        front(frame(label, data) + rest) == (Front::Frame { label, len: frame(label, data).len() }),
        (frame(label, data) + rest).take(frame(label, data).len() as int) == frame(label, data),
        (frame(label, data) + rest).skip(frame(label, data).len() as int) == rest,
{
    assert(frame(label, data) + rest =~= header(label, data.len()) + (data + rest));
    law_header_announces_data(label, data.len(), data + rest);
    assert((frame(label, data) + rest).take(frame(label, data).len() as int) =~= frame(
        label,
        data,
    ));
    assert((frame(label, data) + rest).skip(frame(label, data).len() as int) =~= rest);
}

/// As long as some of a frame is missing, nothing is decoded.
pub proof fn law_decode_waits_for_the_whole_frame(label: SubStreamLabel, data: Seq<u8>, n: nat)
    requires
        data.len() <= max_data_len(),
        n < frame(label, data).len(),
    ensures
        front(frame(label, data).take(n as int)) == Front::Incomplete,
{
    let part = frame(label, data).take(n as int);
    if n >= HDR_LEN {
        assert(part =~= header(label, data.len()) + data.take(n - HDR_LEN));
        law_header_announces_data(label, data.len(), data.take(n - HDR_LEN));
    }
}

/// What is decoded does not change with what arrives later.
pub proof fn law_decode_does_not_look_ahead(bytes: Seq<u8>, more: Seq<u8>)
    requires
        !(front(bytes) is Incomplete),
    ensures
        front(bytes + more) == front(bytes),
{
}

/// A frame that was written is read back: its label, its data, and nothing of what comes behind it.
pub proof fn law_read_what_was_written(label: SubStreamLabel, data: Seq<u8>, rest: Seq<u8>)
    requires
        data.len() <= max_data_len(),
    ensures
        receive(FrameRead::Header, frame(label, data) + rest) == (Received::Frame {
            label,
            data,
            rest,
        }),
{
    law_decode_what_was_written(label, data, rest);
    law_read_and_decode_agree(frame(label, data) + rest);
    assert((frame(label, data) + rest).subrange(
        HDR_LEN as int,
        frame(label, data).len() as int,
    ) =~= data);
}

/// Reading frame by frame and decoding from a buffer find the same frames: the same label, and as
/// data what is behind the header; and they refuse the same bytes.
pub proof fn law_read_and_decode_agree(stream: Seq<u8>)
    ensures
        match front(stream) {
            Front::Incomplete => receive(FrameRead::Header, stream) is Short,
            Front::Unknown(value) => receive(FrameRead::Header, stream) == Received::Unknown(value),
            Front::Frame { label, len } => {
                &&& HDR_LEN <= len <= stream.len()
                &&& receive(FrameRead::Header, stream) == (Received::Frame {
                    label,
                    data: stream.subrange(HDR_LEN as int, len as int),
                    rest: stream.skip(len as int),
                })
            },
        },
{
    reveal_with_fuel(receive, 2);
    if stream.len() >= HDR_LEN {
        let hdr = stream.take(HDR_LEN as int);
        assert(announced(hdr) == announced(stream));
        let rest = stream.skip(HDR_LEN as int);
        let len = HDR_LEN + announced(stream);
        if stream.len() >= len {
            assert(rest.take(announced(stream) as int) =~= stream.subrange(HDR_LEN as int, len));
            assert(rest.skip(announced(stream) as int) =~= stream.skip(len));
        }
    }
}

} // verus!
