use bytes::BytesMut;
use enclave_log::console::{StreamStep, SubStream, STREAM_BUF_LEN};
use enclave_log::frame::{
    write_parts, DataTooLong, FrameRead, ReadStep, SubStreamCodec, SubStreamLabel, UnknownLabel,
};

const LABELS: [SubStreamLabel; 3] =
    [SubStreamLabel::Supervisor, SubStreamLabel::AppStdout, SubStreamLabel::AppStderr];

fn frame(label: SubStreamLabel, data: &[u8]) -> Vec<u8> {
    let (hdr, data) = write_parts(label, data).unwrap();
    let mut out = hdr.to_vec();
    out.extend_from_slice(data);
    out
}

/// Reads one frame off the front of a stream, and says how many bytes it took.
fn read(stream: &[u8]) -> Result<(SubStreamLabel, Vec<u8>, usize), UnknownLabel> {
    let mut at = 0usize;
    let mut state = FrameRead::new();
    loop {
        let n = state.wanted();
        let bytes = stream[at..at + n].to_vec();
        at += n;
        match state.supply(bytes)? {
            ReadStep::More(next) => state = next,
            ReadStep::Done(label, data) => return Ok((label, data, at)),
        }
    }
}

#[test]
fn labels_and_bytes() {
    assert_eq!(SubStreamLabel::Supervisor.to_u8(), 1);
    assert_eq!(SubStreamLabel::AppStdout.to_u8(), 2);
    assert_eq!(SubStreamLabel::AppStderr.to_u8(), 3);
    for label in LABELS {
        assert_eq!(SubStreamLabel::from_u8(label.to_u8()), Ok(label));
    }
    for val in 0..=255u8 {
        match SubStreamLabel::from_u8(val) {
            Ok(label) => assert_eq!(label.to_u8(), val),
            Err(e) => {
                assert!(val == 0 || val > 3);
                assert_eq!(e, UnknownLabel { value: val });
            }
        }
    }
}

#[test]
fn unknown_label_in_words() {
    assert_eq!(UnknownLabel { value: 0 }.message(), "Unknown SubStreamLabel value: 0");
    assert_eq!(UnknownLabel { value: 4 }.message(), "Unknown SubStreamLabel value: 4");
    assert_eq!(UnknownLabel { value: 90 }.message(), "Unknown SubStreamLabel value: 90");
    assert_eq!(UnknownLabel { value: 255 }.message(), "Unknown SubStreamLabel value: 255");
}

#[test]
fn label_names() {
    assert_eq!(SubStreamLabel::Supervisor.to_string(), "odyn");
    assert_eq!(SubStreamLabel::AppStdout.to_string(), "stdout");
    assert_eq!(SubStreamLabel::AppStderr.to_string(), "stderr");
}

#[test]
fn header_is_label_and_little_endian_length() {
    assert_eq!(frame(SubStreamLabel::AppStdout, b"hi"), b"\x02\x02\x00hi");
    assert_eq!(frame(SubStreamLabel::Supervisor, b""), b"\x01\x00\x00");
    let data = vec![0u8; 0x1234];
    assert_eq!(write_parts(SubStreamLabel::AppStderr, &data).unwrap().0, [3, 0x34, 0x12]);
    let data = vec![0u8; 65535];
    assert_eq!(write_parts(SubStreamLabel::AppStderr, &data).unwrap().0, [3, 0xff, 0xff]);
}

#[test]
fn data_too_long_for_a_frame_is_refused() {
    for len in [65536usize, 65536 + 258, 200000] {
        let data = vec![0u8; len];
        for label in LABELS {
            assert_eq!(write_parts(label, &data), Err(DataTooLong { len }));
        }
    }
    assert_eq!(DataTooLong { len: 65536 }.message(), "Data too long for a frame: 65536");
}

#[test]
fn read_what_was_written() {
    for label in LABELS {
        for len in [0usize, 1, 2, 255, 256, 257, 4096, 65535] {
            let data: Vec<u8> = (0..len).map(|i| (i * 7) as u8).collect();
            let mut stream = frame(label, &data);
            let frame_len = stream.len();
            assert_eq!(frame_len, len + 3);
            stream.extend_from_slice(b"what follows");
            let (l, d, used) = read(&stream).unwrap();
            assert_eq!(l, label);
            assert!(d == data);
            assert_eq!(used, frame_len);
        }
    }
}

#[test]
fn read_refuses_an_unknown_label() {
    assert_eq!(read(b"\x07\x01\x00x"), Err(UnknownLabel { value: 7 }));
    assert_eq!(read(b"\x00\x01\x00x"), Err(UnknownLabel { value: 0 }));
}

#[test]
fn read_wants_the_header_and_then_the_data() {
    let state = FrameRead::new();
    assert_eq!(state.wanted(), 3);
    match state.supply(vec![1, 0x10, 0x02]) {
        Ok(ReadStep::More(next)) => {
            assert_eq!(next, FrameRead::Data { label: SubStreamLabel::Supervisor, len: 0x210 });
            assert_eq!(next.wanted(), 0x210);
        }
        _ => panic!("the data comes next"),
    }
}

#[test]
fn decode_what_was_written() {
    let mut codec = SubStreamCodec::new();
    let mut src = BytesMut::new();
    src.extend_from_slice(&frame(SubStreamLabel::AppStdout, b"first"));
    src.extend_from_slice(&frame(SubStreamLabel::AppStderr, b""));
    src.extend_from_slice(&frame(SubStreamLabel::AppStdout, b"third")[..7]);

    let (label, bytes) = codec.decode(&mut src).unwrap().unwrap();
    assert_eq!(label, SubStreamLabel::AppStdout);
    assert_eq!(&bytes[..], b"\x02\x05\x00first");

    let (label, bytes) = codec.decode(&mut src).unwrap().unwrap();
    assert_eq!(label, SubStreamLabel::AppStderr);
    assert_eq!(&bytes[..], b"\x03\x00\x00");

    assert!(codec.decode(&mut src).unwrap().is_none());
    assert_eq!(&src[..], b"\x02\x05\x00thir");
    src.extend_from_slice(b"d");
    let (label, bytes) = codec.decode(&mut src).unwrap().unwrap();
    assert_eq!(label, SubStreamLabel::AppStdout);
    assert_eq!(&bytes[..], b"\x02\x05\x00third");
    assert!(src.is_empty());
    assert!(codec.decode(&mut src).unwrap().is_none());
}

#[test]
fn decode_waits_for_the_whole_frame() {
    let all = frame(SubStreamLabel::Supervisor, b"0123456789");
    let mut codec = SubStreamCodec::new();
    for n in 0..all.len() {
        let mut src = BytesMut::from(&all[..n]);
        assert!(codec.decode(&mut src).unwrap().is_none());
        assert_eq!(&src[..], &all[..n]);
    }
}

#[test]
fn decode_refuses_an_unknown_label() {
    let mut codec = SubStreamCodec::new();
    let mut src = BytesMut::from(&b"\x09\xff\xff"[..]);
    assert_eq!(codec.decode(&mut src).unwrap_err(), UnknownLabel { value: 9 });
    assert_eq!(&src[..], b"\x09\xff\xff");
    // without the whole header, nothing is refused yet
    let mut src = BytesMut::from(&b"\x09\xff"[..]);
    assert!(codec.decode(&mut src).unwrap().is_none());
}

#[test]
fn two_streams_share_a_connection() {
    let mut out = SubStream::new(SubStreamLabel::AppStdout);
    let mut err = SubStream::new(SubStreamLabel::AppStderr);
    let a: Vec<u8> = (0..9000u32).map(|i| (i % 251) as u8).collect();
    let b: Vec<u8> = (0..5000u32).map(|i| (i % 13) as u8).collect();
    out.feed(&a, a.len());
    err.feed(&b, b.len());
    let mut readers = [out.reader(), err.reader()];
    let mut buf = vec![0u8; STREAM_BUF_LEN];
    let mut src = BytesMut::new();
    for _ in 0..4 {
        for (i, log) in [&out.log, &err.log].into_iter().enumerate() {
            if let StreamStep::Write { label, len } = readers[i].stream(log, &mut buf) {
                src.extend_from_slice(&frame(label, &buf[..len]));
            }
        }
    }
    let mut codec = SubStreamCodec::new();
    let mut got: [Vec<u8>; 2] = [Vec::new(), Vec::new()];
    while let Some((label, bytes)) = codec.decode(&mut src).unwrap() {
        let i = if label == SubStreamLabel::AppStdout { 0 } else { 1 };
        got[i].extend_from_slice(&bytes[3..]);
    }
    assert!(src.is_empty());
    assert!(got[0] == a);
    assert!(got[1] == b);
}

#[test]
fn frames_arrive_in_any_pieces() {
    let frames: Vec<(SubStreamLabel, Vec<u8>)> = vec![
        (SubStreamLabel::AppStdout, b"one".to_vec()),
        (SubStreamLabel::Supervisor, Vec::new()),
        (SubStreamLabel::AppStderr, vec![7u8; 300]),
        (SubStreamLabel::AppStdout, b"\x09\x00\x01".to_vec()),
    ];
    let mut all: Vec<u8> = Vec::new();
    for (label, data) in &frames {
        all.extend_from_slice(&frame(*label, data));
    }
    for piece in [1usize, 2, 3, 4, 5, 100, 303, 1000] {
        let mut codec = SubStreamCodec::new();
        let mut src = BytesMut::new();
        let mut items: Vec<(SubStreamLabel, Vec<u8>)> = Vec::new();
        let mut bytes: Vec<u8> = Vec::new();
        for chunk in all.chunks(piece) {
            src.extend_from_slice(chunk);
            while let Some((label, item)) = codec.decode(&mut src).unwrap() {
                items.push((label, item[3..].to_vec()));
                bytes.extend_from_slice(&item);
            }
        }
        assert!(items == frames);
        assert!(bytes == all);
        assert!(src.is_empty());
    }
}

#[test]
fn logs_grow_while_they_are_sent() {
    let mut streams =
        [SubStream::new(SubStreamLabel::AppStdout), SubStream::new(SubStreamLabel::AppStderr)];
    let all: Vec<Vec<u8>> = vec![
        (0..60000u32).map(|i| (i % 239) as u8).collect(),
        (0..60000u32).map(|i| (i % 17) as u8).collect(),
    ];
    // what is in the logs already belongs to what the client gets
    for i in 0..2 {
        streams[i].feed(&all[i], 100);
    }
    let mut at = [100usize, 100];
    let mut readers = [streams[0].reader(), streams[1].reader()];
    let mut buf = vec![0u8; STREAM_BUF_LEN];
    let mut sent: Vec<u8> = Vec::new();
    for round in 0..40usize {
        let i = round % 2;
        let n = (round * 577) % 3000;
        streams[i].feed(&all[i][at[i]..at[i] + n], n);
        at[i] += n;
        let j = (round / 3) % 2;
        if let StreamStep::Write { label, len } = readers[j].stream(&streams[j].log, &mut buf) {
            assert!(len > 0);
            sent.extend_from_slice(&frame(label, &buf[..len]));
        }
    }
    // whatever part has arrived, the client has the beginning of each log
    for k in (0..sent.len()).step_by(997) {
        let mut src = BytesMut::from(&sent[..k]);
        let mut codec = SubStreamCodec::new();
        let mut got: [Vec<u8>; 2] = [Vec::new(), Vec::new()];
        while let Some((label, item)) = codec.decode(&mut src).unwrap() {
            let i = if label == SubStreamLabel::AppStdout { 0 } else { 1 };
            got[i].extend_from_slice(&item[3..]);
        }
        for i in 0..2 {
            assert!(got[i].len() <= at[i]);
            assert!(got[i] == all[i][..got[i].len()]);
        }
    }
}
