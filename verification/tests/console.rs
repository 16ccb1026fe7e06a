use enclave_log::console::{
    ByteLog, FeedStep, LogCursor, StreamStep, SubStream, APP_LOG_CAPACITY, FEED_BUF_LEN,
    STREAM_BUF_LEN,
};
use enclave_log::frame::SubStreamLabel;

fn check_log(log: &ByteLog, mut expected: u8) {
    // check that the log contents monotonically increase
    let mut c = LogCursor::new();

    let mut buf = vec![0u8; 1024];

    loop {
        match log.read(&mut c, &mut buf) {
            0 => break,
            nread => {
                for actual in &buf[..nread] {
                    assert!(*actual == expected);
                    expected = expected.wrapping_add(1u8);
                }
            }
        }
    }
}

fn iota_u8(slice: &mut [u8], mut start: u8) -> u8 {
    for x in slice {
        *x = start;
        start = start.wrapping_add(1u8);
    }

    start
}

/// Everything in the log from a cursor on.
fn rest(log: &ByteLog, c: &mut LogCursor, room: usize) -> Vec<u8> {
    let mut all: Vec<u8> = Vec::new();
    let mut buf = vec![0u8; room];
    loop {
        let n = log.read(c, &mut buf);
        if n == 0 {
            return all;
        }
        all.extend_from_slice(&buf[..n]);
    }
}

/// A run of bytes without a short period.
fn noise(len: usize) -> Vec<u8> {
    let mut x: u32 = 2463534242;
    let mut out: Vec<u8> = Vec::new();
    while out.len() < len {
        x ^= x << 13;
        x ^= x >> 17;
        x ^= x << 5;
        out.push((x >> 11) as u8);
    }
    out
}

#[test]
fn test_byte_log() {
    let mut log = ByteLog::new();

    // append by a bit upto the log capacity
    let mut logged = 0usize;
    let mut quanta = 5;
    let mut i = 0u8;
    while logged < log.cap() - quanta {
        let mut data = vec![0u8; quanta];
        i = iota_u8(&mut data, i);

        assert!(log.append(&data) == 0usize);
        quanta += 1;
        logged += data.len();

        check_log(&log, 0);
    }

    let mut expected = 0u8;

    // overflow the log so it starts to trim
    while logged < log.cap() * 3 {
        let mut data = vec![0u8; quanta];
        i = iota_u8(&mut data, i);

        let trimmed = log.append(&data);
        assert!(trimmed > 0);
        quanta += 1;

        expected = expected.wrapping_add(trimmed as u8);
        check_log(&log, expected);

        logged += data.len();
    }
}

#[test]
fn test_app_log() {
    let mut s = SubStream::new(SubStreamLabel::AppStdout);
    let expected = noise(APP_LOG_CAPACITY * 3);

    // write all in small chunks
    for chunk in expected.chunks(53) {
        assert_eq!(s.feed(chunk, chunk.len()), FeedStep::Read);
    }

    // read the tail
    let mut r = s.reader();
    let mut actual: Vec<u8> = Vec::new();
    let mut buf = vec![0u8; 1024];
    loop {
        let nread = r.read(&s.log, &mut buf);
        if nread == 0 {
            break;
        }

        actual.extend_from_slice(&mut buf[..nread]);
    }

    assert!(actual.len() == s.log.len());

    let tail_pos = expected.len() - actual.len();
    assert!(actual == expected[tail_pos..]);
}

#[test]
fn new_log_is_empty() {
    let log = ByteLog::new();
    assert_eq!(log.len(), 0);
    assert_eq!(log.cap(), 131071);
    assert_eq!(log.cap(), APP_LOG_CAPACITY - 1);
    assert_eq!(rest(&log, &mut LogCursor::new(), 16), Vec::<u8>::new());
}

#[test]
fn append_trims_just_enough() {
    let mut log = ByteLog::new();
    let all = noise(log.cap());
    assert_eq!(log.append(&all), 0);
    assert_eq!(log.len(), log.cap());
    assert_eq!(log.append(b""), 0);
    assert_eq!(log.append(b"abcde"), 5);
    assert_eq!(log.len(), log.cap());
    let got = rest(&log, &mut LogCursor::new(), 4096);
    assert_eq!(&got[..log.cap() - 5], &all[5..]);
    assert_eq!(&got[log.cap() - 5..], b"abcde");
    // one append that replaces everything
    assert_eq!(log.append(&all), log.cap());
    assert_eq!(rest(&log, &mut LogCursor::new(), 777), all);
}

#[test]
fn read_leaves_the_rest_of_the_buffer_alone() {
    let mut log = ByteLog::new();
    log.append(b"hello");
    let mut c = LogCursor::new();
    let mut buf = [9u8; 4];
    assert_eq!(log.read(&mut c, &mut buf), 4);
    assert_eq!(&buf, b"hell");
    assert_eq!(log.read(&mut c, &mut buf), 1);
    assert_eq!(&buf, b"oell");
    assert_eq!(log.read(&mut c, &mut buf), 0);
    assert_eq!(&buf, b"oell");
    assert_eq!(log.read(&mut LogCursor::new(), &mut []), 0);
}

#[test]
fn reads_add_up() {
    let mut log = ByteLog::new();
    let all = noise(3 * log.cap() / 2);
    for chunk in all.chunks(9973) {
        log.append(chunk);
    }
    let mut once = vec![0u8; 5000];
    let mut c = LogCursor::new();
    assert_eq!(log.read(&mut c, &mut once), 5000);
    let mut twice = vec![0u8; 5000];
    let mut d = LogCursor::new();
    assert_eq!(log.read(&mut d, &mut twice[..1234]), 1234);
    assert_eq!(log.read(&mut d, &mut twice[1234..]), 3766);
    assert_eq!(once, twice);
    assert_eq!(rest(&log, &mut c, 100), rest(&log, &mut d, 5));
}

#[test]
fn reader_that_keeps_up_misses_nothing() {
    let mut log = ByteLog::new();
    let all = noise(5 * log.cap());
    let mut c = LogCursor::new();
    let mut got: Vec<u8> = Vec::new();
    for chunk in all.chunks(40000) {
        log.append(chunk);
        got.extend(rest(&log, &mut c, 4096));
    }
    assert!(got == all);
}

#[test]
fn trimmed_reader_goes_on_at_the_head() {
    let mut log = ByteLog::new();
    let all = noise(2 * log.cap());
    let mut c = LogCursor::new();
    log.append(&all[..1000]);
    assert_eq!(rest(&log, &mut c, 300), all[..1000].to_vec());
    for chunk in all[1000..].chunks(8191) {
        log.append(chunk);
    }
    let got = rest(&log, &mut c, 4096);
    assert_eq!(got.len(), log.cap());
    assert!(got == all[log.cap()..]);
}

#[test]
fn reads_wrap_around_the_ring() {
    let mut log = ByteLog::new();
    let all = noise(log.cap() + 4000);
    for chunk in all.chunks(16384) {
        log.append(chunk);
    }
    // the second read starts behind the wrap
    let mut buf = vec![0u8; log.cap() - 10];
    let mut c = LogCursor::new();
    assert_eq!(log.read(&mut c, &mut buf), log.cap() - 10);
    assert!(buf == all[4000..all.len() - 10]);
    assert_eq!(log.read(&mut c, &mut buf), 10);
    assert!(buf[..10] == all[all.len() - 10..]);
}

#[test]
fn cursor_past_the_end_reads_nothing() {
    let mut long = ByteLog::new();
    long.append(b"a long log");
    let mut c = LogCursor::new();
    rest(&long, &mut c, 64);
    let mut short = ByteLog::new();
    short.append(b"abc");
    let mut buf = [7u8; 4];
    assert_eq!(short.read(&mut c, &mut buf), 0);
    assert_eq!(buf, [7u8; 4]);
    short.append(b"defghijkl");
    assert_eq!(short.read(&mut c, &mut buf), 2);
    assert_eq!(&buf[..2], b"kl");
}

#[test]
fn limits_of_append_and_read() {
    let mut log = ByteLog::new();
    assert!(log.can_append(0));
    assert!(log.can_append(log.cap()));
    assert!(!log.can_append(log.cap() + 1));
    log.append(b"xyz");
    assert!(log.can_append(log.cap()));
    let mut c = LogCursor::new();
    assert!(log.can_read(&c, usize::MAX));
    let mut buf = [0u8; 1];
    log.read(&mut c, &mut buf);
    assert!(!log.can_read(&c, usize::MAX));
    assert!(log.can_read(&c, usize::MAX - 1));
}

#[test]
fn watchers_are_told_of_appends() {
    let mut log = ByteLog::new();
    let mut early = log.watch();
    assert!(!early.has_changed().unwrap());
    log.append(b"one");
    assert!(early.has_changed().unwrap());
    early.mark_unchanged();
    assert!(!early.has_changed().unwrap());
    // an empty append is one, too
    log.append(b"");
    assert!(early.has_changed().unwrap());
    // one that comes late has news at once
    let late = log.watch();
    assert!(late.has_changed().unwrap());
}

#[test]
fn feed_until_the_end() {
    let mut s = SubStream::new(SubStreamLabel::Supervisor);
    let rx = s.log.watch();
    let buf = vec![5u8; FEED_BUF_LEN];
    assert_eq!(s.feed(&buf, 0), FeedStep::Done);
    assert_eq!(s.log.len(), 0);
    assert!(!rx.has_changed().unwrap());
    assert_eq!(s.feed(&buf, 3), FeedStep::Read);
    assert!(rx.has_changed().unwrap());
    assert_eq!(s.feed(b"abc", 2), FeedStep::Read);
    assert_eq!(rest(&s.log, &mut LogCursor::new(), 2), vec![5, 5, 5, 97, 98]);
    assert_eq!(s.feed(&buf, FEED_BUF_LEN), FeedStep::Read);
    assert_eq!(s.log.len(), 5 + FEED_BUF_LEN);
}

#[test]
fn stream_until_caught_up() {
    let mut s = SubStream::new(SubStreamLabel::AppStderr);
    let all = noise(10000);
    s.feed(&all, all.len());
    let mut r = s.reader();
    let mut buf = vec![0u8; STREAM_BUF_LEN];
    let mut got: Vec<u8> = Vec::new();
    let mut lens: Vec<usize> = Vec::new();
    loop {
        match r.stream(&s.log, &mut buf) {
            StreamStep::Write { label, len } => {
                assert_eq!(label, SubStreamLabel::AppStderr);
                lens.push(len);
                got.extend_from_slice(&buf[..len]);
            }
            StreamStep::Done => break,
        }
    }
    assert_eq!(lens, vec![4096, 4096, 1808]);
    assert!(got == all);
    assert_eq!(r.stream(&s.log, &mut buf), StreamStep::Done);
    s.feed(b"more", 4);
    assert_eq!(
        r.stream(&s.log, &mut buf),
        StreamStep::Write { label: SubStreamLabel::AppStderr, len: 4 }
    );
    assert_eq!(&buf[..4], b"more");
}

#[test]
fn append_in_one_piece_or_in_two() {
    let mut x = ByteLog::new();
    let mut y = ByteLog::new();
    let all = noise(x.cap() + 30000);
    // the same bytes, behind different heads
    y.append(&all[..1000]);
    for chunk in all.chunks(7777) {
        x.append(chunk);
        y.append(chunk);
    }
    let more = noise(50000);
    let once = x.append(&more);
    let first = y.append(&more[..20001]);
    let second = y.append(&more[20001..]);
    assert_eq!(once, first + second);
    assert_eq!(once, 50000);
    assert!(rest(&x, &mut LogCursor::new(), 999) == rest(&y, &mut LogCursor::new(), 4096));
}

#[test]
fn trimmed_and_held_add_up() {
    let mut log = ByteLog::new();
    let all = noise(400000);
    let mut trimmed = 0usize;
    let mut appended = 0usize;
    for chunk in all.chunks(12345) {
        trimmed += log.append(chunk);
        appended += chunk.len();
        assert_eq!(trimmed + log.len(), appended);
        assert_eq!(log.len(), appended.min(log.cap()));
        assert_eq!(log.cap(), 131071);
    }
    assert_eq!(trimmed, 400000 - 131071);
}

#[test]
fn reads_of_any_sizes_give_everything() {
    let mut log = ByteLog::new();
    let all = noise(2 * log.cap() + 17);
    for chunk in all.chunks(10007) {
        log.append(chunk);
    }
    let mut c = LogCursor::new();
    let mut got: Vec<u8> = Vec::new();
    let mut room = 1usize;
    loop {
        let mut buf = vec![0u8; room];
        let n = log.read(&mut c, &mut buf);
        if n == 0 {
            break;
        }
        got.extend_from_slice(&buf[..n]);
        room = room * 3 % 5003 + 1;
    }
    assert_eq!(got.len(), log.len());
    assert!(got == all[all.len() - log.len()..]);
}
