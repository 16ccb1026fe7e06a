//! What a log is, seen from outside: the tail of everything that was ever appended to it.
use vstd::prelude::*;

verus! {

/// The contents of a log. `bytes` are the last bytes that were appended, oldest first, `head` is
/// how many bytes went before them and are gone, `cap` is how many can be kept.
///
/// A position in a log counts bytes from the first one ever appended, so `head` is the position of
/// `bytes[0]`.
#[verifier::ext_equal]
pub struct LogView {
    pub head: nat,
    pub bytes: Seq<u8>,
    pub cap: nat,
}

/// The smaller of two numbers.
pub open spec fn least(a: int, b: int) -> int {
    if a < b {
        a
    } else {
        b
    }
}

impl LogView {
    /// A log that nothing has been appended to.
    pub open spec fn empty(cap: nat) -> LogView {
        LogView { head: 0, bytes: Seq::empty(), cap }
    }

    /// No more is kept than can be.
    pub open spec fn valid(self) -> bool {
        self.bytes.len() <= self.cap
    }

    /// The position behind the last byte: how many bytes were ever appended.
    pub open spec fn end(self) -> nat {
        self.head + self.bytes.len()
    }

    /// How many of the oldest bytes must go before `n` more can be kept.
    pub open spec fn excess(self, n: nat) -> int {
        if self.bytes.len() + n > self.cap {
            self.bytes.len() + n - self.cap
        } else {
            0
        }
    }

    /// The log after `data` was appended: the oldest bytes make room for it.
    pub open spec fn append(self, data: Seq<u8>) -> LogView {
        let excess = self.excess(data.len());
        LogView {
            head: (self.head + excess) as nat,
            bytes: self.bytes.skip(excess) + data,
            cap: self.cap,
        }
    }

    /// The position where a read from `pos` starts: the bytes before the head are gone.
    pub open spec fn start(self, pos: nat) -> nat {
        if pos < self.head {
            self.head
        } else {
            pos
        }
    }

    /// The bytes from position `pos` on.
    pub open spec fn after(self, pos: nat) -> Seq<u8> {
        let from = self.start(pos) - self.head;
        self.bytes.skip(least(from, self.bytes.len() as int))
    }

    /// What a read from position `pos` into room for `n` bytes gives.
    pub open spec fn window(self, pos: nat, n: nat) -> Seq<u8> {
        self.after(pos).take(least(n as int, self.after(pos).len() as int))
    }

    /// The position behind the bytes of such a read, where the next one goes on.
    pub open spec fn next(self, pos: nat, n: nat) -> nat {
        self.start(pos) + self.window(pos, n).len()
    }
}

} // verus!
