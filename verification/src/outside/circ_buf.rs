//! `circbuf::CircBuf`: the ring of bytes under a log.
use circbuf::{CircBuf, CircBufError};
use std::io::Write;
use vstd::arithmetic::power2::pow2;
use vstd::prelude::*;

verus! {

/// `circbuf::CircBuf`, a ring of bytes.
#[verifier::external_type_specification]
#[verifier::external_body]
pub struct ExCircBuf(CircBuf);

/// `circbuf::CircBufError`, the reason why a ring refuses a call.
#[verifier::external_type_specification]
#[verifier::external_body]
pub struct ExCircBufError(CircBufError);

/// The bytes that a ring holds, oldest first.
pub uninterp spec fn ring_bytes(ring: CircBuf) -> Seq<u8>;

/// The most bytes that a ring can hold: one less than the length of its storage. A ring without
/// storage (`CircBuf::default()`) has -1 here, and none of the methods below may be called on it.
pub uninterp spec fn ring_cap(ring: CircBuf) -> int;

/// `p` is the smallest power of two that is at least `n`.
pub open spec fn next_power_of_two(p: int, n: int) -> bool {
    &&& exists|k: nat| p == #[trigger] pow2(k)
    &&& p >= n
    &&& forall|k: nat| #[trigger] pow2(k) >= n ==> p <= pow2(k)
}

/// `CircBuf::with_capacity`: an empty ring whose storage is `cap` rounded up to a power of two.
///
/// The bound on `cap` keeps the storage within `isize::MAX` bytes, the most that can be allocated;
/// under it the power of two fits in `usize`, so the call succeeds.
pub assume_specification[ CircBuf::with_capacity ](cap: usize) -> (res: Result<
    CircBuf,
    CircBufError,
>)
    requires
        cap <= isize::MAX / 2 + 1,
    ensures
        res is Ok,
        ring_bytes(res->Ok_0) == Seq::<u8>::empty(),
        next_power_of_two(ring_cap(res->Ok_0) + 1, cap as int),
;

/// `CircBuf::cap`: the most bytes that the ring can hold.
pub assume_specification[ CircBuf::cap ](ring: &CircBuf) -> (n: usize)
    requires
        ring_cap(*ring) >= 0,
    ensures
        n == ring_cap(*ring),
;

/// `CircBuf::len`: how many bytes the ring holds.
pub assume_specification[ CircBuf::len ](ring: &CircBuf) -> (n: usize)
    requires
        ring_cap(*ring) >= 0,
    ensures
        n == ring_bytes(*ring).len(),
;

/// `CircBuf::avail`: how many more bytes the ring can hold.
pub assume_specification[ CircBuf::avail ](ring: &CircBuf) -> (n: usize)
    requires
        ring_cap(*ring) >= 0,
    ensures
        n == ring_cap(*ring) - ring_bytes(*ring).len(),
;

/// `CircBuf::advance_read`: drops the `num` oldest bytes, or, where the ring holds fewer, fails and
/// leaves it alone.
pub assume_specification[ CircBuf::advance_read ](ring: &mut CircBuf, num: usize) -> (res: Result<
    (),
    CircBufError,
>)
    requires
        ring_cap(*old(ring)) >= 0,
    ensures
        ring_cap(*final(ring)) == ring_cap(*old(ring)),
        res is Ok <==> num <= ring_bytes(*old(ring)).len(),
        res is Ok ==> ring_bytes(*final(ring)) == ring_bytes(*old(ring)).skip(num as int),
        res is Err ==> ring_bytes(*final(ring)) == ring_bytes(*old(ring)),
;

/// `CircBuf::get_bytes_upto_size`: the oldest bytes of the ring, `size` of them or all where it
/// holds fewer, as two runs. Where the ring's storage wraps, and so where the first run ends, is
/// left open.
pub assume_specification[ CircBuf::get_bytes_upto_size ](ring: &CircBuf, size: usize) -> (runs: [&[u8]; 2])
    requires
        ring_cap(*ring) >= 0,
    ensures
        runs@[0]@ + runs@[1]@ == ring_bytes(*ring).take(
            if size < ring_bytes(*ring).len() {
                size as int
            } else {
                ring_bytes(*ring).len() as int
            },
        ),
;

/// `<CircBuf as std::io::Write>::write`: appends `data` to the ring, or as much from its front as
/// there is room for, and hands back how many bytes that was. It never fails.
#[verifier::external_body]
pub(crate) fn ring_write(ring: &mut CircBuf, data: &[u8]) -> (written: Option<usize>)
    requires
        ring_cap(*old(ring)) >= 0,
    ensures
        ring_cap(*final(ring)) == ring_cap(*old(ring)),
        written is Some,
        written->0 == if ring_cap(*old(ring)) - ring_bytes(*old(ring)).len() < data@.len() {
            ring_cap(*old(ring)) - ring_bytes(*old(ring)).len()
        } else {
            data@.len() as int
        },
        ring_bytes(*final(ring)) == ring_bytes(*old(ring)) + data@.take(written->0 as int),
{
    ring.write(data).ok()
}

} // verus!
