//! What holds of a `ByteLog` and its cursors over a number of calls.
use crate::console::{ByteLog, LogCursor};
use crate::log_laws::{
    all_fit, append_all, joined, law_log_is_tail_of_everything, law_reads_add_up,
    law_trimmed_and_held_add_up, tail, trimmed_by,
};
use crate::log_view::{least, LogView};
use vstd::prelude::*;

verus! {

/// The sum of some numbers.
pub open spec fn total(numbers: Seq<usize>) -> int
    decreases numbers.len(),
{
    if numbers.len() == 0 {
        0
    } else {
        total(numbers.drop_last()) + numbers.last()
    }
}

/// `logs` are the states of a log that began empty: the first of them, and the one after each of the
/// appends of `data`, which returned `returned`.
pub open spec fn is_history(
    logs: Seq<ByteLog>,
    data: Seq<Seq<u8>>,
    returned: Seq<usize>,
    cap: nat,
) -> bool {
    &&& logs.len() == data.len() + 1
    &&& returned.len() == data.len()
    &&& logs[0]@ == LogView::empty(cap)
    &&& all_fit(data, cap)
    &&& forall|i: int|
        #![trigger data[i]]
        0 <= i < data.len() ==> {
            &&& logs[i + 1]@ == logs[i]@.append(data[i])
            &&& returned[i] == logs[i]@.excess(data[i].len())
        }
}

/// Over any number of appends to a new log: the numbers of bytes that they returned and the length
/// of the log add up to the number of bytes appended, the log holds all of these or as many as its
/// capacity allows, the last ones, and the capacity stays what it was.
pub proof fn law_log_over_appends(
    logs: Seq<ByteLog>,
    data: Seq<Seq<u8>>,
    returned: Seq<usize>,
    cap: nat,
)
    requires
        is_history(logs, data, returned, cap),
    ensures
        ({
            let log = logs.last()@;
            &&& log == append_all(LogView::empty(cap), data)
            &&& total(returned) == trimmed_by(LogView::empty(cap), data)
            &&& total(returned) + log.bytes.len() == joined(data).len()
            &&& log.bytes.len() == least(cap as int, joined(data).len() as int)
            &&& log.bytes == tail(joined(data), cap)
            &&& log.cap == cap
        }),
    decreases data.len(),
{
    if data.len() > 0 {
        let k = data.len() - 1;
        let before = data.drop_last();
        assert(all_fit(before, cap));
        assert forall|i: int| #![trigger before[i]] 0 <= i < before.len() implies {
            &&& logs.drop_last()[i + 1]@ == logs.drop_last()[i]@.append(before[i])
            &&& returned.drop_last()[i] == logs.drop_last()[i]@.excess(before[i].len())
        } by {
            assert(data[i] == before[i]);
        }
        law_log_over_appends(logs.drop_last(), before, returned.drop_last(), cap);
        assert(logs[k + 1]@ == logs[k]@.append(data[k]));
    }
    law_trimmed_and_held_add_up(cap, data);
    law_log_is_tail_of_everything(cap, data);
}

/// Two reads in a row give what one read into as much room gives, and leave the cursor where that
/// one leaves it. Where the one read keeps within `usize`, so do the two.
pub proof fn law_one_read_or_two(log: ByteLog, cursor: LogCursor, m: nat, k: nat)
    requires
        log.wf(),
        log@.start(cursor@) - log@.head + (m + k) <= usize::MAX,
        log@.next(cursor@, m + k) <= usize::MAX,
    ensures
        log@.start(cursor@) - log@.head + m <= usize::MAX,
        log@.next(cursor@, m) <= usize::MAX,
        log@.start(log@.next(cursor@, m)) - log@.head + k <= usize::MAX,
        log@.next(log@.next(cursor@, m), k) <= usize::MAX,
        log@.window(cursor@, m + k) == log@.window(cursor@, m) + log@.window(
            log@.next(cursor@, m),
            k,
        ),
        log@.next(cursor@, m + k) == log@.next(log@.next(cursor@, m), k),
{
    law_reads_add_up(log@, cursor@, m, k);
}

} // verus!
