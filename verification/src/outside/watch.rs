//! `tokio::sync::watch`: how a change is made known to the tasks that wait for one.
use tokio::sync::watch;
use vstd::prelude::*;

verus! {

/// `watch::Sender`, the end of a channel that makes changes known.
#[verifier::external_type_specification]
#[verifier::external_body]
#[verifier::reject_recursive_types(T)]
pub struct ExSender<T>(watch::Sender<T>);

/// `watch::Receiver`, the end of a channel that waits for changes.
#[verifier::external_type_specification]
#[verifier::external_body]
#[verifier::reject_recursive_types(T)]
pub struct ExReceiver<T>(watch::Receiver<T>);

/// How many changes have been made known through a sender.
pub uninterp spec fn sent(tx: watch::Sender<()>) -> nat;

/// How many of the changes of its channel a receiver has taken note of.
pub uninterp spec fn seen(rx: watch::Receiver<()>) -> nat;

/// `rx` is an end of the channel that `tx` sends through.
pub uninterp spec fn connected(tx: watch::Sender<()>, rx: watch::Receiver<()>) -> bool;

/// `watch::channel(())`: a new channel, through which nothing has been sent.
#[verifier::external_body]
pub(crate) fn channel() -> (ends: (watch::Sender<()>, watch::Receiver<()>))
    ensures
        connected(ends.0, ends.1),
        sent(ends.0) == 0,
        seen(ends.1) == 0,
{
    watch::channel(())
}

/// `watch::Sender::send(())`: makes one more change known to every receiver of the channel. It
/// fails only where the channel has no receiver; `rx` is one.
#[verifier::external_body]
pub(crate) fn send(tx: &mut watch::Sender<()>, rx: &watch::Receiver<()>) -> (delivered: bool)
    requires
        connected(*old(tx), *rx),
    ensures
        delivered,
        sent(*final(tx)) == sent(*old(tx)) + 1,
        forall|other: watch::Receiver<()>|
            connected(*old(tx), other) ==> #[trigger] connected(*final(tx), other),
{
    tx.send(()).is_ok()
}

/// `<watch::Receiver as Clone>::clone`: another receiver of the same channel, which has taken note
/// of the same changes.
#[verifier::external_body]
pub(crate) fn clone_receiver(rx: &watch::Receiver<()>) -> (other: watch::Receiver<()>)
    ensures
        seen(other) == seen(*rx),
        forall|tx: watch::Sender<()>|
            connected(tx, *rx) ==> #[trigger] connected(tx, other),
{
    rx.clone()
}

} // verus!
