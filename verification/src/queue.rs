//! The two ends of the audio path: the queue from capture and the queue to the
//! recognizer.
//!
//! Both are bounded queues of `crossbeam_channel`, shared with other threads. What is
//! known of a queue here is what went through this end of it: every buffer that the
//! queue was handed and whether it took it, and every answer that it gave. Only
//! [`Outlet::offer`] and [`Inlet::take`], which make the calls, add to that.

use vstd::prelude::*;

verus! {

/// `crossbeam_channel::Sender`, the sending end of a queue.
#[verifier::external_type_specification]
#[verifier::external_body]
#[verifier::reject_recursive_types(T)]
pub struct ExSender<T>(crossbeam_channel::Sender<T>);

/// `crossbeam_channel::Receiver`, the receiving end of a queue.
#[verifier::external_type_specification]
#[verifier::external_body]
#[verifier::reject_recursive_types(T)]
pub struct ExReceiver<T>(crossbeam_channel::Receiver<T>);

/// One attempt to send a buffer, and whether the queue took it.
pub struct Offer<T> {
    pub buffer: Seq<T>,
    pub taken: bool,
}

/// The queue to the recognizer. Its view is every buffer that the queue was handed
/// through it, in order, each with the queue's answer.
#[verifier::reject_recursive_types(T)]
pub struct Outlet<T> {
    tx: crossbeam_channel::Sender<Vec<T>>,
    offers: Ghost<Seq<Offer<T>>>,
}

impl<T> View for Outlet<T> {
    type V = Seq<Offer<T>>;

    closed spec fn view(&self) -> Seq<Offer<T>> {
        self.offers@
    }
}

impl<T> Outlet<T> {
    /// The outlet of a queue, through which nothing has been sent.
    pub fn new(tx: crossbeam_channel::Sender<Vec<T>>) -> (r: Self)
        ensures
            r@ == Seq::<Offer<T>>::empty(),
    {
        Outlet { tx, offers: Ghost(Seq::empty()) }
    }

    /// `crossbeam_channel::Sender::try_send`: hands the queue a buffer without waiting,
    /// once, and says whether it took it. Taken buffers lie in the queue as they are,
    /// in the order of sending; one that is not taken is gone. Whether it is taken
    /// depends on what the threads at both ends of the queue have done, and nothing is
    /// said of that.
    #[verifier::external_body]
    pub(crate) fn offer(&mut self, buffer: Vec<T>) -> (taken: bool)
        ensures
            final(self)@ == old(self)@.push(Offer { buffer: buffer@, taken }),
    {
        self.tx.try_send(buffer).is_ok()
    }
}

/// What reading from a queue gave, as a value.
pub open spec fn answer<T>(r: Option<Vec<T>>) -> Option<Seq<T>> {
    match r {
        Some(buffer) => Some(buffer@),
        None => None,
    }
}

/// The queue from capture. Its view is every answer that the queue gave through it, in
/// order: a buffer, or that there was none.
#[verifier::reject_recursive_types(T)]
pub struct Inlet<T> {
    rx: crossbeam_channel::Receiver<Vec<T>>,
    answers: Ghost<Seq<Option<Seq<T>>>>,
}

impl<T> View for Inlet<T> {
    type V = Seq<Option<Seq<T>>>;

    closed spec fn view(&self) -> Seq<Option<Seq<T>>> {
        self.answers@
    }
}

impl<T> Inlet<T> {
    /// The inlet of a queue, from which nothing has been read.
    pub fn new(rx: crossbeam_channel::Receiver<Vec<T>>) -> (r: Self)
        ensures
            r@ == Seq::<Option<Seq<T>>>::empty(),
    {
        Inlet { rx, answers: Ghost(Seq::empty()) }
    }

    /// `crossbeam_channel::Receiver::try_recv`: takes the next buffer out of the queue
    /// without waiting, once, or says that there is none. What is there depends on what
    /// the threads at both ends of the queue have done, and nothing is said of it.
    #[verifier::external_body]
    pub(crate) fn take(&mut self) -> (r: Option<Vec<T>>)
        ensures
            final(self)@ == old(self)@.push(answer(r)),
    {
        self.rx.try_recv().ok()
    }
}

/// Nothing has gone through the end of a queue that was just taken hold of.
pub proof fn law_ends_start_unused<T>(
    tx: crossbeam_channel::Sender<Vec<T>>,
    outlet: Outlet<T>,
    rx: crossbeam_channel::Receiver<Vec<T>>,
    inlet: Inlet<T>,
)
    requires
        call_ensures(Outlet::<T>::new, (tx,), outlet),
        call_ensures(Inlet::<T>::new, (rx,), inlet),
    ensures
        outlet@.len() == 0,
        inlet@.len() == 0,
{
}

}
