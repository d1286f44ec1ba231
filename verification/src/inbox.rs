//! A receiver and a record of what was taken from it.

use std::sync::mpsc::Receiver;
use vstd::prelude::*;

verus! {

/// The receiving half of a standard channel, carried through.
#[verifier::external_type_specification]
#[verifier::external_body]
#[verifier::reject_recursive_types(T)]
pub struct ExReceiver<T>(Receiver<T>);

/// A receiver together with a record of what each attempt to take an item gave. Only
/// [`Inbox::take_queued`] adds to the record.
#[verifier::reject_recursive_types(T)]
pub struct Inbox<'a, T> {
    rx: &'a Receiver<T>,
    taken: Ghost<Seq<Option<T>>>,
}

impl<'a, T> Inbox<'a, T> {
    /// The receiver that items are taken from.
    pub closed spec fn source(&self) -> Receiver<T> {
        *self.rx
    }

    /// What each attempt so far gave.
    pub closed spec fn taken(&self) -> Seq<Option<T>> {
        self.taken@
    }

    pub fn new(rx: &'a Receiver<T>) -> (r: Inbox<'a, T>)
        ensures
            r.source() == *rx,
            r.taken() == Seq::<Option<T>>::empty(),
    {
        Inbox { rx, taken: Ghost(Seq::empty()) }
    }

    /// `Receiver::try_recv`: takes the next item that is already queued, without waiting;
    /// `None` if there is none now or the channel is closed. What is queued is up to the
    /// senders, so nothing is said of the result but that it is what this attempt gave: the
    /// record of the attempts is a model that grows by it.
    #[verifier::external_body]
    pub(crate) fn take_queued(&mut self) -> (r: Option<T>)
        ensures
            final(self).taken() == old(self).taken().push(r),
            final(self).source() == old(self).source(),
    {
        self.rx.try_recv().ok()
    }
}

} // verus!
