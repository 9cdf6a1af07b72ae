//! A cell that holds at most one committed value and a signal on which
//! readers wait for it.

use std::sync::Arc;
use tokio::sync::Notify;
use vstd::prelude::*;

verus! {

/// What a cell can hold: values that can be copied out to every reader.
pub trait Eventuallable: Clone + Default {

}

impl<T> Eventuallable for T where T: Clone + Default {

}

/// `tokio::sync::Notify`, the signal of a cell. To Verus it is an opaque
/// value: nothing is known of what is inside.
#[verifier::external_type_specification]
#[verifier::external_body]
pub struct ExNotify(Notify);

/// `tokio::sync::Notify::new` makes a signal that nobody waits on yet. The
/// contract puts no condition on the call and claims nothing of the result.
pub assume_specification[ Notify::new ]() -> (notify: Notify)
;

/// `tokio::sync::Notify::notify_waiters` wakes every task that waits on the
/// signal when it is called, and stores nothing for those that come later.
/// The contract puts no condition on the call and claims nothing of its
/// effect, which no value of this library shows.
pub assume_specification[ Notify::notify_waiters ](notify: &Notify)
;

/// `Arc::clone` makes another pointer to the same allocation. The contract
/// claims that the result points to what `handle` points to, which is how
/// Verus reads the equality of two `Arc`s.
#[verifier::external_body]
fn share(handle: &Arc<Notify>) -> (res: Arc<Notify>)
    ensures
        res == *handle,
{
    handle.clone()
}

/// A cell with at most one committed value.
///
/// The cell itself never blocks. [`Eventually::read`] hands out the committed
/// value or says that nothing is committed yet; a caller that has to wait
/// does so on [`Eventually::notifier`], which [`Eventually::write`] signals
/// after each commit.
pub struct Eventually<T: Eventuallable> {
    option_value: Option<T>,
    notify: Arc<Notify>,
}

impl<T: Eventuallable> View for Eventually<T> {
    type V = Option<T>;

    closed spec fn view(&self) -> Option<T> {
        self.option_value
    }
}

impl<T: Eventuallable> Eventually<T> {
    /// The signal on which readers of this cell wait.
    pub closed spec fn signal(&self) -> Arc<Notify> {
        self.notify
    }

    /// Whether `value` is what a read of the cell gives: a copy of the
    /// committed value, or `None` where nothing has been committed.
    pub open spec fn reads(&self, value: Option<T>) -> bool {
        &&& value is Some <==> self@ is Some
        &&& value is Some ==> cloned(self@->0, value->0)
    }

    /// A cell with no committed value.
    pub fn new() -> (cell: Self)
        ensures
            cell@ is None,
    {
        Eventually { option_value: None, notify: Arc::new(Notify::new()) }
    }

    /// A copy of the committed value, or `None` where nothing has been
    /// committed yet and the reader has to wait.
    pub fn read(&self) -> (value: Option<T>)
        ensures
            self.reads(value),
    {
        self.option_value.clone()
    }

    /// Commits `value`, replacing any earlier commitment, and wakes every
    /// reader that waits on the cell's signal.
    pub fn write(&mut self, value: T)
        ensures
            final(self)@ == Some(value),
            final(self).signal() == old(self).signal(),
    {
        self.option_value = Some(value);
        self.notify.notify_waiters();
    }

    /// A handle on the cell's signal.
    pub fn notifier(&self) -> (handle: Arc<Notify>)
        ensures
            handle == self.signal(),
    {
        share(&self.notify)
    }
}

} // verus!
