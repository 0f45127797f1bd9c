use crate::measurements::{
    lemma_add_bounded_retention, lemma_add_preserves_sorted, retained_within, sorted_by_x,
    Measurement, MeasurementWindow,
};
use vstd::prelude::*;
use vstd::rwlock::{RwLock, RwLockPredicate};

verus! {

/// What every window stored in the shared lock satisfies: the look-behind
/// width fixed at construction, a retained sequence sorted by `x`, and every
/// retained coordinate within that width of the newest one.
pub struct WindowPred {
    pub look_behind: usize,
}

impl RwLockPredicate<MeasurementWindow> for WindowPred {
    open spec fn inv(self, w: MeasurementWindow) -> bool {
        &&& w.look_behind == self.look_behind
        &&& sorted_by_x(w.values@)
        &&& retained_within(w.values@, self.look_behind as int)
    }
}

/// A measurement window shared between one ingesting unit and any number of
/// rendering units. Insertion and snapshot both hold the same lock for the
/// whole operation, so a snapshot never observes a half-updated buffer.
pub struct SharedWindow {
    lock: RwLock<MeasurementWindow, WindowPred>,
}

impl SharedWindow {
    /// The look-behind width this shared window was created with.
    pub closed spec fn look_behind_of(self) -> usize {
        self.lock.pred().look_behind
    }

    pub fn new(look_behind: usize) -> (s: Self)
        ensures
            s.look_behind_of() == look_behind,
    {
        let w = MeasurementWindow::new_with_look_behind(look_behind);
        SharedWindow { lock: RwLock::new(w, Ghost(WindowPred { look_behind })) }
    }

    /// Insert one measurement under the lock. Total and panic-free; the lock
    /// is held only for the duration of the buffer mutation. What a later
    /// snapshot observes is whatever state the interleaving of insertions has
    /// produced, always one satisfying the lock's invariant.
    pub fn insert(&self, measurement: Measurement) {
        let (mut w, handle) = self.lock.acquire_write();
        proof {
            lemma_add_preserves_sorted(w.values@, measurement, w.look_behind as int);
            lemma_add_bounded_retention(w.values@, measurement, w.look_behind as int);
        }
        w.add(measurement);
        handle.release_write(w);
    }

    /// A point-in-time snapshot of the retained measurements, taken under the
    /// lock: it is always a fully committed window state, sorted by `x` and
    /// within the look-behind bound.
    pub fn snapshot(&self) -> (r: Vec<Measurement>)
        ensures
            sorted_by_x(r@),
            retained_within(r@, self.look_behind_of() as int),
    {
        let handle = self.lock.acquire_read();
        let r = handle.borrow().plot_values();
        handle.release_read();
        r
    }
}

} // verus!
