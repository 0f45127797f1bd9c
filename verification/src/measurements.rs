use std::collections::VecDeque;
use vstd::prelude::*;

verus! {

/// One sample from the input stream: an independent coordinate `x` and a
/// dependent value `y`. Equality is structural; a measurement has no identity
/// beyond its value.
#[derive(Clone, Copy, Debug, PartialEq, Eq, Structural)]
pub struct Measurement {
    pub x: i64,
    pub y: i64,
}

impl Measurement {
    pub fn new(x: i64, y: i64) -> (m: Measurement)
        ensures
            m.x == x,
            m.y == y,
    {
        Measurement { x, y }
    }
}

/// The retained sequence is non-decreasing in `x`.
pub open spec fn sorted_by_x(s: Seq<Measurement>) -> bool {
    forall|i: int, j: int| 0 <= i <= j < s.len() ==> s[i].x <= s[j].x
}

/// Every retained coordinate lies within `look_behind` of the newest one.
pub open spec fn retained_within(s: Seq<Measurement>, look_behind: int) -> bool {
    forall|i: int| 0 <= i < s.len() ==> s[i].x >= s.last().x - look_behind
}

/// The first step of an insertion: a measurement whose `x` is strictly below
/// the last retained `x` clears the buffer (the coordinate regressed), so the
/// buffer becomes that one measurement; otherwise it is appended at the back.
pub open spec fn reset_spec(s: Seq<Measurement>, m: Measurement) -> Seq<Measurement> {
    if s.len() > 0 && m.x < s.last().x {
        seq![m]
    } else {
        s.push(m)
    }
}

/// The second step of an insertion: remove front-most measurements while
/// their `x` is strictly below `limit`, stopping at the first that is not.
pub open spec fn evict_spec(s: Seq<Measurement>, limit: int) -> Seq<Measurement>
    decreases s.len(),
{
    if s.len() == 0 {
        s
    } else if s[0].x < limit {
        evict_spec(s.drop_first(), limit)
    } else {
        s
    }
}

/// What one insertion does to the retained sequence: reset on regression,
/// append, then evict everything staler than the new coordinate minus the
/// look-behind width.
pub open spec fn add_spec(s: Seq<Measurement>, m: Measurement, look_behind: int) -> Seq<Measurement> {
    evict_spec(reset_spec(s, m), m.x - look_behind)
}

/// What a whole run of insertions does to the retained sequence, first
/// measurement first.
pub open spec fn add_all_spec(s: Seq<Measurement>, ms: Seq<Measurement>, look_behind: int) -> Seq<Measurement>
    decreases ms.len(),
{
    if ms.len() == 0 {
        s
    } else {
        add_all_spec(add_spec(s, ms[0], look_behind), ms.drop_first(), look_behind)
    }
}

/// The run's coordinates are strictly increasing.
pub open spec fn strictly_increasing_x(ms: Seq<Measurement>) -> bool {
    forall|i: int, j: int| 0 <= i < j < ms.len() ==> ms[i].x < ms[j].x
}

proof fn lemma_sorted_drop_first(s: Seq<Measurement>)
    requires
        s.len() > 0,
        sorted_by_x(s),
    ensures
        sorted_by_x(s.drop_first()),
{
    assert forall|i: int, j: int| 0 <= i <= j < s.drop_first().len()
        implies s.drop_first()[i].x <= s.drop_first()[j].x by {
        assert(s.drop_first()[i] == s[i + 1]);
        assert(s.drop_first()[j] == s[j + 1]);
    }
}

proof fn lemma_evict_sorted(s: Seq<Measurement>, limit: int)
    requires
        sorted_by_x(s),
    ensures
        sorted_by_x(evict_spec(s, limit)),
    decreases s.len(),
{
    if s.len() > 0 && s[0].x < limit {
        lemma_sorted_drop_first(s);
        lemma_evict_sorted(s.drop_first(), limit);
    }
}

proof fn lemma_evict_front(s: Seq<Measurement>, limit: int)
    ensures
        evict_spec(s, limit).len() > 0 ==> evict_spec(s, limit)[0].x >= limit,
    decreases s.len(),
{
    if s.len() > 0 && s[0].x < limit {
        lemma_evict_front(s.drop_first(), limit);
    }
}

proof fn lemma_evict_keeps_last(s: Seq<Measurement>, limit: int)
    requires
        s.len() > 0,
        s.last().x >= limit,
    ensures
        evict_spec(s, limit).len() > 0,
        evict_spec(s, limit).last() == s.last(),
    decreases s.len(),
{
    if s[0].x < limit {
        assert(s.len() > 1);
        assert(s.drop_first().last() == s.last());
        lemma_evict_keeps_last(s.drop_first(), limit);
    }
}

proof fn lemma_reset_sorted(s: Seq<Measurement>, m: Measurement)
    requires
        sorted_by_x(s),
    ensures
        sorted_by_x(reset_spec(s, m)),
        reset_spec(s, m).len() > 0,
        reset_spec(s, m).last() == m,
{
    if s.len() > 0 && m.x < s.last().x {
    } else {
        assert forall|i: int, j: int| 0 <= i <= j < s.push(m).len()
            implies s.push(m)[i].x <= s.push(m)[j].x by {
            if j < s.len() {
            } else {
                assert(s.push(m)[j] == m);
                if i < s.len() {
                    assert(s[i].x <= s.last().x);
                }
            }
        }
    }
}

/// Law: an insertion into a sorted window leaves it sorted by `x`; in
/// particular, under non-decreasing input the retained sequence is sorted
/// ascending by `x` after every insertion.
pub proof fn lemma_add_preserves_sorted(s: Seq<Measurement>, m: Measurement, look_behind: int)
    requires
        sorted_by_x(s),
    ensures
        sorted_by_x(add_spec(s, m, look_behind)),
{
    lemma_reset_sorted(s, m);
    lemma_evict_sorted(reset_spec(s, m), m.x - look_behind);
}

/// Law: an insertion never evicts the measurement it just added; the window
/// is non-empty afterwards and the just-inserted measurement is its last
/// element.
pub proof fn lemma_add_keeps_inserted(s: Seq<Measurement>, m: Measurement, look_behind: int)
    requires
        look_behind >= 0,
    ensures
        add_spec(s, m, look_behind).len() > 0,
        add_spec(s, m, look_behind).last() == m,
{
    let base = reset_spec(s, m);
    assert(base.len() > 0 && base.last() == m) by {
        if s.len() > 0 && m.x < s.last().x {
        } else {
            assert(s.push(m).last() == m);
        }
    }
    lemma_evict_keeps_last(base, m.x - look_behind);
}

/// Law: bounded retention. After an insertion into a sorted window, every
/// retained coordinate lies within `look_behind` of the newest retained
/// coordinate, which is the just-inserted one.
pub proof fn lemma_add_bounded_retention(s: Seq<Measurement>, m: Measurement, look_behind: int)
    requires
        sorted_by_x(s),
        look_behind >= 0,
    ensures
        retained_within(add_spec(s, m, look_behind), look_behind),
        add_spec(s, m, look_behind).last() == m,
{
    let base = reset_spec(s, m);
    let limit = m.x - look_behind;
    let r = add_spec(s, m, look_behind);
    lemma_reset_sorted(s, m);
    lemma_evict_sorted(base, limit);
    lemma_evict_front(base, limit);
    lemma_add_keeps_inserted(s, m, look_behind);
    assert forall|i: int| 0 <= i < r.len() implies r[i].x >= r.last().x - look_behind by {
        assert(r[0].x >= limit);
        assert(r[0].x <= r[i].x);
        assert(r.last().x <= m.x) by {
            assert(r.last() == m);
        }
    }
}

/// Law: reset on regression. Inserting a measurement whose `x` is strictly
/// below the last retained `x` leaves the window holding exactly that one
/// measurement.
pub proof fn lemma_add_reset_on_regression(s: Seq<Measurement>, m: Measurement, look_behind: int)
    requires
        s.len() > 0,
        m.x < s.last().x,
        look_behind >= 0,
    ensures
        add_spec(s, m, look_behind) == seq![m],
{
    assert(reset_spec(s, m) == seq![m]);
    assert(seq![m][0] == m);
    assert(evict_spec(seq![m], m.x - look_behind) == seq![m]);
}

proof fn lemma_evict_drops_stale(s: Seq<Measurement>, m: Measurement, limit: int)
    requires
        forall|i: int| 0 <= i < s.len() ==> s[i].x < limit,
        m.x >= limit,
    ensures
        evict_spec(s.push(m), limit) == seq![m],
    decreases s.len(),
{
    if s.len() == 0 {
        assert(s.push(m) =~= seq![m]);
        assert(seq![m][0] == m);
    } else {
        assert(s.push(m)[0] == s[0]);
        assert(s.push(m).drop_first() =~= s.drop_first().push(m));
        lemma_evict_drops_stale(s.drop_first(), m, limit);
    }
}

/// Law: with a look-behind of zero, inserting a measurement whose `x` is
/// strictly above every retained `x` leaves the window holding exactly that
/// one measurement.
pub proof fn lemma_add_zero_look_behind(s: Seq<Measurement>, m: Measurement)
    requires
        forall|i: int| 0 <= i < s.len() ==> s[i].x < m.x,
    ensures
        add_spec(s, m, 0) == seq![m],
{
    let base = reset_spec(s, m);
    assert(base == s.push(m)) by {
        if s.len() > 0 {
            assert(s.last().x < m.x);
        }
    }
    lemma_evict_drops_stale(s, m, m.x as int);
}

/// Law: with a look-behind of zero, a strictly increasing run inserted into a
/// window whose coordinates all lie below the run leaves exactly the run's
/// last measurement — the only retained element at the maximum coordinate.
pub proof fn lemma_add_run_zero_look_behind(s: Seq<Measurement>, ms: Seq<Measurement>)
    requires
        ms.len() > 0,
        strictly_increasing_x(ms),
        forall|i: int| 0 <= i < s.len() ==> s[i].x < ms[0].x,
    ensures
        add_all_spec(s, ms, 0) == seq![ms.last()],
    decreases ms.len(),
{
    lemma_add_zero_look_behind(s, ms[0]);
    if ms.len() == 1 {
        assert(add_all_spec(seq![ms[0]], ms.drop_first(), 0) == seq![ms[0]]);
    } else {
        assert(seq![ms[0]].len() == 1 && seq![ms[0]][0] == ms[0]);
        assert(ms.drop_first().len() > 0);
        assert(forall|i: int, j: int| 0 <= i < j < ms.drop_first().len()
            ==> ms.drop_first()[i].x < ms.drop_first()[j].x) by {
            assert(forall|k: int| 0 <= k < ms.drop_first().len() ==> ms.drop_first()[k] == ms[k + 1]);
        }
        assert(ms[0].x < ms.drop_first()[0].x);
        lemma_add_run_zero_look_behind(seq![ms[0]], ms.drop_first());
        assert(ms.drop_first().last() == ms.last());
    }
}

/// An ordered, bounded buffer of measurements. `values` holds the current
/// contiguous run, front-most oldest; `look_behind` is the retention width
/// in coordinate units, fixed at construction.
pub struct MeasurementWindow {
    pub values: VecDeque<Measurement>,
    pub look_behind: usize,
}

impl MeasurementWindow {
    pub fn new_with_look_behind(look_behind: usize) -> (w: Self)
        ensures
            w.values@ == Seq::<Measurement>::empty(),
            w.look_behind == look_behind,
    {
        MeasurementWindow { values: VecDeque::new(), look_behind }
    }

    /// Insert one measurement: clear first if its `x` regresses behind the
    /// last retained `x`, append it, then evict front-most measurements whose
    /// `x` lies more than `look_behind` behind it. Total: no input fails.
    pub fn add(&mut self, measurement: Measurement)
        ensures
            final(self).look_behind == old(self).look_behind,
            final(self).values@ == add_spec(
                old(self).values@,
                measurement,
                old(self).look_behind as int,
            ),
    {
        let n = self.values.len();
        if n > 0 {
            let last: Measurement = self.values[n - 1];
            if measurement.x < last.x {
                self.values.clear();
            }
        }
        self.values.push_back(measurement);
        proof {
            assert(self.values@ =~= reset_spec(old(self).values@, measurement));
        }
        let ghost base: Seq<Measurement> = self.values@;
        let ghost limit_s: int = measurement.x - old(self).look_behind;
        let limit: i128 = (measurement.x as i128) - (self.look_behind as i128);
        let ghost lb0: usize = self.look_behind;
        while self.values.len() > 0 && ((self.values[0]).x as i128) < limit
            invariant
                self.look_behind == lb0,
                limit == limit_s,
                evict_spec(self.values@, limit_s) == evict_spec(base, limit_s),
            decreases self.values@.len(),
        {
            self.values.pop_front();
        }
        proof {
            assert(self.values@ == evict_spec(self.values@, limit_s));
        }
    }

    /// An ordered snapshot of the currently retained measurements, safe to
    /// hand to a renderer independent of later mutation.
    pub fn plot_values(&self) -> (r: Vec<Measurement>)
        ensures
            r@ == self.values@,
    {
        let mut r: Vec<Measurement> = Vec::new();
        let mut i: usize = 0;
        while i < self.values.len()
            invariant
                i <= self.values@.len(),
                r@ == self.values@.subrange(0, i as int),
            decreases self.values@.len() - i,
        {
            r.push(self.values[i]);
            proof {
                assert(r@ =~= self.values@.subrange(0, i + 1));
            }
            i = i + 1;
        }
        proof {
            assert(r@ =~= self.values@);
        }
        r
    }
}

} // verus!
