//! Telemetry arriving from an RTU: what it writes to the snapshot, and which
//! points it reports as changed.

use crate::analog::AnalogValue;
use crate::clock::{now_ms, ClockError};
use crate::master::model::{RtuSnapshot, SnapshotModel};
use crate::settings::{is_switched_on, switched_on};
use vstd::prelude::*;

verus! {

/// A binary input as an RTU reports it.
#[derive(Clone, Copy, Debug, PartialEq, Eq, Structural)]
pub struct BinaryReading {
    pub index: u16,
    pub value: bool,
}

/// An analog input as an RTU reports it.
#[derive(Clone, Copy, Debug)]
pub struct AnalogReading {
    pub index: u16,
    pub value: AnalogValue,
}

/// The value last reported for the binary input `i`, if it was reported at all.
pub open spec fn latest_binary(readings: Seq<BinaryReading>, i: int) -> Option<bool>
    decreases readings.len(),
{
    if readings.len() == 0 {
        None
    } else if readings.last().index == i {
        Some(readings.last().value)
    } else {
        latest_binary(readings.drop_last(), i)
    }
}

/// The binary inputs after `readings`: each holds what was last reported for
/// it. Readings beyond the inputs are ignored.
pub open spec fn binary_after(bi: Seq<bool>, readings: Seq<BinaryReading>) -> Seq<bool> {
    Seq::new(
        bi.len(),
        |i: int|
            match latest_binary(readings, i) {
                Some(value) => value,
                None => bi[i],
            },
    )
}

/// What the handler remembers of each binary input after `readings`, where the
/// snapshot has `n` binary inputs.
pub open spec fn seen_after(
    seen: Seq<Option<bool>>,
    readings: Seq<BinaryReading>,
    n: nat,
) -> Seq<Option<bool>> {
    Seq::new(
        seen.len(),
        |i: int|
            if i < n && latest_binary(readings, i) is Some {
                latest_binary(readings, i)
            } else {
                seen[i]
            },
    )
}

/// What the handler remembers of the binary input `i`.
pub open spec fn recalled(seen: Seq<Option<bool>>, i: int) -> Option<bool> {
    if 0 <= i < seen.len() {
        seen[i]
    } else {
        None
    }
}

/// The readings that are reported as changes: those of inputs that the snapshot
/// has, whose value is not the one remembered when they arrive.
pub open spec fn binary_changes(
    seen: Seq<Option<bool>>,
    readings: Seq<BinaryReading>,
    n: nat,
) -> Seq<BinaryReading>
    decreases readings.len(),
{
    if readings.len() == 0 {
        Seq::empty()
    } else {
        let earlier = readings.drop_last();
        let r = readings.last();
        let changes = binary_changes(seen, earlier, n);
        if r.index < n && recalled(seen_after(seen, earlier, n), r.index as int) != Some(r.value) {
            changes.push(r)
        } else {
            changes
        }
    }
}

/// The value last reported for analog input 0, or `value` if there is none.
pub open spec fn analog_after(value: AnalogValue, readings: Seq<AnalogReading>) -> AnalogValue
    decreases readings.len(),
{
    if readings.len() == 0 {
        value
    } else if readings.last().index == 0 {
        readings.last().value
    } else {
        analog_after(value, readings.drop_last())
    }
}

/// Whether `value` is a change from the remembered value.
pub open spec fn analog_differs(seen: Option<AnalogValue>, value: AnalogValue) -> bool {
    match seen {
        Some(previous) => !previous.equals(value),
        None => true,
    }
}

/// What the handler remembers of analog input 0 after `readings`: the last
/// value that was a change.
pub open spec fn analog_seen_after(
    seen: Option<AnalogValue>,
    readings: Seq<AnalogReading>,
) -> Option<AnalogValue>
    decreases readings.len(),
{
    if readings.len() == 0 {
        seen
    } else {
        let before = analog_seen_after(seen, readings.drop_last());
        let r = readings.last();
        if r.index == 0 && analog_differs(before, r.value) {
            Some(r.value)
        } else {
            before
        }
    }
}

/// The values of analog input 0 that are reported as changes.
pub open spec fn analog_changes(seen: Option<AnalogValue>, readings: Seq<AnalogReading>) -> Seq<
    AnalogValue,
>
    decreases readings.len(),
{
    if readings.len() == 0 {
        Seq::empty()
    } else {
        let earlier = readings.drop_last();
        let r = readings.last();
        let changes = analog_changes(seen, earlier);
        if r.index == 0 && analog_differs(analog_seen_after(seen, earlier), r.value) {
            changes.push(r.value)
        } else {
            changes
        }
    }
}

/// Whether some reading is of an input that the snapshot has, and differs from
/// the value that it replaces.
pub open spec fn binary_alters(bi: Seq<bool>, readings: Seq<BinaryReading>) -> bool
    decreases readings.len(),
{
    if readings.len() == 0 {
        false
    } else {
        let earlier = readings.drop_last();
        let r = readings.last();
        binary_alters(bi, earlier) || (r.index < bi.len() && binary_after(
            bi,
            earlier,
        )[r.index as int] != r.value)
    }
}

/// Whether some reading of analog input 0 differs from the value that it
/// replaces.
pub open spec fn analog_alters(value: AnalogValue, readings: Seq<AnalogReading>) -> bool
    decreases readings.len(),
{
    if readings.len() == 0 {
        false
    } else {
        let earlier = readings.drop_last();
        let r = readings.last();
        analog_alters(value, earlier) || (r.index == 0 && !analog_after(value, earlier).equals(
            r.value,
        ))
    }
}

/// The snapshot after binary readings.
pub open spec fn binary_applied(s: SnapshotModel, readings: Seq<BinaryReading>) -> SnapshotModel {
    SnapshotModel { bi: binary_after(s.bi, readings), ..s }
}

/// The snapshot after analog readings.
pub open spec fn analog_applied(s: SnapshotModel, readings: Seq<AnalogReading>) -> SnapshotModel {
    SnapshotModel { ai0: analog_after(s.ai0, readings), ..s }
}

/// The snapshot with the time at which telemetry last changed a value.
pub open spec fn stamped(s: SnapshotModel, now: u64) -> SnapshotModel {
    SnapshotModel { last_update_ms: now, ..s }
}

/// Takes the telemetry of one RTU, and remembers what it last reported of each
/// point so that only changes are announced.
#[derive(Debug)]
pub struct MasterReadHandler {
    pub last_ai0: Option<AnalogValue>,
    pub last_bi: Vec<Option<bool>>,
    pub print_ai: bool,
    pub print_bi: bool,
}

impl MasterReadHandler {
    /// A handler for a snapshot, which has reported nothing yet. `print_ai` and
    /// `print_bi` are the variables that switch printing on.
    pub fn new(snapshot: &RtuSnapshot, print_ai: &Option<String>, print_bi: &Option<String>) -> (r:
        MasterReadHandler)
        ensures
            r.last_ai0 is None,
            r.last_bi@ == Seq::new(snapshot.bi@.len(), |i: int| None::<bool>),
            r.print_ai == switched_on(*print_ai),
            r.print_bi == switched_on(*print_bi),
    {
        let n: usize = snapshot.bi.len();
        let mut last_bi: Vec<Option<bool>> = Vec::new();
        let mut i: usize = 0;
        while i < n
            invariant
                i <= n,
                last_bi@ == Seq::new(i as nat, |j: int| None::<bool>),
            decreases n - i,
        {
            last_bi.push(None);
            i = i + 1;
        }
        MasterReadHandler {
            last_ai0: None,
            last_bi,
            print_ai: is_switched_on(print_ai),
            print_bi: is_switched_on(print_bi),
        }
    }

    /// Writes binary readings to the snapshot. Gives those that are changes from
    /// what the handler remembers, and whether a value in the snapshot changed.
    pub fn apply_binary(&mut self, snap: &mut RtuSnapshot, readings: &Vec<BinaryReading>) -> (r: (
        Vec<BinaryReading>,
        bool,
    ))
        ensures
            final(snap)@ == binary_applied(old(snap)@, readings@),
            r.1 == binary_alters(old(snap).bi@, readings@),
            r.0@ == binary_changes(old(self).last_bi@, readings@, old(snap).bi@.len()),
            final(self).last_bi@ == seen_after(
                old(self).last_bi@,
                readings@,
                old(snap).bi@.len(),
            ),
            final(self).last_ai0 == old(self).last_ai0,
            final(self).print_ai == old(self).print_ai,
            final(self).print_bi == old(self).print_bi,
    {
        let ghost bi0 = snap.bi@;
        let ghost seen0 = self.last_bi@;
        let mut changes: Vec<BinaryReading> = Vec::new();
        let mut altered: bool = false;
        let mut k: usize = 0;
        proof {
            assert(readings@.take(0) =~= Seq::empty());
            assert(snap.bi@ =~= binary_after(bi0, readings@.take(0)));
            assert(self.last_bi@ =~= seen_after(seen0, readings@.take(0), bi0.len()));
        }
        while k < readings.len()
            invariant
                k <= readings@.len(),
                bi0 == old(snap).bi@,
                seen0 == old(self).last_bi@,
                snap@ == binary_applied(old(snap)@, readings@.take(k as int)),
                changes@ == binary_changes(seen0, readings@.take(k as int), bi0.len()),
                altered == binary_alters(bi0, readings@.take(k as int)),
                self.last_bi@ == seen_after(seen0, readings@.take(k as int), bi0.len()),
                self.last_ai0 == old(self).last_ai0,
                self.print_ai == old(self).print_ai,
                self.print_bi == old(self).print_bi,
            decreases readings@.len() - k,
        {
            let r: BinaryReading = readings[k];
            let i: usize = r.index as usize;
            let ghost earlier = readings@.take(k as int);
            proof {
                assert(readings@.take(k + 1).drop_last() =~= earlier);
                assert(readings@.take(k + 1).last() == r);
            }
            if i < snap.bi.len() {
                if snap.bi[i] != r.value {
                    altered = true;
                }
                snap.bi.set(i, r.value);
                let prev: Option<bool> = if i < self.last_bi.len() {
                    self.last_bi[i]
                } else {
                    None
                };
                let changed: bool = match prev {
                    Some(p) => p != r.value,
                    None => true,
                };
                if changed {
                    changes.push(r);
                    if i < self.last_bi.len() {
                        self.last_bi.set(i, Some(r.value));
                    }
                }
            }
            proof {
                assert(snap.bi@ =~= binary_after(bi0, readings@.take(k + 1)));
                assert(self.last_bi@ =~= seen_after(seen0, readings@.take(k + 1), bi0.len()));
            }
            k = k + 1;
        }
        assert(readings@.take(k as int) =~= readings@);
        (changes, altered)
    }

    /// Takes binary readings that have just arrived: writes them to the
    /// snapshot, gives those that are changes, and stamps the snapshot if a value
    /// in it changed.
    pub fn handle_binary_input(
        &mut self,
        snap: &mut RtuSnapshot,
        readings: &Vec<BinaryReading>,
    ) -> (r: (Vec<BinaryReading>, Result<(), ClockError>))
        ensures
            if binary_alters(old(snap).bi@, readings@) {
                exists|clock: Result<u64, ClockError>| #[trigger]
                    call_ensures(now_ms, (), clock) && r.1 == stamp_recorded(clock)
                        && final(snap)@ == stamped_on(
                        binary_applied(old(snap)@, readings@),
                        clock,
                    )
            } else {
                r.1 is Ok && final(snap)@ == binary_applied(old(snap)@, readings@)
            },
            r.0@ == binary_changes(old(self).last_bi@, readings@, old(snap).bi@.len()),
            final(self).last_bi@ == seen_after(
                old(self).last_bi@,
                readings@,
                old(snap).bi@.len(),
            ),
            final(self).last_ai0 == old(self).last_ai0,
            final(self).print_ai == old(self).print_ai,
            final(self).print_bi == old(self).print_bi,
    {
        let (changes, altered) = self.apply_binary(snap, readings);
        let stamp = if altered {
            stamp_now(snap)
        } else {
            Ok(())
        };
        (changes, stamp)
    }

    /// Writes analog readings to the snapshot. Gives the values of analog input 0
    /// that are changes from what the handler remembers, and whether the value in
    /// the snapshot changed. Other analog inputs are ignored.
    pub fn apply_analog(&mut self, snap: &mut RtuSnapshot, readings: &Vec<AnalogReading>) -> (r: (
        Vec<AnalogValue>,
        bool,
    ))
        ensures
            final(snap)@ == analog_applied(old(snap)@, readings@),
            r.1 == analog_alters(old(snap).ai0, readings@),
            r.0@ == analog_changes(old(self).last_ai0, readings@),
            final(self).last_ai0 == analog_seen_after(old(self).last_ai0, readings@),
            final(self).last_bi@ == old(self).last_bi@,
            final(self).print_ai == old(self).print_ai,
            final(self).print_bi == old(self).print_bi,
    {
        let mut changes: Vec<AnalogValue> = Vec::new();
        let mut altered: bool = false;
        let mut k: usize = 0;
        assert(readings@.take(0) =~= Seq::empty());
        while k < readings.len()
            invariant
                k <= readings@.len(),
                snap@ == analog_applied(old(snap)@, readings@.take(k as int)),
                changes@ == analog_changes(old(self).last_ai0, readings@.take(k as int)),
                altered == analog_alters(old(snap).ai0, readings@.take(k as int)),
                self.last_ai0 == analog_seen_after(
                    old(self).last_ai0,
                    readings@.take(k as int),
                ),
                self.last_bi@ == old(self).last_bi@,
                self.print_ai == old(self).print_ai,
                self.print_bi == old(self).print_bi,
            decreases readings@.len() - k,
        {
            let r: AnalogReading = readings[k];
            proof {
                assert(readings@.take(k + 1).drop_last() =~= readings@.take(k as int));
                assert(readings@.take(k + 1).last() == r);
            }
            if r.index == 0 {
                if !snap.ai0.same_value(r.value) {
                    altered = true;
                }
                snap.ai0 = r.value;
                let changed: bool = match self.last_ai0 {
                    Some(p) => !p.same_value(r.value),
                    None => true,
                };
                if changed {
                    changes.push(r.value);
                    self.last_ai0 = Some(r.value);
                }
            }
            k = k + 1;
        }
        assert(readings@.take(k as int) =~= readings@);
        (changes, altered)
    }

    /// Takes analog readings that have just arrived: writes them to the
    /// snapshot, gives the values that are changes, and stamps the snapshot if
    /// the value in it changed.
    pub fn handle_analog_input(
        &mut self,
        snap: &mut RtuSnapshot,
        readings: &Vec<AnalogReading>,
    ) -> (r: (Vec<AnalogValue>, Result<(), ClockError>))
        ensures
            if analog_alters(old(snap).ai0, readings@) {
                exists|clock: Result<u64, ClockError>| #[trigger]
                    call_ensures(now_ms, (), clock) && r.1 == stamp_recorded(clock)
                        && final(snap)@ == stamped_on(
                        analog_applied(old(snap)@, readings@),
                        clock,
                    )
            } else {
                r.1 is Ok && final(snap)@ == analog_applied(old(snap)@, readings@)
            },
            r.0@ == analog_changes(old(self).last_ai0, readings@),
            final(self).last_ai0 == analog_seen_after(old(self).last_ai0, readings@),
            final(self).last_bi@ == old(self).last_bi@,
            final(self).print_ai == old(self).print_ai,
            final(self).print_bi == old(self).print_bi,
    {
        let (changes, altered) = self.apply_analog(snap, readings);
        let stamp = if altered {
            stamp_now(snap)
        } else {
            Ok(())
        };
        (changes, stamp)
    }
}

/// How stamping goes when the clock reads `clock`.
pub open spec fn stamp_recorded(clock: Result<u64, ClockError>) -> Result<(), ClockError> {
    match clock {
        Ok(_) => Ok(()),
        Err(e) => Err(e),
    }
}

/// The snapshot once it was stamped when the clock reads `clock`. Without a time
/// it keeps the one that it has.
pub open spec fn stamped_on(s: SnapshotModel, clock: Result<u64, ClockError>) -> SnapshotModel {
    match clock {
        Ok(now) => stamped(s, now),
        Err(_) => s,
    }
}

/// Records what the clock reads as the time at which a value last changed.
pub fn stamp_on(snap: &mut RtuSnapshot, clock: Result<u64, ClockError>) -> (r: Result<
    (),
    ClockError,
>)
    ensures
        r == stamp_recorded(clock),
        final(snap)@ == stamped_on(old(snap)@, clock),
{
    match clock {
        Ok(now) => {
            snap.last_update_ms = now;
            Ok(())
        },
        Err(e) => Err(e),
    }
}

/// Records the current time as that at which a value last changed.
fn stamp_now(snap: &mut RtuSnapshot) -> (r: Result<(), ClockError>)
    ensures
        exists|clock: Result<u64, ClockError>| #[trigger]
            call_ensures(now_ms, (), clock) && r == stamp_recorded(clock) && final(snap)@
                == stamped_on(old(snap)@, clock),
{
    let clock = now_ms();
    stamp_on(snap, clock)
}

/// What was last reported in two batches.
proof fn lemma_latest_of_batches(a: Seq<BinaryReading>, b: Seq<BinaryReading>, i: int)
    ensures
        latest_binary(a + b, i) == match latest_binary(b, i) {
            Some(value) => Some(value),
            None => latest_binary(a, i),
        },
    decreases b.len(),
{
    if b.len() == 0 {
        assert(a + b =~= a);
    } else {
        assert((a + b).drop_last() =~= a + b.drop_last());
        lemma_latest_of_batches(a, b.drop_last(), i);
    }
}

/// It makes no difference to the snapshot, to what is remembered, to what is
/// reported or to whether a value changes, whether binary readings arrive in one
/// batch or in two.
pub proof fn law_binary_batches_compose(
    bi: Seq<bool>,
    seen: Seq<Option<bool>>,
    a: Seq<BinaryReading>,
    b: Seq<BinaryReading>,
)
    ensures
        binary_after(bi, a + b) == binary_after(binary_after(bi, a), b),
        seen_after(seen, a + b, bi.len()) == seen_after(
            seen_after(seen, a, bi.len()),
            b,
            bi.len(),
        ),
        binary_changes(seen, a + b, bi.len()) == binary_changes(seen, a, bi.len())
            + binary_changes(seen_after(seen, a, bi.len()), b, bi.len()),
        binary_alters(bi, a + b) == (binary_alters(bi, a) || binary_alters(
            binary_after(bi, a),
            b,
        )),
    decreases b.len(),
{
    assert forall|i: int| #[trigger]
        latest_binary(a + b, i) == match latest_binary(b, i) {
            Some(value) => Some(value),
            None => latest_binary(a, i),
        } by {
        lemma_latest_of_batches(a, b, i);
    }
    assert(binary_after(bi, a + b) =~= binary_after(binary_after(bi, a), b));
    assert(seen_after(seen, a + b, bi.len()) =~= seen_after(
        seen_after(seen, a, bi.len()),
        b,
        bi.len(),
    ));
    if b.len() == 0 {
        assert(a + b =~= a);
        assert(binary_changes(seen, a, bi.len()) + Seq::<BinaryReading>::empty()
            =~= binary_changes(seen, a, bi.len()));
    } else {
        assert((a + b).drop_last() =~= a + b.drop_last());
        law_binary_batches_compose(bi, seen, a, b.drop_last());
        assert(binary_changes(seen, a + b, bi.len()) =~= binary_changes(seen, a, bi.len())
            + binary_changes(seen_after(seen, a, bi.len()), b, bi.len()));
    }
}

/// Readings beyond the binary inputs of the snapshot leave no trace.
pub proof fn law_readings_out_of_range_are_ignored(
    bi: Seq<bool>,
    seen: Seq<Option<bool>>,
    readings: Seq<BinaryReading>,
)
    requires
        forall|k: int| 0 <= k < readings.len() ==> (#[trigger] readings[k]).index >= bi.len(),
    ensures
        binary_after(bi, readings) == bi,
        seen_after(seen, readings, bi.len()) == seen,
        binary_changes(seen, readings, bi.len()) == Seq::<BinaryReading>::empty(),
        !binary_alters(bi, readings),
    decreases readings.len(),
{
    if readings.len() > 0 {
        assert(readings[readings.len() - 1] == readings.last());
        law_readings_out_of_range_are_ignored(bi, seen, readings.drop_last());
        let before = binary_after(bi, readings.drop_last());
        assert forall|i: int| 0 <= i < bi.len() implies latest_binary(readings, i)
            == latest_binary(readings.drop_last(), i) by {}
        assert forall|i: int| 0 <= i < bi.len() implies binary_after(bi, readings)[i]
            == bi[i] by {
            assert(before[i] == bi[i]);
        }
        assert forall|i: int| 0 <= i < seen.len() implies seen_after(seen, readings, bi.len())[i]
            == seen[i] by {
            assert(seen_after(seen, readings.drop_last(), bi.len())[i] == seen[i]);
        }
    }
    assert(binary_after(bi, readings) =~= bi);
    assert(seen_after(seen, readings, bi.len()) =~= seen);
}

/// If no binary reading differs from the value that it replaces, all inputs stay
/// as they were.
pub proof fn law_unaltered_binary_is_unchanged(bi: Seq<bool>, readings: Seq<BinaryReading>)
    requires
        !binary_alters(bi, readings),
    ensures
        binary_after(bi, readings) == bi,
    decreases readings.len(),
{
    if readings.len() > 0 {
        let before = binary_after(bi, readings.drop_last());
        law_unaltered_binary_is_unchanged(bi, readings.drop_last());
        assert forall|i: int| 0 <= i < bi.len() implies binary_after(bi, readings)[i]
            == bi[i] by {
            assert(before[i] == bi[i]);
        }
    }
    assert(binary_after(bi, readings) =~= bi);
}

/// If no reading of analog input 0 differs from the value that it replaces, the
/// input holds the same pattern as before, or one that is equal as a number; and
/// if it held a NaN, there was no such reading at all.
pub proof fn law_unaltered_analog_is_unchanged(value: AnalogValue, readings: Seq<AnalogReading>)
    requires
        !analog_alters(value, readings),
    ensures
        analog_after(value, readings) == value || value.equals(analog_after(value, readings)),
        value.nan() ==> forall|k: int|
            0 <= k < readings.len() ==> (#[trigger] readings[k]).index != 0,
    decreases readings.len(),
{
    if readings.len() > 0 {
        let earlier = readings.drop_last();
        law_unaltered_analog_is_unchanged(value, earlier);
        assert forall|k: int| value.nan() && 0 <= k < readings.len() implies (
        #[trigger] readings[k]).index != 0 by {
            if k < earlier.len() {
                assert(earlier[k] == readings[k]);
            }
        }
    }
}

/// Readings are not reported if each repeats what is remembered of its input or
/// is beyond the inputs that the snapshot has.
pub proof fn law_unchanged_binary_is_silent(
    seen: Seq<Option<bool>>,
    readings: Seq<BinaryReading>,
    n: nat,
)
    requires
        forall|k: int|
            0 <= k < readings.len() && (#[trigger] readings[k]).index < n ==> recalled(
                seen,
                readings[k].index as int,
            ) == Some(readings[k].value),
    ensures
        binary_changes(seen, readings, n) == Seq::<BinaryReading>::empty(),
        seen_after(seen, readings, n) == seen,
    decreases readings.len(),
{
    if readings.len() > 0 {
        assert(readings[readings.len() - 1] == readings.last());
        law_unchanged_binary_is_silent(seen, readings.drop_last(), n);
        assert forall|i: int| 0 <= i < seen.len() implies seen_after(seen, readings, n)[i]
            == seen[i] by {
            assert(seen_after(seen, readings.drop_last(), n)[i] == seen[i]);
        }
    }
    assert(seen_after(seen, readings, n) =~= seen);
}

/// It makes no difference to the snapshot, to what is remembered, to what is
/// reported or to whether a value changes, whether analog readings arrive in one
/// batch or in two.
pub proof fn law_analog_batches_compose(
    value: AnalogValue,
    seen: Option<AnalogValue>,
    a: Seq<AnalogReading>,
    b: Seq<AnalogReading>,
)
    ensures
        analog_after(value, a + b) == analog_after(analog_after(value, a), b),
        analog_seen_after(seen, a + b) == analog_seen_after(analog_seen_after(seen, a), b),
        analog_changes(seen, a + b) == analog_changes(seen, a) + analog_changes(
            analog_seen_after(seen, a),
            b,
        ),
        analog_alters(value, a + b) == (analog_alters(value, a) || analog_alters(
            analog_after(value, a),
            b,
        )),
    decreases b.len(),
{
    if b.len() == 0 {
        assert(a + b =~= a);
        assert(analog_changes(seen, a) + Seq::<AnalogValue>::empty() =~= analog_changes(seen, a));
    } else {
        assert((a + b).drop_last() =~= a + b.drop_last());
        law_analog_batches_compose(value, seen, a, b.drop_last());
        assert(analog_changes(seen, a + b) =~= analog_changes(seen, a) + analog_changes(
            analog_seen_after(seen, a),
            b,
        ));
    }
}

/// Analog readings are not reported if each equals what is remembered or is not
/// of input 0.
pub proof fn law_unchanged_analog_is_silent(previous: AnalogValue, readings: Seq<AnalogReading>)
    requires
        forall|k: int|
            0 <= k < readings.len() && (#[trigger] readings[k]).index == 0 ==> previous.equals(
                readings[k].value,
            ),
    ensures
        analog_changes(Some(previous), readings) == Seq::<AnalogValue>::empty(),
        analog_seen_after(Some(previous), readings) == Some(previous),
    decreases readings.len(),
{
    if readings.len() > 0 {
        assert(readings[readings.len() - 1] == readings.last());
        law_unchanged_analog_is_silent(previous, readings.drop_last());
    }
}

/// The last reading of an input is the latest one.
proof fn lemma_latest_is_last(readings: Seq<BinaryReading>, k: int)
    requires
        0 <= k < readings.len(),
        forall|j: int|
            k < j < readings.len() ==> (#[trigger] readings[j]).index != readings[k].index,
    ensures
        latest_binary(readings, readings[k].index as int) == Some(readings[k].value),
    decreases readings.len(),
{
    let last = readings.len() - 1;
    if k < last {
        assert(readings[last].index != readings[k].index);
        lemma_latest_is_last(readings.drop_last(), k);
    }
}

/// An input without a reading has no latest one.
proof fn lemma_no_latest(readings: Seq<BinaryReading>, i: int)
    requires
        forall|k: int| 0 <= k < readings.len() ==> (#[trigger] readings[k]).index != i,
    ensures
        latest_binary(readings, i) is None,
    decreases readings.len(),
{
    if readings.len() > 0 {
        assert(readings[readings.len() - 1] == readings.last());
        lemma_no_latest(readings.drop_last(), i);
    }
}

/// A binary input that the snapshot has shows the last reading of it, whatever
/// its index, its value and what it held before.
pub proof fn law_input_shows_its_last_reading(
    s: SnapshotModel,
    readings: Seq<BinaryReading>,
    k: int,
)
    requires
        0 <= k < readings.len(),
        readings[k].index < s.bi.len(),
        forall|j: int|
            k < j < readings.len() ==> (#[trigger] readings[j]).index != readings[k].index,
    ensures
        binary_after(s.bi, readings)[readings[k].index as int] == readings[k].value,
        binary_applied(s, readings).bi[readings[k].index as int] == readings[k].value,
{
    lemma_latest_is_last(readings, k);
}

/// A binary input without a reading keeps its value, and there are as many
/// inputs as before.
pub proof fn law_unread_input_keeps_its_value(
    s: SnapshotModel,
    readings: Seq<BinaryReading>,
    i: int,
)
    requires
        0 <= i < s.bi.len(),
        forall|k: int| 0 <= k < readings.len() ==> (#[trigger] readings[k]).index != i,
    ensures
        binary_after(s.bi, readings)[i] == s.bi[i],
        binary_applied(s, readings).bi[i] == s.bi[i],
        binary_after(s.bi, readings).len() == s.bi.len(),
        binary_applied(s, readings).bi.len() == s.bi.len(),
{
    lemma_no_latest(readings, i);
}

/// The handler remembers the last reading of an input that the snapshot has.
pub proof fn law_last_reading_is_remembered(
    seen: Seq<Option<bool>>,
    readings: Seq<BinaryReading>,
    n: nat,
    k: int,
)
    requires
        0 <= k < readings.len(),
        readings[k].index < n,
        readings[k].index < seen.len(),
        forall|j: int|
            k < j < readings.len() ==> (#[trigger] readings[j]).index != readings[k].index,
    ensures
        seen_after(seen, readings, n)[readings[k].index as int] == Some(readings[k].value),
        seen_after(seen, readings, n).len() == seen.len(),
{
    lemma_latest_is_last(readings, k);
}

/// What the handler remembers of an input stays as it is if the input has no
/// reading, or is not one that the snapshot has.
pub proof fn law_memory_of_other_inputs_is_kept(
    seen: Seq<Option<bool>>,
    readings: Seq<BinaryReading>,
    n: nat,
    i: int,
)
    requires
        0 <= i < seen.len(),
        i >= n || forall|k: int| 0 <= k < readings.len() ==> (#[trigger] readings[k]).index != i,
    ensures
        seen_after(seen, readings, n)[i] == seen[i],
        seen_after(seen, readings, n).len() == seen.len(),
{
    if i < n {
        lemma_no_latest(readings, i);
    }
}

/// Without readings nothing is announced. One more reading is announced, behind
/// those before it, or not at all: never if it is beyond the inputs of the
/// snapshot, always if the handler has no room to remember its input, and, if it
/// is the first reading of its input, exactly if the handler does not remember
/// the same value.
pub proof fn law_first_reading_is_announced_if_new(
    seen: Seq<Option<bool>>,
    before: Seq<BinaryReading>,
    r: BinaryReading,
    n: nat,
)
    ensures
        binary_changes(seen, Seq::empty(), n) == Seq::<BinaryReading>::empty(),
        r.index >= n ==> binary_changes(seen, before.push(r), n) == binary_changes(seen, before, n),
        r.index < n && r.index >= seen.len() ==> binary_changes(seen, before.push(r), n)
            == binary_changes(seen, before, n).push(r),
        r.index < n && r.index < seen.len() && (forall|k: int|
            0 <= k < before.len() ==> (#[trigger] before[k]).index != r.index)
            ==> binary_changes(seen, before.push(r), n) == if seen[r.index as int] == Some(
            r.value,
        ) {
            binary_changes(seen, before, n)
        } else {
            binary_changes(seen, before, n).push(r)
        },
{
    assert(before.push(r).drop_last() =~= before);
    if forall|k: int| 0 <= k < before.len() ==> (#[trigger] before[k]).index != r.index {
        lemma_no_latest(before, r.index as int);
    }
}

/// A further reading of an input is announced exactly if its value differs from
/// that of the reading before it.
pub proof fn law_further_reading_is_announced_if_it_differs(
    seen: Seq<Option<bool>>,
    before: Seq<BinaryReading>,
    r: BinaryReading,
    n: nat,
    j: int,
)
    requires
        r.index < n,
        r.index < seen.len(),
        0 <= j < before.len(),
        before[j].index == r.index,
        forall|k: int| j < k < before.len() ==> (#[trigger] before[k]).index != r.index,
    ensures
        binary_changes(seen, before.push(r), n) == if before[j].value == r.value {
            binary_changes(seen, before, n)
        } else {
            binary_changes(seen, before, n).push(r)
        },
{
    assert(before.push(r).drop_last() =~= before);
    lemma_latest_is_last(before, j);
}

/// Binary readings change a value of the snapshot exactly if one of them is of an
/// input that the snapshot has and is not the value that this input held at
/// first.
pub proof fn law_binary_alters_iff_a_reading_differs(bi: Seq<bool>, readings: Seq<BinaryReading>)
    ensures
        binary_alters(bi, readings) <==> exists|k: int|
            0 <= k < readings.len() && (#[trigger] readings[k]).index < bi.len()
                && readings[k].value != bi[readings[k].index as int],
    decreases readings.len(),
{
    if readings.len() > 0 {
        let earlier = readings.drop_last();
        let last = readings.len() - 1;
        law_binary_alters_iff_a_reading_differs(bi, earlier);
        assert(readings[last] == readings.last());
        if binary_alters(bi, earlier) {
            let k = choose|k: int|
                0 <= k < earlier.len() && (#[trigger] earlier[k]).index < bi.len()
                    && earlier[k].value != bi[earlier[k].index as int];
            assert(readings[k] == earlier[k]);
        } else {
            law_unaltered_binary_is_unchanged(bi, earlier);
            assert forall|k: int|
                0 <= k < earlier.len() && (#[trigger] readings[k]).index < bi.len()
                implies readings[k].value == bi[readings[k].index as int] by {
                assert(earlier[k] == readings[k]);
            }
        }
    }
}

/// The snapshot's analog input shows the last reading of input 0, whatever its
/// value.
pub proof fn law_analog_shows_its_last_reading(
    s: SnapshotModel,
    readings: Seq<AnalogReading>,
    k: int,
)
    requires
        0 <= k < readings.len(),
        readings[k].index == 0,
        forall|j: int| k < j < readings.len() ==> (#[trigger] readings[j]).index != 0,
    ensures
        analog_after(s.ai0, readings) == readings[k].value,
        analog_applied(s, readings).ai0 == readings[k].value,
    decreases readings.len(),
{
    let last = readings.len() - 1;
    if k < last {
        assert(readings[last].index != 0);
        law_analog_shows_its_last_reading(s, readings.drop_last(), k);
    }
}

/// Without a reading of input 0 the analog input keeps its value.
pub proof fn law_unread_analog_keeps_its_value(s: SnapshotModel, readings: Seq<AnalogReading>)
    requires
        forall|k: int| 0 <= k < readings.len() ==> (#[trigger] readings[k]).index != 0,
    ensures
        analog_after(s.ai0, readings) == s.ai0,
        analog_applied(s, readings).ai0 == s.ai0,
    decreases readings.len(),
{
    if readings.len() > 0 {
        assert(readings[readings.len() - 1] == readings.last());
        law_unread_analog_keeps_its_value(s, readings.drop_last());
    }
}

/// The handler remembers a number equal to the last reading of input 0, or the
/// very pattern of that reading.
pub proof fn law_last_analog_reading_is_remembered(
    seen: Option<AnalogValue>,
    readings: Seq<AnalogReading>,
    k: int,
)
    requires
        0 <= k < readings.len(),
        readings[k].index == 0,
        forall|j: int| k < j < readings.len() ==> (#[trigger] readings[j]).index != 0,
    ensures
        match analog_seen_after(seen, readings) {
            Some(p) => p == readings[k].value || p.equals(readings[k].value),
            None => false,
        },
    decreases readings.len(),
{
    let last = readings.len() - 1;
    if k < last {
        assert(readings[last].index != 0);
        law_last_analog_reading_is_remembered(seen, readings.drop_last(), k);
    }
}

/// Without a reading of input 0 the handler remembers what it did.
pub proof fn law_analog_memory_is_kept(seen: Option<AnalogValue>, readings: Seq<AnalogReading>)
    requires
        forall|k: int| 0 <= k < readings.len() ==> (#[trigger] readings[k]).index != 0,
    ensures
        analog_seen_after(seen, readings) == seen,
    decreases readings.len(),
{
    if readings.len() > 0 {
        assert(readings[readings.len() - 1] == readings.last());
        law_analog_memory_is_kept(seen, readings.drop_last());
    }
}

/// The handler keeps the pattern that it remembers when a reading equals it, and
/// otherwise takes that of the reading.
pub proof fn law_analog_memory_changes_with_the_number(
    seen: Option<AnalogValue>,
    before: Seq<AnalogReading>,
    r: AnalogReading,
)
    requires
        r.index == 0,
    ensures
        analog_seen_after(seen, before.push(r)) == match analog_seen_after(seen, before) {
            Some(p) if p.equals(r.value) => Some(p),
            _ => Some(r.value),
        },
{
    assert(before.push(r).drop_last() =~= before);
}

/// Without readings nothing is announced, and never a reading of another input
/// than 0. The first reading of input 0 is announced exactly if the handler does
/// not remember an equal number.
pub proof fn law_first_analog_reading_is_announced_if_new(
    seen: Option<AnalogValue>,
    before: Seq<AnalogReading>,
    r: AnalogReading,
)
    ensures
        analog_changes(seen, Seq::empty()) == Seq::<AnalogValue>::empty(),
        r.index != 0 ==> analog_changes(seen, before.push(r)) == analog_changes(seen, before),
        r.index == 0 && (forall|k: int|
            0 <= k < before.len() ==> (#[trigger] before[k]).index != 0) ==> analog_changes(
            seen,
            before.push(r),
        ) == match seen {
            Some(p) if p.equals(r.value) => analog_changes(seen, before),
            _ => analog_changes(seen, before).push(r.value),
        },
{
    assert(before.push(r).drop_last() =~= before);
    if forall|k: int| 0 <= k < before.len() ==> (#[trigger] before[k]).index != 0 {
        law_analog_memory_is_kept(seen, before);
    }
}

/// A further reading of input 0 is announced exactly if it is not the same number
/// as the reading before it.
pub proof fn law_further_analog_reading_is_announced_if_it_differs(
    seen: Option<AnalogValue>,
    before: Seq<AnalogReading>,
    r: AnalogReading,
    j: int,
)
    requires
        r.index == 0,
        0 <= j < before.len(),
        before[j].index == 0,
        forall|k: int| j < k < before.len() ==> (#[trigger] before[k]).index != 0,
    ensures
        analog_changes(seen, before.push(r)) == if before[j].value.equals(r.value) {
            analog_changes(seen, before)
        } else {
            analog_changes(seen, before).push(r.value)
        },
{
    assert(before.push(r).drop_last() =~= before);
    law_last_analog_reading_is_remembered(seen, before, j);
}

/// Analog readings change the value of the snapshot exactly if one of them is of
/// input 0 and is not the number that the input held at first.
pub proof fn law_analog_alters_iff_a_reading_differs(
    value: AnalogValue,
    readings: Seq<AnalogReading>,
)
    ensures
        analog_alters(value, readings) <==> exists|k: int|
            0 <= k < readings.len() && (#[trigger] readings[k]).index == 0 && !value.equals(
                readings[k].value,
            ),
    decreases readings.len(),
{
    if readings.len() > 0 {
        let earlier = readings.drop_last();
        let last = readings.len() - 1;
        law_analog_alters_iff_a_reading_differs(value, earlier);
        assert(readings[last] == readings.last());
        if analog_alters(value, earlier) {
            let k = choose|k: int|
                0 <= k < earlier.len() && (#[trigger] earlier[k]).index == 0 && !value.equals(
                    earlier[k].value,
                );
            assert(readings[k] == earlier[k]);
        } else {
            law_unaltered_analog_is_unchanged(value, earlier);
            assert forall|k: int|
                0 <= k < earlier.len() && (#[trigger] readings[k]).index == 0 implies value.equals(
                readings[k].value,
            ) by {
                assert(earlier[k] == readings[k]);
            }
        }
    }
}

/// Binary readings touch nothing of a snapshot but its binary inputs, analog ones
/// nothing but its analog input, and a stamp nothing but the time of the last
/// update, which becomes that of the clock. Without a time there is no stamp.
pub proof fn law_telemetry_touches_nothing_else(
    s: SnapshotModel,
    binary: Seq<BinaryReading>,
    analog: Seq<AnalogReading>,
    now: u64,
    e: ClockError,
)
    ensures
        binary_applied(s, binary) == (SnapshotModel { bi: binary_applied(s, binary).bi, ..s }),
        analog_applied(s, analog) == (SnapshotModel { ai0: analog_applied(s, analog).ai0, ..s }),
        stamped_on(s, Ok(now)) == (SnapshotModel { last_update_ms: now, ..s }),
        stamped(s, now) == stamped_on(s, Ok(now)),
        stamped_on(s, Err(e)) == s,
        stamp_recorded(Ok(now)) is Ok,
        stamp_recorded(Err(e)) == Err::<(), ClockError>(e),
{
}

} // verus!
