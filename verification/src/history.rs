//! What a snapshot says of everything that has happened to its RTU.

use crate::clock::online_at;
use crate::command::RtuCommand;
use crate::handler::{
    analog_after, analog_alters, analog_applied, binary_after, binary_alters, binary_applied,
    law_analog_batches_compose, law_binary_batches_compose, stamped, AnalogReading, BinaryReading,
};
use crate::master::model::{fresh, SnapshotModel};
use crate::telemetry::{
    judged_at, law_round_trip_is_end_minus_start, poll_failed, poll_started, poll_succeeded,
};
use vstd::prelude::*;

verus! {

/// Something that happens to an RTU.
#[allow(inconsistent_fields)]
pub enum RtuEvent {
    /// A poll is started.
    PollStarted { start_ms: u64 },
    /// A poll is answered.
    PollSucceeded { start_ms: u64, end: u64, now: u64 },
    /// A poll fails.
    PollFailed { error: Seq<char>, now: u64 },
    /// Binary inputs are reported.
    BinaryTelemetry { readings: Seq<BinaryReading>, now: u64 },
    /// Analog inputs are reported.
    AnalogTelemetry { readings: Seq<AnalogReading>, now: u64 },
    /// An operator's command is taken up.
    CommandTaken { command: RtuCommand },
}

/// Whether an event is telemetry that changes a value in the snapshot.
pub open spec fn alters(s: SnapshotModel, event: RtuEvent) -> bool {
    match event {
        RtuEvent::BinaryTelemetry { readings, now } => binary_alters(s.bi, readings),
        RtuEvent::AnalogTelemetry { readings, now } => analog_alters(s.ai0, readings),
        _ => false,
    }
}

/// The snapshot after one event, for an RTU that is offline once
/// `offline_after_ms` have passed without an answer.
pub open spec fn after(s: SnapshotModel, event: RtuEvent, offline_after_ms: u64) -> SnapshotModel {
    match event {
        RtuEvent::PollStarted { start_ms } => poll_started(s, start_ms),
        RtuEvent::PollSucceeded { start_ms, end, now } => poll_succeeded(
            s,
            start_ms,
            end,
            now,
            offline_after_ms,
        ),
        RtuEvent::PollFailed { error, now } => poll_failed(s, error, now, offline_after_ms),
        RtuEvent::BinaryTelemetry { readings, now } => if alters(s, event) {
            stamped(binary_applied(s, readings), now)
        } else {
            binary_applied(s, readings)
        },
        RtuEvent::AnalogTelemetry { readings, now } => if alters(s, event) {
            stamped(analog_applied(s, readings), now)
        } else {
            analog_applied(s, readings)
        },
        RtuEvent::CommandTaken { command } => s,
    }
}

/// The snapshot after a history of events.
pub open spec fn replay(
    s: SnapshotModel,
    events: Seq<RtuEvent>,
    offline_after_ms: u64,
) -> SnapshotModel
    decreases events.len(),
{
    if events.len() == 0 {
        s
    } else {
        after(replay(s, events.drop_last(), offline_after_ms), events.last(), offline_after_ms)
    }
}

/// All binary readings of a history, in order.
pub open spec fn all_binary(events: Seq<RtuEvent>) -> Seq<BinaryReading>
    decreases events.len(),
{
    if events.len() == 0 {
        Seq::empty()
    } else {
        match events.last() {
            RtuEvent::BinaryTelemetry { readings, now } => all_binary(events.drop_last())
                + readings,
            _ => all_binary(events.drop_last()),
        }
    }
}

/// All analog readings of a history, in order.
pub open spec fn all_analog(events: Seq<RtuEvent>) -> Seq<AnalogReading>
    decreases events.len(),
{
    if events.len() == 0 {
        Seq::empty()
    } else {
        match events.last() {
            RtuEvent::AnalogTelemetry { readings, now } => all_analog(events.drop_last())
                + readings,
            _ => all_analog(events.drop_last()),
        }
    }
}

/// Telemetry is the only source of point values: whatever else has happened,
/// every point holds what telemetry last reported of it, or what it held at
/// first.
pub proof fn law_telemetry_is_truth(
    s: SnapshotModel,
    events: Seq<RtuEvent>,
    offline_after_ms: u64,
)
    ensures
        replay(s, events, offline_after_ms).bi == binary_after(s.bi, all_binary(events)),
        replay(s, events, offline_after_ms).ai0 == analog_after(s.ai0, all_analog(events)),
    decreases events.len(),
{
    if events.len() == 0 {
        assert(binary_after(s.bi, all_binary(events)) =~= s.bi);
    } else {
        let rest = events.drop_last();
        law_telemetry_is_truth(s, rest, offline_after_ms);
        match events.last() {
            RtuEvent::BinaryTelemetry { readings, now } => {
                law_binary_batches_compose(s.bi, Seq::empty(), all_binary(rest), readings);
            },
            RtuEvent::AnalogTelemetry { readings, now } => {
                law_analog_batches_compose(s.ai0, None, all_analog(rest), readings);
            },
            _ => {},
        }
    }
}

/// When the last event came that changed a value; `never` if none did.
pub open spec fn last_change(
    s: SnapshotModel,
    events: Seq<RtuEvent>,
    offline_after_ms: u64,
    never: u64,
) -> u64
    decreases events.len(),
{
    if events.len() == 0 {
        never
    } else {
        let rest = events.drop_last();
        if alters(replay(s, rest, offline_after_ms), events.last()) {
            match events.last() {
                RtuEvent::BinaryTelemetry { readings, now } => now,
                RtuEvent::AnalogTelemetry { readings, now } => now,
                _ => never,
            }
        } else {
            last_change(s, rest, offline_after_ms, never)
        }
    }
}

/// A snapshot shows when telemetry last changed a value: nothing else that
/// happens, and no telemetry that changes nothing, touches that time.
pub proof fn law_last_update_is_last_change(
    s: SnapshotModel,
    events: Seq<RtuEvent>,
    offline_after_ms: u64,
)
    ensures
        replay(s, events, offline_after_ms).last_update_ms == last_change(
            s,
            events,
            offline_after_ms,
            s.last_update_ms,
        ),
    decreases events.len(),
{
    if events.len() > 0 {
        law_last_update_is_last_change(s, events.drop_last(), offline_after_ms);
    }
}

/// Whether an event is not a command.
pub open spec fn not_a_command() -> spec_fn(RtuEvent) -> bool {
    |event: RtuEvent| !(event is CommandTaken)
}

/// Commands leave no trace in the snapshot: it is the same as if none had been
/// given.
pub proof fn law_commands_leave_no_trace(
    s: SnapshotModel,
    events: Seq<RtuEvent>,
    offline_after_ms: u64,
)
    ensures
        replay(s, events, offline_after_ms) == replay(
            s,
            events.filter(not_a_command()),
            offline_after_ms,
        ),
    decreases events.len(),
{
    reveal(Seq::filter);
    if events.len() > 0 {
        let rest = events.drop_last();
        law_commands_leave_no_trace(s, rest, offline_after_ms);
        if !(events.last() is CommandTaken) {
            let kept = rest.filter(not_a_command());
            assert(kept.push(events.last()).drop_last() =~= kept);
        }
    }
}

/// Nothing that happens changes which RTU a snapshot is of, or how many binary
/// inputs it has.
pub proof fn law_identity_is_kept(s: SnapshotModel, events: Seq<RtuEvent>, offline_after_ms: u64)
    ensures
        replay(s, events, offline_after_ms).id == s.id,
        replay(s, events, offline_after_ms).endpoint == s.endpoint,
        replay(s, events, offline_after_ms).rtu_addr == s.rtu_addr,
        replay(s, events, offline_after_ms).bi.len() == s.bi.len(),
    decreases events.len(),
{
    if events.len() > 0 {
        law_identity_is_kept(s, events.drop_last(), offline_after_ms);
    }
}

/// How many polls of a history were answered.
pub open spec fn successes(events: Seq<RtuEvent>) -> nat
    decreases events.len(),
{
    if events.len() == 0 {
        0
    } else {
        successes(events.drop_last()) + (if events.last() is PollSucceeded {
            1nat
        } else {
            0nat
        })
    }
}

/// How many polls of a history failed.
pub open spec fn failures(events: Seq<RtuEvent>) -> nat
    decreases events.len(),
{
    if events.len() == 0 {
        0
    } else {
        failures(events.drop_last()) + (if events.last() is PollFailed {
            1nat
        } else {
            0nat
        })
    }
}

/// How many polls have failed since the last one that was answered.
pub open spec fn failure_streak(events: Seq<RtuEvent>) -> nat
    decreases events.len(),
{
    if events.len() == 0 || events.last() is PollSucceeded {
        0
    } else {
        failure_streak(events.drop_last()) + (if events.last() is PollFailed {
            1nat
        } else {
            0nat
        })
    }
}

/// The counters of a snapshot count the polls of its history: all answered
/// ones, all failed ones, and the failures since the last answer, of which at
/// most the largest 32-bit number are shown.
pub proof fn law_counters_count_polls(
    id: Seq<char>,
    endpoint: Seq<char>,
    rtu_addr: u16,
    bi_count: nat,
    events: Seq<RtuEvent>,
    offline_after_ms: u64,
)
    ensures
        ({
            let s = replay(fresh(id, endpoint, rtu_addr, bi_count), events, offline_after_ms);
            &&& s.poll_ok_count == successes(events)
            &&& s.poll_fail_count == failures(events)
            &&& s.consecutive_failures == if failure_streak(events) <= u32::MAX {
                failure_streak(events)
            } else {
                u32::MAX as nat
            }
        }),
    decreases events.len(),
{
    if events.len() > 0 {
        law_counters_count_polls(
            id,
            endpoint,
            rtu_addr,
            bi_count,
            events.drop_last(),
            offline_after_ms,
        );
    }
}

/// What the last poll to end failed with; nothing if it was answered or none
/// has ended.
pub open spec fn last_failure(events: Seq<RtuEvent>) -> Seq<char>
    decreases events.len(),
{
    if events.len() == 0 {
        Seq::empty()
    } else {
        match events.last() {
            RtuEvent::PollSucceeded { start_ms, end, now } => Seq::empty(),
            RtuEvent::PollFailed { error, now } => error,
            _ => last_failure(events.drop_last()),
        }
    }
}

/// When the last answered poll ended; 0 if none was answered.
pub open spec fn last_answer(events: Seq<RtuEvent>) -> u64
    decreases events.len(),
{
    if events.len() == 0 {
        0
    } else {
        match events.last() {
            RtuEvent::PollSucceeded { start_ms, end, now } => end,
            _ => last_answer(events.drop_last()),
        }
    }
}

/// When the online rule was last applied by a poll, that is when the last poll
/// ended.
pub open spec fn last_verdict(events: Seq<RtuEvent>) -> Option<u64>
    decreases events.len(),
{
    if events.len() == 0 {
        None
    } else {
        match events.last() {
            RtuEvent::PollSucceeded { start_ms, end, now } => Some(now),
            RtuEvent::PollFailed { error, now } => Some(now),
            _ => last_verdict(events.drop_last()),
        }
    }
}

/// A snapshot keeps the last error and the last answer of its history, and the
/// status that the last poll found when it ended.
pub proof fn law_status_follows_polls(
    id: Seq<char>,
    endpoint: Seq<char>,
    rtu_addr: u16,
    bi_count: nat,
    events: Seq<RtuEvent>,
    offline_after_ms: u64,
)
    ensures
        ({
            let s = replay(fresh(id, endpoint, rtu_addr, bi_count), events, offline_after_ms);
            &&& s.last_error == last_failure(events)
            &&& s.last_success_ms == last_answer(events)
            &&& s.online == match last_verdict(events) {
                Some(now) => online_at(last_answer(events), now, offline_after_ms),
                None => false,
            }
        }),
    decreases events.len(),
{
    if events.len() > 0 {
        law_status_follows_polls(
            id,
            endpoint,
            rtu_addr,
            bi_count,
            events.drop_last(),
            offline_after_ms,
        );
        if !(events.last() is PollSucceeded) && !(events.last() is PollFailed) {
            assert(last_verdict(events) == last_verdict(events.drop_last()));
        }
    }
}

/// Judged at any time, an RTU is online exactly if it has answered and its last
/// answer is no older than the window; how long its last poll has been hanging
/// makes no difference.
pub proof fn law_judged_status_is_current(
    id: Seq<char>,
    endpoint: Seq<char>,
    rtu_addr: u16,
    bi_count: nat,
    events: Seq<RtuEvent>,
    now: u64,
    offline_after_ms: u64,
)
    ensures
        judged_at(
            replay(fresh(id, endpoint, rtu_addr, bi_count), events, offline_after_ms),
            now,
            offline_after_ms,
        ).online <==> last_answer(events) != 0 && now <= last_answer(events) + offline_after_ms,
{
    law_status_follows_polls(id, endpoint, rtu_addr, bi_count, events, offline_after_ms);
}

/// An RTU that has never answered is offline.
pub proof fn law_never_answered_is_offline(
    id: Seq<char>,
    endpoint: Seq<char>,
    rtu_addr: u16,
    bi_count: nat,
    events: Seq<RtuEvent>,
    offline_after_ms: u64,
)
    requires
        successes(events) == 0,
    ensures
        !replay(fresh(id, endpoint, rtu_addr, bi_count), events, offline_after_ms).online,
{
    law_status_follows_polls(id, endpoint, rtu_addr, bi_count, events, offline_after_ms);
    lemma_no_success_no_answer(events);
}

/// Without an answered poll there is no last answer.
proof fn lemma_no_success_no_answer(events: Seq<RtuEvent>)
    requires
        successes(events) == 0,
    ensures
        last_answer(events) == 0,
    decreases events.len(),
{
    if events.len() > 0 {
        lemma_no_success_no_answer(events.drop_last());
    }
}

/// A snapshot shows the end and the round-trip time of the last answered poll of
/// its history; the round-trip time is the end minus the start, as far as 32 bits
/// hold it.
pub proof fn law_last_answered_poll_is_shown(
    s: SnapshotModel,
    events: Seq<RtuEvent>,
    offline_after_ms: u64,
    k: int,
    start_ms: u64,
    end: u64,
    now: u64,
)
    requires
        0 <= k < events.len(),
        events[k] == (RtuEvent::PollSucceeded { start_ms, end, now }),
        forall|j: int| k < j < events.len() ==> !((#[trigger] events[j]) is PollSucceeded),
    ensures
        replay(s, events, offline_after_ms).last_success_ms == end,
        start_ms <= end && end - start_ms < 0x1_0000_0000 ==> start_ms + replay(
            s,
            events,
            offline_after_ms,
        ).last_rtt_ms == end,
        end < start_ms ==> replay(s, events, offline_after_ms).last_rtt_ms == 0,
    decreases events.len(),
{
    let last = events.len() - 1;
    assert(events[last] == events.last());
    if k < last {
        assert(!(events[last] is PollSucceeded));
        let rest = events.drop_last();
        law_last_answered_poll_is_shown(s, rest, offline_after_ms, k, start_ms, end, now);
    } else {
        law_round_trip_is_end_minus_start(
            replay(s, events.drop_last(), offline_after_ms),
            start_ms,
            end,
            now,
            offline_after_ms,
        );
    }
}

/// Without an answered poll a snapshot keeps the round-trip time and the last
/// success that it had: 0 for a new one.
pub proof fn law_without_answer_no_round_trip(
    s: SnapshotModel,
    events: Seq<RtuEvent>,
    offline_after_ms: u64,
)
    requires
        forall|j: int| 0 <= j < events.len() ==> !((#[trigger] events[j]) is PollSucceeded),
    ensures
        replay(s, events, offline_after_ms).last_rtt_ms == s.last_rtt_ms,
        replay(s, events, offline_after_ms).last_success_ms == s.last_success_ms,
        replay(s, events, offline_after_ms).poll_ok_count == s.poll_ok_count,
    decreases events.len(),
{
    if events.len() > 0 {
        assert(events[events.len() - 1] == events.last());
        law_without_answer_no_round_trip(s, events.drop_last(), offline_after_ms);
    }
}

/// A snapshot shows when the last poll of its history was started.
pub proof fn law_last_started_poll_is_shown(
    s: SnapshotModel,
    events: Seq<RtuEvent>,
    offline_after_ms: u64,
    k: int,
    start_ms: u64,
)
    requires
        0 <= k < events.len(),
        events[k] == (RtuEvent::PollStarted { start_ms }),
        forall|j: int| k < j < events.len() ==> !((#[trigger] events[j]) is PollStarted),
    ensures
        replay(s, events, offline_after_ms).last_poll_ms == start_ms,
    decreases events.len(),
{
    let last = events.len() - 1;
    assert(events[last] == events.last());
    if k < last {
        assert(!(events[last] is PollStarted));
        law_last_started_poll_is_shown(s, events.drop_last(), offline_after_ms, k, start_ms);
    }
}

} // verus!
