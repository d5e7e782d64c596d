//! The snapshot that the master keeps of one RTU.

use crate::analog::AnalogValue;
use vstd::prelude::*;

verus! {

/// Telemetry and communication health of one RTU.
#[derive(Debug)]
pub struct RtuSnapshot {
    pub id: String,
    pub endpoint: String,
    /// DNP3 link address of the outstation.
    pub rtu_addr: u16,
    /// Binary inputs, by index.
    pub bi: Vec<bool>,
    /// Analog input 0.
    pub ai0: AnalogValue,
    /// Whether the last successful poll was recent enough when the status was
    /// last judged.
    pub online: bool,
    /// When telemetry last changed a value; 0 if it never did.
    pub last_update_ms: u64,
    /// When the last poll was started.
    pub last_poll_ms: u64,
    /// When the last successful poll ended; 0 if none has.
    pub last_success_ms: u64,
    /// Round-trip time of the last successful poll.
    pub last_rtt_ms: u32,
    /// Failed polls since the last successful one.
    pub consecutive_failures: u32,
    /// Successful polls in all.
    pub poll_ok_count: u64,
    /// Failed polls in all.
    pub poll_fail_count: u64,
    /// What the last poll failed with; empty after a successful one.
    pub last_error: String,
}

/// What a snapshot holds, with text as character sequences and the counters as
/// numbers without a bound.
#[verifier::ext_equal]
pub struct SnapshotModel {
    pub id: Seq<char>,
    pub endpoint: Seq<char>,
    pub rtu_addr: u16,
    pub bi: Seq<bool>,
    pub ai0: AnalogValue,
    pub online: bool,
    pub last_update_ms: u64,
    pub last_poll_ms: u64,
    pub last_success_ms: u64,
    pub last_rtt_ms: u32,
    pub consecutive_failures: nat,
    pub poll_ok_count: nat,
    pub poll_fail_count: nat,
    pub last_error: Seq<char>,
}

impl View for RtuSnapshot {
    type V = SnapshotModel;

    open spec fn view(&self) -> SnapshotModel {
        SnapshotModel {
            id: self.id@,
            endpoint: self.endpoint@,
            rtu_addr: self.rtu_addr,
            bi: self.bi@,
            ai0: self.ai0,
            online: self.online,
            last_update_ms: self.last_update_ms,
            last_poll_ms: self.last_poll_ms,
            last_success_ms: self.last_success_ms,
            last_rtt_ms: self.last_rtt_ms,
            consecutive_failures: self.consecutive_failures as nat,
            poll_ok_count: self.poll_ok_count as nat,
            poll_fail_count: self.poll_fail_count as nat,
            last_error: self.last_error@,
        }
    }
}

/// The snapshot of an RTU from which nothing has been heard.
pub open spec fn fresh(
    id: Seq<char>,
    endpoint: Seq<char>,
    rtu_addr: u16,
    bi_count: nat,
) -> SnapshotModel {
    SnapshotModel {
        id,
        endpoint,
        rtu_addr,
        bi: Seq::new(bi_count, |i: int| false),
        ai0: AnalogValue { bits: 0 },
        online: false,
        last_update_ms: 0,
        last_poll_ms: 0,
        last_success_ms: 0,
        last_rtt_ms: 0,
        consecutive_failures: 0,
        poll_ok_count: 0,
        poll_fail_count: 0,
        last_error: Seq::empty(),
    }
}

impl RtuSnapshot {
    /// The snapshot of an RTU before its first poll, with room for `bi_count`
    /// binary inputs.
    pub fn new(id: &str, endpoint: &str, rtu_addr: u16, bi_count: usize) -> (r: RtuSnapshot)
        ensures
            r@ == fresh(id@, endpoint@, rtu_addr, bi_count as nat),
    {
        RtuSnapshot {
            id: id.to_owned(),
            endpoint: endpoint.to_owned(),
            rtu_addr,
            bi: vec![false; bi_count],
            ai0: AnalogValue::zero(),
            online: false,
            last_update_ms: 0,
            last_poll_ms: 0,
            last_success_ms: 0,
            last_rtt_ms: 0,
            consecutive_failures: 0,
            poll_ok_count: 0,
            poll_fail_count: 0,
            last_error: String::new(),
        }
    }
}

impl Clone for RtuSnapshot {
    fn clone(&self) -> (r: RtuSnapshot)
        ensures
            r@ == self@,
    {
        let r = RtuSnapshot {
            id: self.id.clone(),
            endpoint: self.endpoint.clone(),
            rtu_addr: self.rtu_addr,
            bi: self.bi.clone(),
            ai0: self.ai0,
            online: self.online,
            last_update_ms: self.last_update_ms,
            last_poll_ms: self.last_poll_ms,
            last_success_ms: self.last_success_ms,
            last_rtt_ms: self.last_rtt_ms,
            consecutive_failures: self.consecutive_failures,
            poll_ok_count: self.poll_ok_count,
            poll_fail_count: self.poll_fail_count,
            last_error: self.last_error.clone(),
        };
        assert(r.bi@ =~= self.bi@);
        r
    }
}

/// What a snapshot is said to hold is what its fields hold.
pub proof fn law_model_shows_every_field(s: RtuSnapshot)
    ensures
        s@.id == s.id@,
        s@.endpoint == s.endpoint@,
        s@.rtu_addr == s.rtu_addr,
        s@.bi == s.bi@,
        s@.ai0 == s.ai0,
        s@.online == s.online,
        s@.last_update_ms == s.last_update_ms,
        s@.last_poll_ms == s.last_poll_ms,
        s@.last_success_ms == s.last_success_ms,
        s@.last_rtt_ms == s.last_rtt_ms,
        s@.consecutive_failures == s.consecutive_failures,
        s@.poll_ok_count == s.poll_ok_count,
        s@.poll_fail_count == s.poll_fail_count,
        s@.last_error == s.last_error@,
{
}

/// A new snapshot is that of the RTU it is made for, has as many binary inputs as
/// asked for, all off, and shows that nothing has been heard yet.
pub proof fn law_nothing_is_known_at_first(
    id: Seq<char>,
    endpoint: Seq<char>,
    rtu_addr: u16,
    bi_count: nat,
)
    ensures
        ({
            let s = fresh(id, endpoint, rtu_addr, bi_count);
            &&& s.id == id
            &&& s.endpoint == endpoint
            &&& s.rtu_addr == rtu_addr
            &&& s.bi.len() == bi_count
            &&& forall|i: int| 0 <= i < bi_count ==> !(#[trigger] s.bi[i])
            &&& s.ai0.bits == 0
            &&& !s.online
            &&& s.last_update_ms == 0
            &&& s.last_poll_ms == 0
            &&& s.last_success_ms == 0
            &&& s.last_rtt_ms == 0
            &&& s.consecutive_failures == 0
            &&& s.poll_ok_count == 0
            &&& s.poll_fail_count == 0
            &&& s.last_error.len() == 0
        }),
{
}

} // verus!
