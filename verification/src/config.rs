//! The fleet configuration: which RTUs to poll, and how.

use crate::clock::OFFLINE_AFTER_MS;
use crate::master::model::{fresh, RtuSnapshot};
use vstd::prelude::*;

verus! {

/// Link address of the master, unless the configuration gives one.
pub const DEFAULT_MASTER_ADDR: u16 = 1;

/// Time between two polls of an RTU, unless the configuration gives one.
pub const POLL_INTERVAL_MS: u64 = 1_000;

/// Number of binary inputs of an RTU that does not give one.
pub fn default_bi_count() -> (r: usize)
    ensures
        r == 3,
{
    3
}

/// One RTU of the fleet.
#[derive(Debug)]
pub struct RtuConfig {
    /// Name of the RTU; no two RTUs share one.
    pub id: String,
    /// TCP endpoint of the outstation. RTUs that share one share a connection.
    pub endpoint: String,
    /// DNP3 link address of the outstation.
    pub rtu_addr: u16,
    /// Number of binary inputs kept; readings beyond it are ignored.
    pub bi_count: usize,
    /// Time between two polls, if it differs from the fleet's.
    pub poll_interval_ms: Option<u64>,
}

/// The whole configuration.
#[derive(Debug)]
pub struct RtusFile {
    /// Link address of the master.
    pub master_addr: Option<u16>,
    /// Time between two polls of an RTU.
    pub poll_interval_ms: Option<u64>,
    /// Time without a successful poll after which an RTU is offline.
    pub offline_after_ms: Option<u64>,
    pub rtu: Vec<RtuConfig>,
}

/// Why a configuration is refused.
#[derive(Debug)]
pub enum ConfigError {
    /// Two RTUs have this id.
    DuplicateId(String),
    /// The RTU with this id keeps no binary inputs.
    ZeroBiCount(String),
}

/// Whether the id of RTU `i` is taken by an earlier one.
pub open spec fn id_taken(rtus: Seq<RtuConfig>, i: int) -> bool {
    exists|j: int| 0 <= j < i && #[trigger] rtus[j].id@ == rtus[i].id@
}

/// What is wrong with RTU `i`, if anything: a taken id comes before a missing
/// binary input.
pub open spec fn defect(rtus: Seq<RtuConfig>, i: int) -> Option<ConfigError> {
    if id_taken(rtus, i) {
        Some(ConfigError::DuplicateId(rtus[i].id))
    } else if rtus[i].bi_count == 0 {
        Some(ConfigError::ZeroBiCount(rtus[i].id))
    } else {
        None
    }
}

/// Whether the ids of all RTUs differ.
pub open spec fn ids_distinct(rtus: Seq<RtuConfig>) -> bool {
    forall|i: int, j: int|
        0 <= i < j < rtus.len() ==> #[trigger] rtus[i].id@ != #[trigger] rtus[j].id@
}

/// Whether every RTU keeps at least one binary input.
pub open spec fn bi_counts_positive(rtus: Seq<RtuConfig>) -> bool {
    forall|i: int| 0 <= i < rtus.len() ==> (#[trigger] rtus[i]).bi_count > 0
}

/// Decides whether the id of RTU `i` is taken by an earlier one.
fn is_id_taken(rtus: &Vec<RtuConfig>, i: usize) -> (r: bool)
    requires
        i < rtus@.len(),
    ensures
        r == id_taken(rtus@, i as int),
{
    let mut j: usize = 0;
    while j < i
        invariant
            j <= i < rtus@.len(),
            forall|k: int| 0 <= k < j ==> #[trigger] rtus@[k].id@ != rtus@[i as int].id@,
        decreases i - j,
    {
        if rtus[j].id == rtus[i].id {
            assert(rtus@[j as int].id@ == rtus@[i as int].id@);
            return true;
        }
        j = j + 1;
    }
    false
}

impl RtusFile {
    /// The link address of the master.
    pub open spec fn spec_master_address(self) -> u16 {
        match self.master_addr {
            Some(addr) => addr,
            None => DEFAULT_MASTER_ADDR,
        }
    }

    /// The link address of the master.
    pub fn master_address(&self) -> (r: u16)
        ensures
            r == self.spec_master_address(),
    {
        match self.master_addr {
            Some(addr) => addr,
            None => DEFAULT_MASTER_ADDR,
        }
    }

    /// The time between two polls of an RTU that does not give one.
    pub open spec fn spec_poll_interval(self) -> u64 {
        match self.poll_interval_ms {
            Some(ms) => ms,
            None => POLL_INTERVAL_MS,
        }
    }

    /// The time between two polls of an RTU that does not give one.
    pub fn poll_interval(&self) -> (r: u64)
        ensures
            r == self.spec_poll_interval(),
    {
        match self.poll_interval_ms {
            Some(ms) => ms,
            None => POLL_INTERVAL_MS,
        }
    }

    /// The time without a successful poll after which an RTU is offline.
    pub open spec fn spec_offline_after(self) -> u64 {
        match self.offline_after_ms {
            Some(ms) => ms,
            None => OFFLINE_AFTER_MS,
        }
    }

    /// The time without a successful poll after which an RTU is offline.
    pub fn offline_after(&self) -> (r: u64)
        ensures
            r == self.spec_offline_after(),
    {
        match self.offline_after_ms {
            Some(ms) => ms,
            None => OFFLINE_AFTER_MS,
        }
    }

    /// Checks the configuration, and gives the defect of the first RTU that has
    /// one.
    pub fn validate(&self) -> (r: Result<(), ConfigError>)
        ensures
            match r {
                Ok(_) => forall|i: int|
                    0 <= i < self.rtu@.len() ==> #[trigger] defect(self.rtu@, i) is None,
                Err(e) => exists|i: int|
                    0 <= i < self.rtu@.len() && #[trigger] defect(self.rtu@, i) == Some(e) && (
                    forall|j: int| 0 <= j < i ==> #[trigger] defect(self.rtu@, j) is None),
            },
            r is Ok <==> ids_distinct(self.rtu@) && bi_counts_positive(self.rtu@),
    {
        let mut i: usize = 0;
        while i < self.rtu.len()
            invariant
                i <= self.rtu@.len(),
                forall|j: int| 0 <= j < i ==> #[trigger] defect(self.rtu@, j) is None,
            decreases self.rtu@.len() - i,
        {
            if is_id_taken(&self.rtu, i) {
                assert(defect(self.rtu@, i as int) is Some);
                proof {
                    lemma_sound_iff_no_defect(self.rtu@);
                }
                return Err(ConfigError::DuplicateId(self.rtu[i].id.clone()));
            }
            if self.rtu[i].bi_count == 0 {
                assert(defect(self.rtu@, i as int) is Some);
                proof {
                    lemma_sound_iff_no_defect(self.rtu@);
                }
                return Err(ConfigError::ZeroBiCount(self.rtu[i].id.clone()));
            }
            i = i + 1;
        }
        proof {
            lemma_sound_iff_no_defect(self.rtu@);
        }
        Ok(())
    }
}

/// No RTU has a defect exactly when all ids differ and every RTU keeps a binary
/// input.
proof fn lemma_sound_iff_no_defect(rtus: Seq<RtuConfig>)
    ensures
        (forall|i: int| 0 <= i < rtus.len() ==> #[trigger] defect(rtus, i) is None) <==> (
        ids_distinct(rtus) && bi_counts_positive(rtus)),
{
    if forall|i: int| 0 <= i < rtus.len() ==> #[trigger] defect(rtus, i) is None {
        assert forall|i: int, j: int| 0 <= i < j < rtus.len() implies #[trigger] rtus[i].id@
            != #[trigger] rtus[j].id@ by {
            assert(defect(rtus, j) is None);
        }
        assert forall|i: int| 0 <= i < rtus.len() implies (#[trigger] rtus[i]).bi_count > 0 by {
            assert(defect(rtus, i) is None);
        }
    }
}

impl RtuConfig {
    /// The time between two polls of this RTU in a fleet that polls every
    /// `fleet_ms`.
    pub open spec fn spec_poll_interval(self, fleet_ms: u64) -> u64 {
        match self.poll_interval_ms {
            Some(ms) => ms,
            None => fleet_ms,
        }
    }

    /// The time between two polls of this RTU in a fleet that polls every
    /// `fleet_ms`.
    pub fn poll_interval(&self, fleet_ms: u64) -> (r: u64)
        ensures
            r == self.spec_poll_interval(fleet_ms),
    {
        match self.poll_interval_ms {
            Some(ms) => ms,
            None => fleet_ms,
        }
    }

    /// The snapshot of this RTU before its first poll.
    pub fn snapshot(&self) -> (r: RtuSnapshot)
        ensures
            r@ == fresh(self.id@, self.endpoint@, self.rtu_addr, self.bi_count as nat),
    {
        RtuSnapshot::new(self.id.as_str(), self.endpoint.as_str(), self.rtu_addr, self.bi_count)
    }
}

impl Clone for RtuConfig {
    fn clone(&self) -> (r: RtuConfig)
        ensures
            r == *self,
    {
        RtuConfig {
            id: self.id.clone(),
            endpoint: self.endpoint.clone(),
            rtu_addr: self.rtu_addr,
            bi_count: self.bi_count,
            poll_interval_ms: self.poll_interval_ms,
        }
    }
}

impl ConfigError {
    /// What an operator is told of this error in the file `path`.
    pub open spec fn text(self, path: Seq<char>) -> Seq<char> {
        match self {
            ConfigError::DuplicateId(id) => "duplicate RTU id in "@ + path + ": "@ + id@,
            ConfigError::ZeroBiCount(id) => "RTU "@ + id@ + " has bi_count = 0"@,
        }
    }

    /// What an operator is told of this error in the file `path`.
    pub fn message(&self, path: &str) -> (r: String)
        ensures
            r@ == self.text(path@),
    {
        match self {
            ConfigError::DuplicateId(id) => "duplicate RTU id in ".to_owned().concat(path).concat(
                ": ",
            ).concat(id.as_str()),
            ConfigError::ZeroBiCount(id) => "RTU ".to_owned().concat(id.as_str()).concat(
                " has bi_count = 0",
            ),
        }
    }
}

/// A value that the configuration gives is used. Without one the master has the
/// link address 1, RTUs are polled every second, and they are offline after ten
/// seconds.
pub proof fn law_given_values_replace_defaults(file: RtusFile, rtu: RtuConfig, fleet_ms: u64)
    ensures
        file.master_addr matches Some(addr) ==> file.spec_master_address() == addr,
        file.master_addr is None ==> file.spec_master_address() == 1,
        file.poll_interval_ms matches Some(ms) ==> file.spec_poll_interval() == ms,
        file.poll_interval_ms is None ==> file.spec_poll_interval() == 1_000,
        file.offline_after_ms matches Some(ms) ==> file.spec_offline_after() == ms,
        file.offline_after_ms is None ==> file.spec_offline_after() == 10_000,
        rtu.poll_interval_ms matches Some(ms) ==> rtu.spec_poll_interval(fleet_ms) == ms,
        rtu.poll_interval_ms is None ==> rtu.spec_poll_interval(fleet_ms) == fleet_ms,
{
}

/// An RTU is refused exactly if an earlier one has its id, or else if it keeps no
/// binary input; the defect tells which, and names it.
pub proof fn law_defect_tells_what_is_wrong(rtus: Seq<RtuConfig>, i: int)
    ensures
        (exists|j: int| 0 <= j < i && #[trigger] rtus[j].id@ == rtus[i].id@) ==> defect(rtus, i)
            == Some(ConfigError::DuplicateId(rtus[i].id)),
        (forall|j: int| 0 <= j < i ==> #[trigger] rtus[j].id@ != rtus[i].id@) && rtus[i].bi_count
            == 0 ==> defect(rtus, i) == Some(ConfigError::ZeroBiCount(rtus[i].id)),
        (forall|j: int| 0 <= j < i ==> #[trigger] rtus[j].id@ != rtus[i].id@) && rtus[i].bi_count
            > 0 ==> defect(rtus, i) is None,
{
}

/// A configuration is sound exactly if no id occurs twice and no RTU is without a
/// binary input.
pub proof fn law_sound_configuration(rtus: Seq<RtuConfig>)
    ensures
        ids_distinct(rtus) <==> rtus.map_values(|rtu: RtuConfig| rtu.id@).no_duplicates(),
        bi_counts_positive(rtus) <==> !exists|i: int|
            0 <= i < rtus.len() && (#[trigger] rtus[i]).bi_count == 0,
{
    let ids = rtus.map_values(|rtu: RtuConfig| rtu.id@);
    if ids.no_duplicates() {
        assert forall|i: int, j: int| 0 <= i < j < rtus.len() implies #[trigger] rtus[i].id@
            != #[trigger] rtus[j].id@ by {
            assert(ids[i] != ids[j]);
        }
    }
    if ids_distinct(rtus) {
        assert forall|i: int, j: int|
            0 <= i < ids.len() && 0 <= j < ids.len() && i != j implies ids[i] != ids[j] by {
            if i < j {
                assert(rtus[i].id@ != rtus[j].id@);
            } else {
                assert(rtus[j].id@ != rtus[i].id@);
            }
        }
    }
}

/// An operator is told the id at fault, and for an id that occurs twice also the
/// file.
pub proof fn law_error_names_the_rtu(id: String, path: Seq<char>)
    ensures
        ConfigError::DuplicateId(id).text(path) == "duplicate RTU id in "@ + path + ": "@ + id@,
        ConfigError::ZeroBiCount(id).text(path) == "RTU "@ + id@ + " has bi_count = 0"@,
{
}

} // verus!
