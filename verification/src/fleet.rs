//! How the fleet is laid out on connections: RTUs that share an endpoint share
//! one connection, and their first polls are spread over one poll interval.

use crate::config::{ids_distinct, RtuConfig};
use crate::idmap::{keys_for, law_distinct_ids_all_get_entries};
use dnp3::link::EndpointAddress;
use vstd::arithmetic::div_mod::*;
use vstd::arithmetic::mul::*;
use vstd::prelude::*;
use vstd::seq_lib::lemma_multiset_commutative;

verus! {

/// The RTUs behind one endpoint.
#[derive(Debug)]
pub struct EndpointGroup {
    pub endpoint: String,
    pub rtus: Vec<RtuConfig>,
}

/// The endpoints of the RTUs, each once, in the order in which they first
/// occur.
pub open spec fn endpoints(rtus: Seq<RtuConfig>) -> Seq<Seq<char>>
    decreases rtus.len(),
{
    if rtus.len() == 0 {
        Seq::empty()
    } else {
        let earlier = endpoints(rtus.drop_last());
        let endpoint = rtus.last().endpoint@;
        if earlier.contains(endpoint) {
            earlier
        } else {
            earlier.push(endpoint)
        }
    }
}

/// Whether an RTU is behind `endpoint`.
pub open spec fn is_behind(endpoint: Seq<char>) -> spec_fn(RtuConfig) -> bool {
    |rtu: RtuConfig| rtu.endpoint@ == endpoint
}

/// The RTUs behind `endpoint`, in the order of the configuration.
pub open spec fn behind(rtus: Seq<RtuConfig>, endpoint: Seq<char>) -> Seq<RtuConfig> {
    rtus.filter(is_behind(endpoint))
}

/// Whether `groups` are the RTUs grouped by endpoint.
pub open spec fn grouped(groups: Seq<EndpointGroup>, rtus: Seq<RtuConfig>) -> bool {
    &&& groups.len() == endpoints(rtus).len()
    &&& forall|g: int|
        0 <= g < groups.len() ==> (#[trigger] groups[g]).endpoint@ == endpoints(rtus)[g]
            && groups[g].rtus@ == behind(rtus, endpoints(rtus)[g])
}

/// One more RTU joins the group of its endpoint and no other.
proof fn lemma_behind_push(rtus: Seq<RtuConfig>, rtu: RtuConfig, endpoint: Seq<char>)
    ensures
        behind(rtus.push(rtu), endpoint) == if rtu.endpoint@ == endpoint {
            behind(rtus, endpoint).push(rtu)
        } else {
            behind(rtus, endpoint)
        },
{
    reveal(Seq::filter);
    assert(rtus.push(rtu).drop_last() =~= rtus);
}

/// Nothing is behind an endpoint that does not occur.
proof fn lemma_behind_absent(rtus: Seq<RtuConfig>, endpoint: Seq<char>)
    requires
        !endpoints(rtus).contains(endpoint),
    ensures
        behind(rtus, endpoint) == Seq::<RtuConfig>::empty(),
    decreases rtus.len(),
{
    reveal(Seq::filter);
    if rtus.len() > 0 {
        let earlier = endpoints(rtus.drop_last());
        let last = rtus.last().endpoint@;
        if !earlier.contains(last) {
            assert(earlier.push(last)[earlier.len() as int] == last);
            assert forall|e: Seq<char>| earlier.contains(e) implies endpoints(rtus).contains(e) by {
                let k = earlier.index_of(e);
                assert(earlier.push(last)[k] == e);
            }
        }
        lemma_behind_absent(rtus.drop_last(), endpoint);
    }
}

/// The position of the group for `endpoint`, if there is one.
fn find_group(groups: &Vec<EndpointGroup>, endpoint: &String) -> (r: Option<usize>)
    ensures
        match r {
            Some(g) => g < groups@.len() && groups@[g as int].endpoint@ == endpoint@,
            None => forall|g: int|
                0 <= g < groups@.len() ==> (#[trigger] groups@[g]).endpoint@ != endpoint@,
        },
{
    let mut g: usize = 0;
    while g < groups.len()
        invariant
            g <= groups@.len(),
            forall|h: int| 0 <= h < g ==> (#[trigger] groups@[h]).endpoint@ != endpoint@,
        decreases groups@.len() - g,
    {
        if groups[g].endpoint == *endpoint {
            return Some(g);
        }
        g = g + 1;
    }
    None
}

/// Groups RTUs by endpoint: one group for each endpoint, in the order in which
/// the endpoints first occur, and in each group the RTUs in the order of the
/// configuration.
pub fn group_by_endpoint(rtus: &Vec<RtuConfig>) -> (r: Vec<EndpointGroup>)
    ensures
        grouped(r@, rtus@),
{
    let mut groups: Vec<EndpointGroup> = Vec::new();
    let mut i: usize = 0;
    while i < rtus.len()
        invariant
            i <= rtus@.len(),
            grouped(groups@, rtus@.take(i as int)),
        decreases rtus@.len() - i,
    {
        let rtu: RtuConfig = rtus[i].clone();
        let ghost before = groups@;
        let ghost seen = rtus@.take(i as int);
        proof {
            assert(rtus@.take(i + 1) =~= seen.push(rtu));
            assert(seen.push(rtu).drop_last() =~= seen);
            lemma_endpoints_distinct(seen);
            assert forall|e: Seq<char>| #[trigger]
                behind(seen.push(rtu), e) == if rtu.endpoint@ == e {
                    behind(seen, e).push(rtu)
                } else {
                    behind(seen, e)
                } by {
                lemma_behind_push(seen, rtu, e);
            }
        }
        match find_group(&groups, &rtu.endpoint) {
            Some(g) => {
                assert(endpoints(seen)[g as int] == rtu.endpoint@);
                groups[g].rtus.push(rtu);
            },
            None => {
                proof {
                    assert forall|e: int| 0 <= e < endpoints(seen).len() implies endpoints(seen)[e]
                        != rtu.endpoint@ by {
                        assert(before[e].endpoint@ == endpoints(seen)[e]);
                    }
                    lemma_behind_absent(seen, rtu.endpoint@);
                }
                let endpoint: String = rtu.endpoint.clone();
                let mut members: Vec<RtuConfig> = Vec::new();
                members.push(rtu);
                groups.push(EndpointGroup { endpoint, rtus: members });
            },
        }
        i = i + 1;
    }
    assert(rtus@.take(i as int) =~= rtus@);
    groups
}

/// No endpoint is listed twice.
proof fn lemma_endpoints_distinct(rtus: Seq<RtuConfig>)
    ensures
        endpoints(rtus).no_duplicates(),
    decreases rtus.len(),
{
    if rtus.len() > 0 {
        lemma_endpoints_distinct(rtus.drop_last());
    }
}

/// The endpoint of every RTU is listed.
proof fn lemma_endpoints_complete(rtus: Seq<RtuConfig>, i: int)
    requires
        0 <= i < rtus.len(),
    ensures
        endpoints(rtus).contains(rtus[i].endpoint@),
    decreases rtus.len(),
{
    let earlier = endpoints(rtus.drop_last());
    let last = rtus.last().endpoint@;
    if i < rtus.len() - 1 {
        lemma_endpoints_complete(rtus.drop_last(), i);
        let k = earlier.index_of(rtus[i].endpoint@);
        assert(earlier.push(last)[k] == rtus[i].endpoint@);
    } else {
        assert(earlier.push(last)[earlier.len() as int] == last);
    }
}

/// Two groups never have the same endpoint, so each endpoint is connected to
/// once.
pub proof fn law_one_group_per_endpoint(
    groups: Seq<EndpointGroup>,
    rtus: Seq<RtuConfig>,
    g: int,
    h: int,
)
    requires
        grouped(groups, rtus),
        0 <= g < h < groups.len(),
    ensures
        groups[g].endpoint@ != groups[h].endpoint@,
{
    lemma_endpoints_distinct(rtus);
}

/// Every RTU is in the group of its endpoint.
pub proof fn law_every_rtu_is_grouped(groups: Seq<EndpointGroup>, rtus: Seq<RtuConfig>, i: int)
    requires
        grouped(groups, rtus),
        0 <= i < rtus.len(),
    ensures
        exists|g: int|
            0 <= g < groups.len() && (#[trigger] groups[g]).endpoint@ == rtus[i].endpoint@
                && groups[g].rtus@.contains(rtus[i]),
{
    lemma_endpoints_complete(rtus, i);
    let g = endpoints(rtus).index_of(rtus[i].endpoint@);
    rtus.lemma_filter_contains(is_behind(endpoints(rtus)[g]), i);
    assert(groups[g].endpoint@ == rtus[i].endpoint@);
}

/// A group holds nothing but configured RTUs of its own endpoint.
pub proof fn law_groups_hold_only_their_rtus(
    groups: Seq<EndpointGroup>,
    rtus: Seq<RtuConfig>,
    g: int,
    k: int,
)
    requires
        grouped(groups, rtus),
        0 <= g < groups.len(),
        0 <= k < groups[g].rtus@.len(),
    ensures
        groups[g].rtus@[k].endpoint@ == groups[g].endpoint@,
        rtus.contains(groups[g].rtus@[k]),
{
    let p = is_behind(endpoints(rtus)[g]);
    rtus.lemma_filter_pred(p, k);
    rtus.lemma_filter_contains_rev(p, groups[g].rtus@[k]);
}

/// A group holds all RTUs of its endpoint, in the order of the configuration.
pub proof fn law_group_keeps_the_order(groups: Seq<EndpointGroup>, rtus: Seq<RtuConfig>, g: int)
    requires
        grouped(groups, rtus),
        0 <= g < groups.len(),
    ensures
        groups[g].rtus@ == rtus.filter(|rtu: RtuConfig| rtu.endpoint@ == groups[g].endpoint@),
{
    assert(is_behind(groups[g].endpoint@) =~= (|rtu: RtuConfig|
        rtu.endpoint@ == groups[g].endpoint@));
}

/// Every listed endpoint is that of some RTU.
proof fn lemma_endpoint_occurs(rtus: Seq<RtuConfig>, g: int) -> (i: int)
    requires
        0 <= g < endpoints(rtus).len(),
    ensures
        0 <= i < rtus.len(),
        rtus[i].endpoint@ == endpoints(rtus)[g],
    decreases rtus.len(),
{
    let earlier = rtus.drop_last();
    if g < endpoints(earlier).len() {
        lemma_endpoint_occurs(earlier, g)
    } else {
        rtus.len() - 1
    }
}

/// Endpoints are listed in the order in which they first occur.
proof fn lemma_endpoints_in_order(rtus: Seq<RtuConfig>, g: int, h: int, j: int) -> (i: int)
    requires
        0 <= g < h < endpoints(rtus).len(),
        0 <= j < rtus.len(),
        rtus[j].endpoint@ == endpoints(rtus)[h],
    ensures
        0 <= i < j,
        rtus[i].endpoint@ == endpoints(rtus)[g],
    decreases rtus.len(),
{
    let earlier = rtus.drop_last();
    if j < rtus.len() - 1 {
        lemma_endpoints_complete(earlier, j);
        lemma_endpoints_distinct(rtus);
        let k = endpoints(earlier).index_of(rtus[j].endpoint@);
        assert(endpoints(rtus)[k] == endpoints(rtus)[h]);
        lemma_endpoints_in_order(earlier, g, h, j)
    } else {
        lemma_endpoint_occurs(earlier, g)
    }
}

/// No group is empty, and a group comes before another exactly if the
/// configuration names its endpoint first.
pub proof fn law_groups_follow_the_configuration(
    groups: Seq<EndpointGroup>,
    rtus: Seq<RtuConfig>,
    g: int,
    h: int,
    j: int,
)
    requires
        grouped(groups, rtus),
        0 <= g < h < groups.len(),
        0 <= j < rtus.len(),
        rtus[j].endpoint@ == groups[h].endpoint@,
    ensures
        groups[g].rtus@.len() > 0,
        groups[h].rtus@.len() > 0,
        exists|i: int| 0 <= i < j && (#[trigger] rtus[i]).endpoint@ == groups[g].endpoint@,
{
    let i = lemma_endpoints_in_order(rtus, g, h, j);
    assert(rtus[i].endpoint@ == groups[g].endpoint@);
    rtus.lemma_filter_contains(is_behind(endpoints(rtus)[g]), i);
    rtus.lemma_filter_contains(is_behind(endpoints(rtus)[h]), j);
}

/// The RTUs of all groups, group by group.
pub open spec fn all_grouped(groups: Seq<EndpointGroup>) -> Seq<RtuConfig>
    decreases groups.len(),
{
    if groups.len() == 0 {
        Seq::empty()
    } else {
        all_grouped(groups.drop_last()) + groups.last().rtus@
    }
}

/// The RTUs behind some endpoints, endpoint by endpoint.
spec fn all_behind(rtus: Seq<RtuConfig>, es: Seq<Seq<char>>) -> Seq<RtuConfig>
    decreases es.len(),
{
    if es.len() == 0 {
        Seq::empty()
    } else {
        all_behind(rtus, es.drop_last()) + behind(rtus, es.last())
    }
}

/// One more RTU is behind exactly one of the listed endpoints, or none.
proof fn lemma_all_behind_push(rtus: Seq<RtuConfig>, rtu: RtuConfig, es: Seq<Seq<char>>)
    requires
        es.no_duplicates(),
    ensures
        all_behind(rtus.push(rtu), es).to_multiset() == if es.contains(rtu.endpoint@) {
            all_behind(rtus, es).to_multiset().insert(rtu)
        } else {
            all_behind(rtus, es).to_multiset()
        },
    decreases es.len(),
{
    broadcast use vstd::seq_lib::group_to_multiset_ensures;

    if es.len() > 0 {
        let front = es.drop_last();
        lemma_all_behind_push(rtus, rtu, front);
        lemma_behind_push(rtus, rtu, es.last());
        lemma_multiset_commutative(all_behind(rtus, front), behind(rtus, es.last()));
        lemma_multiset_commutative(
            all_behind(rtus.push(rtu), front),
            behind(rtus.push(rtu), es.last()),
        );
        if front.contains(rtu.endpoint@) {
            let j = front.index_of(rtu.endpoint@);
            assert(es[j] == rtu.endpoint@);
        } else if es.contains(rtu.endpoint@) {
            let k = es.index_of(rtu.endpoint@);
            if k < es.len() - 1 {
                assert(front[k] == rtu.endpoint@);
            }
        } else {
            assert(es[es.len() - 1] != rtu.endpoint@);
        }
        assert(all_behind(rtus.push(rtu), es).to_multiset() =~= if es.contains(rtu.endpoint@) {
            all_behind(rtus, es).to_multiset().insert(rtu)
        } else {
            all_behind(rtus, es).to_multiset()
        });
    }
}

/// Every RTU is behind one of the endpoints that the RTUs have.
proof fn lemma_all_behind_endpoints(rtus: Seq<RtuConfig>)
    ensures
        all_behind(rtus, endpoints(rtus)).to_multiset() == rtus.to_multiset(),
    decreases rtus.len(),
{
    broadcast use vstd::seq_lib::group_to_multiset_ensures;

    if rtus.len() > 0 {
        let earlier = rtus.drop_last();
        let rtu = rtus.last();
        lemma_all_behind_endpoints(earlier);
        lemma_endpoints_distinct(earlier);
        assert(earlier.push(rtu) =~= rtus);
        lemma_all_behind_push(earlier, rtu, endpoints(earlier));
        if !endpoints(earlier).contains(rtu.endpoint@) {
            assert(endpoints(rtus).drop_last() =~= endpoints(earlier));
            lemma_behind_push(earlier, rtu, rtu.endpoint@);
            lemma_behind_absent(earlier, rtu.endpoint@);
            assert(all_behind(rtus, endpoints(rtus)) =~= all_behind(rtus, endpoints(earlier)).push(
                rtu,
            ));
        }
    } else {
        assert(all_behind(rtus, endpoints(rtus)) =~= rtus);
    }
}

/// Going through the groups and going through the endpoints agree.
proof fn lemma_all_grouped(groups: Seq<EndpointGroup>, rtus: Seq<RtuConfig>, k: int)
    requires
        grouped(groups, rtus),
        0 <= k <= groups.len(),
    ensures
        all_grouped(groups.take(k)) == all_behind(rtus, endpoints(rtus).take(k)),
    decreases k,
{
    if k > 0 {
        lemma_all_grouped(groups, rtus, k - 1);
        assert(groups.take(k).drop_last() =~= groups.take(k - 1));
        assert(endpoints(rtus).take(k).drop_last() =~= endpoints(rtus).take(k - 1));
    }
}

/// The groups together hold the RTUs of the configuration, each as often as it
/// is configured.
pub proof fn law_no_rtu_is_lost_or_repeated(groups: Seq<EndpointGroup>, rtus: Seq<RtuConfig>)
    requires
        grouped(groups, rtus),
    ensures
        all_grouped(groups).to_multiset() == rtus.to_multiset(),
        all_grouped(groups).len() == rtus.len(),
{
    broadcast use vstd::seq_lib::group_to_multiset_ensures;

    lemma_all_behind_endpoints(rtus);
    lemma_all_grouped(groups, rtus, groups.len() as int);
    assert(groups.take(groups.len() as int) =~= groups);
    assert(endpoints(rtus).take(groups.len() as int) =~= endpoints(rtus));
    assert(all_grouped(groups).to_multiset().len() == rtus.to_multiset().len());
}

/// The ids of RTUs, in order.
pub open spec fn ids_of(rtus: Seq<RtuConfig>) -> Seq<Seq<char>> {
    rtus.map_values(|rtu: RtuConfig| rtu.id@)
}

/// The same RTUs in another order have the same ids.
proof fn lemma_ids_of_same_rtus(a: Seq<RtuConfig>, b: Seq<RtuConfig>)
    requires
        a.to_multiset() == b.to_multiset(),
    ensures
        ids_of(a).to_multiset() == ids_of(b).to_multiset(),
    decreases a.len(),
{
    broadcast use vstd::seq_lib::group_to_multiset_ensures;

    assert(a.len() == a.to_multiset().len());
    assert(b.len() == b.to_multiset().len());
    if a.len() == 0 {
        assert(ids_of(a) =~= ids_of(b));
    } else {
        let rtu = a.last();
        let front = a.drop_last();
        assert(front.push(rtu) =~= a);
        assert(a.contains(rtu)) by {
            assert(a[a.len() - 1] == rtu);
        }
        assert(a.to_multiset().count(rtu) > 0);
        assert(b.contains(rtu)) by {
            assert(b.to_multiset().count(rtu) > 0);
        }
        let k = b.index_of(rtu);
        let rest = b.remove(k);
        assert(front.to_multiset() =~= rest.to_multiset());
        lemma_ids_of_same_rtus(front, rest);
        assert(ids_of(a) =~= ids_of(front).push(rtu.id@));
        assert(ids_of(rest) =~= ids_of(b).remove(k));
        assert(ids_of(b)[k] == rtu.id@);
        assert(ids_of(b).contains(rtu.id@));
        assert(ids_of(a).to_multiset() =~= ids_of(b).to_multiset());
    }
}

/// If the ids of a configuration all differ, so do the ids of all groups, gone
/// through in order; they are exactly the configured ones, and each gets an entry
/// of its own in a map that is filled in that order.
pub proof fn law_grouped_ids_are_distinct(groups: Seq<EndpointGroup>, rtus: Seq<RtuConfig>)
    requires
        grouped(groups, rtus),
        ids_distinct(rtus),
    ensures
        ids_of(all_grouped(groups)).no_duplicates(),
        ids_of(all_grouped(groups)).to_multiset() == ids_of(rtus).to_multiset(),
        keys_for(ids_of(all_grouped(groups))) == ids_of(all_grouped(groups)),
{
    law_no_rtu_is_lost_or_repeated(groups, rtus);
    lemma_ids_of_same_rtus(all_grouped(groups), rtus);
    let ids = ids_of(rtus);
    assert forall|i: int, j: int| 0 <= i < j < ids.len() implies ids[i] != ids[j] by {
        assert(rtus[i].id@ != rtus[j].id@);
    }
    assert(ids.no_duplicates());
    ids.lemma_multiset_has_no_duplicates();
    ids_of(all_grouped(groups)).lemma_multiset_has_no_duplicates_conv();
    law_distinct_ids_all_get_entries(ids_of(all_grouped(groups)));
}

/// When association `i` of `n` on one connection is first polled, counted from
/// the moment the connection is set up: the polls are spread over `window`.
pub open spec fn stagger(window: u64, i: int, n: int) -> int {
    if n > 1 {
        (window * i) / n
    } else {
        0
    }
}

/// Computes when association `i` of `n` on one connection is first polled.
pub fn stagger_ms(window: u64, i: usize, n: usize) -> (r: u64)
    requires
        i < n,
    ensures
        r == stagger(window, i as int, n as int),
{
    if n > 1 {
        proof {
            law_stagger_within_window(window, i as int, n as int);
            lemma_mul_upper_bound(window as int, u64::MAX as int, i as int, usize::MAX as int);
        }
        ((window as u128 * i as u128) / n as u128) as u64
    } else {
        0
    }
}

/// A first poll falls into the window, at its start for the first association.
pub proof fn law_stagger_within_window(window: u64, i: int, n: int)
    requires
        0 <= i < n,
    ensures
        0 <= stagger(window, i, n) <= window,
        window > 0 ==> stagger(window, i, n) < window,
        stagger(window, 0, n) == 0,
{
    if n > 1 {
        let w = window as int;
        assert(w * i >= 0) by (nonlinear_arith)
            requires
                w >= 0,
                i >= 0,
        ;
        assert(w * i <= w * n) by (nonlinear_arith)
            requires
                w >= 0,
                i < n,
        ;
        assert(w > 0 ==> w * i < w * n) by (nonlinear_arith)
            requires
                w >= 0,
                i < n,
        ;
        lemma_div_pos_is_pos(w * i, n);
        lemma_div_multiples_vanish(w, n);
        lemma_mul_is_commutative(w, n);
        lemma_div_is_ordered(w * i, w * n, n);
        if w > 0 {
            lemma_multiply_divide_lt(w * i, n, w);
        }
        assert(w * 0 == 0);
        lemma_div_basics(n);
    }
}

/// The first polls are spread evenly: two neighbours are `window / n` apart,
/// or a millisecond more where `n` does not divide the window.
pub proof fn law_stagger_is_even(window: u64, i: int, n: int)
    requires
        1 < n,
        0 <= i,
        i + 1 < n,
    ensures
        window as int / n <= stagger(window, i + 1, n) - stagger(window, i, n) <= window as int / n
            + 1,
        window as int % n == 0 ==> stagger(window, i + 1, n) - stagger(window, i, n)
            == window as int / n,
{
    let w = window as int;
    lemma_fundamental_div_mod(w, n);
    lemma_fundamental_div_mod(w * i, n);
    lemma_fundamental_div_mod(w * (i + 1), n);
    lemma_mod_bound(w, n);
    lemma_mod_bound(w * i, n);
    lemma_mod_bound(w * (i + 1), n);
    let q = w / n;
    let a = (w * i) / n;
    let b = (w * (i + 1)) / n;
    assert(w * (i + 1) == w * i + w) by (nonlinear_arith);
    assert(n * (b - a - q) == n * b - n * a - n * q) by (nonlinear_arith);
    if w % n == 0 {
        assert(b - a - q < 1) by (nonlinear_arith)
            requires
                n > 1,
                n * (b - a - q) < n,
        ;
    }
    // n * (b - a - q) = w % n + (w * i) % n - (w * (i + 1)) % n lies strictly
    // between -n and 2 * n.
    assert(-1 < b - a - q < 2) by (nonlinear_arith)
        requires
            n > 1,
            -n < n * (b - a - q) < 2 * n,
    ;
}

/// A first poll comes after `i` parts of `n` of the window, rounded down to whole
/// milliseconds; an RTU that is alone on its connection does not wait.
pub proof fn law_stagger_is_its_share(window: u64, i: int, n: int)
    requires
        0 <= i < n,
    ensures
        n > 1 ==> n * stagger(window, i, n) <= window * i < n * stagger(window, i, n) + n,
        n == 1 ==> stagger(window, i, n) == 0,
{
    if n > 1 {
        let w = window as int;
        lemma_fundamental_div_mod(w * i, n);
        lemma_mod_bound(w * i, n);
    }
}

/// A link address that no outstation or master may use.
#[derive(Clone, Copy, Debug, PartialEq, Eq, Structural)]
pub struct AddressError {
    pub address: u16,
}

/// The first of the link addresses that DNP3 keeps for special purposes.
pub const FIRST_SPECIAL_ADDRESS: u16 = 0xFFF0;

/// Calls `dnp3::link::EndpointAddress::try_new` and takes the raw address out
/// of what it gives. It accepts every address below the special ones, and gives
/// back the address that it was asked for, accepted or not.
#[verifier::external_body]
fn endpoint_address(raw: u16) -> (r: Result<u16, u16>)
    ensures
        r == if raw < FIRST_SPECIAL_ADDRESS {
            Ok::<u16, u16>(raw)
        } else {
            Err::<u16, u16>(raw)
        },
{
    match EndpointAddress::try_new(raw) {
        Ok(address) => Ok(address.raw_value()),
        Err(special) => Err(special.address),
    }
}

/// One RTU's place on a connection.
#[derive(Debug)]
pub struct AssociationPlan {
    pub rtu: RtuConfig,
    /// Wait before the first poll.
    pub stagger_ms: u64,
    /// Time between two polls.
    pub period_ms: u64,
}

/// One connection and the RTUs on it.
#[derive(Debug)]
pub struct ChannelPlan {
    pub endpoint: String,
    pub master_addr: u16,
    pub associations: Vec<AssociationPlan>,
}

/// The link addresses used on a connection: the master's, and then those of the
/// RTUs.
pub open spec fn addresses_used(master_addr: u16, rtus: Seq<RtuConfig>) -> Seq<u16> {
    seq![master_addr] + rtus.map_values(|rtu: RtuConfig| rtu.rtu_addr)
}

/// Whether position `i` is the first that holds a special address.
pub open spec fn first_special(addresses: Seq<u16>, i: int) -> bool {
    &&& 0 <= i < addresses.len()
    &&& addresses[i] >= FIRST_SPECIAL_ADDRESS
    &&& forall|j: int| 0 <= j < i ==> #[trigger] addresses[j] < FIRST_SPECIAL_ADDRESS
}

/// Whether RTU `i` of a connection has the place that it should.
pub open spec fn association_planned(
    a: AssociationPlan,
    rtus: Seq<RtuConfig>,
    fleet_ms: u64,
    i: int,
) -> bool {
    &&& a.rtu == rtus[i]
    &&& a.stagger_ms == stagger(fleet_ms, i, rtus.len() as int)
    &&& a.period_ms == rtus[i].spec_poll_interval(fleet_ms)
}

/// Plans the connection to one endpoint in a fleet that polls every
/// `fleet_ms`, unless an address on it is special.
pub fn plan_channel(master_addr: u16, fleet_ms: u64, group: &EndpointGroup) -> (r: Result<
    ChannelPlan,
    AddressError,
>)
    ensures
        match r {
            Ok(plan) => {
                &&& plan.endpoint@ == group.endpoint@
                &&& plan.master_addr == master_addr
                &&& plan.associations@.len() == group.rtus@.len()
                &&& forall|i: int|
                    0 <= i < group.rtus@.len() ==> association_planned(
                        #[trigger] plan.associations@[i],
                        group.rtus@,
                        fleet_ms,
                        i,
                    )
                &&& forall|i: int|
                    0 <= i < addresses_used(master_addr, group.rtus@).len()
                        ==> #[trigger] addresses_used(master_addr, group.rtus@)[i]
                        < FIRST_SPECIAL_ADDRESS
            },
            Err(e) => exists|i: int| #[trigger]
                first_special(addresses_used(master_addr, group.rtus@), i) && e.address
                    == addresses_used(master_addr, group.rtus@)[i],
        },
{
    let ghost used = addresses_used(master_addr, group.rtus@);
    let master: u16 = match endpoint_address(master_addr) {
        Ok(address) => address,
        Err(address) => {
            assert(first_special(used, 0));
            return Err(AddressError { address });
        },
    };
    let n: usize = group.rtus.len();
    let mut associations: Vec<AssociationPlan> = Vec::new();
    let mut i: usize = 0;
    while i < n
        invariant
            i <= n,
            n == group.rtus@.len(),
            used == addresses_used(master_addr, group.rtus@),
            associations@.len() == i,
            forall|j: int|
                0 <= j < i ==> association_planned(
                    #[trigger] associations@[j],
                    group.rtus@,
                    fleet_ms,
                    j,
                ),
            forall|j: int| 0 <= j <= i ==> #[trigger] used[j] < FIRST_SPECIAL_ADDRESS,
        decreases n - i,
    {
        assert(used[i + 1] == group.rtus@[i as int].rtu_addr);
        match endpoint_address(group.rtus[i].rtu_addr) {
            Ok(_) => {
                let rtu: RtuConfig = group.rtus[i].clone();
                let period_ms: u64 = rtu.poll_interval(fleet_ms);
                associations.push(
                    AssociationPlan { rtu, stagger_ms: stagger_ms(fleet_ms, i, n), period_ms },
                );
            },
            Err(address) => {
                assert(first_special(used, i + 1));
                return Err(AddressError { address });
            },
        }
        i = i + 1;
    }
    Ok(ChannelPlan { endpoint: group.endpoint.clone(), master_addr: master, associations })
}

/// The place planned for RTU `i` of a connection is that of this very RTU. It is
/// polled at its own interval, or the fleet's if it has none, for the first time
/// after its share of the fleet's interval.
pub proof fn law_plan_suits_its_rtu(
    a: AssociationPlan,
    rtus: Seq<RtuConfig>,
    fleet_ms: u64,
    i: int,
)
    requires
        0 <= i < rtus.len(),
        association_planned(a, rtus, fleet_ms, i),
    ensures
        a.rtu == rtus[i],
        rtus[i].poll_interval_ms matches Some(ms) ==> a.period_ms == ms,
        rtus[i].poll_interval_ms is None ==> a.period_ms == fleet_ms,
        rtus.len() > 1 ==> rtus.len() * a.stagger_ms <= fleet_ms * i < rtus.len() * a.stagger_ms
            + rtus.len(),
        rtus.len() == 1 ==> a.stagger_ms == 0,
{
    law_stagger_is_its_share(fleet_ms, i, rtus.len() as int);
}

/// On a connection are used the address of the master and those of all RTUs. None
/// is special exactly if all are below 0xFFF0; the first special one is the
/// master's, or else that of the first RTU that has one.
pub proof fn law_special_addresses_start_at_fff0(master_addr: u16, rtus: Seq<RtuConfig>, i: int)
    ensures
        ({
            let used = addresses_used(master_addr, rtus);
            &&& (forall|k: int|
                0 <= k < used.len() ==> #[trigger] used[k] < FIRST_SPECIAL_ADDRESS) <==> (
            master_addr < 0xFFF0 && forall|k: int|
                0 <= k < rtus.len() ==> (#[trigger] rtus[k]).rtu_addr < 0xFFF0)
            &&& first_special(used, 0) <==> master_addr >= 0xFFF0
            &&& 0 <= i < rtus.len() ==> (first_special(used, i + 1) <==> master_addr < 0xFFF0
                && rtus[i].rtu_addr >= 0xFFF0 && forall|k: int|
                0 <= k < i ==> (#[trigger] rtus[k]).rtu_addr < 0xFFF0)
            &&& used.len() == rtus.len() + 1
            &&& used[0] == master_addr
            &&& 0 <= i < rtus.len() ==> used[i + 1] == rtus[i].rtu_addr
        }),
{
    let used = addresses_used(master_addr, rtus);
    assert(used.len() == rtus.len() + 1);
    assert(used[0] == master_addr);
    assert(forall|k: int| 0 <= k < rtus.len() ==> (#[trigger] rtus[k]).rtu_addr == used[k + 1]);
    assert(forall|k: int| 1 <= k < used.len() ==> #[trigger] used[k] == rtus[k - 1].rtu_addr);
}

} // verus!
