//! The health of the whole fleet.

use crate::clock::{is_online_at, online_at};
use crate::master::model::{RtuSnapshot, SnapshotModel};
use vstd::prelude::*;
use vstd::utf8::*;

verus! {

/// The health of one RTU.
#[derive(Debug)]
pub struct HealthEntry {
    pub id: String,
    pub rtu_addr: u16,
    pub online: bool,
    pub last_success_ms: u64,
    pub consecutive_failures: u32,
}

/// The health of the fleet.
#[derive(Debug)]
pub struct Health {
    pub total: usize,
    pub online: usize,
    pub offline: usize,
    pub rtus: Vec<HealthEntry>,
}

/// What a health entry holds.
#[verifier::ext_equal]
pub struct EntryModel {
    pub id: Seq<char>,
    pub rtu_addr: u16,
    pub online: bool,
    pub last_success_ms: u64,
    pub consecutive_failures: nat,
}

impl View for HealthEntry {
    type V = EntryModel;

    open spec fn view(&self) -> EntryModel {
        EntryModel {
            id: self.id@,
            rtu_addr: self.rtu_addr,
            online: self.online,
            last_success_ms: self.last_success_ms,
            consecutive_failures: self.consecutive_failures as nat,
        }
    }
}

/// The health, at `now`, of the RTU that a snapshot is of.
pub open spec fn entry_of(s: SnapshotModel, now: u64, offline_after_ms: u64) -> EntryModel {
    EntryModel {
        id: s.id,
        rtu_addr: s.rtu_addr,
        online: online_at(s.last_success_ms, now, offline_after_ms),
        last_success_ms: s.last_success_ms,
        consecutive_failures: s.consecutive_failures,
    }
}

/// Whether one byte string comes before another: byte by byte, and a prefix
/// before what it is a prefix of.
pub open spec fn bytes_before(a: Seq<u8>, b: Seq<u8>) -> bool
    decreases a.len(),
{
    if b.len() == 0 {
        false
    } else if a.len() == 0 {
        true
    } else if a[0] != b[0] {
        a[0] < b[0]
    } else {
        bytes_before(a.skip(1), b.skip(1))
    }
}

/// Whether one text comes before another in the order of their UTF-8 bytes.
pub open spec fn comes_before(a: Seq<char>, b: Seq<char>) -> bool {
    bytes_before(encode_utf8(a), encode_utf8(b))
}

/// Decides whether one text comes before another.
pub fn is_before(a: &String, b: &String) -> (r: bool)
    ensures
        r == comes_before(a@, b@),
{
    let x = a.as_str().as_bytes();
    let y = b.as_str().as_bytes();
    let mut i: usize = 0;
    assert(x@.skip(0) =~= x@);
    assert(y@.skip(0) =~= y@);
    while i < x.len() && i < y.len()
        invariant
            i <= x@.len(),
            i <= y@.len(),
            x@ == encode_utf8(a@),
            y@ == encode_utf8(b@),
            bytes_before(x@, y@) == bytes_before(x@.skip(i as int), y@.skip(i as int)),
        decreases x@.len() - i,
    {
        if x[i] != y[i] {
            return x[i] < y[i];
        }
        proof {
            assert(x@.skip(i as int).skip(1) =~= x@.skip(i + 1));
            assert(y@.skip(i as int).skip(1) =~= y@.skip(i + 1));
        }
        i = i + 1;
    }
    i < y.len()
}

/// Nothing comes before itself.
proof fn lemma_bytes_irreflexive(a: Seq<u8>)
    ensures
        !bytes_before(a, a),
    decreases a.len(),
{
    if a.len() > 0 {
        lemma_bytes_irreflexive(a.skip(1));
    }
}

/// The order of byte strings is transitive.
proof fn lemma_bytes_transitive(a: Seq<u8>, b: Seq<u8>, c: Seq<u8>)
    requires
        bytes_before(a, b),
        bytes_before(b, c),
    ensures
        bytes_before(a, c),
    decreases a.len(),
{
    if a.len() > 0 && a[0] == b[0] && b[0] == c[0] {
        lemma_bytes_transitive(a.skip(1), b.skip(1), c.skip(1));
    }
}

/// Of two different byte strings, one comes before the other.
proof fn lemma_bytes_total(a: Seq<u8>, b: Seq<u8>)
    requires
        a != b,
    ensures
        bytes_before(a, b) || bytes_before(b, a),
    decreases a.len(),
{
    if a.len() == 0 || b.len() == 0 {
        if a.len() == b.len() {
            assert(a =~= b);
        }
    } else if a[0] == b[0] {
        assert(a =~= seq![a[0]] + a.skip(1));
        assert(b =~= seq![b[0]] + b.skip(1));
        lemma_bytes_total(a.skip(1), b.skip(1));
    }
}

/// The order of texts is a strict total order: no text comes before itself, of
/// two different texts exactly one comes before the other, and the order is
/// transitive.
pub proof fn law_texts_are_totally_ordered(a: Seq<char>, b: Seq<char>, c: Seq<char>)
    ensures
        !comes_before(a, a),
        comes_before(a, b) && comes_before(b, c) ==> comes_before(a, c),
        comes_before(a, b) ==> !comes_before(b, a),
        a != b ==> comes_before(a, b) || comes_before(b, a),
{
    let (x, y, z) = (encode_utf8(a), encode_utf8(b), encode_utf8(c));
    lemma_bytes_irreflexive(x);
    if comes_before(a, b) && comes_before(b, c) {
        lemma_bytes_transitive(x, y, z);
    }
    if comes_before(a, b) && comes_before(b, a) {
        lemma_bytes_transitive(x, y, x);
    }
    if a != b {
        encode_utf8_decode_utf8(a);
        encode_utf8_decode_utf8(b);
        lemma_bytes_total(x, y);
    }
}

/// The health of each RTU at `now`, in the order of the snapshots.
pub open spec fn entries_of(
    snapshots: Seq<RtuSnapshot>,
    now: u64,
    offline_after_ms: u64,
) -> Seq<EntryModel> {
    snapshots.map_values(|s: RtuSnapshot| entry_of(s@, now, offline_after_ms))
}

/// What a list of health entries holds.
pub open spec fn listed(rtus: Seq<HealthEntry>) -> Seq<EntryModel> {
    rtus.map_values(|e: HealthEntry| e@)
}

/// Whether entries are in the order of their ids.
pub open spec fn sorted_by_id(entries: Seq<EntryModel>) -> bool {
    forall|i: int, j: int|
        0 <= i < j < entries.len() ==> !comes_before(
            (#[trigger] entries[j]).id,
            (#[trigger] entries[i]).id,
        )
}

/// Whether an entry is that of the RTU `id`.
pub open spec fn has_id(id: Seq<char>) -> spec_fn(EntryModel) -> bool {
    |e: EntryModel| e.id == id
}

/// Whether `result` is `entries` sorted by id, with entries of the same id in
/// the order that they had.
pub open spec fn stable_sort_of(result: Seq<EntryModel>, entries: Seq<EntryModel>) -> bool {
    &&& sorted_by_id(result)
    &&& result.to_multiset() == entries.to_multiset()
    &&& forall|id: Seq<char>| #[trigger] result.filter(has_id(id)) == entries.filter(has_id(id))
}

/// Whether an entry is that of an RTU that is online.
pub open spec fn is_online() -> spec_fn(EntryModel) -> bool {
    |e: EntryModel| e.online
}

/// Inserting an entry behind all entries of its id keeps the order of every id.
proof fn lemma_insert_keeps_order(
    rtus: Seq<EntryModel>,
    entries: Seq<EntryModel>,
    e: EntryModel,
    p: int,
)
    requires
        0 <= p <= rtus.len(),
        forall|k: int| p <= k < rtus.len() ==> (#[trigger] rtus[k]).id != e.id,
        forall|id: Seq<char>| #[trigger] rtus.filter(has_id(id)) == entries.filter(has_id(id)),
    ensures
        forall|id: Seq<char>| #[trigger]
            rtus.insert(p, e).filter(has_id(id)) == entries.push(e).filter(has_id(id)),
{
    assert forall|id: Seq<char>| #[trigger]
        rtus.insert(p, e).filter(has_id(id)) == entries.push(e).filter(has_id(id)) by {
        let f = has_id(id);
        let front = rtus.take(p);
        let back = rtus.skip(p);
        assert(rtus =~= front + back);
        assert(rtus.insert(p, e) =~= front + (seq![e] + back));
        assert(entries.push(e) =~= entries + seq![e]);
        Seq::filter_distributes_over_add(front, back, f);
        Seq::filter_distributes_over_add(front, seq![e] + back, f);
        Seq::filter_distributes_over_add(seq![e], back, f);
        Seq::filter_distributes_over_add(entries, seq![e], f);
        assert(rtus.filter(f) == entries.filter(f));
        if id == e.id {
            assert forall|k: int| 0 <= k < back.len() implies !f(#[trigger] back[k]) by {
                assert(back[k] == rtus[p + k]);
            }
            back.lemma_all_neg_filter_empty(f);
            assert(back.filter(f) =~= Seq::<EntryModel>::empty());
            assert(seq![e].filter(f) + back.filter(f) =~= seq![e].filter(f));
            assert(front.filter(f) + back.filter(f) =~= front.filter(f));
        } else {
            seq![e].lemma_all_neg_filter_empty(f);
            assert(seq![e].filter(f) =~= Seq::<EntryModel>::empty());
            assert(seq![e].filter(f) + back.filter(f) =~= back.filter(f));
            assert(entries.filter(f) + seq![e].filter(f) =~= entries.filter(f));
        }
    }
}

/// Puts an entry behind all entries whose id does not come after its own.
fn insert_by_id(rtus: &mut Vec<HealthEntry>, e: HealthEntry)
    requires
        sorted_by_id(listed(old(rtus)@)),
    ensures
        sorted_by_id(listed(final(rtus)@)),
        exists|p: int|
            0 <= p <= old(rtus)@.len() && #[trigger] listed(old(rtus)@).insert(p, e@) == listed(
                final(rtus)@,
            ) && (forall|k: int|
                p <= k < old(rtus)@.len() ==> (#[trigger] listed(old(rtus)@)[k]).id != e@.id),
{
    let ghost before = listed(rtus@);
    let mut p: usize = 0;
    while p < rtus.len() && !is_before(&e.id, &rtus[p].id)
        invariant
            p <= rtus@.len(),
            before == listed(rtus@),
            forall|k: int| 0 <= k < p ==> !comes_before(e@.id, (#[trigger] before[k]).id),
        decreases rtus@.len() - p,
    {
        p = p + 1;
    }
    proof {
        assert forall|k: int| p <= k < before.len() implies !comes_before(
            (#[trigger] before[k]).id,
            e@.id,
        ) && before[k].id != e@.id by {
            assert(comes_before(e@.id, before[p as int].id));
            law_texts_are_totally_ordered(before[k].id, e@.id, before[p as int].id);
        }
    }
    rtus.insert(p, e);
    assert(listed(rtus@) =~= before.insert(p as int, e@));
}

/// The health, at `now`, of the fleet that the snapshots are of, listed by id.
pub fn fleet_health(snapshots: &Vec<RtuSnapshot>, now: u64, offline_after_ms: u64) -> (r: Health)
    ensures
        stable_sort_of(listed(r.rtus@), entries_of(snapshots@, now, offline_after_ms)),
        r.total == snapshots@.len(),
        r.online == entries_of(snapshots@, now, offline_after_ms).filter(is_online()).len(),
        r.offline == r.total - r.online,
{
    let ghost entries = entries_of(snapshots@, now, offline_after_ms);
    let mut rtus: Vec<HealthEntry> = Vec::new();
    let mut online: usize = 0;
    let mut i: usize = 0;
    proof {
        assert(entries.take(0) =~= Seq::empty());
        assert(listed(rtus@) =~= Seq::empty());
        reveal(Seq::filter);
    }
    while i < snapshots.len()
        invariant
            i <= snapshots@.len(),
            online <= i,
            entries == entries_of(snapshots@, now, offline_after_ms),
            stable_sort_of(listed(rtus@), entries.take(i as int)),
            online == entries.take(i as int).filter(is_online()).len(),
        decreases snapshots@.len() - i,
    {
        let s: &RtuSnapshot = &snapshots[i];
        let e = HealthEntry {
            id: s.id.clone(),
            rtu_addr: s.rtu_addr,
            online: is_online_at(s.last_success_ms, now, offline_after_ms),
            last_success_ms: s.last_success_ms,
            consecutive_failures: s.consecutive_failures,
        };
        let ghost before = listed(rtus@);
        let ghost seen = entries.take(i as int);
        let ghost m = e@;
        if e.online {
            online = online + 1;
        }
        insert_by_id(&mut rtus, e);
        proof {
            assert(entries.take(i + 1) =~= seen.push(m));
            let p = choose|p: int|
                0 <= p <= before.len() && #[trigger] before.insert(p, m) == listed(rtus@) && (
                forall|k: int| p <= k < before.len() ==> (#[trigger] before[k]).id != m.id);
            lemma_insert_keeps_order(before, seen, m, p);
            broadcast use vstd::seq_lib::group_to_multiset_ensures;

            assert(before.insert(p, m).to_multiset() =~= seen.push(m).to_multiset());
            reveal(Seq::filter);
            assert(seen.push(m).drop_last() =~= seen);
        }
        i = i + 1;
    }
    assert(entries.take(i as int) =~= entries);
    let total: usize = snapshots.len();
    Health { total, online, offline: total - online, rtus }
}

/// The RTUs are either online or offline, and the list has each of them once.
pub proof fn law_health_counts_add_up(
    h: Health,
    snapshots: Seq<RtuSnapshot>,
    now: u64,
    offline_after_ms: u64,
)
    requires
        stable_sort_of(listed(h.rtus@), entries_of(snapshots, now, offline_after_ms)),
        h.total == snapshots.len(),
        h.offline == h.total - h.online,
    ensures
        h.online + h.offline == h.total,
        h.rtus@.len() == h.total,
{
    broadcast use vstd::seq_lib::group_to_multiset_ensures;

    let entries = entries_of(snapshots, now, offline_after_ms);
    assert(listed(h.rtus@).to_multiset().len() == listed(h.rtus@).len());
    assert(entries.to_multiset().len() == entries.len());
}

/// Some RTU counts as offline exactly when some RTU has never answered or has
/// not answered within the window, whatever its snapshot says.
pub proof fn law_offline_is_noticed(
    h: Health,
    snapshots: Seq<RtuSnapshot>,
    now: u64,
    offline_after_ms: u64,
)
    requires
        h.total == snapshots.len(),
        h.online == entries_of(snapshots, now, offline_after_ms).filter(is_online()).len(),
        h.offline == h.total - h.online,
    ensures
        h.offline > 0 <==> exists|i: int|
            0 <= i < snapshots.len() && ((#[trigger] snapshots[i]).last_success_ms == 0 || now
                > snapshots[i].last_success_ms + offline_after_ms),
{
    lemma_all_online(snapshots, now, offline_after_ms);
    if h.offline > 0 {
        let i = choose|i: int|
            0 <= i < snapshots.len() && !online_at(
                (#[trigger] snapshots[i]).last_success_ms,
                now,
                offline_after_ms,
            );
        assert(snapshots[i].last_success_ms == 0 || now > snapshots[i].last_success_ms
            + offline_after_ms);
    }
}

/// All RTUs count as online exactly when each is online at `now`.
proof fn lemma_all_online(snapshots: Seq<RtuSnapshot>, now: u64, offline_after_ms: u64)
    ensures
        entries_of(snapshots, now, offline_after_ms).filter(is_online()).len() <= snapshots.len(),
        entries_of(snapshots, now, offline_after_ms).filter(is_online()).len() == snapshots.len()
            <==> forall|i: int|
            0 <= i < snapshots.len() ==> online_at(
                (#[trigger] snapshots[i]).last_success_ms,
                now,
                offline_after_ms,
            ),
    decreases snapshots.len(),
{
    reveal(Seq::filter);
    if snapshots.len() > 0 {
        let rest = snapshots.drop_last();
        lemma_all_online(rest, now, offline_after_ms);
        assert(entries_of(snapshots, now, offline_after_ms).drop_last() =~= entries_of(
            rest,
            now,
            offline_after_ms,
        ));
        assert(entries_of(snapshots, now, offline_after_ms).last() == entry_of(
            snapshots.last()@,
            now,
            offline_after_ms,
        ));
        assert(snapshots[snapshots.len() - 1] == snapshots.last());
        assert forall|i: int| 0 <= i < rest.len() implies rest[i] == #[trigger] snapshots[i] by {}
        assert forall|i: int| 0 <= i < rest.len() implies #[trigger] rest[i] == snapshots[i] by {}
    }
}

/// In a fleet whose ids all differ, the list is strictly ascending by id.
pub proof fn law_distinct_ids_are_listed_ascending(
    rtus: Seq<EntryModel>,
    entries: Seq<EntryModel>,
    i: int,
    j: int,
)
    requires
        stable_sort_of(rtus, entries),
        forall|a: int, b: int|
            0 <= a < b < entries.len() ==> (#[trigger] entries[a]).id != (#[trigger] entries[b]).id,
        0 <= i < j < rtus.len(),
    ensures
        comes_before(rtus[i].id, rtus[j].id),
{
    let id = rtus[i].id;
    law_texts_are_totally_ordered(id, rtus[j].id, id);
    if rtus[j].id == id {
        lemma_filter_two(rtus, has_id(id), i, j);
        assert(rtus.filter(has_id(id)) == entries.filter(has_id(id)));
        lemma_filter_distinct(entries, id);
    }
}

/// Two elements that pass a filter are both kept.
proof fn lemma_filter_two(s: Seq<EntryModel>, f: spec_fn(EntryModel) -> bool, i: int, j: int)
    requires
        0 <= i < j < s.len(),
        f(s[i]),
        f(s[j]),
    ensures
        s.filter(f).len() >= 2,
{
    let a = s.take(j);
    let b = s.skip(j);
    assert(s =~= a + b);
    Seq::filter_distributes_over_add(a, b, f);
    a.lemma_filter_contains(f, i);
    b.lemma_filter_contains(f, 0);
    assert(a.filter(f).len() >= 1);
    assert(b.filter(f).len() >= 1);
}

/// Where all ids differ, at most one entry has a given id.
proof fn lemma_filter_distinct(s: Seq<EntryModel>, id: Seq<char>)
    requires
        forall|a: int, b: int|
            0 <= a < b < s.len() ==> (#[trigger] s[a]).id != (#[trigger] s[b]).id,
    ensures
        s.filter(has_id(id)).len() <= 1,
    decreases s.len(),
{
    reveal(Seq::filter);
    if s.len() > 0 {
        let rest = s.drop_last();
        lemma_filter_distinct(rest, id);
        if s.last().id == id {
            assert forall|k: int| 0 <= k < rest.len() implies !has_id(id)(#[trigger] rest[k]) by {
                assert(s[k].id != s[s.len() - 1].id);
            }
            rest.lemma_all_neg_filter_empty(has_id(id));
        }
    }
}

/// What an entry is said to hold is what its fields hold.
pub proof fn law_entry_model_shows_every_field(e: HealthEntry)
    ensures
        e@.id == e.id@,
        e@.rtu_addr == e.rtu_addr,
        e@.online == e.online,
        e@.last_success_ms == e.last_success_ms,
        e@.consecutive_failures == e.consecutive_failures,
{
}

/// An entry carries the id, address, last success and failures in a row of its
/// snapshot as they are; it is online exactly if the RTU has answered, no longer
/// ago than the window.
pub proof fn law_entry_copies_its_snapshot(s: SnapshotModel, now: u64, offline_after_ms: u64)
    ensures
        ({
            let e = entry_of(s, now, offline_after_ms);
            &&& e.id == s.id
            &&& e.rtu_addr == s.rtu_addr
            &&& e.last_success_ms == s.last_success_ms
            &&& e.consecutive_failures == s.consecutive_failures
            &&& e.online <==> s.last_success_ms != 0 && now <= s.last_success_ms
                + offline_after_ms
        }),
{
}

/// Every snapshot is listed: some entry has its id, its address, its last success
/// and its failures in a row, and is online exactly if the RTU has answered, no
/// longer ago than the window.
pub proof fn law_every_snapshot_is_listed(
    rtus: Seq<HealthEntry>,
    snapshots: Seq<RtuSnapshot>,
    now: u64,
    offline_after_ms: u64,
    i: int,
)
    requires
        stable_sort_of(listed(rtus), entries_of(snapshots, now, offline_after_ms)),
        0 <= i < snapshots.len(),
    ensures
        exists|p: int|
            0 <= p < rtus.len() && (#[trigger] rtus[p]).id@ == snapshots[i].id@ && rtus[p].rtu_addr
                == snapshots[i].rtu_addr && rtus[p].last_success_ms == snapshots[i].last_success_ms
                && rtus[p].consecutive_failures == snapshots[i].consecutive_failures
                && rtus[p].online == (snapshots[i].last_success_ms != 0 && now
                <= snapshots[i].last_success_ms + offline_after_ms),
{
    broadcast use vstd::seq_lib::group_to_multiset_ensures;

    let entries = entries_of(snapshots, now, offline_after_ms);
    let e = entries[i];
    assert(entries.contains(e));
    assert(entries.to_multiset().count(e) > 0);
    assert(listed(rtus).to_multiset().count(e) > 0);
    let p = listed(rtus).index_of(e);
    assert(listed(rtus)[p] == rtus[p]@);
    assert(rtus[p].id@ == snapshots[i].id@);
}

/// Nothing else is listed: every entry is that of a snapshot, and there are as
/// many entries as snapshots.
pub proof fn law_every_entry_is_of_a_snapshot(
    rtus: Seq<HealthEntry>,
    snapshots: Seq<RtuSnapshot>,
    now: u64,
    offline_after_ms: u64,
    p: int,
)
    requires
        stable_sort_of(listed(rtus), entries_of(snapshots, now, offline_after_ms)),
        0 <= p < rtus.len(),
    ensures
        rtus.len() == snapshots.len(),
        exists|i: int|
            0 <= i < snapshots.len() && (#[trigger] snapshots[i]).id@ == rtus[p].id@
                && snapshots[i].rtu_addr == rtus[p].rtu_addr && snapshots[i].last_success_ms
                == rtus[p].last_success_ms && snapshots[i].consecutive_failures
                == rtus[p].consecutive_failures,
{
    broadcast use vstd::seq_lib::group_to_multiset_ensures;

    let entries = entries_of(snapshots, now, offline_after_ms);
    let e = listed(rtus)[p];
    assert(listed(rtus).to_multiset().len() == listed(rtus).len());
    assert(entries.to_multiset().len() == entries.len());
    assert(listed(rtus).contains(e));
    assert(listed(rtus).to_multiset().count(e) > 0);
    assert(entries.to_multiset().count(e) > 0);
    let i = entries.index_of(e);
    assert(entries[i] == entry_of(snapshots[i]@, now, offline_after_ms));
    assert(snapshots[i].id@ == rtus[p].id@);
}

/// One byte string comes before another exactly if they agree up to some place
/// where the first ends and the other does not, or has the smaller byte.
proof fn lemma_bytes_first_difference(x: Seq<u8>, y: Seq<u8>)
    ensures
        bytes_before(x, y) <==> exists|m: int|
            0 <= m <= x.len() && m < y.len() && #[trigger] x.take(m) == y.take(m) && (m == x.len()
                || x[m] < y[m]),
    decreases x.len(),
{
    if x.len() > 0 && y.len() > 0 && x[0] == y[0] {
        let (u, v) = (x.skip(1), y.skip(1));
        lemma_bytes_first_difference(u, v);
        if bytes_before(x, y) {
            let m = choose|m: int|
                0 <= m <= u.len() && m < v.len() && #[trigger] u.take(m) == v.take(m) && (m
                    == u.len() || u[m] < v[m]);
            assert(x.take(m + 1) =~= seq![x[0]] + u.take(m));
            assert(y.take(m + 1) =~= seq![y[0]] + v.take(m));
            assert(x.take(m + 1) == y.take(m + 1));
        }
        if exists|m: int|
            0 <= m <= x.len() && m < y.len() && #[trigger] x.take(m) == y.take(m) && (m == x.len()
                || x[m] < y[m]) {
            let m = choose|m: int|
                0 <= m <= x.len() && m < y.len() && #[trigger] x.take(m) == y.take(m) && (m
                    == x.len() || x[m] < y[m]);
            assert(m > 0);
            assert(u.take(m - 1) =~= x.take(m).skip(1));
            assert(v.take(m - 1) =~= y.take(m).skip(1));
            assert(u.take(m - 1) == v.take(m - 1));
        }
    } else {
        assert(x.take(0) =~= y.take(0));
        if y.len() > 0 && x.len() > 0 {
            assert forall|m: int|
                0 < m <= x.len() && m < y.len() implies #[trigger] x.take(m) != y.take(m) by {
                assert(x.take(m)[0] == x[0]);
                assert(y.take(m)[0] == y[0]);
            }
        }
    }
}

/// A text comes before another exactly if their UTF-8 bytes agree up to some
/// place where the first ends and the other does not, or has the smaller byte.
pub proof fn law_texts_are_ordered_by_bytes(a: Seq<char>, b: Seq<char>)
    ensures
        ({
            let (x, y) = (encode_utf8(a), encode_utf8(b));
            comes_before(a, b) <==> exists|m: int|
                0 <= m <= x.len() && m < y.len() && #[trigger] x.take(m) == y.take(m) && (m
                    == x.len() || x[m] < y[m])
        }),
{
    let (x, y) = (encode_utf8(a), encode_utf8(b));
    lemma_bytes_first_difference(x, y);
    if exists|m: int|
        0 <= m <= x.len() && m < y.len() && #[trigger] x.take(m) == y.take(m) && (m == x.len()
            || x[m] < y[m]) {
        assert(comes_before(a, b));
    }
}

/// The list ascends by id: of two entries with different ids the first has the
/// smaller byte, or none any more, where the ids first differ.
pub proof fn law_list_ascends_by_id(
    rtus: Seq<HealthEntry>,
    entries: Seq<EntryModel>,
    p: int,
    q: int,
)
    requires
        stable_sort_of(listed(rtus), entries),
        0 <= p < q < rtus.len(),
        rtus[p].id@ != rtus[q].id@,
    ensures
        ({
            let (x, y) = (encode_utf8(rtus[p].id@), encode_utf8(rtus[q].id@));
            exists|m: int|
                0 <= m <= x.len() && m < y.len() && #[trigger] x.take(m) == y.take(m) && (m
                    == x.len() || x[m] < y[m])
        }),
{
    let (a, b) = (listed(rtus)[p].id, listed(rtus)[q].id);
    law_texts_are_totally_ordered(a, b, a);
    law_texts_are_ordered_by_bytes(a, b);
}

/// Two elements that pass a filter stay in their order.
proof fn lemma_filter_keeps_order(
    s: Seq<EntryModel>,
    f: spec_fn(EntryModel) -> bool,
    i: int,
    j: int,
)
    requires
        0 <= i < j < s.len(),
        f(s[i]),
        f(s[j]),
    ensures
        exists|a: int, b: int|
            0 <= a < b < s.filter(f).len() && #[trigger] s.filter(f)[a] == s[i]
                && #[trigger] s.filter(f)[b] == s[j],
{
    let front = s.take(j);
    let back = s.skip(j);
    assert(s =~= front + back);
    Seq::filter_distributes_over_add(front, back, f);
    front.lemma_filter_contains(f, i);
    back.lemma_filter_contains(f, 0);
    let a = front.filter(f).index_of(s[i]);
    let b = front.filter(f).len() + back.filter(f).index_of(s[j]);
    assert(s.filter(f)[a] == s[i]);
    assert(s.filter(f)[b] == s[j]);
}

/// Two elements of a filtered sequence had their order before.
proof fn lemma_filter_had_order(s: Seq<EntryModel>, f: spec_fn(EntryModel) -> bool, a: int, b: int)
    requires
        0 <= a < b < s.filter(f).len(),
    ensures
        exists|p: int, q: int|
            0 <= p < q < s.len() && #[trigger] s[p] == s.filter(f)[a]
                && #[trigger] s[q] == s.filter(f)[b],
    decreases s.len(),
{
    reveal(Seq::filter);
    if s.len() > 0 {
        let rest = s.drop_last();
        if b < rest.filter(f).len() {
            lemma_filter_had_order(rest, f, a, b);
            let (p, q) = choose|p: int, q: int|
                0 <= p < q < rest.len() && #[trigger] rest[p] == rest.filter(f)[a]
                    && #[trigger] rest[q] == rest.filter(f)[b];
            assert(s[p] == rest[p] && s[q] == rest[q]);
        } else {
            assert(rest.filter(f).contains(rest.filter(f)[a]));
            rest.lemma_filter_contains_rev(f, rest.filter(f)[a]);
            let p = rest.index_of(rest.filter(f)[a]);
            let q = s.len() - 1;
            assert(s[p] == rest[p] && s[q] == s.last());
        }
    }
}

/// Snapshots with the same id are listed in the order that they have.
pub proof fn law_same_ids_keep_their_order(
    rtus: Seq<HealthEntry>,
    snapshots: Seq<RtuSnapshot>,
    now: u64,
    offline_after_ms: u64,
    i: int,
    j: int,
)
    requires
        stable_sort_of(listed(rtus), entries_of(snapshots, now, offline_after_ms)),
        0 <= i < j < snapshots.len(),
        snapshots[i].id@ == snapshots[j].id@,
    ensures
        exists|p: int, q: int|
            0 <= p < q < rtus.len() && (#[trigger] rtus[p])@ == entry_of(
                snapshots[i]@,
                now,
                offline_after_ms,
            ) && (#[trigger] rtus[q])@ == entry_of(snapshots[j]@, now, offline_after_ms),
{
    let entries = entries_of(snapshots, now, offline_after_ms);
    let f = has_id(snapshots[i].id@);
    lemma_filter_keeps_order(entries, f, i, j);
    assert(listed(rtus).filter(f) == entries.filter(f));
    let (a, b) = choose|a: int, b: int|
        0 <= a < b < entries.filter(f).len() && #[trigger] entries.filter(f)[a] == entries[i]
            && #[trigger] entries.filter(f)[b] == entries[j];
    lemma_filter_had_order(listed(rtus), f, a, b);
    let (p, q) = choose|p: int, q: int|
        0 <= p < q < listed(rtus).len() && #[trigger] listed(rtus)[p] == listed(rtus).filter(f)[a]
            && #[trigger] listed(rtus)[q] == listed(rtus).filter(f)[b];
    assert(rtus[p]@ == entries[i] && rtus[q]@ == entries[j]);
}

/// As many RTUs count as online as have answered no longer ago than the window.
pub proof fn law_online_counts_recent_answers(
    snapshots: Seq<RtuSnapshot>,
    now: u64,
    offline_after_ms: u64,
)
    ensures
        ({
            let recent = Set::new(
                |i: int|
                    0 <= i < snapshots.len() && snapshots[i].last_success_ms != 0 && now
                        <= snapshots[i].last_success_ms + offline_after_ms,
            );
            &&& recent.finite()
            &&& entries_of(snapshots, now, offline_after_ms).filter(is_online()).len()
                == recent.len()
        }),
    decreases snapshots.len(),
{
    reveal(Seq::filter);
    let recent = Set::new(
        |i: int|
            0 <= i < snapshots.len() && snapshots[i].last_success_ms != 0 && now
                <= snapshots[i].last_success_ms + offline_after_ms,
    );
    if snapshots.len() == 0 {
        assert(recent =~= Set::empty());
    } else {
        let rest = snapshots.drop_last();
        let last = snapshots.len() - 1;
        law_online_counts_recent_answers(rest, now, offline_after_ms);
        let before = Set::new(
            |i: int|
                0 <= i < rest.len() && rest[i].last_success_ms != 0 && now
                    <= rest[i].last_success_ms + offline_after_ms,
        );
        let entries = entries_of(snapshots, now, offline_after_ms);
        assert(entries.drop_last() =~= entries_of(rest, now, offline_after_ms));
        assert(entries.last() == entry_of(snapshots[last]@, now, offline_after_ms));
        if online_at(snapshots[last].last_success_ms, now, offline_after_ms) {
            assert(recent =~= before.insert(last));
            assert(!before.contains(last));
        } else {
            assert(recent =~= before);
        }
    }
}

} // verus!
