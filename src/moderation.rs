//! Per-user moderation records: trigger counters per group and in total,
//! the time of the last trigger per group, and the cooldown escalation rule.
use std::collections::HashMap;
use vstd::prelude::*;

verus! {

broadcast use vstd::std_specs::hash::group_hash_axioms;

/// Sum of the values of a finite map.
pub open spec fn map_sum(m: Map<i64, u64>) -> int
    decreases m.dom().len(),
    when m.dom().finite()
    via map_sum_decreases
{
    if m.dom().len() == 0 {
        0
    } else {
        let k = m.dom().choose();
        m[k] + map_sum(m.remove(k))
    }
}

#[via_fn]
proof fn map_sum_decreases(m: Map<i64, u64>) {
    if m.dom().len() != 0 {
        let k = m.dom().choose();
        assert(m.dom().contains(k));
        assert(m.remove(k).dom() =~= m.dom().remove(k));
    }
}

proof fn lemma_map_sum_remove(m: Map<i64, u64>, k: i64)
    requires
        m.dom().finite(),
        m.dom().contains(k),
    ensures
        map_sum(m) == m[k] + map_sum(m.remove(k)),
    decreases m.dom().len(),
{
    assert(m.remove(k).dom() =~= m.dom().remove(k));
    let c = m.dom().choose();
    if c != k {
        let mc = m.remove(c);
        let mk = m.remove(k);
        assert(mc.dom() =~= m.dom().remove(c));
        assert(mc.dom().contains(k));
        lemma_map_sum_remove(mc, k);
        assert(mk.dom().contains(c));
        lemma_map_sum_remove(mk, c);
        assert(mc.remove(k) =~= mk.remove(c));
    }
}

proof fn lemma_map_sum_nonneg(m: Map<i64, u64>)
    requires
        m.dom().finite(),
    ensures
        map_sum(m) >= 0,
    decreases m.dom().len(),
{
    if m.dom().len() != 0 {
        let k = m.dom().choose();
        assert(m.remove(k).dom() =~= m.dom().remove(k));
        lemma_map_sum_nonneg(m.remove(k));
    }
}

/// Setting key `k` to `v` changes the sum by `v` less the old value (or zero).
pub proof fn lemma_map_sum_insert(m: Map<i64, u64>, k: i64, v: u64)
    requires
        m.dom().finite(),
    ensures
        map_sum(m.insert(k, v)) == map_sum(m) + v - (if m.dom().contains(k) {
            m[k] as int
        } else {
            0
        }),
        m.dom().contains(k) ==> m[k] <= map_sum(m),
{
    let n = m.insert(k, v);
    lemma_map_sum_remove(n, k);
    if m.dom().contains(k) {
        assert(n.remove(k) =~= m.remove(k));
        lemma_map_sum_remove(m, k);
        lemma_map_sum_nonneg(m.remove(k));
    } else {
        assert(n.remove(k) =~= m);
    }
}

/// One user's record. `total_times` always equals the sum of the per-group
/// counts; `last_timestamp` holds, per group, the unix second of the last
/// trigger.
pub struct UserInfo {
    pub total_times: u64,
    pub group_total_times: HashMap<i64, u64>,
    pub last_timestamp: HashMap<i64, u64>,
}

/// Count of a group in a record, zero when absent.
pub open spec fn count_in(m: Map<i64, u64>, g: i64) -> u64 {
    if m.contains_key(g) {
        m[g]
    } else {
        0
    }
}

impl UserInfo {
    pub open spec fn wf(&self) -> bool {
        self.total_times == map_sum(self.group_total_times@)
    }

    /// A record with no triggers.
    pub fn new() -> (r: UserInfo)
        ensures
            r.wf(),
            r.total_times == 0,
            r.group_total_times@ == Map::<i64, u64>::empty(),
            r.last_timestamp@ == Map::<i64, u64>::empty(),
    {
        let r = UserInfo {
            total_times: 0,
            group_total_times: HashMap::new(),
            last_timestamp: HashMap::new(),
        };
        proof {
            assert(Map::<i64, u64>::empty().dom() =~= Set::empty());
        }
        r
    }

    /// Counts one trigger in `group_id` at `last_timestamp`: the total and the
    /// group's count go up by one, and the group's last time is replaced.
    pub fn update_time(&mut self, group_id: i64, last_timestamp: u64)
        requires
            old(self).wf(),
            old(self).total_times < u64::MAX,
        ensures
            final(self).wf(),
            final(self).total_times == old(self).total_times + 1,
            final(self).group_total_times@ == old(self).group_total_times@.insert(
                group_id,
                (count_in(old(self).group_total_times@, group_id) + 1) as u64,
            ),
            final(self).last_timestamp@ == old(self).last_timestamp@.insert(group_id, last_timestamp),
    {
        let ghost before = self.group_total_times@;
        proof {
            lemma_map_sum_insert(before, group_id, 0);
        }
        let cur: u64 = match self.group_total_times.get(&group_id) {
            Some(v) => *v,
            None => 0,
        };
        self.total_times = self.total_times + 1;
        self.group_total_times.insert(group_id, cur + 1);
        self.last_timestamp.insert(group_id, last_timestamp);
        proof {
            lemma_map_sum_insert(before, group_id, (cur + 1) as u64);
        }
    }
}

/// Last trigger time of a group, zero when absent: a fresh user is never in
/// cooldown.
pub open spec fn last_in(m: Map<i64, u64>, g: i64) -> int {
    if m.contains_key(g) {
        m[g] as int
    } else {
        0
    }
}

/// A trigger at `now` escalates when less than `cooldown` seconds have passed
/// since the last one in the same group.
pub open spec fn escalates(last: int, now: u64, cooldown: u64) -> bool {
    now - last < cooldown
}

/// Every user's record, keyed by user id.
pub struct ModerationTable {
    pub users: HashMap<i64, UserInfo>,
}

impl ModerationTable {
    pub open spec fn wf(&self) -> bool {
        forall|u: i64| #[trigger] self.users@.contains_key(u) ==> self.users@[u].wf()
    }

    /// An empty table.
    pub fn new() -> (r: ModerationTable)
        ensures
            r.wf(),
            r.users@ == Map::<i64, UserInfo>::empty(),
    {
        ModerationTable { users: HashMap::new() }
    }

    /// `(count in group, total)` of a user, or `None` for a user never seen.
    pub fn times(&self, user_id: i64, group_id: i64) -> (r: Option<(u64, u64)>)
        ensures
            self.users@.contains_key(user_id) <==> r is Some,
            r is Some ==> r.unwrap() == (
                count_in(self.users@[user_id].group_total_times@, group_id),
                self.users@[user_id].total_times,
            ),
    {
        match self.users.get(&user_id) {
            Some(info) => {
                let g = match info.group_total_times.get(&group_id) {
                    Some(v) => *v,
                    None => 0,
                };
                Some((g, info.total_times))
            },
            None => None,
        }
    }

    /// One trigger by `user_id` in `group_id` at `now`, as a single step:
    /// decides escalation from the group's last trigger time (zero when
    /// absent), then counts the trigger and records `now`. Returns whether
    /// the trigger escalates. A user's record is created on first trigger.
    pub fn record_trigger(&mut self, user_id: i64, group_id: i64, now: u64, ban_cooldown: u64) -> (r:
        bool)
        requires
            old(self).wf(),
            old(self).users@.contains_key(user_id) ==> old(self).users@[user_id].total_times
                < u64::MAX,
        ensures
            final(self).wf(),
            r == escalates(
                if old(self).users@.contains_key(user_id) {
                    last_in(old(self).users@[user_id].last_timestamp@, group_id)
                } else {
                    0
                },
                now,
                ban_cooldown,
            ),
            final(self).users@.dom() == old(self).users@.dom().insert(user_id),
            forall|u: i64|
                u != user_id && #[trigger] old(self).users@.contains_key(u) ==> final(self).users@[u]
                    == old(self).users@[u],
            ({
                let was = old(self).users@.contains_key(user_id);
                let now_rec = final(self).users@[user_id];
                let total = if was {
                    old(self).users@[user_id].total_times as int
                } else {
                    0
                };
                let groups = if was {
                    old(self).users@[user_id].group_total_times@
                } else {
                    Map::empty()
                };
                let lasts = if was {
                    old(self).users@[user_id].last_timestamp@
                } else {
                    Map::empty()
                };
                &&& now_rec.total_times == total + 1
                &&& now_rec.group_total_times@ == groups.insert(
                    group_id,
                    (count_in(groups, group_id) + 1) as u64,
                )
                &&& now_rec.last_timestamp@ == lasts.insert(group_id, now)
            }),
    {
        let mut info = match self.users.remove(&user_id) {
            Some(info) => info,
            None => UserInfo::new(),
        };
        let last: u64 = match info.last_timestamp.get(&group_id) {
            Some(v) => *v,
            None => 0,
        };
        let escalate = if now < last {
            true
        } else {
            now - last < ban_cooldown
        };
        info.update_time(group_id, now);
        self.users.insert(user_id, info);
        escalate
    }
}

/// Per-group switch for silent auto-moderation; a group without an entry is
/// off.
pub struct Whitelist {
    pub groups: HashMap<i64, bool>,
}

pub open spec fn enabled_in(m: Map<i64, bool>, g: i64) -> bool {
    m.contains_key(g) && m[g]
}

impl Whitelist {
    /// A whitelist with every group off.
    pub fn new() -> (r: Whitelist)
        ensures
            r.groups@ == Map::<i64, bool>::empty(),
    {
        Whitelist { groups: HashMap::new() }
    }

    /// Whether auto-moderation is on in `group_id`.
    pub fn is_enabled(&self, group_id: i64) -> (r: bool)
        ensures
            r == enabled_in(self.groups@, group_id),
    {
        match self.groups.get(&group_id) {
            Some(v) => *v,
            None => false,
        }
    }

    /// Turns auto-moderation on or off in `group_id`.
    pub fn set(&mut self, group_id: i64, enabled: bool)
        ensures
            final(self).groups@ == old(self).groups@.insert(group_id, enabled),
    {
        self.groups.insert(group_id, enabled);
    }
}

} // verus!
