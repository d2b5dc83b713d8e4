//! The decay engine's decisions: which memories expire, which groups are
//! compressed and into what, how a run is tallied, and the age analytics.
use vstd::prelude::*;

use crate::compress::{
    chronological, chronological_order, compressed_record, create_compressed_memory, ids_of, new_id,
    pick,
};
use crate::rank::{is_top_k, top_k};
use crate::models::{is_live, DecayStatus, MemoryItem, IMPORTANCE_SCALE, SECS_PER_HOUR};
use crate::text::views;
use crate::util::owned;

verus! {

/// Earliest instant at which a decay pass can look back any number of hours
/// that a policy allows.
pub const EARLIEST_DECAY_TIME: i64 = i64::MIN + 4294967295 * 3600;

/// Runtime-tunable settings of the decay engine.
#[derive(Debug, Clone)]
pub struct DecayPolicy {
    pub max_age_hours: u32,
    /// Importance threshold, in thousandths.
    pub importance_threshold: u32,
    pub max_memories_per_user: usize,
    pub compression_enabled: bool,
    pub auto_summarize_sessions: bool,
}

impl DecayPolicy {
    /// The bounded settings are within range.
    pub open spec fn valid(&self) -> bool {
        &&& 1 <= self.max_age_hours
        &&& self.importance_threshold <= IMPORTANCE_SCALE
        &&& 1 <= self.max_memories_per_user <= 1000000
    }

    /// Checks the bounds of the settings.
    pub fn validate(&self) -> (r: bool)
        ensures
            r == self.valid(),
    {
        1 <= self.max_age_hours && self.importance_threshold <= IMPORTANCE_SCALE && 1 <= self.max_memories_per_user
            && self.max_memories_per_user <= 1000000
    }
}

impl Default for DecayPolicy {
    fn default() -> (r: DecayPolicy)
        ensures
            r.max_age_hours == 720,
            r.importance_threshold == 300,
            r.max_memories_per_user == 10000,
            r.compression_enabled && r.auto_summarize_sessions,
            r.valid(),
    {
        DecayPolicy {
            max_age_hours: 720,
            importance_threshold: 300,
            max_memories_per_user: 10000,
            compression_enabled: true,
            auto_summarize_sessions: true,
        }
    }
}

/// Replaces the policy with `policy` when it is valid; otherwise keeps the
/// current one and fails.
pub fn update_policy(current: &mut DecayPolicy, policy: DecayPolicy) -> (r: bool)
    ensures
        r == policy.valid(),
        r ==> *final(current) == policy,
        !r ==> *final(current) == *old(current),
{
    if policy.validate() {
        *current = policy;
        true
    } else {
        false
    }
}

/// Instant `hours` hours before `now`.
pub open spec fn hours_before(now: i64, hours: int) -> int {
    now - hours * SECS_PER_HOUR
}

/// An old, unimportant memory: created at or before `max_age_hours` ago, with
/// importance below the threshold.
pub open spec fn purgeable(m: MemoryItem, p: DecayPolicy, now: i64) -> bool {
    m.created_at <= hours_before(now, p.max_age_hours as int) && m.importance
        < p.importance_threshold
}

/// A compression candidate: created at or before half of `max_age_hours`
/// ago (whole hours), with importance below the threshold.
pub open spec fn compressible(m: MemoryItem, p: DecayPolicy, now: i64) -> bool {
    m.created_at <= hours_before(now, (p.max_age_hours / 2) as int) && m.importance
        < p.importance_threshold
}

/// Positions, ascending, of the memories that satisfy `pred`.
pub open spec fn selected(items: Seq<MemoryItem>, pred: spec_fn(MemoryItem) -> bool, r: Seq<
    usize,
>) -> bool {
    &&& forall|k: int| 0 <= k < r.len() ==> r[k] < items.len() && pred(items[r[k] as int])
    &&& forall|i: int| 0 <= i < items.len() && pred(#[trigger] items[i]) ==> r.contains(i as usize)
    &&& forall|a: int, b: int| 0 <= a < b < r.len() ==> r[a] < r[b]
}

/// Positions of the memories that the old-and-unimportant purge deletes.
pub fn select_purgeable(items: &Vec<MemoryItem>, policy: &DecayPolicy, now: i64) -> (r: Vec<
    usize,
>)
    requires
        now >= EARLIEST_DECAY_TIME,
        policy.valid(),
    ensures
        selected(items@, |m: MemoryItem| purgeable(m, *policy, now), r@),
{
    let cutoff = now - policy.max_age_hours as i64 * SECS_PER_HOUR;
    select_below(items, cutoff, policy.importance_threshold)
}

/// Positions of the memories that group compression considers.
pub fn select_compressible(items: &Vec<MemoryItem>, policy: &DecayPolicy, now: i64) -> (r: Vec<
    usize,
>)
    requires
        now >= EARLIEST_DECAY_TIME,
        policy.valid(),
    ensures
        selected(items@, |m: MemoryItem| compressible(m, *policy, now), r@),
{
    let cutoff = now - (policy.max_age_hours / 2) as i64 * SECS_PER_HOUR;
    select_below(items, cutoff, policy.importance_threshold)
}

/// Positions of the memories created at or before `cutoff` with importance
/// below `threshold`.
fn select_below(items: &Vec<MemoryItem>, cutoff: i64, threshold: u32) -> (r: Vec<usize>)
    ensures
        selected(
            items@,
            |m: MemoryItem| m.created_at <= cutoff && m.importance < threshold,
            r@,
        ),
{
    let ghost pred = |m: MemoryItem| m.created_at <= cutoff && m.importance < threshold;
    let mut r: Vec<usize> = Vec::new();
    let mut i: usize = 0;
    while i < items.len()
        invariant
            i <= items@.len(),
            pred == (|m: MemoryItem| m.created_at <= cutoff && m.importance < threshold),
            forall|k: int| 0 <= k < r@.len() ==> r@[k] < i && pred(items@[r@[k] as int]),
            forall|j: int| 0 <= j < i && pred(#[trigger] items@[j]) ==> r@.contains(j as usize),
            forall|a: int, b: int| 0 <= a < b < r@.len() ==> r@[a] < r@[b],
        decreases items@.len() - i,
    {
        if items[i].created_at <= cutoff && items[i].importance < threshold {
            let ghost before = r@;
            r.push(i);
            proof {
                assert forall|j: int|
                    0 <= j < i + 1 && pred(#[trigger] items@[j]) implies r@.contains(j as usize) by {
                    if j < i {
                        let k = choose|k: int| 0 <= k < before.len() && before[k] == j as usize;
                        assert(r@[k] == j as usize);
                    } else {
                        assert(r@[r@.len() - 1] == j as usize);
                    }
                }
            }
        }
        i = i + 1;
    }
    r
}

/// Two memories belong to the same `(user_id, session_id)` folder.
pub open spec fn same_scope(a: MemoryItem, b: MemoryItem) -> bool {
    a.user_id@ == b.user_id@ && a.session_id@ == b.session_id@
}

/// Positions among `sel` that open a folder (the first selected position of
/// each `(user_id, session_id)`), and for each selected position the index
/// of its folder's head.
fn scope_heads(items: &Vec<MemoryItem>, sel: &Vec<usize>) -> (r: (Vec<usize>, Vec<usize>))
    requires
        forall|k: int| 0 <= k < sel@.len() ==> sel@[k] < items@.len(),
    ensures
        forall|g: int| 0 <= g < r.0@.len() ==> sel@.contains(#[trigger] r.0@[g]),
        forall|g: int, h: int|
            0 <= g < h < r.0@.len() ==> !same_scope(items@[r.0@[g] as int], items@[r.0@[h] as int]),
        r.1@.len() == sel@.len(),
        forall|k: int|
            0 <= k < sel@.len() ==> #[trigger] r.1@[k] < r.0@.len() && same_scope(
                items@[sel@[k] as int],
                items@[r.0@[r.1@[k] as int] as int],
            ),
{
    let mut r: Vec<usize> = Vec::new();
    let mut assign: Vec<usize> = Vec::new();
    let mut i: usize = 0;
    while i < sel.len()
        invariant
            i <= sel@.len(),
            assign@.len() == i,
            forall|k: int| 0 <= k < sel@.len() ==> sel@[k] < items@.len(),
            forall|g: int| 0 <= g < r@.len() ==> sel@.contains(#[trigger] r@[g]),
            forall|g: int, h: int|
                0 <= g < h < r@.len() ==> !same_scope(items@[r@[g] as int], items@[r@[h] as int]),
            forall|k: int|
                0 <= k < i ==> #[trigger] assign@[k] < r@.len() && same_scope(
                    items@[sel@[k] as int],
                    items@[r@[assign@[k] as int] as int],
                ),
        decreases sel@.len() - i,
    {
        let p = sel[i];
        let mut g: usize = 0;
        let mut found: bool = false;
        while g < r.len()
            invariant_except_break
                !found,
            invariant
                g <= r@.len(),
                p < items@.len(),
                forall|h: int| 0 <= h < r@.len() ==> sel@.contains(#[trigger] r@[h]),
                forall|k: int| 0 <= k < sel@.len() ==> sel@[k] < items@.len(),
                forall|h: int| 0 <= h < g ==> !same_scope(items@[p as int], items@[#[trigger] r@[h] as int]),
            ensures
                found ==> g < r@.len() && same_scope(items@[p as int], items@[r@[g as int] as int]),
                !found ==> forall|h: int|
                    0 <= h < r@.len() ==> !same_scope(items@[p as int], items@[#[trigger] r@[h] as int]),
            decreases r@.len() - g,
        {
            let q = r[g];
            proof {
                assert(sel@.contains(r@[g as int]));
            }
            if items[p].user_id == items[q].user_id && items[p].session_id == items[q].session_id {
                found = true;
                break;
            }
            g = g + 1;
        }
        if found {
            assign.push(g);
        } else {
            let n = r.len();
            r.push(p);
            assign.push(n);
            proof {
                assert(r@[n as int] == p);
                assert(sel@[i as int] == p);
            }
        }
        proof {
            assert(assign@[i as int] < r@.len());
        }
        i = i + 1;
    }
    (r, assign)
}

/// The selected positions in the folder of `head`, ascending.
fn scope_members(items: &Vec<MemoryItem>, sel: &Vec<usize>, head: usize) -> (r: Vec<usize>)
    requires
        forall|k: int| 0 <= k < sel@.len() ==> sel@[k] < items@.len(),
        forall|a: int, b: int| 0 <= a < b < sel@.len() ==> sel@[a] < sel@[b],
        head < items@.len(),
    ensures
        forall|a: int, b: int| 0 <= a < b < r@.len() ==> r@[a] < r@[b],
        forall|k: int| 0 <= k < r@.len() ==> sel@.contains(#[trigger] r@[k]) && same_scope(
            items@[r@[k] as int],
            items@[head as int],
        ),
        forall|k: int|
            #![trigger sel@[k]]
            0 <= k < sel@.len() && same_scope(items@[sel@[k] as int], items@[head as int])
                ==> r@.contains(sel@[k]),
{
    let mut r: Vec<usize> = Vec::new();
    let mut i: usize = 0;
    while i < sel.len()
        invariant
            i <= sel@.len(),
            head < items@.len(),
            forall|k: int| 0 <= k < sel@.len() ==> sel@[k] < items@.len(),
            forall|a: int, b: int| 0 <= a < b < sel@.len() ==> sel@[a] < sel@[b],
            forall|a: int, b: int| 0 <= a < b < r@.len() ==> r@[a] < r@[b],
            i < sel@.len() ==> forall|k: int| 0 <= k < r@.len() ==> r@[k] < sel@[i as int],
            forall|k: int| 0 <= k < r@.len() ==> sel@.contains(#[trigger] r@[k]) && same_scope(
                items@[r@[k] as int],
                items@[head as int],
            ),
            forall|k: int|
                #![trigger sel@[k]]
                0 <= k < i && same_scope(items@[sel@[k] as int], items@[head as int])
                    ==> r@.contains(sel@[k]),
        decreases sel@.len() - i,
    {
        let p = sel[i];
        if items[p].user_id == items[head].user_id && items[p].session_id
            == items[head].session_id {
            let ghost before = r@;
            r.push(p);
            proof {
                assert(r@[before.len() as int] == p);
                assert(sel@[i as int] == p);
                if i + 1 < sel@.len() {
                    assert(sel@[i as int] < sel@[i + 1]);
                }
                assert forall|k: int|
                    #![trigger sel@[k]]
                    0 <= k < i + 1 && same_scope(items@[sel@[k] as int], items@[head as int])
                        implies r@.contains(sel@[k]) by {
                    if k < i {
                        let q = choose|q: int| 0 <= q < before.len() && before[q] == sel@[k];
                        assert(r@[q] == sel@[k]);
                    }
                }
            }
        } else {
            proof {
                if i + 1 < sel@.len() {
                    assert(sel@[i as int] < sel@[i + 1]);
                }
            }
        }
        i = i + 1;
    }
    r
}

/// The selected positions grouped by `(user_id, session_id)`, folders in
/// order of first appearance: every group holds exactly the selected
/// positions of one folder. The second vector gives the group of each
/// selected position.
#[verifier::spinoff_prover]
#[verifier::rlimit(80)]
pub fn group_by_scope(items: &Vec<MemoryItem>, sel: &Vec<usize>) -> (r: (Vec<Vec<usize>>, Vec<usize>))
    requires
        forall|k: int| 0 <= k < sel@.len() ==> sel@[k] < items@.len(),
        forall|a: int, b: int| 0 <= a < b < sel@.len() ==> sel@[a] < sel@[b],
    ensures
        forall|g: int, a: int, b: int|
            0 <= g < r.0@.len() && 0 <= a < b < r.0@[g]@.len() ==> r.0@[g]@[a] < r.0@[g]@[b],
        forall|g: int| 0 <= g < r.0@.len() ==> #[trigger] r.0@[g]@.len() > 0,
        forall|g: int, k: int|
            0 <= g < r.0@.len() && 0 <= k < r.0@[g]@.len() ==> sel@.contains(#[trigger] r.0@[g]@[k])
                && same_scope(items@[r.0@[g]@[k] as int], items@[r.0@[g]@[0] as int]),
        forall|g: int, h: int|
            0 <= g < h < r.0@.len() ==> !same_scope(
                items@[r.0@[g]@[0] as int],
                items@[r.0@[h]@[0] as int],
            ),
        r.1@.len() == sel@.len(),
        forall|k: int|
            0 <= k < sel@.len() ==> #[trigger] r.1@[k] < r.0@.len() && r.0@[r.1@[k] as int]@.contains(
                sel@[k],
            ),
{
    let (heads, assign) = scope_heads(items, sel);
    let mut r: Vec<Vec<usize>> = Vec::new();
    let mut g: usize = 0;
    while g < heads.len()
        invariant
            g <= heads@.len(),
            r@.len() == g,
            assign@.len() == sel@.len(),
            forall|k: int| 0 <= k < sel@.len() ==> sel@[k] < items@.len(),
            forall|a: int, b: int| 0 <= a < b < sel@.len() ==> sel@[a] < sel@[b],
            forall|h: int, a: int, b: int|
                0 <= h < g && 0 <= a < b < r@[h]@.len() ==> r@[h]@[a] < r@[h]@[b],
            forall|h: int| 0 <= h < heads@.len() ==> sel@.contains(#[trigger] heads@[h]),
            forall|k: int|
                0 <= k < sel@.len() ==> #[trigger] assign@[k] < heads@.len() && same_scope(
                    items@[sel@[k] as int],
                    items@[heads@[assign@[k] as int] as int],
                ),
            forall|h: int| 0 <= h < g ==> (#[trigger] r@[h]@).contains(heads@[h]),
            forall|h: int, k: int|
                0 <= h < g && 0 <= k < r@[h]@.len() ==> sel@.contains(#[trigger] r@[h]@[k])
                    && same_scope(items@[r@[h]@[k] as int], items@[heads@[h] as int]),
            forall|k: int|
                0 <= k < sel@.len() && #[trigger] assign@[k] < g ==> r@[assign@[k] as int]@.contains(
                    sel@[k],
                ),
        decreases heads@.len() - g,
    {
        let head = heads[g];
        proof {
            assert(sel@.contains(heads@[g as int]));
        }
        let m = scope_members(items, sel, head);
        proof {
            let k = choose|k: int| 0 <= k < sel@.len() && sel@[k] == head;
            assert(same_scope(items@[sel@[k] as int], items@[head as int]));
            assert(m@.contains(sel@[k]));
        }
        r.push(m);
        proof {
            assert forall|k: int|
                0 <= k < sel@.len() && #[trigger] assign@[k] < g + 1 implies r@[assign@[k] as int]@.contains(
                    sel@[k],
                ) by {
                if assign@[k] == g {
                    assert(same_scope(items@[sel@[k] as int], items@[head as int]));
                }
            }
        }
        g = g + 1;
    }
    proof {
        assert forall|h: int| 0 <= h < r@.len() implies #[trigger] r@[h]@.len() > 0 by {
            assert(r@[h]@.contains(heads@[h]));
        }
        assert forall|h: int, k: int|
            0 <= h < r@.len() && 0 <= k < r@[h]@.len() implies sel@.contains(#[trigger] r@[h]@[k])
                && same_scope(items@[r@[h]@[k] as int], items@[r@[h]@[0] as int]) by {
            assert(r@[h]@.len() > 0);
            assert(same_scope(items@[r@[h]@[0] as int], items@[heads@[h] as int]));
        }
        assert forall|g1: int, h: int|
            0 <= g1 < h < r@.len() implies !same_scope(
                items@[r@[g1]@[0] as int],
                items@[r@[h]@[0] as int],
            ) by {
            assert(r@[g1]@.len() > 0);
            assert(r@[h]@.len() > 0);
            assert(same_scope(items@[r@[g1]@[0] as int], items@[heads@[g1] as int]));
            assert(same_scope(items@[r@[h]@[0] as int], items@[heads@[h] as int]));
            assert(!same_scope(items@[heads@[g1] as int], items@[heads@[h] as int]));
        }
    }
    (r, assign)
}

/// Smallest group of cold memories that is compressed.
pub const MIN_GROUP: usize = 3;

/// Estimated bytes reclaimed per removed memory.
pub const BYTES_PER_MEMORY: usize = 1024;

/// What a decay pass writes: the ids it deletes and the compressed records
/// it inserts.
#[derive(Debug, Clone)]
pub struct DecayPlan {
    pub delete_ids: Vec<String>,
    pub inserts: Vec<MemoryItem>,
}

/// A memory that normal recall shows at `now`: not a compressed parent and
/// not expired.
pub open spec fn active(m: MemoryItem, now: i64) -> bool {
    !m.is_compressed && is_live(m.expires_at, now)
}

/// Number of memories of a list that are active at `now`.
pub open spec fn active_count(s: Seq<MemoryItem>, now: i64) -> nat
    decreases s.len(),
{
    if s.len() == 0 {
        0
    } else {
        active_count(s.drop_last(), now) + if active(s.last(), now) {
            1nat
        } else {
            0nat
        }
    }
}

/// The memories of `store` whose id is not in `deletes`, in order.
pub open spec fn kept(store: Seq<MemoryItem>, deletes: Seq<Seq<char>>) -> Seq<MemoryItem>
    decreases store.len(),
{
    if store.len() == 0 {
        Seq::empty()
    } else if deletes.contains(store.last().id@) {
        kept(store.drop_last(), deletes)
    } else {
        kept(store.drop_last(), deletes).push(store.last())
    }
}

/// The store after a decay plan: the rows it keeps, then the rows it adds.
pub open spec fn apply_plan(store: Seq<MemoryItem>, deletes: Seq<Seq<char>>, inserts: Seq<MemoryItem>) -> Seq<MemoryItem> {
    kept(store, deletes) + inserts
}

/// Every inserted record is a compressed parent, and every original it
/// lists is deleted.
pub open spec fn plan_closed(deletes: Seq<Seq<char>>, inserts: Seq<MemoryItem>) -> bool {
    &&& forall|i: int| 0 <= i < inserts.len() ==> (#[trigger] inserts[i]).is_compressed
    &&& forall|i: int, k: int|
        0 <= i < inserts.len() && 0 <= k < inserts[i].compressed_from@.len() ==> deletes.contains(
            #[trigger] inserts[i].compressed_from@[k]@,
        )
}

proof fn lemma_kept_active(store: Seq<MemoryItem>, deletes: Seq<Seq<char>>, now: i64)
    ensures
        active_count(kept(store, deletes), now) <= active_count(store, now),
        forall|k: int|
            0 <= k < kept(store, deletes).len() ==> !deletes.contains(
                (#[trigger] kept(store, deletes)[k]).id@,
            ),
    decreases store.len(),
{
    if store.len() > 0 {
        lemma_kept_active(store.drop_last(), deletes, now);
        let prev = kept(store.drop_last(), deletes);
        if !deletes.contains(store.last().id@) {
            assert(kept(store, deletes).drop_last() =~= prev);
            assert forall|k: int|
                0 <= k < kept(store, deletes).len() implies !deletes.contains(
                (#[trigger] kept(store, deletes)[k]).id@,
            ) by {
                if k < prev.len() {
                    assert(kept(store, deletes)[k] == prev[k]);
                }
            }
        }
    }
}

proof fn lemma_active_concat(a: Seq<MemoryItem>, b: Seq<MemoryItem>, now: i64)
    ensures
        active_count(a + b, now) == active_count(a, now) + active_count(b, now),
    decreases b.len(),
{
    if b.len() == 0 {
        assert(a + b =~= a);
    } else {
        lemma_active_concat(a, b.drop_last(), now);
        assert((a + b).drop_last() =~= a + b.drop_last());
    }
}

proof fn lemma_no_active(s: Seq<MemoryItem>, now: i64)
    requires
        forall|i: int| 0 <= i < s.len() ==> (#[trigger] s[i]).is_compressed,
    ensures
        active_count(s, now) == 0,
    decreases s.len(),
{
    if s.len() > 0 {
        lemma_no_active(s.drop_last(), now);
    }
}

/// Decay never grows the active set: when every inserted record is a
/// compressed parent, the store after the plan has no more active memories
/// than before, whatever it deletes.
pub proof fn decay_never_grows(
    store: Seq<MemoryItem>,
    deletes: Seq<Seq<char>>,
    inserts: Seq<MemoryItem>,
    now: i64,
)
    requires
        plan_closed(deletes, inserts),
    ensures
        active_count(apply_plan(store, deletes, inserts), now) <= active_count(store, now),
{
    lemma_kept_active(store, deletes, now);
    lemma_active_concat(kept(store, deletes), inserts, now);
    lemma_no_active(inserts, now);
}

/// Compression closes over its originals: after a closed plan, no active
/// memory carries an id that an inserted parent lists in `compressed_from`.
pub proof fn compression_closure(
    store: Seq<MemoryItem>,
    deletes: Seq<Seq<char>>,
    inserts: Seq<MemoryItem>,
    now: i64,
)
    requires
        plan_closed(deletes, inserts),
    ensures
        forall|j: int, i: int, k: int|
            0 <= j < apply_plan(store, deletes, inserts).len() && active(
                #[trigger] apply_plan(store, deletes, inserts)[j],
                now,
            ) && 0 <= i < inserts.len() && 0 <= k < inserts[i].compressed_from@.len() ==> apply_plan(
                store,
                deletes,
                inserts,
            )[j].id@ != (#[trigger] inserts[i].compressed_from@[k])@,
{
    lemma_kept_active(store, deletes, now);
    let after = apply_plan(store, deletes, inserts);
    let kp = kept(store, deletes);
    assert forall|j: int, i: int, k: int|
        0 <= j < after.len() && active(#[trigger] after[j], now) && 0 <= i < inserts.len() && 0
            <= k < inserts[i].compressed_from@.len() implies after[j].id@ != (
    #[trigger] inserts[i].compressed_from@[k])@ by {
        if j < kp.len() {
            assert(after[j] == kp[j]);
            assert(deletes.contains(inserts[i].compressed_from@[k]@));
        } else {
            assert(after[j] == inserts[j - kp.len()]);
        }
    }
}

/// `g` holds exactly the compressible positions of one folder, ascending.
pub open spec fn folder_group(items: Seq<MemoryItem>, p: DecayPolicy, now: i64, g: Seq<usize>) -> bool {
    &&& g.len() > 0
    &&& forall|k: int|
        0 <= k < g.len() ==> #[trigger] g[k] < items.len() && compressible(items[g[k] as int], p, now)
            && same_scope(items[g[k] as int], items[g[0] as int])
    &&& forall|q: int|
        0 <= q < items.len() && compressible(#[trigger] items[q], p, now) && same_scope(
            items[q],
            items[g[0] as int],
        ) ==> g.contains(q as usize)
    &&& forall|a: int, b: int| 0 <= a < b < g.len() ==> g[a] < g[b]
}

/// `parent` is what `create_compressed_memory` makes of one whole folder of
/// at least `MIN_GROUP` compressible memories.
pub open spec fn replaces_folder(items: Seq<MemoryItem>, p: DecayPolicy, now: i64, parent: MemoryItem) -> bool {
    exists|g: Seq<usize>|
        #[trigger] folder_group(items, p, now, g) && g.len() >= MIN_GROUP && compressed_record(
            items,
            g,
            parent.id@,
            now,
            parent,
        )
}

/// The folder of `m` holds three distinct compressible memories.
pub open spec fn folder_has_three(items: Seq<MemoryItem>, p: DecayPolicy, now: i64, m: MemoryItem) -> bool {
    exists|a: int, b: int, c: int|
        #![trigger items[a], items[b], items[c]]
        0 <= a < b < c < items.len() && compressible(items[a], p, now) && compressible(
            items[b],
            p,
            now,
        ) && compressible(items[c], p, now) && same_scope(items[a], m) && same_scope(items[b], m)
            && same_scope(items[c], m)
}

/// Some parent of the folder of `m` lists the id of `m` among its originals.
pub open spec fn replaced_in(inserts: Seq<MemoryItem>, m: MemoryItem) -> bool {
    exists|i: int|
        0 <= i < inserts.len() && same_scope(#[trigger] inserts[i], m) && views(
            inserts[i].compressed_from@,
        ).contains(m.id@)
}

/// `id` is one of the originals some parent lists.
pub open spec fn listed_by(inserts: Seq<MemoryItem>, id: Seq<char>) -> bool {
    exists|i: int, j: int|
        0 <= i < inserts.len() && 0 <= j < inserts[i].compressed_from@.len() && (
        #[trigger] inserts[i].compressed_from@[j])@ == id
}

proof fn lemma_three_needs_three(g: Seq<usize>, a: usize, b: usize, c: usize)
    requires
        g.contains(a) && g.contains(b) && g.contains(c),
        a != b && b != c && a != c,
    ensures
        g.len() >= 3,
{
    let ia = choose|i: int| 0 <= i < g.len() && g[i] == a;
    let ib = choose|i: int| 0 <= i < g.len() && g[i] == b;
    let ic = choose|i: int| 0 <= i < g.len() && g[i] == c;
    assert(ia != ib && ib != ic && ia != ic);
}

#[verifier::spinoff_prover]
#[verifier::rlimit(60)]
proof fn lemma_groups_are_folders(
    items: Seq<MemoryItem>,
    p: DecayPolicy,
    now: i64,
    sel: Seq<usize>,
    gv: Seq<Seq<usize>>,
    assign: Seq<usize>,
)
    requires
        items.len() <= usize::MAX,
        selected(items, |m: MemoryItem| compressible(m, p, now), sel),
        forall|g: int| 0 <= g < gv.len() ==> #[trigger] gv[g].len() > 0,
        forall|g: int, k: int|
            0 <= g < gv.len() && 0 <= k < gv[g].len() ==> sel.contains(#[trigger] gv[g][k])
                && same_scope(items[gv[g][k] as int], items[gv[g][0] as int]),
        forall|g: int, h: int|
            0 <= g < h < gv.len() ==> !same_scope(items[gv[g][0] as int], items[gv[h][0] as int]),
        forall|g: int, a: int, b: int| 0 <= g < gv.len() && 0 <= a < b < gv[g].len() ==> gv[g][a] < gv[g][b],
        assign.len() == sel.len(),
        forall|k: int|
            0 <= k < sel.len() ==> #[trigger] assign[k] < gv.len() && gv[assign[k] as int].contains(sel[k]),
    ensures
        forall|h: int| 0 <= h < gv.len() ==> #[trigger] folder_group(items, p, now, gv[h]),
{
    assert forall|h: int| 0 <= h < gv.len() implies #[trigger] folder_group(items, p, now, gv[h]) by {
        let gh = gv[h];
        assert forall|k: int| 0 <= k < gh.len() implies #[trigger] gh[k] < items.len()
            && compressible(items[gh[k] as int], p, now) && same_scope(
            items[gh[k] as int],
            items[gh[0] as int],
        ) by {
            assert(sel.contains(gv[h][k]));
            let x = choose|x: int| 0 <= x < sel.len() && sel[x] == gh[k];
        }
        assert forall|q: int|
            0 <= q < items.len() && compressible(#[trigger] items[q], p, now) && same_scope(
                items[q],
                items[gh[0] as int],
            ) implies gh.contains(q as usize) by {
            let pred = |m: MemoryItem| compressible(m, p, now);
            assert(pred(items[q]));
            assert(sel.contains(q as usize));
            let k = choose|k: int| 0 <= k < sel.len() && sel[k] == q as usize;
            let hh = assign[k] as int;
            assert(gv[hh].contains(sel[k]));
            let x = choose|x: int| 0 <= x < gv[hh].len() && gv[hh][x] == q as usize;
            assert(same_scope(items[gv[hh][x] as int], items[gv[hh][0] as int]));
            if hh < h {
                assert(!same_scope(items[gv[hh][0] as int], items[gv[h][0] as int]));
            } else if hh > h {
                assert(!same_scope(items[gv[h][0] as int], items[gv[hh][0] as int]));
            }
        }
    }
}

proof fn lemma_distinct_parents(
    items: Seq<MemoryItem>,
    gv: Seq<Seq<usize>>,
    inserts: Seq<MemoryItem>,
    from: Seq<int>,
)
    requires
        forall|g: int, h: int|
            0 <= g < h < gv.len() ==> !same_scope(items[gv[g][0] as int], items[gv[h][0] as int]),
        from.len() == inserts.len(),
        forall|i: int| 0 <= i < from.len() ==> 0 <= #[trigger] from[i] < gv.len(),
        forall|i: int, j: int| 0 <= i < j < from.len() ==> from[i] < from[j],
        forall|i: int|
            0 <= i < from.len() ==> same_scope(#[trigger] inserts[i], items[gv[from[i]][0] as int]),
    ensures
        forall|i: int, j: int| 0 <= i < j < inserts.len() ==> !same_scope(inserts[i], inserts[j]),
{
    assert forall|i: int, j: int| 0 <= i < j < inserts.len() implies !same_scope(
        inserts[i],
        inserts[j],
    ) by {
        assert(same_scope(inserts[i], items[gv[from[i]][0] as int]));
        assert(same_scope(inserts[j], items[gv[from[j]][0] as int]));
        assert(from[i] < from[j]);
        assert(0 <= from[i] && from[j] < gv.len());
        assert(!same_scope(items[gv[from[i]][0] as int], items[gv[from[j]][0] as int]));
    }
}

#[verifier::spinoff_prover]
#[verifier::rlimit(60)]
proof fn lemma_plan_coverage(
    items: Seq<MemoryItem>,
    p: DecayPolicy,
    now: i64,
    sel: Seq<usize>,
    gv: Seq<Seq<usize>>,
    assign: Seq<usize>,
    inserts: Seq<MemoryItem>,
)
    requires
        items.len() <= usize::MAX,
        selected(items, |m: MemoryItem| compressible(m, p, now), sel),
        forall|h: int| 0 <= h < gv.len() ==> #[trigger] folder_group(items, p, now, gv[h]),
        assign.len() == sel.len(),
        forall|k: int|
            0 <= k < sel.len() ==> #[trigger] assign[k] < gv.len() && gv[assign[k] as int].contains(sel[k]),
        forall|h: int, k: int|
            0 <= h < gv.len() && 0 <= k < gv[h].len() && gv[h].len() >= MIN_GROUP ==> replaced_in(
                inserts,
                items[#[trigger] gv[h][k] as int],
            ),
    ensures
        forall|q: int|
            0 <= q < items.len() && compressible(#[trigger] items[q], p, now) && folder_has_three(
                items,
                p,
                now,
                items[q],
            ) ==> replaced_in(inserts, items[q]),
{
    assert forall|q: int|
        0 <= q < items.len() && compressible(#[trigger] items[q], p, now) && folder_has_three(
            items,
            p,
            now,
            items[q],
        ) implies replaced_in(inserts, items[q]) by {
        let pred = |m: MemoryItem| compressible(m, p, now);
        assert(pred(items[q]));
        assert(sel.contains(q as usize));
        let k = choose|k: int| 0 <= k < sel.len() && sel[k] == q as usize;
        let h = assign[k] as int;
        let gh = gv[h];
        assert(gh.contains(q as usize));
        let x = choose|x: int| 0 <= x < gh.len() && gh[x] == q as usize;
        assert(folder_group(items, p, now, gh));
        assert(same_scope(items[gh[x] as int], items[gh[0] as int]));
        let (a, b, c) = choose|a: int, b: int, c: int|
            #![trigger items[a], items[b], items[c]]
            0 <= a < b < c < items.len() && compressible(items[a], p, now) && compressible(
                items[b],
                p,
                now,
            ) && compressible(items[c], p, now) && same_scope(items[a], items[q]) && same_scope(
                items[b],
                items[q],
            ) && same_scope(items[c], items[q]);
        assert(same_scope(items[a], items[gh[0] as int]));
        assert(same_scope(items[b], items[gh[0] as int]));
        assert(same_scope(items[c], items[gh[0] as int]));
        assert(gh.contains(a as usize));
        assert(gh.contains(b as usize));
        assert(gh.contains(c as usize));
        lemma_three_needs_three(gh, a as usize, b as usize, c as usize);
        assert(replaced_in(inserts, items[gv[h][x] as int]));
    }
}

#[verifier::spinoff_prover]
#[verifier::rlimit(100)]
proof fn lemma_after_append(
    items: Seq<MemoryItem>,
    p: DecayPolicy,
    now: i64,
    gv: Seq<Seq<usize>>,
    g: int,
    before_i: Seq<MemoryItem>,
    inserts: Seq<MemoryItem>,
    before_d: Seq<String>,
    deletes: Seq<String>,
    from: Seq<int>,
)
    requires
        0 <= g < gv.len(),
        folder_group(items, p, now, gv[g]),
        gv[g].len() >= MIN_GROUP,
        plan_closed(views(before_d), before_i),
        forall|i: int|
            0 <= i < before_i.len() ==> (#[trigger] before_i[i]).compressed_from@.len() >= MIN_GROUP,
        forall|i: int| 0 <= i < before_i.len() ==> replaces_folder(items, p, now, #[trigger] before_i[i]),
        from.len() == before_i.len(),
        forall|i: int| 0 <= i < from.len() ==> 0 <= #[trigger] from[i] < g,
        forall|i: int, j: int| 0 <= i < j < from.len() ==> from[i] < from[j],
        forall|i: int|
            0 <= i < from.len() ==> same_scope(#[trigger] before_i[i], items[gv[from[i]][0] as int]),
        forall|h: int, k: int|
            0 <= h < g && 0 <= k < gv[h].len() && gv[h].len() >= MIN_GROUP ==> replaced_in(
                before_i,
                items[#[trigger] gv[h][k] as int],
            ),
        forall|k: int| 0 <= k < before_d.len() ==> listed_by(before_i, #[trigger] before_d[k]@),
        inserts.len() == before_i.len() + 1,
        forall|i: int| 0 <= i < before_i.len() ==> inserts[i] == before_i[i],
        ({
            let pr = inserts[before_i.len() as int];
            &&& replaces_folder(items, p, now, pr)
            &&& pr.is_compressed
            &&& pr.compressed_from@.len() == gv[g].len()
            &&& same_scope(pr, items[gv[g][0] as int])
            &&& forall|k: int|
                0 <= k < gv[g].len() ==> views(pr.compressed_from@).contains(
                    #[trigger] items[gv[g][k] as int].id@,
                )
            &&& deletes.len() == before_d.len() + pr.compressed_from@.len()
            &&& forall|q: int| 0 <= q < before_d.len() ==> deletes[q] == before_d[q]
            &&& forall|q: int|
                0 <= q < pr.compressed_from@.len() ==> deletes[before_d.len() + q]@
                    == pr.compressed_from@[q]@
        }),
    ensures
        plan_closed(views(deletes), inserts),
        forall|i: int|
            0 <= i < inserts.len() ==> (#[trigger] inserts[i]).compressed_from@.len() >= MIN_GROUP,
        forall|i: int| 0 <= i < inserts.len() ==> replaces_folder(items, p, now, #[trigger] inserts[i]),
        from.push(g).len() == inserts.len(),
        forall|i: int| 0 <= i < from.push(g).len() ==> 0 <= #[trigger] from.push(g)[i] < g + 1,
        forall|i: int, j: int| 0 <= i < j < from.push(g).len() ==> from.push(g)[i] < from.push(g)[j],
        forall|i: int|
            0 <= i < from.push(g).len() ==> same_scope(
                #[trigger] inserts[i],
                items[gv[from.push(g)[i]][0] as int],
            ),
        forall|h: int, k: int|
            0 <= h < g + 1 && 0 <= k < gv[h].len() && gv[h].len() >= MIN_GROUP ==> replaced_in(
                inserts,
                items[#[trigger] gv[h][k] as int],
            ),
        forall|k: int| 0 <= k < deletes.len() ==> listed_by(inserts, #[trigger] deletes[k]@),
{
    let n_old = before_i.len();
    let pr = inserts[n_old as int];
    let f = from.push(g);
    let dv = views(deletes);
    assert forall|i: int, k2: int|
        0 <= i < inserts.len() && 0 <= k2 < inserts[i].compressed_from@.len() implies dv.contains(
            #[trigger] inserts[i].compressed_from@[k2]@,
        ) by {
        if i < n_old {
            assert(inserts[i] == before_i[i]);
            assert(views(before_d).contains(inserts[i].compressed_from@[k2]@));
            let q = choose|q: int| 0 <= q < before_d.len() && views(before_d)[q] == inserts[i].compressed_from@[k2]@;
            assert(dv[q] == deletes[q]@);
        } else {
            assert(dv[before_d.len() + k2] == deletes[before_d.len() + k2]@);
        }
    }
    assert forall|i: int| 0 <= i < inserts.len() implies (#[trigger] inserts[i]).is_compressed by {
        if i < n_old {
            assert(inserts[i] == before_i[i]);
        }
    }
    assert forall|i: int|
        0 <= i < inserts.len() implies (#[trigger] inserts[i]).compressed_from@.len() >= MIN_GROUP by {
        if i < n_old {
            assert(inserts[i] == before_i[i]);
        }
    }
    assert forall|i: int| 0 <= i < inserts.len() implies replaces_folder(items, p, now, #[trigger] inserts[i]) by {
        if i < n_old {
            assert(inserts[i] == before_i[i]);
        }
    }
    assert forall|i: int| 0 <= i < f.len() implies same_scope(#[trigger] inserts[i], items[gv[f[i]][0] as int]) by {
        if i < n_old {
            assert(inserts[i] == before_i[i]);
            assert(f[i] == from[i]);
        }
    }
    assert forall|h: int, kk: int|
        0 <= h < g + 1 && 0 <= kk < gv[h].len() && gv[h].len() >= MIN_GROUP implies replaced_in(
            inserts,
            items[#[trigger] gv[h][kk] as int],
        ) by {
        let m = items[gv[h][kk] as int];
        if h < g {
            assert(replaced_in(before_i, m));
            let i = choose|i: int|
                0 <= i < before_i.len() && same_scope(#[trigger] before_i[i], m) && views(
                    before_i[i].compressed_from@,
                ).contains(m.id@);
            assert(inserts[i] == before_i[i]);
        } else {
            assert(views(pr.compressed_from@).contains(items[gv[g][kk] as int].id@));
            assert(same_scope(m, items[gv[g][0] as int]));
            assert(same_scope(inserts[n_old as int], m));
        }
    }
    assert forall|q: int| 0 <= q < deletes.len() implies listed_by(inserts, #[trigger] deletes[q]@) by {
        if q < before_d.len() {
            assert(deletes[q] == before_d[q]);
            assert(listed_by(before_i, before_d[q]@));
            let (i, j) = choose|i: int, j: int|
                0 <= i < before_i.len() && 0 <= j < before_i[i].compressed_from@.len() && (
                #[trigger] before_i[i].compressed_from@[j])@ == before_d[q]@;
            assert(inserts[i] == before_i[i]);
        } else {
            let j = q - before_d.len();
            assert(inserts[n_old as int].compressed_from@[j]@ == deletes[q]@);
        }
    }
}

/// Appends the compressed parent of folder group `grp` to `inserts` and its
/// originals' ids to `deletes`.
fn append_parent(
    items: &Vec<MemoryItem>,
    policy: &DecayPolicy,
    now: i64,
    grp: &Vec<usize>,
    deletes: &mut Vec<String>,
    inserts: &mut Vec<MemoryItem>,
)
    requires
        folder_group(items@, *policy, now, grp@),
        grp@.len() >= MIN_GROUP,
        forall|k: int| 0 <= k < items@.len() ==> items@[k].importance <= IMPORTANCE_SCALE,
    ensures
        final(inserts)@.len() == old(inserts)@.len() + 1,
        forall|i: int| 0 <= i < old(inserts)@.len() ==> final(inserts)@[i] == old(inserts)@[i],
        ({
            let pr = final(inserts)@[old(inserts)@.len() as int];
            &&& compressed_record(items@, grp@, pr.id@, now, pr)
            &&& replaces_folder(items@, *policy, now, pr)
            &&& pr.is_compressed
            &&& pr.compressed_from@.len() == grp@.len()
            &&& same_scope(pr, items@[grp@[0] as int])
            &&& forall|k: int|
                0 <= k < grp@.len() ==> views(pr.compressed_from@).contains(
                    #[trigger] items@[grp@[k] as int].id@,
                )
            &&& final(deletes)@.len() == old(deletes)@.len() + pr.compressed_from@.len()
            &&& forall|q: int| 0 <= q < old(deletes)@.len() ==> final(deletes)@[q] == old(deletes)@[q]
            &&& forall|q: int|
                0 <= q < pr.compressed_from@.len() ==> final(deletes)@[old(deletes)@.len() + q]@
                    == pr.compressed_from@[q]@
        }),
{
    proof {
        assert forall|k: int| 0 <= k < grp@.len() implies grp@[k] < items@.len() by {
            assert(grp@[k] < items@.len());
        }
    }
    let id = new_id();
    let parent = create_compressed_memory(items, grp, id, now);
    let ghost pos = choose|pos: Seq<usize>|
        #![trigger pick(items@, pos)]
        {
            let sorted = pick(items@, pos);
            &&& pos.len() == grp@.len()
            &&& forall|k: int| 0 <= k < pos.len() ==> grp@.contains(#[trigger] pos[k])
            &&& forall|k: int| 0 <= k < grp@.len() ==> pos.contains(#[trigger] grp@[k])
            &&& ids_of(sorted) == views(parent.compressed_from@)
            &&& parent.user_id@ == sorted[0].user_id@
            &&& parent.session_id@ == sorted[0].session_id@
            &&& parent.is_compressed
        };
    let ghost before_d = deletes@;
    proof {
        assert(ids_of(pick(items@, pos)).len() == pos.len());
        assert(views(parent.compressed_from@).len() == parent.compressed_from@.len());
        assert(grp@.contains(pos[0]));
        let x0 = choose|x: int| 0 <= x < grp@.len() && grp@[x] == pos[0];
        assert(same_scope(items@[grp@[x0] as int], items@[grp@[0] as int]));
        assert(same_scope(parent, items@[grp@[0] as int]));
        assert forall|k: int| 0 <= k < grp@.len() implies views(parent.compressed_from@).contains(
            #[trigger] items@[grp@[k] as int].id@,
        ) by {
            assert(pos.contains(grp@[k]));
            let a = choose|a: int| 0 <= a < pos.len() && pos[a] == grp@[k];
            assert(ids_of(pick(items@, pos))[a] == items@[grp@[k] as int].id@);
        }
        assert(replaces_folder(items@, *policy, now, parent));
    }
    let mut k: usize = 0;
    while k < parent.compressed_from.len()
        invariant
            k <= parent.compressed_from@.len(),
            deletes@.len() == before_d.len() + k,
            forall|q: int| 0 <= q < before_d.len() ==> deletes@[q] == before_d[q],
            forall|q: int|
                0 <= q < k ==> deletes@[before_d.len() + q]@ == parent.compressed_from@[q]@,
        decreases parent.compressed_from@.len() - k,
    {
        deletes.push(parent.compressed_from[k].clone());
        k = k + 1;
    }
    inserts.push(parent);
}

/// The compression phase's plan over the recalled candidates: each folder
/// with at least `MIN_GROUP` compressible memories is replaced by one
/// compressed parent, and its originals are deleted.
#[verifier::spinoff_prover]
#[verifier::rlimit(100)]
pub fn plan_compression(items: &Vec<MemoryItem>, policy: &DecayPolicy, now: i64) -> (r: DecayPlan)
    requires
        now >= EARLIEST_DECAY_TIME,
        policy.valid(),
        forall|k: int| 0 <= k < items@.len() ==> items@[k].importance <= IMPORTANCE_SCALE,
    ensures
        forall|i: int|
            0 <= i < r.inserts@.len() ==> replaces_folder(items@, *policy, now, #[trigger] r.inserts@[i]),
        forall|i: int, j: int|
            0 <= i < j < r.inserts@.len() ==> !same_scope(r.inserts@[i], r.inserts@[j]),
        forall|q: int|
            0 <= q < items@.len() && compressible(#[trigger] items@[q], *policy, now) && folder_has_three(
                items@,
                *policy,
                now,
                items@[q],
            ) ==> replaced_in(r.inserts@, items@[q]),
        forall|k: int| 0 <= k < r.delete_ids@.len() ==> listed_by(r.inserts@, #[trigger] r.delete_ids@[k]@),
        plan_closed(views(r.delete_ids@), r.inserts@),
        forall|i: int|
            0 <= i < r.inserts@.len() ==> (#[trigger] r.inserts@[i]).compressed_from@.len()
                >= MIN_GROUP,
{
    let sel = select_compressible(items, policy, now);
    let (groups, assign) = group_by_scope(items, &sel);
    let ghost gv = groups@.map_values(|v: Vec<usize>| v@);
    let n_items = items.len();
    proof {
        assert(n_items == items@.len());
        assert forall|h: int| 0 <= h < groups@.len() implies gv[h] == groups@[h]@ by {}
        lemma_groups_are_folders(items@, *policy, now, sel@, gv, assign@);
    }
    let mut deletes: Vec<String> = Vec::new();
    let mut inserts: Vec<MemoryItem> = Vec::new();
    let ghost mut from: Seq<int> = Seq::empty();
    let mut g: usize = 0;
    while g < groups.len()
        invariant
            g <= groups@.len(),
            forall|k: int| 0 <= k < items@.len() ==> items@[k].importance <= IMPORTANCE_SCALE,
            forall|k: int|
                0 <= k < sel@.len() ==> sel@[k] < items@.len() && compressible(
                    items@[sel@[k] as int],
                    *policy,
                    now,
                ),
            forall|h: int, k: int|
                0 <= h < groups@.len() && 0 <= k < groups@[h]@.len() ==> sel@.contains(
                    #[trigger] groups@[h]@[k],
                ),
            gv == groups@.map_values(|v: Vec<usize>| v@),
            forall|h: int| 0 <= h < groups@.len() ==> #[trigger] folder_group(
                items@,
                *policy,
                now,
                gv[h],
            ),
            forall|h: int| 0 <= h < groups@.len() ==> #[trigger] gv[h] == groups@[h]@,
            assign@.len() == sel@.len(),
            forall|k: int|
                0 <= k < sel@.len() ==> #[trigger] assign@[k] < groups@.len() && gv[assign@[k] as int].contains(
                    sel@[k],
                ),
            forall|h1: int, h2: int|
                0 <= h1 < h2 < gv.len() ==> !same_scope(
                    items@[gv[h1][0] as int],
                    items@[gv[h2][0] as int],
                ),
            plan_closed(views(deletes@), inserts@),
            forall|i: int|
                0 <= i < inserts@.len() ==> (#[trigger] inserts@[i]).compressed_from@.len()
                    >= MIN_GROUP,
            forall|i: int|
                0 <= i < inserts@.len() ==> replaces_folder(items@, *policy, now, #[trigger] inserts@[i]),
            from.len() == inserts@.len(),
            forall|i: int| 0 <= i < from.len() ==> 0 <= #[trigger] from[i] < g,
            forall|i: int, j: int| 0 <= i < j < from.len() ==> from[i] < from[j],
            forall|i: int|
                0 <= i < from.len() ==> same_scope(
                    #[trigger] inserts@[i],
                    items@[gv[from[i]][0] as int],
                ),
            forall|h: int, k: int|
                0 <= h < g && 0 <= k < gv[h].len() && gv[h].len() >= MIN_GROUP
                    ==> replaced_in(inserts@, items@[#[trigger] gv[h][k] as int]),
            forall|k: int| 0 <= k < deletes@.len() ==> listed_by(inserts@, #[trigger] deletes@[k]@),
        decreases groups@.len() - g,
    {
        let grp = &groups[g];
        if grp.len() >= MIN_GROUP {
            let ghost before_d = deletes@;
            let ghost before_i = inserts@;
            proof {
                assert(gv[g as int] == grp@);
            }
            append_parent(items, policy, now, grp, &mut deletes, &mut inserts);
            proof {
                let f0 = from;
                from = f0.push(g as int);
                lemma_after_append(items@, *policy, now, gv, g as int, before_i, inserts@, before_d, deletes@, f0);
            }
        }
        g = g + 1;
    }
    proof {
        lemma_distinct_parents(items@, gv, inserts@, from);
        lemma_plan_coverage(items@, *policy, now, sel@, gv, assign@, inserts@);
    }
    DecayPlan { delete_ids: deletes, inserts }
}

/// Audit record of one decay pass.
#[derive(Debug, Clone)]
pub struct DecayStats {
    pub run_id: String,
    pub started_at: i64,
    pub completed_at: Option<i64>,
    pub memories_expired: usize,
    pub memories_compressed: usize,
    pub sessions_summarized: usize,
    pub total_memories_before: usize,
    pub total_memories_after: usize,
    pub storage_saved_bytes: usize,
    pub status: DecayStatus,
    pub error_message: Option<String>,
}

/// Estimated bytes reclaimed by removing `n` memories, saturating.
pub open spec fn reclaimed_spec(n: int) -> int {
    if n * BYTES_PER_MEMORY > usize::MAX {
        usize::MAX as int
    } else {
        n * BYTES_PER_MEMORY
    }
}

impl DecayStats {
    /// A running pass with nothing counted yet.
    pub fn begin(run_id: String, started_at: i64) -> (r: DecayStats)
        ensures
            r.run_id == run_id && r.started_at == started_at && r.completed_at.is_none(),
            r.memories_expired == 0 && r.memories_compressed == 0 && r.sessions_summarized == 0,
            r.total_memories_before == 0 && r.total_memories_after == 0,
            r.storage_saved_bytes == 0,
            r.status == DecayStatus::Running && r.error_message.is_none(),
    {
        DecayStats {
            run_id,
            started_at,
            completed_at: None,
            memories_expired: 0,
            memories_compressed: 0,
            sessions_summarized: 0,
            total_memories_before: 0,
            total_memories_after: 0,
            storage_saved_bytes: 0,
            status: DecayStatus::Running,
            error_message: None,
        }
    }

    /// Records that a phase failed: the pass will end as failed, and the
    /// message is kept.
    pub fn phase_failed(&mut self, message: String)
        ensures
            final(self).status == DecayStatus::Failed,
            final(self).error_message == Some(message),
            final(self).run_id == old(self).run_id,
            final(self).started_at == old(self).started_at,
            final(self).completed_at == old(self).completed_at,
            final(self).memories_expired == old(self).memories_expired,
            final(self).memories_compressed == old(self).memories_compressed,
            final(self).sessions_summarized == old(self).sessions_summarized,
            final(self).total_memories_before == old(self).total_memories_before,
            final(self).total_memories_after == old(self).total_memories_after,
            final(self).storage_saved_bytes == old(self).storage_saved_bytes,
    {
        self.status = DecayStatus::Failed;
        self.error_message = Some(message);
    }

    /// Closes the pass at `now` with `after` active memories: the reclaimed
    /// estimate is 1 KiB per expired or compressed memory, and a pass in which
    /// no phase failed is completed.
    pub fn finish(&mut self, after: usize, now: i64)
        ensures
            final(self).completed_at == Some(now),
            final(self).total_memories_after == after,
            final(self).storage_saved_bytes == reclaimed_spec(
                old(self).memories_expired + old(self).memories_compressed,
            ),
            old(self).status == DecayStatus::Running ==> final(self).status == DecayStatus::Completed,
            old(self).status != DecayStatus::Running ==> final(self).status == old(self).status,
            final(self).run_id == old(self).run_id,
            final(self).started_at == old(self).started_at,
            final(self).memories_expired == old(self).memories_expired,
            final(self).memories_compressed == old(self).memories_compressed,
            final(self).sessions_summarized == old(self).sessions_summarized,
            final(self).total_memories_before == old(self).total_memories_before,
            final(self).error_message == old(self).error_message,
    {
        let removed: u128 = self.memories_expired as u128 + self.memories_compressed as u128;
        let bytes: u128 = removed * BYTES_PER_MEMORY as u128;
        self.storage_saved_bytes = if bytes > usize::MAX as u128 {
            usize::MAX
        } else {
            bytes as usize
        };
        self.total_memories_after = after;
        self.completed_at = Some(now);
        if self.status == DecayStatus::Running {
            self.status = DecayStatus::Completed;
        }
    }
}

/// Age buckets of the decay analytics.
#[derive(Debug, Clone, Copy, PartialEq, Eq, Structural)]
pub enum AgeBucket {
    Day,
    Week,
    Month,
    Quarter,
    Year,
    Older,
}

/// Whole hours from `created_at` to `now`, truncated toward zero.
pub open spec fn age_hours(created_at: i64, now: i64) -> int {
    let d = now - created_at;
    if d >= 0 {
        d / 3600
    } else {
        -((-d) / 3600)
    }
}

/// The bucket of an age in whole hours: up to a day, a week, four weeks,
/// three months, a year, or older (negative ages count as older).
pub open spec fn bucket_spec(h: int) -> AgeBucket {
    if 0 <= h <= 24 {
        AgeBucket::Day
    } else if 25 <= h <= 168 {
        AgeBucket::Week
    } else if 169 <= h <= 720 {
        AgeBucket::Month
    } else if 721 <= h <= 2160 {
        AgeBucket::Quarter
    } else if 2161 <= h <= 8760 {
        AgeBucket::Year
    } else {
        AgeBucket::Older
    }
}

impl AgeBucket {
    /// The bucket's label.
    pub fn label(&self) -> (r: String)
        ensures
            r@ == bucket_label(*self),
    {
        match self {
            AgeBucket::Day => "0-24h".to_string(),
            AgeBucket::Week => "1-7d".to_string(),
            AgeBucket::Month => "1-4w".to_string(),
            AgeBucket::Quarter => "1-3m".to_string(),
            AgeBucket::Year => "3m-1y".to_string(),
            AgeBucket::Older => "1y+".to_string(),
        }
    }
}

/// The label of a bucket.
pub open spec fn bucket_label(b: AgeBucket) -> Seq<char> {
    match b {
        AgeBucket::Day => "0-24h"@,
        AgeBucket::Week => "1-7d"@,
        AgeBucket::Month => "1-4w"@,
        AgeBucket::Quarter => "1-3m"@,
        AgeBucket::Year => "3m-1y"@,
        AgeBucket::Older => "1y+"@,
    }
}

/// The age bucket of a memory created at `created_at`, seen at `now`.
pub fn age_bucket(created_at: i64, now: i64) -> (r: AgeBucket)
    ensures
        r == bucket_spec(age_hours(created_at, now)),
{
    let d: i128 = now as i128 - created_at as i128;
    let h: i128 = if d >= 0 {
        d / 3600
    } else {
        -((-d) / 3600)
    };
    if 0 <= h && h <= 24 {
        AgeBucket::Day
    } else if 25 <= h && h <= 168 {
        AgeBucket::Week
    } else if 169 <= h && h <= 720 {
        AgeBucket::Month
    } else if 721 <= h && h <= 2160 {
        AgeBucket::Quarter
    } else if 2161 <= h && h <= 8760 {
        AgeBucket::Year
    } else {
        AgeBucket::Older
    }
}

/// Number of memories per age bucket.
#[derive(Debug, Clone, Copy)]
pub struct AgeDistribution {
    pub day: usize,
    pub week: usize,
    pub month: usize,
    pub quarter: usize,
    pub year: usize,
    pub older: usize,
}

/// Number of instants of `s` whose age at `now` falls in bucket `b`.
pub open spec fn bucket_count(s: Seq<i64>, now: i64, b: AgeBucket) -> nat
    decreases s.len(),
{
    if s.len() == 0 {
        0
    } else {
        bucket_count(s.drop_last(), now, b) + if bucket_spec(age_hours(s.last(), now)) == b {
            1nat
        } else {
            0nat
        }
    }
}

impl AgeDistribution {
    /// The count of one bucket.
    pub open spec fn count(&self, b: AgeBucket) -> nat {
        match b {
            AgeBucket::Day => self.day as nat,
            AgeBucket::Week => self.week as nat,
            AgeBucket::Month => self.month as nat,
            AgeBucket::Quarter => self.quarter as nat,
            AgeBucket::Year => self.year as nat,
            AgeBucket::Older => self.older as nat,
        }
    }

    /// Memories in all buckets.
    pub open spec fn total(&self) -> int {
        self.day + self.week + self.month + self.quarter + self.year + self.older
    }
}

/// The age histogram of the memories created at the given instants.
pub fn analyze_age_distribution(created: &Vec<i64>, now: i64) -> (r: AgeDistribution)
    ensures
        forall|b: AgeBucket| r.count(b) == bucket_count(created@, now, b),
        r.total() == created@.len(),
{
    let mut r = AgeDistribution { day: 0, week: 0, month: 0, quarter: 0, year: 0, older: 0 };
    let mut i: usize = 0;
    while i < created.len()
        invariant
            i <= created@.len(),
            r.total() == i,
            forall|b: AgeBucket| r.count(b) == bucket_count(created@.subrange(0, i as int), now, b),
        decreases created@.len() - i,
    {
        let ghost before = r;
        let ghost sub = created@.subrange(0, i + 1);
        proof {
            assert(sub.drop_last() =~= created@.subrange(0, i as int));
            assert(sub.last() == created@[i as int]);
        }
        let b = age_bucket(created[i], now);
        match b {
            AgeBucket::Day => r.day = r.day + 1,
            AgeBucket::Week => r.week = r.week + 1,
            AgeBucket::Month => r.month = r.month + 1,
            AgeBucket::Quarter => r.quarter = r.quarter + 1,
            AgeBucket::Year => r.year = r.year + 1,
            AgeBucket::Older => r.older = r.older + 1,
        }
        proof {
            assert forall|c: AgeBucket| r.count(c) == bucket_count(sub, now, c) by {
                assert(before.count(c) == bucket_count(created@.subrange(0, i as int), now, c));
            }
        }
        i = i + 1;
    }
    proof {
        assert(created@.subrange(0, created@.len() as int) =~= created@);
    }
    r
}

/// Suggestions drawn from an age histogram.
#[derive(Debug, Clone)]
pub struct DecayRecommendations {
    pub total_memories: usize,
    pub age_distribution: AgeDistribution,
    /// Share of memories older than three months, in whole percent.
    pub old_memory_percent: usize,
    pub recommendations: Vec<String>,
    pub suggested_max_age_hours: Option<u32>,
    pub estimated_cleanup_count: usize,
}

/// Advice when more than half of the memories are old.
pub const ADVICE_OLD: &'static str = "Consider running decay process - over 50% of memories are old";

/// Advice when the store holds more than the per-user limit.
pub const ADVICE_LIMIT: &'static str = "Memory count exceeds configured limits - cleanup recommended";

/// Advice when more than half of the memories are a day old or less.
pub const ADVICE_RECENT: &'static str = "High recent activity detected - consider adjusting TTL policies";

/// Recommendations for a histogram under a policy: memories older than three
/// months are "old"; more than half old suggests a decay run, more than 70%
/// old suggests halving `max_age_hours`; more memories than the per-user
/// limit suggests cleanup; more than half from the last day suggests
/// revisiting TTLs.
pub fn get_decay_recommendations(dist: AgeDistribution, policy: &DecayPolicy) -> (r: DecayRecommendations)
    requires
        dist.total() <= usize::MAX,
    ensures
        r.total_memories == dist.total(),
        r.estimated_cleanup_count == dist.year + dist.older,
        r.total_memories > 0 ==> r.old_memory_percent == (dist.year + dist.older) * 100
            / dist.total(),
        r.total_memories == 0 ==> r.old_memory_percent == 0,
        r.age_distribution == dist,
        ({
            let old = dist.year + dist.older;
            let t = dist.total();
            let a1 = t > 0 && 2 * old > t;
            let a2 = t > policy.max_memories_per_user;
            let a3 = dist.day > t / 2;
            &&& views(r.recommendations@) == (if a1 { seq![ADVICE_OLD@] } else { seq![] }) + (if a2 {
                seq![ADVICE_LIMIT@]
            } else {
                seq![]
            }) + (if a3 { seq![ADVICE_RECENT@] } else { seq![] })
            &&& r.suggested_max_age_hours == if t > 0 && 10 * old > 7 * t {
                Some((policy.max_age_hours / 2) as u32)
            } else {
                None
            }
        }),
{
    let total = dist.day + dist.week + dist.month + dist.quarter + dist.year + dist.older;
    let old = dist.year + dist.older;
    let percent: usize = if total > 0 {
        ((old as u128 * 100) / total as u128) as usize
    } else {
        0
    };
    let mut recs: Vec<String> = Vec::new();
    if total > 0 && 2 * (old as u128) > total as u128 {
        recs.push(ADVICE_OLD.to_string());
    }
    if total > policy.max_memories_per_user {
        recs.push(ADVICE_LIMIT.to_string());
    }
    if dist.day > total / 2 {
        recs.push(ADVICE_RECENT.to_string());
    }
    let suggested = if total > 0 && 10 * (old as u128) > 7 * (total as u128) {
        Some(policy.max_age_hours / 2)
    } else {
        None
    };
    proof {
        if total > 0 {
            let q = (old * 100) / (total as int);
            assert(q <= 100) by (nonlinear_arith)
                requires
                    old <= total,
                    total > 0,
                    q == (old * 100) / (total as int),
            ;
        }
    }
    let r = DecayRecommendations {
        total_memories: total,
        age_distribution: dist,
        old_memory_percent: percent,
        recommendations: recs,
        suggested_max_age_hours: suggested,
        estimated_cleanup_count: old,
    };
    proof {
        let old_i = dist.year + dist.older;
        let t = dist.total();
        let a1 = t > 0 && 2 * old_i > t;
        let a2 = t > policy.max_memories_per_user;
        let a3 = dist.day > t / 2;
        assert(views(r.recommendations@) =~= (if a1 { seq![ADVICE_OLD@] } else { seq![] }) + (if a2 {
            seq![ADVICE_LIMIT@]
        } else {
            seq![]
        }) + (if a3 { seq![ADVICE_RECENT@] } else { seq![] }));
    }
    r
}

/// The phases of a decay run, in order.
#[derive(Debug, Clone, Copy, PartialEq, Eq, Structural)]
pub enum DecayPhase {
    CountBefore,
    Expire,
    Purge,
    Compress,
    Summarize,
    Quota,
    CountAfter,
    Done,
}

/// The outcome of one phase, as the storage layer reports it.
pub enum PhaseOutcome {
    /// The phase succeeded and touched this many rows (or counted them).
    Done(usize),
    Failed(String),
}

/// The phase after `p`; compression and summarisation run only when the
/// policy enables them.
pub open spec fn next_phase_spec(p: DecayPhase, policy: DecayPolicy) -> DecayPhase {
    match p {
        DecayPhase::CountBefore => DecayPhase::Expire,
        DecayPhase::Expire => DecayPhase::Purge,
        DecayPhase::Purge => if policy.compression_enabled {
            DecayPhase::Compress
        } else if policy.auto_summarize_sessions {
            DecayPhase::Summarize
        } else {
            DecayPhase::Quota
        },
        DecayPhase::Compress => if policy.auto_summarize_sessions {
            DecayPhase::Summarize
        } else {
            DecayPhase::Quota
        },
        DecayPhase::Summarize => DecayPhase::Quota,
        DecayPhase::Quota => DecayPhase::CountAfter,
        DecayPhase::CountAfter => DecayPhase::Done,
        DecayPhase::Done => DecayPhase::Done,
    }
}

/// The phase to run after `p`.
pub fn next_phase(p: DecayPhase, policy: &DecayPolicy) -> (r: DecayPhase)
    ensures
        r == next_phase_spec(p, *policy),
{
    match p {
        DecayPhase::CountBefore => DecayPhase::Expire,
        DecayPhase::Expire => DecayPhase::Purge,
        DecayPhase::Purge => if policy.compression_enabled {
            DecayPhase::Compress
        } else if policy.auto_summarize_sessions {
            DecayPhase::Summarize
        } else {
            DecayPhase::Quota
        },
        DecayPhase::Compress => if policy.auto_summarize_sessions {
            DecayPhase::Summarize
        } else {
            DecayPhase::Quota
        },
        DecayPhase::Summarize => DecayPhase::Quota,
        DecayPhase::Quota => DecayPhase::CountAfter,
        DecayPhase::CountAfter => DecayPhase::Done,
        DecayPhase::Done => DecayPhase::Done,
    }
}

/// `a + b`, or `usize::MAX` when the sum does not fit.
pub open spec fn sat_add(a: usize, b: usize) -> usize {
    if a + b > usize::MAX {
        usize::MAX
    } else {
        (a + b) as usize
    }
}

/// The name of a phase in error messages.
pub open spec fn phase_name(p: DecayPhase) -> Seq<char> {
    match p {
        DecayPhase::CountBefore => "Initial count"@,
        DecayPhase::Expire => "Expiry"@,
        DecayPhase::Purge => "Purge"@,
        DecayPhase::Compress => "Compression"@,
        DecayPhase::Summarize => "Summarization"@,
        DecayPhase::Quota => "Limit enforcement"@,
        DecayPhase::CountAfter => "Final count"@,
        DecayPhase::Done => "Completion"@,
    }
}

fn phase_label(p: DecayPhase) -> (r: String)
    ensures
        r@ == phase_name(p),
{
    match p {
        DecayPhase::CountBefore => owned("Initial count"),
        DecayPhase::Expire => owned("Expiry"),
        DecayPhase::Purge => owned("Purge"),
        DecayPhase::Compress => owned("Compression"),
        DecayPhase::Summarize => owned("Summarization"),
        DecayPhase::Quota => owned("Limit enforcement"),
        DecayPhase::CountAfter => owned("Final count"),
        DecayPhase::Done => owned("Completion"),
    }
}

impl DecayStats {
    /// Records the outcome of phase `p`. A success adds its count where the
    /// phase counts: expiry, purge and quota removals add to
    /// `memories_expired`, compression sets `memories_compressed`,
    /// summarisation sets `sessions_summarized`, the counts set the totals. A
    /// failure marks the run failed with `"<phase> failed: <message>"` and the
    /// run goes on with the next phase.
    pub fn record(&mut self, p: DecayPhase, outcome: PhaseOutcome)
        ensures
            match outcome {
                PhaseOutcome::Failed(m) => {
                    &&& final(self).status == DecayStatus::Failed
                    &&& final(self).error_message matches Some(e) && e@ == phase_name(p)
                        + " failed: "@ + m@
                    &&& final(self).memories_expired == old(self).memories_expired
                    &&& final(self).memories_compressed == old(self).memories_compressed
                    &&& final(self).sessions_summarized == old(self).sessions_summarized
                    &&& final(self).total_memories_before == old(self).total_memories_before
                    &&& final(self).total_memories_after == old(self).total_memories_after
                },
                PhaseOutcome::Done(n) => {
                    &&& final(self).status == old(self).status
                    &&& final(self).error_message == old(self).error_message
                    &&& final(self).memories_expired == (match p {
                        DecayPhase::Expire | DecayPhase::Purge | DecayPhase::Quota => sat_add(
                            old(self).memories_expired,
                            n,
                        ),
                        _ => old(self).memories_expired,
                    })
                    &&& final(self).memories_compressed == (if p == DecayPhase::Compress {
                        n
                    } else {
                        old(self).memories_compressed
                    })
                    &&& final(self).sessions_summarized == (if p == DecayPhase::Summarize {
                        n
                    } else {
                        old(self).sessions_summarized
                    })
                    &&& final(self).total_memories_before == (if p == DecayPhase::CountBefore {
                        n
                    } else {
                        old(self).total_memories_before
                    })
                    &&& final(self).total_memories_after == (if p == DecayPhase::CountAfter {
                        n
                    } else {
                        old(self).total_memories_after
                    })
                },
            },
            final(self).run_id == old(self).run_id,
            final(self).started_at == old(self).started_at,
            final(self).completed_at == old(self).completed_at,
            final(self).storage_saved_bytes == old(self).storage_saved_bytes,
    {
        match outcome {
            PhaseOutcome::Failed(m) => {
                let mut e = phase_label(p);
                e.append(" failed: ");
                e.append(m.as_str());
                self.status = DecayStatus::Failed;
                self.error_message = Some(e);
            },
            PhaseOutcome::Done(n) => {
                match p {
                    DecayPhase::Expire | DecayPhase::Purge | DecayPhase::Quota => {
                        self.memories_expired = if n > usize::MAX - self.memories_expired {
                            usize::MAX
                        } else {
                            self.memories_expired + n
                        };
                    },
                    DecayPhase::Compress => self.memories_compressed = n,
                    DecayPhase::Summarize => self.sessions_summarized = n,
                    DecayPhase::CountBefore => self.total_memories_before = n,
                    DecayPhase::CountAfter => self.total_memories_after = n,
                    DecayPhase::Done => {},
                }
            },
        }
    }
}

/// The entries of `order` at the positions `top`.
pub open spec fn through(order: Seq<usize>, top: Seq<usize>) -> Seq<usize> {
    top.map_values(|j: usize| order[j as int])
}

/// Eviction scores of memories in a given order: the less important, the
/// higher.
pub open spec fn eviction_scores(items: Seq<MemoryItem>, pos: Seq<usize>) -> Seq<u64> {
    pos.map_values(|p: usize| (IMPORTANCE_SCALE - items[p as int].importance) as u64)
}

/// Positions of a user's memories that quota enforcement deletes so that
/// `max` remain: lowest importance first, then oldest, then earliest
/// position. Nothing is deleted at or under quota.
pub fn quota_evictions(items: &Vec<MemoryItem>, max: usize) -> (r: Vec<usize>)
    requires
        forall|k: int| 0 <= k < items@.len() ==> items@[k].importance <= IMPORTANCE_SCALE,
    ensures
        items@.len() <= max ==> r@.len() == 0,
        items@.len() > max ==> exists|order: Seq<usize>, top: Seq<usize>|
            #![trigger eviction_scores(items@, order), through(order, top)]
            {
                &&& chronological(items@, Seq::new(items@.len(), |i: int| i as usize), order)
                &&& is_top_k(
                    eviction_scores(items@, order),
                    (items@.len() - max) as nat,
                    top,
                )
                &&& r@ == through(order, top)
            },
{
    let n = items.len();
    if n <= max {
        return Vec::new();
    }
    let mut all: Vec<usize> = Vec::new();
    let mut i: usize = 0;
    while i < n
        invariant
            i <= n,
            n == items@.len(),
            all@ == Seq::new(i as nat, |q: int| q as usize),
        decreases n - i,
    {
        all.push(i);
        proof {
            assert(all@ =~= Seq::new((i + 1) as nat, |q: int| q as usize));
        }
        i = i + 1;
    }
    let order = chronological_order(items, &all);
    let ghost ord = choose|o: Seq<usize>|
        chronological(items@, all@, o) && order@ == o.map_values(|j: usize| all@[j as int]);
    proof {
        assert(order@ =~= ord);
    }
    let mut scores: Vec<u64> = Vec::new();
    let mut k: usize = 0;
    while k < order.len()
        invariant
            k <= order@.len(),
            forall|q: int| 0 <= q < order@.len() ==> order@[q] < items@.len(),
            forall|q: int| 0 <= q < items@.len() ==> items@[q].importance <= IMPORTANCE_SCALE,
            scores@ == eviction_scores(items@, order@.subrange(0, k as int)),
        decreases order@.len() - k,
    {
        scores.push((IMPORTANCE_SCALE - items[order[k]].importance) as u64);
        proof {
            assert(eviction_scores(items@, order@.subrange(0, k + 1)) =~= scores@);
        }
        k = k + 1;
    }
    assert(order@.subrange(0, order@.len() as int) =~= order@);
    let top = top_k(&scores, n - max);
    let mut r: Vec<usize> = Vec::new();
    let mut j: usize = 0;
    while j < top.len()
        invariant
            j <= top@.len(),
            forall|a: int| 0 <= a < top@.len() ==> top@[a] < order@.len(),
            r@ == top@.subrange(0, j as int).map_values(|q: usize| order@[q as int]),
        decreases top@.len() - j,
    {
        r.push(order[top[j]]);
        proof {
            assert(top@.subrange(0, j + 1).map_values(|q: usize| order@[q as int]) =~= r@);
        }
        j = j + 1;
    }
    assert(top@.subrange(0, top@.len() as int) =~= top@);
    proof {
        assert(all@ =~= Seq::new(items@.len(), |q: int| q as usize));
        assert(scores@ == eviction_scores(items@, ord));
        assert(r@ == through(ord, top@));
    }
    r
}

/// Days of inactivity after which decay summarises a session.
pub const SUMMARY_AGE_SECS: i64 = 7 * 24 * 3600;

/// Positions of the memories created at or before `cutoff`, ascending.
pub fn select_created_by(items: &Vec<MemoryItem>, cutoff: i64) -> (r: Vec<usize>)
    ensures
        selected(items@, |m: MemoryItem| m.created_at <= cutoff, r@),
{
    let ghost pred = |m: MemoryItem| m.created_at <= cutoff;
    let mut r: Vec<usize> = Vec::new();
    let mut i: usize = 0;
    while i < items.len()
        invariant
            i <= items@.len(),
            pred == (|m: MemoryItem| m.created_at <= cutoff),
            forall|k: int| 0 <= k < r@.len() ==> r@[k] < i && pred(items@[r@[k] as int]),
            forall|j: int| 0 <= j < i && pred(#[trigger] items@[j]) ==> r@.contains(j as usize),
            forall|a: int, b: int| 0 <= a < b < r@.len() ==> r@[a] < r@[b],
        decreases items@.len() - i,
    {
        if items[i].created_at <= cutoff {
            let ghost before = r@;
            r.push(i);
            proof {
                assert forall|j: int|
                    0 <= j < i + 1 && pred(#[trigger] items@[j]) implies r@.contains(j as usize) by {
                    if j < i {
                        let k = choose|k: int| 0 <= k < before.len() && before[k] == j as usize;
                        assert(r@[k] == j as usize);
                    } else {
                        assert(r@[r@.len() - 1] == j as usize);
                    }
                }
            }
        }
        i = i + 1;
    }
    r
}

/// Positions of the memories of user `user`, ascending.
pub fn select_user(items: &Vec<MemoryItem>, user: &String) -> (r: Vec<usize>)
    ensures
        selected(items@, |m: MemoryItem| m.user_id@ == user@, r@),
{
    let ghost pred = |m: MemoryItem| m.user_id@ == user@;
    let mut r: Vec<usize> = Vec::new();
    let mut i: usize = 0;
    while i < items.len()
        invariant
            i <= items@.len(),
            pred == (|m: MemoryItem| m.user_id@ == user@),
            forall|k: int| 0 <= k < r@.len() ==> r@[k] < i && pred(items@[r@[k] as int]),
            forall|j: int| 0 <= j < i && pred(#[trigger] items@[j]) ==> r@.contains(j as usize),
            forall|a: int, b: int| 0 <= a < b < r@.len() ==> r@[a] < r@[b],
        decreases items@.len() - i,
    {
        if items[i].user_id == *user {
            let ghost before = r@;
            r.push(i);
            proof {
                assert forall|j: int|
                    0 <= j < i + 1 && pred(#[trigger] items@[j]) implies r@.contains(j as usize) by {
                    if j < i {
                        let k = choose|k: int| 0 <= k < before.len() && before[k] == j as usize;
                        assert(r@[k] == j as usize);
                    } else {
                        assert(r@[r@.len() - 1] == j as usize);
                    }
                }
            }
        }
        i = i + 1;
    }
    r
}

} // verus!
