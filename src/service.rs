//! The memory service's decisions: stamping a record for save, sparse
//! updates, batch rate cost, search keywords and per-user statistics.
use vstd::prelude::*;

use crate::models::{
    clamp_spec, expiry_spec, MemoryItem, QueryFilter, IMPORTANCE_SCALE, MAX_TTL_HOURS,
    SECS_PER_HOUR,
};
use crate::decay::age_hours;
use crate::text::{split_words, string_of, views, words_of};

verus! {

/// `created_at` of a record that has not been stamped yet.
pub const UNSET_TIME: i64 = i64::MIN;

/// Latest instant at which a record may be stamped, so that a year of time
/// to live still fits.
pub const LATEST_TIME: i64 = i64::MAX - 8760 * 3600;

/// Rate-limit tokens a batch of `n` items costs: one per ten items, rounded
/// up, and at least one.
pub open spec fn batch_tokens_spec(n: nat) -> nat {
    let t = if n % 10 == 0 {
        n / 10
    } else {
        n / 10 + 1
    };
    if t < 1 {
        1
    } else if t > u32::MAX {
        u32::MAX as nat
    } else {
        t
    }
}

/// Rate-limit tokens a batch of `n` items costs.
pub fn batch_tokens(n: usize) -> (r: u32)
    ensures
        r == batch_tokens_spec(n as nat),
{
    let t: usize = if n % 10 == 0 {
        n / 10
    } else {
        n / 10 + 1
    };
    if t < 1 {
        1
    } else if t > u32::MAX as usize {
        u32::MAX
    } else {
        t as u32
    }
}

/// A record as save persists it: an id (the given one, or `fresh_id` when
/// empty), `created_at` stamped to `now` when unset, `updated_at` stamped to
/// `now`, the expiry recomputed from the time to live, the importance
/// clamped; all other fields unchanged.
pub open spec fn prepared(m: MemoryItem, now: i64, fresh_id: Seq<char>, r: MemoryItem) -> bool {
    let created = if m.created_at == UNSET_TIME {
        now
    } else {
        m.created_at
    };
    &&& r.id@ == (if m.id@.len() == 0 {
        fresh_id
    } else {
        m.id@
    })
    &&& r.created_at == created
    &&& r.updated_at == now
    &&& (match expiry_spec(created, m.ttl_hours) {
        None => r.expires_at.is_none(),
        Some(e) => r.expires_at == Some(e as i64),
    })
    &&& r.importance == clamp_spec(m.importance as int)
    &&& r.user_id == m.user_id && r.session_id == m.session_id && r.content == m.content
    &&& r.metadata == m.metadata && r.ttl_hours == m.ttl_hours
    &&& r.is_compressed == m.is_compressed && r.compressed_from == m.compressed_from
}

/// Stamps a record for save at `now`.
pub fn prepare_memory(m: MemoryItem, now: i64, fresh_id: String) -> (r: MemoryItem)
    requires
        m.ttl_hours matches Some(h) ==> h <= MAX_TTL_HOURS,
        m.created_at <= LATEST_TIME,
        now <= LATEST_TIME,
    ensures
        prepared(m, now, fresh_id@, r),
        r.importance <= IMPORTANCE_SCALE,
{
    let mut m = m;
    if m.id.as_str().is_empty() {
        m.id = fresh_id;
    }
    if m.created_at == UNSET_TIME {
        m.created_at = now;
    }
    m.updated_at = now;
    m.expires_at = match m.ttl_hours {
        None => None,
        Some(h) => Some(m.created_at + h as i64 * SECS_PER_HOUR),
    };
    if m.importance > IMPORTANCE_SCALE {
        m.importance = IMPORTANCE_SCALE;
    }
    m
}

/// A sparse update of a memory: absent fields stay unchanged; `ttl_hours`
/// is two-level so that a time to live can be cleared.
#[derive(Debug, Clone)]
pub struct MemoryUpdate {
    pub content: Option<String>,
    /// New importance in thousandths, clamped into range.
    pub importance: Option<i64>,
    pub metadata: Option<Vec<(String, String)>>,
    pub ttl_hours: Option<Option<u32>>,
}

/// The record after an update at `now`.
pub open spec fn updated(m: MemoryItem, u: MemoryUpdate, now: i64, r: MemoryItem) -> bool {
    &&& r.content == (match u.content {
        Some(c) => c,
        None => m.content,
    })
    &&& r.importance == (match u.importance {
        Some(i) => clamp_spec(i as int) as u32,
        None => m.importance,
    })
    &&& r.metadata == (match u.metadata {
        Some(md) => md,
        None => m.metadata,
    })
    &&& (match u.ttl_hours {
        Some(t) => r.ttl_hours == t && (match expiry_spec(m.created_at, t) {
            None => r.expires_at.is_none(),
            Some(e) => r.expires_at == Some(e as i64),
        }),
        None => r.ttl_hours == m.ttl_hours && r.expires_at == m.expires_at,
    })
    &&& r.updated_at == now
    &&& r.id == m.id && r.user_id == m.user_id && r.session_id == m.session_id
    &&& r.created_at == m.created_at
    &&& r.is_compressed == m.is_compressed && r.compressed_from == m.compressed_from
}

/// Applies a sparse update at `now`.
pub fn apply_update(m: MemoryItem, u: MemoryUpdate, now: i64) -> (r: MemoryItem)
    requires
        m.created_at <= LATEST_TIME,
        m.importance <= IMPORTANCE_SCALE,
        u.ttl_hours matches Some(Some(h)) ==> h <= MAX_TTL_HOURS,
    ensures
        updated(m, u, now, r),
        r.importance <= IMPORTANCE_SCALE,
{
    let mut m = m;
    let MemoryUpdate { content, importance, metadata, ttl_hours } = u;
    match content {
        Some(c) => m.content = c,
        None => {},
    }
    match importance {
        Some(i) => {
            m.importance = if i < 0 {
                0
            } else if i > IMPORTANCE_SCALE as i64 {
                IMPORTANCE_SCALE
            } else {
                i as u32
            };
        },
        None => {},
    }
    match metadata {
        Some(md) => m.metadata = md,
        None => {},
    }
    match ttl_hours {
        Some(t) => {
            m.ttl_hours = t;
            m.expires_at = match t {
                None => None,
                Some(h) => Some(m.created_at + h as i64 * SECS_PER_HOUR),
            };
        },
        None => {},
    }
    m.updated_at = now;
    m
}

/// The keywords of a search query: its white-space separated words.
pub fn search_keywords(query: &str) -> (r: Vec<String>)
    ensures
        views(r@) == words_of(query@),
{
    let ws = split_words(query);
    let mut r: Vec<String> = Vec::new();
    let mut i: usize = 0;
    while i < ws.len()
        invariant
            i <= ws@.len(),
            ws@.len() == words_of(query@).len(),
            forall|k: int| 0 <= k < ws@.len() ==> #[trigger] ws@[k]@ == words_of(query@)[k],
            views(r@) == words_of(query@).subrange(0, i as int),
        decreases ws@.len() - i,
    {
        let s = string_of(&ws[i]);
        let ghost before = r@;
        r.push(s);
        proof {
            assert(views(r@) =~= views(before).push(ws@[i as int]@));
            assert(views(r@) =~= words_of(query@).subrange(0, i + 1));
        }
        i = i + 1;
    }
    assert(words_of(query@).subrange(0, ws@.len() as int) =~= words_of(query@));
    r
}

/// The recall filter of a search for `user_id`: the query's words as OR'ed
/// keywords with the given paging; `None` when the query has no words, which
/// yields an empty page.
pub fn search_filter(user_id: &str, query: &str, limit: Option<usize>, offset: Option<usize>) -> (r: Option<QueryFilter>)
    ensures
        words_of(query@).len() == 0 <==> r.is_none(),
        r matches Some(f) ==> {
            &&& f.user_id matches Some(u) && u@ == user_id@
            &&& f.keywords matches Some(k) && views(k@) == words_of(query@)
            &&& f.session_id.is_none() && f.date_from.is_none() && f.date_to.is_none()
            &&& f.min_importance.is_none()
            &&& f.limit == limit && f.offset == offset
        },
{
    let keywords = search_keywords(query);
    if keywords.len() == 0 {
        return None;
    }
    Some(
        QueryFilter {
            user_id: Some(user_id.to_string()),
            session_id: None,
            keywords: Some(keywords),
            date_from: None,
            date_to: None,
            limit,
            offset,
            min_importance: None,
        },
    )
}

/// Importance buckets of the user statistics.
#[derive(Debug, Clone, Copy, PartialEq, Eq, Structural)]
pub enum ImportanceBucket {
    VeryLow,
    Low,
    Medium,
    High,
}

/// The bucket of an importance in thousandths: below 0.2, below 0.5, below
/// 0.8, or higher.
pub open spec fn importance_bucket_spec(i: u32) -> ImportanceBucket {
    if i >= 800 {
        ImportanceBucket::High
    } else if i >= 500 {
        ImportanceBucket::Medium
    } else if i >= 200 {
        ImportanceBucket::Low
    } else {
        ImportanceBucket::VeryLow
    }
}

/// The importance bucket of an importance in thousandths.
pub fn importance_bucket(i: u32) -> (r: ImportanceBucket)
    ensures
        r == importance_bucket_spec(i),
{
    if i >= 800 {
        ImportanceBucket::High
    } else if i >= 500 {
        ImportanceBucket::Medium
    } else if i >= 200 {
        ImportanceBucket::Low
    } else {
        ImportanceBucket::VeryLow
    }
}

/// Per-user statistics over the user's active memories.
#[derive(Debug, Clone)]
pub struct UserMemoryStats {
    pub total_memories: usize,
    /// Mean importance in thousandths, rounded down; zero without memories.
    pub avg_importance: u32,
    pub very_low: usize,
    pub low: usize,
    pub medium: usize,
    pub high: usize,
    pub oldest_memory: Option<i64>,
    pub newest_memory: Option<i64>,
}

/// Number of memories whose importance falls in bucket `b`.
pub open spec fn importance_count(s: Seq<MemoryItem>, b: ImportanceBucket) -> nat
    decreases s.len(),
{
    if s.len() == 0 {
        0
    } else {
        importance_count(s.drop_last(), b) + if importance_bucket_spec(s.last().importance) == b {
            1nat
        } else {
            0nat
        }
    }
}

/// Total importance of a list of memories.
pub open spec fn total_importance(s: Seq<MemoryItem>) -> nat
    decreases s.len(),
{
    if s.len() == 0 {
        0
    } else {
        total_importance(s.drop_last()) + s.last().importance as nat
    }
}

impl UserMemoryStats {
    pub open spec fn bucket(&self, b: ImportanceBucket) -> nat {
        match b {
            ImportanceBucket::VeryLow => self.very_low as nat,
            ImportanceBucket::Low => self.low as nat,
            ImportanceBucket::Medium => self.medium as nat,
            ImportanceBucket::High => self.high as nat,
        }
    }
}

/// Statistics of a user's memories: their number, mean importance, the
/// importance histogram and the oldest and newest creation instants.
pub fn user_memory_stats(memories: &Vec<MemoryItem>) -> (r: UserMemoryStats)
    requires
        forall|k: int| 0 <= k < memories@.len() ==> memories@[k].importance <= IMPORTANCE_SCALE,
    ensures
        r.total_memories == memories@.len(),
        memories@.len() == 0 ==> r.avg_importance == 0,
        memories@.len() > 0 ==> r.avg_importance == total_importance(memories@)
            / memories@.len(),
        forall|b: ImportanceBucket| r.bucket(b) == importance_count(memories@, b),
        memories@.len() == 0 ==> r.oldest_memory.is_none() && r.newest_memory.is_none(),
        memories@.len() > 0 ==> (r.oldest_memory matches Some(o) && (forall|k: int|
            0 <= k < memories@.len() ==> o <= memories@[k].created_at) && exists|k: int|
            0 <= k < memories@.len() && memories@[k].created_at == o),
        memories@.len() > 0 ==> (r.newest_memory matches Some(o) && (forall|k: int|
            0 <= k < memories@.len() ==> o >= memories@[k].created_at) && exists|k: int|
            0 <= k < memories@.len() && memories@[k].created_at == o),
{
    let mut r = UserMemoryStats {
        total_memories: memories.len(),
        avg_importance: 0,
        very_low: 0,
        low: 0,
        medium: 0,
        high: 0,
        oldest_memory: None,
        newest_memory: None,
    };
    let mut total: u128 = 0;
    let mut i: usize = 0;
    while i < memories.len()
        invariant
            i <= memories@.len(),
            r.total_memories == memories@.len(),
            r.avg_importance == 0,
            forall|k: int| 0 <= k < memories@.len() ==> memories@[k].importance <= IMPORTANCE_SCALE,
            total == total_importance(memories@.subrange(0, i as int)),
            total <= i * IMPORTANCE_SCALE,
            r.very_low + r.low + r.medium + r.high == i,
            forall|b: ImportanceBucket| r.bucket(b) == importance_count(
                memories@.subrange(0, i as int),
                b,
            ),
            i == 0 ==> r.oldest_memory.is_none() && r.newest_memory.is_none(),
            i > 0 ==> (r.oldest_memory matches Some(o) && (forall|k: int|
                0 <= k < i ==> o <= memories@[k].created_at) && exists|k: int|
                0 <= k < i && memories@[k].created_at == o),
            i > 0 ==> (r.newest_memory matches Some(o) && (forall|k: int|
                0 <= k < i ==> o >= memories@[k].created_at) && exists|k: int|
                0 <= k < i && memories@[k].created_at == o),
        decreases memories@.len() - i,
    {
        let ghost before = r;
        let ghost sub = memories@.subrange(0, i + 1);
        proof {
            assert(sub.drop_last() =~= memories@.subrange(0, i as int));
            assert(sub.last() == memories@[i as int]);
        }
        let m = &memories[i];
        total = total + m.importance as u128;
        match importance_bucket(m.importance) {
            ImportanceBucket::VeryLow => r.very_low = r.very_low + 1,
            ImportanceBucket::Low => r.low = r.low + 1,
            ImportanceBucket::Medium => r.medium = r.medium + 1,
            ImportanceBucket::High => r.high = r.high + 1,
        }
        proof {
            assert forall|c: ImportanceBucket| r.bucket(c) == importance_count(sub, c) by {
                assert(before.bucket(c) == importance_count(memories@.subrange(0, i as int), c));
            }
        }
        let t = m.created_at;
        r.oldest_memory = match r.oldest_memory {
            None => Some(t),
            Some(o) => if t < o {
                Some(t)
            } else {
                Some(o)
            },
        };
        r.newest_memory = match r.newest_memory {
            None => Some(t),
            Some(o) => if t > o {
                Some(t)
            } else {
                Some(o)
            },
        };
        i = i + 1;
    }
    proof {
        assert(memories@.subrange(0, memories@.len() as int) =~= memories@);
    }
    let ghost counted = r;
    if memories.len() > 0 {
        let n = memories.len() as u128;
        proof {
            assert(total / n <= IMPORTANCE_SCALE) by (nonlinear_arith)
                requires
                    total <= n * IMPORTANCE_SCALE,
                    n >= 1,
            ;
        }
        r.avg_importance = (total / n) as u32;
    }
    proof {
        assert forall|b: ImportanceBucket| r.bucket(b) == importance_count(memories@, b) by {
            assert(counted.bucket(b) == importance_count(memories@, b));
        }
    }
    r
}

/// Age buckets of the user statistics.
#[derive(Debug, Clone, Copy, PartialEq, Eq, Structural)]
pub enum UserAgeBucket {
    Day,
    Week,
    Month,
    Year,
    Older,
}

/// The bucket of an age in whole hours (truncated toward zero): at most a
/// day (future instants included), a week, thirty days, a year, or older.
pub open spec fn user_age_bucket_spec(h: int) -> UserAgeBucket {
    if h <= 24 {
        UserAgeBucket::Day
    } else if h <= 168 {
        UserAgeBucket::Week
    } else if h <= 720 {
        UserAgeBucket::Month
    } else if h <= 8760 {
        UserAgeBucket::Year
    } else {
        UserAgeBucket::Older
    }
}

/// Number of memories per age bucket of the user statistics.
#[derive(Debug, Clone, Copy)]
pub struct UserAgeHistogram {
    pub day: usize,
    pub week: usize,
    pub month: usize,
    pub year: usize,
    pub older: usize,
}

impl UserAgeHistogram {
    pub open spec fn count(&self, b: UserAgeBucket) -> nat {
        match b {
            UserAgeBucket::Day => self.day as nat,
            UserAgeBucket::Week => self.week as nat,
            UserAgeBucket::Month => self.month as nat,
            UserAgeBucket::Year => self.year as nat,
            UserAgeBucket::Older => self.older as nat,
        }
    }
}

/// Number of memories of `s` whose age at `now` falls in bucket `b`.
pub open spec fn user_age_count(s: Seq<MemoryItem>, now: i64, b: UserAgeBucket) -> nat
    decreases s.len(),
{
    if s.len() == 0 {
        0
    } else {
        user_age_count(s.drop_last(), now, b) + if user_age_bucket_spec(
            age_hours(s.last().created_at, now),
        ) == b {
            1nat
        } else {
            0nat
        }
    }
}

/// The age histogram of a user's memories at `now`.
pub fn user_age_histogram(memories: &Vec<MemoryItem>, now: i64) -> (r: UserAgeHistogram)
    ensures
        forall|b: UserAgeBucket| r.count(b) == user_age_count(memories@, now, b),
{
    let mut r = UserAgeHistogram { day: 0, week: 0, month: 0, year: 0, older: 0 };
    let mut i: usize = 0;
    while i < memories.len()
        invariant
            i <= memories@.len(),
            r.day + r.week + r.month + r.year + r.older == i,
            forall|b: UserAgeBucket| r.count(b) == user_age_count(
                memories@.subrange(0, i as int),
                now,
                b,
            ),
        decreases memories@.len() - i,
    {
        let ghost before = r;
        let ghost sub = memories@.subrange(0, i + 1);
        proof {
            assert(sub.drop_last() =~= memories@.subrange(0, i as int));
            assert(sub.last() == memories@[i as int]);
        }
        let d: i128 = now as i128 - memories[i].created_at as i128;
        let h: i128 = if d >= 0 {
            d / 3600
        } else {
            -((-d) / 3600)
        };
        if h <= 24 {
            r.day = r.day + 1;
        } else if h <= 168 {
            r.week = r.week + 1;
        } else if h <= 720 {
            r.month = r.month + 1;
        } else if h <= 8760 {
            r.year = r.year + 1;
        } else {
            r.older = r.older + 1;
        }
        proof {
            assert forall|c: UserAgeBucket| r.count(c) == user_age_count(sub, now, c) by {
                assert(before.count(c) == user_age_count(memories@.subrange(0, i as int), now, c));
            }
        }
        i = i + 1;
    }
    proof {
        assert(memories@.subrange(0, memories@.len() as int) =~= memories@);
    }
    r
}

} // verus!
