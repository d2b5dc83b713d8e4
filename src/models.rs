//! Value records of the memory store: memories, filters, pages, sessions and
//! decay bookkeeping.
//!
//! Instants are whole seconds since the Unix epoch. Importance is held in
//! thousandths: `0` is 0.0 and `IMPORTANCE_SCALE` is 1.0.
use vstd::prelude::*;

use crate::text::{lowercase, lower_of};
use crate::util::str_is;
use crate::validation::now_secs;

verus! {

/// Importance of 1.0, in thousandths.
pub const IMPORTANCE_SCALE: u32 = 1000;

/// Default importance of a fresh memory (0.5).
pub const DEFAULT_IMPORTANCE: u32 = 500;

/// Default page size of a recall.
pub const DEFAULT_PAGE_SIZE: usize = 50;

/// Largest accepted page size.
pub const MAX_PAGE_SIZE: usize = 1000;

/// Largest accepted page offset.
pub const MAX_OFFSET: usize = 1000000;

/// Largest accepted time to live, in hours (one year).
pub const MAX_TTL_HOURS: u32 = 8760;

/// Seconds in one hour.
pub const SECS_PER_HOUR: i64 = 3600;

/// A stored textual memory scoped to a user and a session.
#[derive(Debug, Clone)]
pub struct MemoryItem {
    pub id: String,
    pub user_id: String,
    pub session_id: String,
    pub content: String,
    /// Short key/value annotations, keys in insertion order.
    pub metadata: Vec<(String, String)>,
    pub created_at: i64,
    pub updated_at: i64,
    pub expires_at: Option<i64>,
    /// Importance in thousandths.
    pub importance: u32,
    pub ttl_hours: Option<u32>,
    pub is_compressed: bool,
    /// Ids of the memories this record summarises, oldest first.
    pub compressed_from: Vec<String>,
}

impl Default for MemoryItem {
    /// An empty record created now, of importance 0.5, with no time to live.
    fn default() -> (r: MemoryItem)
        ensures
            r.id@.len() == 0 && r.user_id@.len() == 0 && r.session_id@.len() == 0,
            r.content@.len() == 0 && r.metadata@.len() == 0,
            r.created_at == r.updated_at,
            r.expires_at.is_none() && r.ttl_hours.is_none(),
            r.importance == DEFAULT_IMPORTANCE,
            !r.is_compressed && r.compressed_from@.len() == 0,
    {
        let now = now_secs();
        MemoryItem {
            id: String::new(),
            user_id: String::new(),
            session_id: String::new(),
            content: String::new(),
            metadata: Vec::new(),
            created_at: now,
            updated_at: now,
            expires_at: None,
            importance: DEFAULT_IMPORTANCE,
            ttl_hours: None,
            is_compressed: false,
            compressed_from: Vec::new(),
        }
    }
}

/// The memory is visible at instant `now`: it has no expiry, or its expiry
/// lies strictly after `now`.
pub open spec fn is_live(expires_at: Option<i64>, now: i64) -> bool {
    match expires_at {
        None => true,
        Some(e) => e > now,
    }
}

/// Clamps a raw importance (thousandths, any sign) into `[0, IMPORTANCE_SCALE]`.
pub open spec fn clamp_spec(raw: int) -> int {
    if raw < 0 {
        0
    } else if raw > IMPORTANCE_SCALE as int {
        IMPORTANCE_SCALE as int
    } else {
        raw
    }
}

/// Clamps an importance given in thousandths into `[0, IMPORTANCE_SCALE]`.
pub fn clamp_importance(raw: i64) -> (r: u32)
    ensures
        r as int == clamp_spec(raw as int),
        r <= IMPORTANCE_SCALE,
{
    if raw < 0 {
        0
    } else if raw > IMPORTANCE_SCALE as i64 {
        IMPORTANCE_SCALE
    } else {
        raw as u32
    }
}

/// Expiry instant for a memory created at `created_at` with an optional time
/// to live in hours.
pub open spec fn expiry_spec(created_at: i64, ttl_hours: Option<u32>) -> Option<int> {
    match ttl_hours {
        None => None,
        Some(h) => Some(created_at as int + h as int * SECS_PER_HOUR as int),
    }
}

/// Query filter of a recall.
#[derive(Debug, Clone)]
pub struct QueryFilter {
    pub user_id: Option<String>,
    pub session_id: Option<String>,
    /// Keywords, OR'ed together as a full-text expression.
    pub keywords: Option<Vec<String>>,
    /// Inclusive lower bound on `created_at`.
    pub date_from: Option<i64>,
    /// Exclusive upper bound on `created_at`.
    pub date_to: Option<i64>,
    pub limit: Option<usize>,
    pub offset: Option<usize>,
    /// Minimum importance, in thousandths.
    pub min_importance: Option<u32>,
}

impl QueryFilter {
    /// The filter's bounds are within range: a limit in `[1, MAX_PAGE_SIZE]`,
    /// an offset of at most `MAX_OFFSET`, a minimum importance of at most 1.0.
    pub open spec fn valid(&self) -> bool {
        &&& (self.limit matches Some(l) ==> 1 <= l <= MAX_PAGE_SIZE)
        &&& (self.offset matches Some(o) ==> o <= MAX_OFFSET)
        &&& (self.min_importance matches Some(m) ==> m <= IMPORTANCE_SCALE)
    }

    /// Whether the bounds of the filter are in range.
    pub fn is_valid(&self) -> (r: bool)
        ensures
            r == self.valid(),
    {
        let l_ok = match self.limit {
            Some(l) => 1 <= l && l <= MAX_PAGE_SIZE,
            None => true,
        };
        let o_ok = match self.offset {
            Some(o) => o <= MAX_OFFSET,
            None => true,
        };
        let m_ok = match self.min_importance {
            Some(m) => m <= IMPORTANCE_SCALE,
            None => true,
        };
        l_ok && o_ok && m_ok
    }

    /// The filter every recall starts from: no predicates, page size 50,
    /// offset 0.
    pub open spec fn is_default_paging(&self) -> bool {
        self.limit == Some(DEFAULT_PAGE_SIZE) && self.offset == Some(0usize)
    }

    /// A filter for a user's memories matching any of the keywords; an empty
    /// keyword list sets no keyword predicate.
    pub fn for_user_with_keywords(user_id: &str, keywords: Vec<String>) -> (r: QueryFilter)
        ensures
            r.user_id matches Some(u) && u@ == user_id@,
            r.session_id.is_none(),
            keywords@.len() == 0 ==> r.keywords.is_none(),
            keywords@.len() > 0 ==> (r.keywords matches Some(k) && k@ == keywords@),
            r.date_from.is_none() && r.date_to.is_none() && r.min_importance.is_none(),
            r.is_default_paging(),
    {
        let kw = if keywords.len() == 0 {
            None
        } else {
            Some(keywords)
        };
        QueryFilter {
            user_id: Some(user_id.to_string()),
            session_id: None,
            keywords: kw,
            date_from: None,
            date_to: None,
            limit: Some(DEFAULT_PAGE_SIZE),
            offset: Some(0),
            min_importance: None,
        }
    }

    /// A filter for the memories of one session of a user.
    pub fn for_session(user_id: &str, session_id: &str) -> (r: QueryFilter)
        ensures
            r.user_id matches Some(u) && u@ == user_id@,
            r.session_id matches Some(s) && s@ == session_id@,
            r.keywords.is_none(),
            r.date_from.is_none() && r.date_to.is_none() && r.min_importance.is_none(),
            r.is_default_paging(),
    {
        QueryFilter {
            user_id: Some(user_id.to_string()),
            session_id: Some(session_id.to_string()),
            keywords: None,
            date_from: None,
            date_to: None,
            limit: Some(DEFAULT_PAGE_SIZE),
            offset: Some(0),
            min_importance: None,
        }
    }

    /// A filter for a user's memories of at least the given importance.
    pub fn high_importance(user_id: &str, threshold: u32) -> (r: QueryFilter)
        ensures
            r.user_id matches Some(u) && u@ == user_id@,
            r.session_id.is_none() && r.keywords.is_none(),
            r.min_importance == Some(threshold),
            r.date_from.is_none() && r.date_to.is_none(),
            r.is_default_paging(),
    {
        QueryFilter {
            user_id: Some(user_id.to_string()),
            session_id: None,
            keywords: None,
            date_from: None,
            date_to: None,
            limit: Some(DEFAULT_PAGE_SIZE),
            offset: Some(0),
            min_importance: Some(threshold),
        }
    }

    /// A filter for a user's memories created within `[from, to)`.
    pub fn date_range(user_id: &str, from: i64, to: i64) -> (r: QueryFilter)
        ensures
            r.user_id matches Some(u) && u@ == user_id@,
            r.session_id.is_none() && r.keywords.is_none() && r.min_importance.is_none(),
            r.date_from == Some(from) && r.date_to == Some(to),
            r.is_default_paging(),
    {
        QueryFilter {
            user_id: Some(user_id.to_string()),
            session_id: None,
            keywords: None,
            date_from: Some(from),
            date_to: Some(to),
            limit: Some(DEFAULT_PAGE_SIZE),
            offset: Some(0),
            min_importance: None,
        }
    }
}

impl Default for QueryFilter {
    fn default() -> (r: QueryFilter)
        ensures
            r.user_id.is_none() && r.session_id.is_none() && r.keywords.is_none(),
            r.date_from.is_none() && r.date_to.is_none() && r.min_importance.is_none(),
            r.is_default_paging(),
    {
        QueryFilter {
            user_id: None,
            session_id: None,
            keywords: None,
            date_from: None,
            date_to: None,
            limit: Some(DEFAULT_PAGE_SIZE),
            offset: Some(0),
            min_importance: None,
        }
    }
}

/// Lifecycle state of a decay pass.
#[derive(Debug, Clone, Copy, PartialEq, Eq, Structural)]
pub enum DecayStatus {
    Running,
    Completed,
    Failed,
}

/// The lower-case name of a status.
pub open spec fn status_name(s: DecayStatus) -> Seq<char> {
    match s {
        DecayStatus::Running => "running"@,
        DecayStatus::Completed => "completed"@,
        DecayStatus::Failed => "failed"@,
    }
}

impl DecayStatus {
    /// The status's lower-case name.
    pub fn to_string(&self) -> (r: String)
        ensures
            r@ == status_name(*self),
    {
        match self {
            DecayStatus::Running => "running".to_string(),
            DecayStatus::Completed => "completed".to_string(),
            DecayStatus::Failed => "failed".to_string(),
        }
    }

    /// Parses a status name, ignoring case.
    pub fn from_str(s: &str) -> (r: Result<DecayStatus, String>)
        ensures
            match r {
                Ok(st) => status_name(st) == lower_of(s@),
                Err(_) => forall|st: DecayStatus| status_name(st) != lower_of(s@),
            },
    {
        let low = lowercase(s);
        if str_is(&low, "running") {
            Ok(DecayStatus::Running)
        } else if str_is(&low, "completed") {
            Ok(DecayStatus::Completed)
        } else if str_is(&low, "failed") {
            Ok(DecayStatus::Failed)
        } else {
            Err("Invalid decay status".to_string())
        }
    }
}

} // verus!
