//! Request validation: configuration bounds, record checks, the token-bucket
//! rate limiter and batch bookkeeping.
use vstd::prelude::*;
use vstd::string::*;
use vstd::utf8::encode_utf8;

use crate::models::{MemoryItem, QueryFilter, IMPORTANCE_SCALE, MAX_TTL_HOURS};
use crate::text::{blank_of, decimal, decimal_string, is_blank};
use crate::util::owned;

verus! {

/// Largest accepted total size of a memory's metadata, in bytes.
pub const MAX_METADATA_BYTES: usize = 10000;

/// Largest accepted length of a user or session id, in characters.
pub const MAX_ID_CHARS: usize = 255;

/// Largest accepted content length, in bytes (1 MB).
pub const MAX_CONTENT_BYTES: usize = 1000000;

/// Errors of request validation.
#[derive(Debug)]
pub enum ValidationError {
    RateLimitExceeded,
    BatchSizeExceeded { size: usize, max: usize },
    InvalidInput { message: String },
    UserQuotaExceeded { current: usize, max: usize },
}

/// Process configuration of the store.
#[derive(Debug, Clone)]
pub struct MindCacheConfig {
    pub database_path: String,
    pub default_memory_ttl_hours: Option<u32>,
    pub auto_decay_enabled: bool,
    pub decay_interval_hours: u32,
    pub enable_compression: bool,
    pub max_memories_per_user: usize,
    /// Importance threshold, in thousandths.
    pub importance_threshold: u32,
    pub enable_request_limits: bool,
    pub max_requests_per_minute: u32,
    pub max_batch_size: usize,
}

impl MindCacheConfig {
    /// Every bounded field is within its range.
    pub open spec fn valid(&self) -> bool {
        &&& (self.default_memory_ttl_hours matches Some(h) ==> 1 <= h <= MAX_TTL_HOURS)
        &&& 1 <= self.decay_interval_hours <= 168
        &&& 1 <= self.max_memories_per_user <= 1000000
        &&& self.importance_threshold <= IMPORTANCE_SCALE
        &&& 1 <= self.max_requests_per_minute <= 10000
        &&& 1 <= self.max_batch_size <= 1000
    }

    /// Checks the bounds of every field; the error names the first field
    /// out of range.
    pub fn validate(&self) -> (r: Result<(), ValidationError>)
        ensures
            r.is_ok() == self.valid(),
    {
        let ttl_ok = match self.default_memory_ttl_hours {
            Some(h) => 1 <= h && h <= MAX_TTL_HOURS,
            None => true,
        };
        if !ttl_ok {
            return Err(invalid("default_memory_ttl_hours"));
        }
        if !(1 <= self.decay_interval_hours && self.decay_interval_hours <= 168) {
            return Err(invalid("decay_interval_hours"));
        }
        if !(1 <= self.max_memories_per_user && self.max_memories_per_user <= 1000000) {
            return Err(invalid("max_memories_per_user"));
        }
        if self.importance_threshold > IMPORTANCE_SCALE {
            return Err(invalid("importance_threshold"));
        }
        if !(1 <= self.max_requests_per_minute && self.max_requests_per_minute <= 10000) {
            return Err(invalid("max_requests_per_minute"));
        }
        if !(1 <= self.max_batch_size && self.max_batch_size <= 1000) {
            return Err(invalid("max_batch_size"));
        }
        Ok(())
    }
}

impl Default for MindCacheConfig {
    fn default() -> (r: MindCacheConfig)
        ensures
            r.database_path@ == "mindcache.db"@,
            r.default_memory_ttl_hours == Some(720u32),
            r.auto_decay_enabled && r.enable_compression && r.enable_request_limits,
            r.decay_interval_hours == 24,
            r.max_memories_per_user == 10000,
            r.importance_threshold == 300,
            r.max_requests_per_minute == 1000,
            r.max_batch_size == 100,
            r.valid(),
    {
        MindCacheConfig {
            database_path: "mindcache.db".to_string(),
            default_memory_ttl_hours: Some(720),
            auto_decay_enabled: true,
            decay_interval_hours: 24,
            enable_compression: true,
            max_memories_per_user: 10000,
            importance_threshold: 300,
            enable_request_limits: true,
            max_requests_per_minute: 1000,
            max_batch_size: 100,
        }
    }
}

/// An `InvalidInput` error with the given message.
fn invalid(message: &str) -> (r: ValidationError)
    ensures
        r matches ValidationError::InvalidInput { message: m } && m@ == message@,
{
    ValidationError::InvalidInput { message: message.to_string() }
}

/// Length of a string in bytes, as `str::len` reports it.
pub open spec fn byte_len(s: String) -> int {
    (encode_utf8(s@).len() as usize) as int
}

/// Total size in bytes of the keys and values of a metadata list.
pub open spec fn metadata_bytes(s: Seq<(String, String)>) -> int
    decreases s.len(),
{
    if s.len() == 0 {
        0
    } else {
        metadata_bytes(s.drop_last()) + byte_len(s.last().0) + byte_len(s.last().1)
    }
}

proof fn lemma_metadata_bytes_grows(s: Seq<(String, String)>, i: int, j: int)
    requires
        0 <= i <= j <= s.len(),
    ensures
        metadata_bytes(s.subrange(0, i)) <= metadata_bytes(s.subrange(0, j)),
    decreases j - i,
{
    if i < j {
        lemma_metadata_bytes_grows(s, i, j - 1);
        assert(s.subrange(0, j).drop_last() =~= s.subrange(0, j - 1));
    }
}

/// The per-field bounds of a memory record.
pub open spec fn fields_valid(m: &MemoryItem) -> bool {
    &&& 1 <= m.user_id@.len() <= MAX_ID_CHARS
    &&& 1 <= m.session_id@.len() <= MAX_ID_CHARS
    &&& 1 <= byte_len(m.content) <= MAX_CONTENT_BYTES
    &&& m.importance <= IMPORTANCE_SCALE
    &&& (m.ttl_hours matches Some(h) ==> 1 <= h <= MAX_TTL_HOURS)
}

/// The record-level rules of a memory: content not blank, metadata of at most
/// `MAX_METADATA_BYTES`, and `is_compressed` exactly when `compressed_from` is
/// non-empty.
pub open spec fn record_valid(m: &MemoryItem) -> bool {
    record_valid_given(m, blank_of(m.content@))
}

/// The record-level rules, given whether the content is blank.
pub open spec fn record_valid_given(m: &MemoryItem, blank: bool) -> bool {
    &&& !blank
    &&& metadata_bytes(m.metadata@) <= MAX_METADATA_BYTES
    &&& m.is_compressed == (m.compressed_from@.len() > 0)
}

impl MemoryItem {
    /// Checks the per-field bounds.
    pub fn validate(&self) -> (r: Result<(), ValidationError>)
        ensures
            r.is_ok() == fields_valid(self),
            r is Err ==> r matches Err(ValidationError::InvalidInput { .. }),
    {
        let u = self.user_id.as_str().unicode_len();
        if u < 1 || u > MAX_ID_CHARS {
            return Err(invalid("user_id"));
        }
        let s = self.session_id.as_str().unicode_len();
        if s < 1 || s > MAX_ID_CHARS {
            return Err(invalid("session_id"));
        }
        let c = self.content.as_str().len();
        if c < 1 || c > MAX_CONTENT_BYTES {
            return Err(invalid("content"));
        }
        if self.importance > IMPORTANCE_SCALE {
            return Err(invalid("importance"));
        }
        match self.ttl_hours {
            Some(h) => {
                if h < 1 || h > MAX_TTL_HOURS {
                    return Err(invalid("ttl_hours"));
                }
            },
            None => {},
        }
        Ok(())
    }

    /// Checks the record-level rules; the error message names the rule.
    pub fn validate_custom(&self) -> (r: Result<(), ValidationError>)
        ensures
            r.is_ok() == record_valid(self),
            r is Err ==> r matches Err(ValidationError::InvalidInput { .. }),
    {
        let blank = is_blank(self.content.as_str());
        self.validate_custom_given(blank)
    }

    /// Checks the record-level rules, given whether the content is blank.
    pub fn validate_custom_given(&self, blank: bool) -> (r: Result<(), ValidationError>)
        ensures
            r.is_ok() == record_valid_given(self, blank),
            r is Err ==> r matches Err(ValidationError::InvalidInput { .. }),
    {
        if blank {
            return Err(invalid("content_empty"));
        }
        let mut total: usize = 0;
        let mut i: usize = 0;
        let n = self.metadata.len();
        while i < n
            invariant
                n == self.metadata@.len(),
                i <= n,
                total as int == metadata_bytes(self.metadata@.subrange(0, i as int)),
                total <= MAX_METADATA_BYTES,
            decreases n - i,
        {
            let ks = self.metadata[i].0.as_str();
            let vs = self.metadata[i].1.as_str();
            let kl = ks.len();
            let vl = vs.len();
            proof {
                assert(self.metadata@.subrange(0, i + 1).last() == self.metadata@[i as int]);
                assert(self.metadata@.subrange(0, i + 1).drop_last() =~= self.metadata@.subrange(
                    0,
                    i as int,
                ));
            }
            if kl > MAX_METADATA_BYTES - total || vl > MAX_METADATA_BYTES - total - kl {
                proof {
                    lemma_metadata_bytes_grows(self.metadata@, i + 1, n as int);
                    assert(self.metadata@.subrange(0, n as int) =~= self.metadata@);
                }
                return Err(invalid("metadata_too_large"));
            }
            total = total + kl + vl;
            i = i + 1;
        }
        assert(self.metadata@.subrange(0, n as int) =~= self.metadata@);
        if self.is_compressed && self.compressed_from.len() == 0 {
            return Err(invalid("compressed_without_originals"));
        }
        if !self.is_compressed && self.compressed_from.len() > 0 {
            return Err(invalid("not_compressed_with_originals"));
        }
        Ok(())
    }
}

/// Tokens added per elapsed minute by a limiter of the given rate (tokens
/// per minute), and at least one.
pub open spec fn refill_step(rate: u32) -> int {
    if rate >= 1 {
        rate as int
    } else {
        1
    }
}

/// Whole minutes from `from` to `to`, zero when `to` is not later.
pub open spec fn minutes_between(from: i64, to: i64) -> int {
    if to > from {
        (to - from) / 60
    } else {
        0
    }
}

/// A token bucket: up to `max_tokens` credits, refilled by whole minutes.
#[derive(Debug, Clone)]
pub struct RateLimiter {
    pub tokens: u32,
    /// Instant of the last refill, in seconds.
    pub last_refill: i64,
    pub max_tokens: u32,
    /// Tokens per minute.
    pub refill_rate: u32,
}

/// The bucket after refilling it at `now`.
pub open spec fn refilled(l: RateLimiter, now: i64) -> RateLimiter {
    let m = minutes_between(l.last_refill, now);
    if m > 0 {
        let t = l.tokens + m * refill_step(l.refill_rate);
        RateLimiter {
            tokens: if t > l.max_tokens { l.max_tokens } else { t as u32 },
            last_refill: now,
            ..l
        }
    } else {
        l
    }
}

/// The bucket after a request for `n` tokens at `now`, and whether it was
/// granted.
pub open spec fn acquired(l: RateLimiter, n: u32, now: i64) -> (RateLimiter, bool) {
    let r = refilled(l, now);
    if r.tokens >= n {
        (RateLimiter { tokens: (r.tokens - n) as u32, ..r }, true)
    } else {
        (r, false)
    }
}

/// Relies on `chrono::Utc::now` and `DateTime::timestamp`: the current
/// instant in whole seconds since the epoch.
#[verifier::external_body]
pub fn now_secs() -> (r: i64) {
    chrono::Utc::now().timestamp()
}

impl RateLimiter {
    /// The bucket holds no more than its capacity.
    pub open spec fn wf(&self) -> bool {
        self.tokens <= self.max_tokens
    }

    /// A full bucket, last refilled at `now`.
    pub fn new_at(max_tokens: u32, refill_rate: u32, now: i64) -> (r: RateLimiter)
        ensures
            r == (RateLimiter { tokens: max_tokens, last_refill: now, max_tokens, refill_rate }),
            r.wf(),
    {
        RateLimiter { tokens: max_tokens, last_refill: now, max_tokens, refill_rate }
    }

    /// A full bucket, last refilled now.
    pub fn new(max_tokens: u32, refill_rate: u32) -> (r: RateLimiter)
        ensures
            r.tokens == max_tokens && r.max_tokens == max_tokens && r.refill_rate == refill_rate,
            r.wf(),
    {
        let now = now_secs();
        RateLimiter::new_at(max_tokens, refill_rate, now)
    }

    /// Adds the tokens earned by the whole minutes since the last refill.
    pub fn refill_tokens_at(&mut self, now: i64)
        requires
            old(self).wf(),
        ensures
            *final(self) == refilled(*old(self), now),
            final(self).wf(),
    {
        if now > self.last_refill {
            let minutes: i128 = (now as i128 - self.last_refill as i128) / 60;
            if minutes > 0 {
                let step: u64 = if self.refill_rate >= 1 {
                    self.refill_rate as u64
                } else {
                    1
                };
                let room: u64 = (self.max_tokens - self.tokens) as u64;
                let mins: u64 = minutes as u64;
                assert(mins as int == minutes_between(self.last_refill, now));
                assert(step as int == refill_step(self.refill_rate));
                assert(mins * step == step * mins) by (nonlinear_arith);
                if mins >= room {
                    proof {
                        assert(mins * step >= room) by (nonlinear_arith)
                            requires
                                mins >= room,
                                step >= 1,
                        ;
                    }
                    self.tokens = self.max_tokens;
                } else {
                    proof {
                        assert(step * mins < 0x1_0000_0000_0000_0000) by (nonlinear_arith)
                            requires
                                mins < room,
                                room <= 0xffff_ffff,
                                step <= 0xffff_ffff,
                        ;
                    }
                    if step * mins >= room {
                        self.tokens = self.max_tokens;
                    } else {
                        self.tokens = self.tokens + (step * mins) as u32;
                    }
                }
                self.last_refill = now;
            }
        }
    }

    /// Refills at `now`, then takes `n` tokens if that many are left.
    pub fn try_acquire_at(&mut self, n: u32, now: i64) -> (r: bool)
        requires
            old(self).wf(),
        ensures
            (*final(self), r) == acquired(*old(self), n, now),
            final(self).wf(),
    {
        self.refill_tokens_at(now);
        if self.tokens >= n {
            self.tokens = self.tokens - n;
            true
        } else {
            false
        }
    }

    /// Refills by the clock, then takes `n` tokens if that many are left.
    pub fn try_acquire(&mut self, n: u32) -> (r: bool)
        requires
            old(self).wf(),
        ensures
            exists|now: i64| (*final(self), r) == acquired(*old(self), n, now),
            final(self).wf(),
    {
        let now = now_secs();
        self.try_acquire_at(n, now)
    }
}

/// Validates requests against the configuration and the rate limit.
pub struct RequestValidator {
    /// The token bucket, absent when request limits are off.
    pub rate_limiter: Option<RateLimiter>,
    pub config: MindCacheConfig,
}

impl RequestValidator {
    pub open spec fn wf(&self) -> bool {
        self.rate_limiter matches Some(l) ==> l.wf()
    }

    /// A validator for the configuration, whose bucket starts full at `now`
    /// with a capacity and rate of `max_requests_per_minute`.
    pub fn new_at(config: MindCacheConfig, now: i64) -> (r: RequestValidator)
        ensures
            r.wf(),
            r.config == config,
            config.enable_request_limits ==> r.rate_limiter == Some(
                RateLimiter {
                    tokens: config.max_requests_per_minute,
                    last_refill: now,
                    max_tokens: config.max_requests_per_minute,
                    refill_rate: config.max_requests_per_minute,
                },
            ),
            !config.enable_request_limits ==> r.rate_limiter.is_none(),
    {
        let limiter = if config.enable_request_limits {
            Some(
                RateLimiter::new_at(
                    config.max_requests_per_minute,
                    config.max_requests_per_minute,
                    now,
                ),
            )
        } else {
            None
        };
        RequestValidator { rate_limiter: limiter, config }
    }

    /// A validator for the configuration, its bucket full now.
    pub fn new(config: MindCacheConfig) -> (r: RequestValidator)
        ensures
            r.wf(),
            r.config == config,
            config.enable_request_limits <==> r.rate_limiter.is_some(),
            r.rate_limiter matches Some(l) ==> l.tokens == config.max_requests_per_minute
                && l.max_tokens == config.max_requests_per_minute && l.refill_rate
                == config.max_requests_per_minute,
    {
        let now = now_secs();
        RequestValidator::new_at(config, now)
    }

    /// Debits `tokens` from the bucket at `now`; fails with
    /// `RateLimitExceeded` when fewer are left. Without limits it always
    /// succeeds.
    pub fn validate_request_at(&mut self, tokens: u32, now: i64) -> (r: Result<(), ValidationError>)
        requires
            old(self).wf(),
        ensures
            final(self).wf(),
            final(self).config == old(self).config,
            match old(self).rate_limiter {
                None => r.is_ok() && final(self).rate_limiter.is_none(),
                Some(l) => {
                    let (l2, ok) = acquired(l, tokens, now);
                    &&& final(self).rate_limiter == Some(l2)
                    &&& r.is_ok() == ok
                    &&& (r is Err ==> r matches Err(ValidationError::RateLimitExceeded))
                },
            },
    {
        match &mut self.rate_limiter {
            None => Ok(()),
            Some(l) => {
                if l.try_acquire_at(tokens, now) {
                    Ok(())
                } else {
                    Err(ValidationError::RateLimitExceeded)
                }
            },
        }
    }

    /// Debits `tokens` from the bucket by the clock.
    pub fn validate_request(&mut self, tokens: u32) -> (r: Result<(), ValidationError>)
        requires
            old(self).wf(),
        ensures
            final(self).wf(),
            final(self).config == old(self).config,
            match old(self).rate_limiter {
                None => r.is_ok() && final(self).rate_limiter.is_none(),
                Some(l) => exists|now: i64|
                    {
                        let (l2, ok) = #[trigger] acquired(l, tokens, now);
                        &&& final(self).rate_limiter == Some(l2)
                        &&& r.is_ok() == ok
                    },
            },
            r is Err ==> r matches Err(ValidationError::RateLimitExceeded),
    {
        let now = now_secs();
        self.validate_request_at(tokens, now)
    }

    /// Rejects batches larger than `max_batch_size`.
    pub fn validate_batch_size(&self, size: usize) -> (r: Result<(), ValidationError>)
        ensures
            r.is_ok() == (size <= self.config.max_batch_size),
            r is Err ==> (r matches Err(ValidationError::BatchSizeExceeded { size: s, max: m })
                && s == size && m == self.config.max_batch_size),
    {
        if size > self.config.max_batch_size {
            Err(ValidationError::BatchSizeExceeded { size, max: self.config.max_batch_size })
        } else {
            Ok(())
        }
    }

    /// Checks a memory's field bounds, then its record-level rules.
    pub fn validate_memory_item(&self, memory: &MemoryItem) -> (r: Result<(), ValidationError>)
        ensures
            r.is_ok() == (fields_valid(memory) && record_valid(memory)),
            r is Err ==> r matches Err(ValidationError::InvalidInput { .. }),
    {
        match memory.validate() {
            Err(e) => return Err(e),
            Ok(()) => {},
        }
        memory.validate_custom()
    }

    /// Checks the bounds of a query filter.
    pub fn validate_query_filter(&self, filter: &QueryFilter) -> (r: Result<(), ValidationError>)
        ensures
            r.is_ok() == filter.valid(),
            r is Err ==> r matches Err(ValidationError::InvalidInput { .. }),
    {
        if filter.is_valid() {
            Ok(())
        } else {
            Err(invalid("filter"))
        }
    }

    /// Fails with `UserQuotaExceeded` when a user already holds
    /// `max_memories_per_user` active memories or more.
    pub fn validate_user_quota(&self, current: usize) -> (r: Result<(), ValidationError>)
        ensures
            r.is_ok() == (current < self.config.max_memories_per_user),
            r is Err ==> (r matches Err(ValidationError::UserQuotaExceeded { current: c, max: m })
                && c == current && m == self.config.max_memories_per_user),
    {
        if current >= self.config.max_memories_per_user {
            Err(
                ValidationError::UserQuotaExceeded {
                    current,
                    max: self.config.max_memories_per_user,
                },
            )
        } else {
            Ok(())
        }
    }
}

/// The message of a validation error.
pub open spec fn error_message(e: ValidationError) -> Seq<char> {
    match e {
        ValidationError::RateLimitExceeded => "Rate limit exceeded. Try again later."@,
        ValidationError::BatchSizeExceeded { size, max } => "Batch size too large: "@ + decimal(
            size as nat,
        ) + ". Maximum allowed: "@ + decimal(max as nat),
        ValidationError::InvalidInput { message } => "Invalid input: "@ + message@,
        ValidationError::UserQuotaExceeded { current, max } => "User quota exceeded: "@ + decimal(
            current as nat,
        ) + "/"@ + decimal(max as nat),
    }
}

impl ValidationError {
    /// The error's message.
    pub fn to_string(&self) -> (r: String)
        ensures
            r@ == error_message(*self),
    {
        match self {
            ValidationError::RateLimitExceeded => owned("Rate limit exceeded. Try again later."),
            ValidationError::BatchSizeExceeded { size, max } => {
                let mut r = owned("Batch size too large: ");
                r.append(decimal_string(*size as u64).as_str());
                r.append(". Maximum allowed: ");
                r.append(decimal_string(*max as u64).as_str());
                r
            },
            ValidationError::InvalidInput { message } => {
                let mut r = owned("Invalid input: ");
                r.append(message.as_str());
                r
            },
            ValidationError::UserQuotaExceeded { current, max } => {
                let mut r = owned("User quota exceeded: ");
                r.append(decimal_string(*current as u64).as_str());
                r.append("/");
                r.append(decimal_string(*max as u64).as_str());
                r
            },
        }
    }
}

} // verus!
