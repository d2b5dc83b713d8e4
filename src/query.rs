//! Composition of the recall query: the SQL text and its bound parameters.
use vstd::prelude::*;

use crate::compress::join;
use crate::models::{is_live, MemoryItem, QueryFilter};
use crate::text::{decimal, decimal_string, views};
use crate::util::owned;

verus! {

/// A value bound to a placeholder of the recall query.
pub enum SqlParam {
    Text(String),
    Int(i64),
    /// An instant, in seconds since the epoch.
    Instant(i64),
    /// An importance, in thousandths.
    Importance(u32),
}

/// The mathematical value of a bound parameter.
pub enum ParamValue {
    Text(Seq<char>),
    Int(i64),
    Instant(i64),
    Importance(u32),
}

impl View for SqlParam {
    type V = ParamValue;

    open spec fn view(&self) -> ParamValue {
        match self {
            SqlParam::Text(s) => ParamValue::Text(s@),
            SqlParam::Int(i) => ParamValue::Int(*i),
            SqlParam::Instant(t) => ParamValue::Instant(*t),
            SqlParam::Importance(i) => ParamValue::Importance(*i),
        }
    }
}

/// The recall query: rows and count share the same predicates and
/// parameters, so that the page and `total_count` agree.
pub struct RecallQuery {
    pub select_sql: String,
    pub count_sql: String,
    pub params: Vec<SqlParam>,
}

/// Columns of a memory row.
pub const MEMORY_COLUMNS: &'static str = "id, user_id, session_id, content, content_vector, metadata, created_at, updated_at, expires_at, importance, ttl_hours, is_compressed, compressed_from";

/// Predicate hiding compressed parents.
pub const NOT_COMPRESSED: &'static str = "is_compressed = 0";

/// The ordering of recall: newest first, then most important, then by id so
/// that pages are stable.
pub const RECALL_ORDER: &'static str = " ORDER BY created_at DESC, importance DESC, id ASC";

/// The predicate with placeholder `?n` of the given kind of condition.
pub open spec fn condition_text(kind: int, n: nat) -> Seq<char> {
    let p = "?"@ + decimal(n);
    if kind == 0 {
        "(expires_at IS NULL OR expires_at > "@ + p + ")"@
    } else if kind == 1 {
        "user_id = "@ + p
    } else if kind == 2 {
        "session_id = "@ + p
    } else if kind == 3 {
        "created_at >= "@ + p
    } else if kind == 4 {
        "created_at < "@ + p
    } else if kind == 5 {
        "importance >= "@ + p
    } else {
        "memories.rowid IN (SELECT rowid FROM memories_fts WHERE memories_fts MATCH "@ + p
            + ")"@
    }
}

/// The kinds of condition a filter sets, each with its parameter: expiry
/// first (bound to `now`), then user, session, date bounds, minimum
/// importance and keywords (OR'ed), in that order.
pub open spec fn filter_conditions(f: QueryFilter, now: i64) -> Seq<(int, ParamValue)> {
    seq![(0int, ParamValue::Instant(now))] + (match f.user_id {
        Some(u) => seq![(1int, ParamValue::Text(u@))],
        None => seq![],
    }) + (match f.session_id {
        Some(s) => seq![(2int, ParamValue::Text(s@))],
        None => seq![],
    }) + (match f.date_from {
        Some(t) => seq![(3int, ParamValue::Instant(t))],
        None => seq![],
    }) + (match f.date_to {
        Some(t) => seq![(4int, ParamValue::Instant(t))],
        None => seq![],
    }) + (match f.min_importance {
        Some(i) => seq![(5int, ParamValue::Importance(i))],
        None => seq![],
    }) + (match f.keywords {
        Some(k) => if k@.len() > 0 {
            seq![(6int, ParamValue::Text(join(views(k@), " OR "@)))]
        } else {
            seq![]
        },
        None => seq![],
    })
}

/// The WHERE clause of a list of conditions: compressed parents hidden, then
/// each condition with placeholder `?k` for its position `k` (from 1), all
/// joined by `AND`.
pub open spec fn where_spec(conds: Seq<(int, ParamValue)>) -> Seq<char>
    decreases conds.len(),
{
    if conds.len() == 0 {
        " WHERE "@ + NOT_COMPRESSED@
    } else {
        where_spec(conds.drop_last()) + " AND "@ + condition_text(conds.last().0, conds.len())
    }
}

/// Appends the condition of `kind` with placeholder `?n`.
fn push_condition(w: &mut String, kind: u8, n: u64)
    requires
        kind <= 6,
    ensures
        final(w)@ == old(w)@ + " AND "@ + condition_text(kind as int, n as nat),
{
    w.append(" AND ");
    let mut p = owned("?");
    let digits = decimal_string(n);
    p.append(digits.as_str());
    let ghost before = w@;
    if kind == 0 {
        w.append("(expires_at IS NULL OR expires_at > ");
        w.append(p.as_str());
        w.append(")");
    } else if kind == 1 {
        w.append("user_id = ");
        w.append(p.as_str());
    } else if kind == 2 {
        w.append("session_id = ");
        w.append(p.as_str());
    } else if kind == 3 {
        w.append("created_at >= ");
        w.append(p.as_str());
    } else if kind == 4 {
        w.append("created_at < ");
        w.append(p.as_str());
    } else if kind == 5 {
        w.append("importance >= ");
        w.append(p.as_str());
    } else {
        w.append("memories.rowid IN (SELECT rowid FROM memories_fts WHERE memories_fts MATCH ");
        w.append(p.as_str());
        w.append(")");
    }
    assert(w@ =~= before + condition_text(kind as int, n as nat));
}

/// Keywords joined by ` OR `, a full-text disjunction.
pub fn join_keywords(k: &Vec<String>) -> (r: String)
    ensures
        r@ == join(views(k@), " OR "@),
{
    let mut r = String::new();
    let mut i: usize = 0;
    while i < k.len()
        invariant
            i <= k@.len(),
            r@ == join(views(k@).subrange(0, i as int), " OR "@),
        decreases k@.len() - i,
    {
        if i > 0 {
            r.append(" OR ");
        }
        r.append(k[i].as_str());
        proof {
            let sub = views(k@).subrange(0, i + 1);
            assert(sub.drop_last() =~= views(k@).subrange(0, i as int));
            if i == 0 {
                assert(join(sub, " OR "@) == sub[0]);
            }
        }
        i = i + 1;
    }
    assert(views(k@).subrange(0, k@.len() as int) =~= views(k@));
    r
}

/// The WHERE clause of a filter at `now` and the parameters it binds.
#[verifier::rlimit(80)]
fn recall_where(f: &QueryFilter, now: i64) -> (r: (String, Vec<SqlParam>))
    ensures
        r.0@ == where_spec(filter_conditions(*f, now)),
        r.1@.map_values(|p: SqlParam| p@) == filter_conditions(*f, now).map_values(
            |c: (int, ParamValue)| c.1,
        ),
        r.1@.len() == filter_conditions(*f, now).len(),
{
    let ghost conds = filter_conditions(*f, now);
    let mut w = owned(" WHERE ");
    w.append(NOT_COMPRESSED);
    let mut params: Vec<SqlParam> = Vec::new();
    let ghost mut done: Seq<(int, ParamValue)> = Seq::empty();
    push_condition(&mut w, 0, 1);
    params.push(SqlParam::Instant(now));
    proof {
        done = seq![(0int, ParamValue::Instant(now))];
        assert(done.drop_last() =~= Seq::<(int, ParamValue)>::empty());
    }
    assert(where_spec(Seq::<(int, ParamValue)>::empty()) == " WHERE "@ + NOT_COMPRESSED@);
    assert(w@ == where_spec(done));
    let mut n: u64 = 1;
    if let Some(u) = &f.user_id {
        n = n + 1;
        push_condition(&mut w, 1, n);
        params.push(SqlParam::Text(u.clone()));
        proof {
            let d0 = done;
            done = d0.push((1int, ParamValue::Text(u@)));
            assert(done.drop_last() =~= d0);
        }
    }
    assert(params@.map_values(|p: SqlParam| p@) =~= done.map_values(|c: (int, ParamValue)| c.1));
    assert(w@ == where_spec(done) && n == done.len());
    if let Some(s) = &f.session_id {
        n = n + 1;
        push_condition(&mut w, 2, n);
        params.push(SqlParam::Text(s.clone()));
        proof {
            let d0 = done;
            done = d0.push((2int, ParamValue::Text(s@)));
            assert(done.drop_last() =~= d0);
        }
    }
    assert(params@.map_values(|p: SqlParam| p@) =~= done.map_values(|c: (int, ParamValue)| c.1));
    assert(w@ == where_spec(done) && n == done.len());
    if let Some(t) = f.date_from {
        n = n + 1;
        push_condition(&mut w, 3, n);
        params.push(SqlParam::Instant(t));
        proof {
            let d0 = done;
            done = d0.push((3int, ParamValue::Instant(t)));
            assert(done.drop_last() =~= d0);
        }
    }
    assert(params@.map_values(|p: SqlParam| p@) =~= done.map_values(|c: (int, ParamValue)| c.1));
    assert(w@ == where_spec(done) && n == done.len());
    if let Some(t) = f.date_to {
        n = n + 1;
        push_condition(&mut w, 4, n);
        params.push(SqlParam::Instant(t));
        proof {
            let d0 = done;
            done = d0.push((4int, ParamValue::Instant(t)));
            assert(done.drop_last() =~= d0);
        }
    }
    assert(params@.map_values(|p: SqlParam| p@) =~= done.map_values(|c: (int, ParamValue)| c.1));
    assert(w@ == where_spec(done) && n == done.len());
    if let Some(i) = f.min_importance {
        n = n + 1;
        push_condition(&mut w, 5, n);
        params.push(SqlParam::Importance(i));
        proof {
            let d0 = done;
            done = d0.push((5int, ParamValue::Importance(i)));
            assert(done.drop_last() =~= d0);
        }
    }
    assert(params@.map_values(|p: SqlParam| p@) =~= done.map_values(|c: (int, ParamValue)| c.1));
    assert(w@ == where_spec(done) && n == done.len());
    if let Some(k) = &f.keywords {
        if k.len() > 0 {
            n = n + 1;
            push_condition(&mut w, 6, n);
            let joined = join_keywords(k);
            params.push(SqlParam::Text(joined));
            proof {
                let d0 = done;
                done = d0.push((6int, ParamValue::Text(join(views(k@), " OR "@))));
                assert(done.drop_last() =~= d0);
            }
        }
    }
    assert(params@.map_values(|p: SqlParam| p@) =~= done.map_values(|c: (int, ParamValue)| c.1));
    assert(w@ == where_spec(done) && n == done.len());
    assert(done =~= conds);
    (w, params)
}

/// Builds the recall query of a filter at instant `now`: the rows of the
/// page (ordered by `RECALL_ORDER`, with `LIMIT` and `OFFSET` when the
/// filter sets them) and their total count, over the same predicates.
#[verifier::rlimit(80)]
pub fn build_recall_query(f: &QueryFilter, now: i64) -> (r: RecallQuery)
    ensures
        ({
            let conds = filter_conditions(*f, now);
            let n = conds.len();
            let w = where_spec(conds);
            let lim = match f.limit {
                Some(_) => " LIMIT ?"@ + decimal(n + 1),
                None => Seq::empty(),
            };
            let lp = match f.limit {
                Some(l) => seq![ParamValue::Int(l as i64)],
                None => seq![],
            };
            let k = n + lp.len() + 1;
            let off = match f.offset {
                Some(_) => " OFFSET ?"@ + decimal(k),
                None => Seq::empty(),
            };
            let op = match f.offset {
                Some(o) => seq![ParamValue::Int(o as i64)],
                None => seq![],
            };
            &&& r.count_sql@ == "SELECT COUNT(*) FROM memories"@ + w
            &&& r.select_sql@ == "SELECT "@ + MEMORY_COLUMNS@ + " FROM memories"@ + w
                + RECALL_ORDER@ + lim + off
            &&& r.params@.map_values(|p: SqlParam| p@) == conds.map_values(
                |c: (int, ParamValue)| c.1,
            ) + lp + op
        }),
{
    let (w, mut params) = recall_where(f, now);
    let mut n: u64 = params.len() as u64;
    let mut count_sql = owned("SELECT COUNT(*) FROM memories");
    count_sql.append(w.as_str());
    let mut select_sql = owned("SELECT ");
    select_sql.append(MEMORY_COLUMNS);
    select_sql.append(" FROM memories");
    select_sql.append(w.as_str());
    select_sql.append(RECALL_ORDER);
    if let Some(l) = f.limit {
        n = n + 1;
        select_sql.append(" LIMIT ?");
        let ps = decimal_string(n);
        select_sql.append(ps.as_str());
        params.push(SqlParam::Int(l as i64));
    }
    if let Some(o) = f.offset {
        n = n + 1;
        select_sql.append(" OFFSET ?");
        let ps = decimal_string(n);
        select_sql.append(ps.as_str());
        params.push(SqlParam::Int(o as i64));
    }
    RecallQuery { select_sql, count_sql, params }
}

/// What a condition other than the full-text match demands of a row.
pub open spec fn admits(c: (int, ParamValue), m: MemoryItem) -> bool {
    match c.1 {
        ParamValue::Instant(t) => if c.0 == 0 {
            is_live(m.expires_at, t)
        } else if c.0 == 3 {
            m.created_at >= t
        } else {
            m.created_at < t
        },
        ParamValue::Text(s) => if c.0 == 1 {
            m.user_id@ == s
        } else if c.0 == 2 {
            m.session_id@ == s
        } else {
            true
        },
        ParamValue::Importance(i) => m.importance >= i,
        ParamValue::Int(_) => true,
    }
}

/// A row passes the recall predicates (the full-text match aside): it is not
/// a compressed parent and every condition admits it.
pub open spec fn recall_admits(conds: Seq<(int, ParamValue)>, m: MemoryItem) -> bool {
    !m.is_compressed && forall|k: int| 0 <= k < conds.len() ==> admits(#[trigger] conds[k], m)
}

/// Expired memories are never recalled: whatever the filter, a memory whose
/// `expires_at` is at or before `now` fails the recall query built at `now`,
/// and so does a compressed parent.
pub proof fn expired_never_recalled(f: QueryFilter, now: i64, m: MemoryItem)
    requires
        (m.expires_at matches Some(e) && e <= now) || m.is_compressed,
    ensures
        !recall_admits(filter_conditions(f, now), m),
{
    let conds = filter_conditions(f, now);
    assert(conds[0] == (0int, ParamValue::Instant(now)));
    if !m.is_compressed {
        assert(!admits(conds[0], m));
    }
}

/// The date range is half-open: a memory created exactly at `date_to` is
/// not recalled, one created exactly at `date_from` may be.
pub proof fn date_range_half_open(f: QueryFilter, now: i64, m: MemoryItem)
    requires
        f.date_to == Some(m.created_at),
    ensures
        !recall_admits(filter_conditions(f, now), m),
{
    let conds = filter_conditions(f, now);
    let u = match f.user_id {
        Some(u) => seq![(1int, ParamValue::Text(u@))],
        None => seq![],
    };
    let s = match f.session_id {
        Some(s) => seq![(2int, ParamValue::Text(s@))],
        None => seq![],
    };
    let d = match f.date_from {
        Some(t) => seq![(3int, ParamValue::Instant(t))],
        None => seq![],
    };
    let k = (1 + u.len() + s.len() + d.len()) as int;
    assert(conds[k] == (4int, ParamValue::Instant(m.created_at)));
    if !m.is_compressed {
        assert(!admits(conds[k], m));
    }
}

} // verus!
