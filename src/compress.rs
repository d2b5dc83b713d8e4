//! Building the compressed replacement of a group of cold memories.
use vstd::prelude::*;

use crate::models::{MemoryItem, IMPORTANCE_SCALE};
use crate::rank::{is_top_k, lemma_full_ranking_permutes, ranks_before, top_k};
use crate::text::{
    chars_of, count_words, decimal, decimal_string, distinct_words, occurrences, string_of,
    tokenize, tokens_spec, views,
};

verus! {

/// Longest excerpt of a memory, in characters, before it is cut.
pub const EXCERPT_CHARS: usize = 50;

/// Number of excerpts in a compressed summary.
pub const EXCERPTS: usize = 3;

/// Number of key points kept for a compressed group.
pub const KEY_POINTS: usize = 5;

/// What `serde_json::to_string` makes of a list of strings.
pub uninterp spec fn json_array_of(v: Seq<Seq<char>>) -> Seq<char>;

/// Relies on `serde_json::to_string` on a `Vec<String>`: the JSON array of
/// the strings. Serialising strings does not fail.
#[verifier::external_body]
pub fn to_json_array(v: &Vec<String>) -> (r: String)
    ensures
        r@ == json_array_of(views(v@)),
{
    serde_json::to_string(v).unwrap_or_default()
}

/// What `DateTime::<Utc>::to_rfc3339` makes of an instant in seconds since
/// the epoch (empty when chrono cannot represent the instant).
pub uninterp spec fn rfc3339_of(t: i64) -> Seq<char>;

/// Relies on `chrono::DateTime::from_timestamp` and `DateTime::to_rfc3339`:
/// the RFC 3339 text of the instant, or an empty string out of chrono's range.
#[verifier::external_body]
pub fn rfc3339(t: i64) -> (r: String)
    ensures
        r@ == rfc3339_of(t),
{
    chrono::DateTime::from_timestamp(t, 0).map(|d| d.to_rfc3339()).unwrap_or_default()
}

/// Relies on `uuid::Uuid::new_v4` and its hyphenated `Display`: a fresh
/// random identifier of 36 characters.
#[verifier::external_body]
pub fn new_id() -> (r: String)
    ensures
        r@.len() == 36,
{
    uuid::Uuid::new_v4().to_string()
}

/// A score that ranks earlier instants first (and keeps ties in order).
pub open spec fn earliest_first(t: i64) -> u64 {
    (u64::MAX - (t as int - i64::MIN as int)) as u64
}

/// The memories at positions `pos`.
pub open spec fn pick(items: Seq<MemoryItem>, pos: Seq<usize>) -> Seq<MemoryItem> {
    pos.map_values(|p: usize| items[p as int])
}

/// The group's positions ordered by `created_at`, ties in group order.
pub open spec fn chronological(items: Seq<MemoryItem>, group: Seq<usize>, order: Seq<usize>) -> bool {
    is_top_k(
        group.map_values(|p: usize| earliest_first(items[p as int].created_at)),
        group.len(),
        order,
    )
}

/// The positions of a group ordered by `created_at`, earliest first, ties in
/// group order (a stable sort).
pub fn chronological_order(items: &Vec<MemoryItem>, group: &Vec<usize>) -> (r: Vec<usize>)
    requires
        forall|k: int| 0 <= k < group@.len() ==> group@[k] < items@.len(),
    ensures
        r@.len() == group@.len(),
        forall|k: int| 0 <= k < r@.len() ==> r@[k] < items@.len(),
        exists|order: Seq<usize>|
            chronological(items@, group@, order) && r@ == order.map_values(
                |j: usize| group@[j as int],
            ),
{
    let mut scores: Vec<u64> = Vec::new();
    let mut i: usize = 0;
    while i < group.len()
        invariant
            i <= group@.len(),
            forall|k: int| 0 <= k < group@.len() ==> group@[k] < items@.len(),
            scores@ == group@.subrange(0, i as int).map_values(
                |p: usize| earliest_first(items@[p as int].created_at),
            ),
        decreases group@.len() - i,
    {
        let t = items[group[i]].created_at;
        let key: u64 = u64::MAX - (t as i128 - i64::MIN as i128) as u64;
        scores.push(key);
        proof {
            assert(group@.subrange(0, i + 1).map_values(
                |p: usize| earliest_first(items@[p as int].created_at),
            ) =~= scores@);
        }
        i = i + 1;
    }
    assert(group@.subrange(0, group@.len() as int) =~= group@);
    let order = top_k(&scores, group.len());
    let mut r: Vec<usize> = Vec::new();
    let mut k: usize = 0;
    while k < order.len()
        invariant
            k <= order@.len(),
            order@.len() == group@.len(),
            forall|a: int| 0 <= a < order@.len() ==> order@[a] < group@.len(),
            forall|q: int| 0 <= q < group@.len() ==> group@[q] < items@.len(),
            r@ == order@.subrange(0, k as int).map_values(|j: usize| group@[j as int]),
        decreases order@.len() - k,
    {
        r.push(group[order[k]]);
        proof {
            assert(order@.subrange(0, k + 1).map_values(|j: usize| group@[j as int]) =~= r@);
        }
        k = k + 1;
    }
    assert(order@.subrange(0, order@.len() as int) =~= order@);
    proof {
        assert(chronological(items@, group@, order@));
    }
    r
}

/// An excerpt of a memory's content: the content itself, or its first
/// `EXCERPT_CHARS` characters followed by `...` when it is longer.
pub open spec fn excerpt_spec(c: Seq<char>) -> Seq<char> {
    if c.len() > EXCERPT_CHARS {
        c.subrange(0, EXCERPT_CHARS as int) + "..."@
    } else {
        c
    }
}

/// The excerpt of a content.
pub fn excerpt(c: &String) -> (r: String)
    ensures
        r@ == excerpt_spec(c@),
{
    let mut cs = chars_of(c.as_str());
    if cs.len() > EXCERPT_CHARS {
        cs.truncate(EXCERPT_CHARS);
        let mut s = string_of(&cs);
        s.append("...");
        s
    } else {
        c.clone()
    }
}

/// Texts joined with a separator.
pub open spec fn join(parts: Seq<Seq<char>>, sep: Seq<char>) -> Seq<char>
    decreases parts.len(),
{
    if parts.len() == 0 {
        Seq::empty()
    } else if parts.len() == 1 {
        parts[0]
    } else {
        join(parts.drop_last(), sep) + sep + parts.last()
    }
}

/// The time span of a chronologically ordered group of `n` memories from
/// `first` to `last`: empty for a single memory, otherwise in the largest
/// unit (days, hours, minutes) that is not zero, or in minutes.
pub open spec fn span_spec(n: nat, first: i64, last: i64) -> Seq<char> {
    let d = last - first;
    if n <= 1 {
        Seq::empty()
    } else if d / 86400 > 0 {
        " over "@ + decimal((d / 86400) as nat) + " days"@
    } else if d / 3600 > 0 {
        " over "@ + decimal((d / 3600) as nat) + " hours"@
    } else {
        " over "@ + decimal((d / 60) as nat) + " minutes"@
    }
}

/// The summary content of a compressed group, given chronologically: its
/// size, its time span and the excerpts of its (up to) three most important
/// memories, most important first.
pub open spec fn summary_spec(sorted: Seq<MemoryItem>, top: Seq<usize>) -> Seq<char> {
    "[COMPRESSED] "@ + decimal(sorted.len()) + " memories"@ + span_spec(
        sorted.len(),
        sorted[0].created_at,
        sorted.last().created_at,
    ) + ": "@ + join(top.map_values(|j: usize| excerpt_spec(sorted[j as int].content@)), " | "@)
}

/// The importance scores of a list of memories.
pub open spec fn importances(s: Seq<MemoryItem>) -> Seq<u64> {
    s.map_values(|m: MemoryItem| m.importance as u64)
}

/// The summary content of a group of memories given in chronological order.
pub fn compression_summary(items: &Vec<MemoryItem>, pos: &Vec<usize>) -> (r: String)
    requires
        pos@.len() > 0,
        forall|k: int| 0 <= k < pos@.len() ==> pos@[k] < items@.len(),
        forall|a: int, b: int|
            0 <= a < b < pos@.len() ==> pick(items@, pos@)[a].created_at <= pick(items@, pos@)[b].created_at,
    ensures
        exists|top: Seq<usize>|
            is_top_k(importances(pick(items@, pos@)), EXCERPTS as nat, top) && r@ == summary_spec(
                pick(items@, pos@),
                top,
            ),
{
    let n = pos.len();
    let mut s = "[COMPRESSED] ".to_string();
    let ns = decimal_string(n as u64);
    s.append(ns.as_str());
    s.append(" memories");
    let first = items[pos[0]].created_at;
    let last = items[pos[n - 1]].created_at;
    if n > 1 {
        proof {
            assert(pick(items@, pos@)[0].created_at <= pick(items@, pos@)[n - 1].created_at);
        }
        let d: i128 = last as i128 - first as i128;
        let (value, unit) = if d / 86400 > 0 {
            (d / 86400, " days")
        } else if d / 3600 > 0 {
            (d / 3600, " hours")
        } else {
            (d / 60, " minutes")
        };
        s.append(" over ");
        let vs = decimal_string(value as u64);
        s.append(vs.as_str());
        s.append(unit);
    }
    let ghost head = s@;
    assert(head == "[COMPRESSED] "@ + decimal(n as nat) + " memories"@ + span_spec(
        n as nat,
        first,
        last,
    ));
    s.append(": ");
    let mut scores: Vec<u64> = Vec::new();
    let mut i: usize = 0;
    while i < n
        invariant
            i <= n,
            n == pos@.len(),
            forall|q: int| 0 <= q < pos@.len() ==> pos@[q] < items@.len(),
            scores@ == importances(pick(items@, pos@).subrange(0, i as int)),
        decreases n - i,
    {
        scores.push(items[pos[i]].importance as u64);
        proof {
            assert(importances(pick(items@, pos@).subrange(0, i + 1)) =~= scores@);
        }
        i = i + 1;
    }
    assert(pick(items@, pos@).subrange(0, n as int) =~= pick(items@, pos@));
    let top = top_k(&scores, EXCERPTS);
    let ghost parts = top@.map_values(|j: usize| excerpt_spec(pick(items@, pos@)[j as int].content@));
    let mut k: usize = 0;
    while k < top.len()
        invariant
            k <= top@.len(),
            n == pos@.len(),
            forall|q: int| 0 <= q < pos@.len() ==> pos@[q] < items@.len(),
            forall|a: int| 0 <= a < top@.len() ==> top@[a] < n,
            parts == top@.map_values(|j: usize| excerpt_spec(pick(items@, pos@)[j as int].content@)),
            s@ == head + ": "@ + join(parts.subrange(0, k as int), " | "@),
        decreases top@.len() - k,
    {
        if k > 0 {
            s.append(" | ");
        }
        let e = excerpt(&items[pos[top[k]]].content);
        s.append(e.as_str());
        proof {
            let sub = parts.subrange(0, k + 1);
            assert(sub.drop_last() =~= parts.subrange(0, k as int));
            assert(sub.last() == e@);
            if k == 0 {
                assert(join(sub, " | "@) == e@);
            }
        }
        k = k + 1;
    }
    assert(parts.subrange(0, top@.len() as int) =~= parts);
    assert(scores@ == importances(pick(items@, pos@)));
    assert(s@ =~= summary_spec(pick(items@, pos@), top@));
    s
}

/// The key-point tokens of a list of memories, in order.
pub open spec fn group_tokens(s: Seq<MemoryItem>) -> Seq<Seq<char>>
    decreases s.len(),
{
    if s.len() == 0 {
        Seq::empty()
    } else {
        group_tokens(s.drop_last()) + tokens_spec(s.last().content@, false)
    }
}

/// How often each distinct token occurs.
pub open spec fn token_counts(all: Seq<Seq<char>>) -> Seq<u64> {
    distinct_words(all).map_values(|w: Seq<char>| occurrences(all, w) as u64)
}

/// The key points of a group: its five most frequent tokens, most frequent
/// first, ties in order of first appearance.
pub fn extract_key_points(items: &Vec<MemoryItem>, pos: &Vec<usize>) -> (r: Vec<String>)
    requires
        forall|k: int| 0 <= k < pos@.len() ==> pos@[k] < items@.len(),
    ensures
        exists|top: Seq<usize>|
            is_top_k(token_counts(group_tokens(pick(items@, pos@))), KEY_POINTS as nat, top) && views(r@)
                == top.map_values(|j: usize| distinct_words(group_tokens(pick(items@, pos@)))[j as int]),
{
    let mut all: Vec<String> = Vec::new();
    let mut i: usize = 0;
    while i < pos.len()
        invariant
            i <= pos@.len(),
            forall|k: int| 0 <= k < pos@.len() ==> pos@[k] < items@.len(),
            views(all@) == group_tokens(pick(items@, pos@).subrange(0, i as int)),
        decreases pos@.len() - i,
    {
        let mut t = tokenize(items[pos[i]].content.as_str(), false);
        proof {
            assert(views(t@) =~= tokens_spec(pick(items@, pos@)[i as int].content@, false));
            assert(pick(items@, pos@).subrange(0, i + 1).drop_last() =~= pick(items@, pos@).subrange(0, i as int));
        }
        let ghost before = all@;
        let ghost tv = t@;
        all.append(&mut t);
        proof {
            assert(views(all@) =~= views(before) + views(tv));
        }
        i = i + 1;
    }
    assert(pick(items@, pos@).subrange(0, pos@.len() as int) =~= pick(items@, pos@));
    let (words, counts) = count_words(&all);
    let ghost tokens = group_tokens(pick(items@, pos@));
    proof {
        assert(counts@ =~= token_counts(tokens)) by {
            assert(views(words@).len() == words@.len());
            assert forall|j: int| 0 <= j < counts@.len() implies counts@[j] == token_counts(tokens)[j] by {
                assert(views(words@)[j] == words@[j]@);
            }
        }
    }
    let top = top_k(&counts, KEY_POINTS);
    let mut r: Vec<String> = Vec::new();
    let mut k: usize = 0;
    while k < top.len()
        invariant
            k <= top@.len(),
            forall|a: int| 0 <= a < top@.len() ==> top@[a] < counts@.len(),
            counts@.len() == words@.len(),
            views(words@) == distinct_words(tokens),
            views(r@) == top@.subrange(0, k as int).map_values(
                |j: usize| distinct_words(tokens)[j as int],
            ),
        decreases top@.len() - k,
    {
        let ghost before = r@;
        r.push(words[top[k]].clone());
        proof {
            assert(views(r@) =~= views(before).push(words@[top@[k as int] as int]@));
            assert(views(words@)[top@[k as int] as int] == words@[top@[k as int] as int]@);
            assert(views(r@) =~= top@.subrange(0, k + 1).map_values(
                |j: usize| distinct_words(tokens)[j as int],
            ));
        }
        k = k + 1;
    }
    assert(top@.subrange(0, top@.len() as int) =~= top@);
    r
}

/// Total importance of a list of memories.
pub open spec fn importance_sum(s: Seq<MemoryItem>) -> nat
    decreases s.len(),
{
    if s.len() == 0 {
        0
    } else {
        importance_sum(s.drop_last()) + s.last().importance as nat
    }
}

/// Mean importance of the memories at positions `pos`, rounded down.
pub fn mean_of(items: &Vec<MemoryItem>, pos: &Vec<usize>) -> (r: u32)
    requires
        pos@.len() > 0,
        forall|k: int| 0 <= k < pos@.len() ==> pos@[k] < items@.len(),
        forall|k: int| 0 <= k < items@.len() ==> items@[k].importance <= IMPORTANCE_SCALE,
    ensures
        r == importance_sum(pick(items@, pos@)) / pos@.len(),
        r <= IMPORTANCE_SCALE,
{
    let ghost s = pick(items@, pos@);
    let mut total: u128 = 0;
    let mut i: usize = 0;
    while i < pos.len()
        invariant
            i <= pos@.len(),
            s == pick(items@, pos@),
            forall|k: int| 0 <= k < pos@.len() ==> pos@[k] < items@.len(),
            forall|k: int| 0 <= k < items@.len() ==> items@[k].importance <= IMPORTANCE_SCALE,
            total == importance_sum(s.subrange(0, i as int)),
            total <= i * IMPORTANCE_SCALE,
        decreases pos@.len() - i,
    {
        proof {
            assert(s.subrange(0, i + 1).drop_last() =~= s.subrange(0, i as int));
        }
        total = total + items[pos[i]].importance as u128;
        i = i + 1;
    }
    assert(s.subrange(0, s.len() as int) =~= s);
    let n = pos.len() as u128;
    proof {
        assert(total / n <= IMPORTANCE_SCALE) by (nonlinear_arith)
            requires
                total <= n * IMPORTANCE_SCALE,
                n >= 1,
        ;
    }
    (total / n) as u32
}

pub proof fn lemma_chronological(items: Seq<MemoryItem>, group: Seq<usize>, order: Seq<usize>)
    requires
        chronological(items, group, order),
        forall|k: int| 0 <= k < group.len() ==> group[k] < items.len(),
        group.len() <= usize::MAX,
    ensures
        ({
            let pos = order.map_values(|j: usize| group[j as int]);
            let sorted = pick(items, pos);
            &&& pos.len() == group.len()
            &&& forall|k: int| 0 <= k < pos.len() ==> group.contains(#[trigger] pos[k])
            &&& forall|k: int| 0 <= k < group.len() ==> pos.contains(#[trigger] group[k])
            &&& group.no_duplicates() ==> pos.no_duplicates()
            &&& forall|a: int, b: int|
                0 <= a < b < sorted.len() ==> sorted[a].created_at <= sorted[b].created_at
        }),
{
    let pos = order.map_values(|j: usize| group[j as int]);
    let scores = group.map_values(|p: usize| earliest_first(items[p as int].created_at));
    lemma_full_ranking_permutes(scores, order);
    assert forall|k: int| 0 <= k < group.len() implies pos.contains(#[trigger] group[k]) by {
        assert(order.contains(k as usize));
        let a = choose|a: int| 0 <= a < order.len() && order[a] == k as usize;
        assert(pos[a] == group[k]);
    }
    if group.no_duplicates() {
        assert forall|a: int, b: int| 0 <= a < pos.len() && 0 <= b < pos.len() && a != b implies pos[a]
            != pos[b] by {
            assert(order[a] != order[b]);
        }
    }
    assert forall|k: int| 0 <= k < pos.len() implies group.contains(#[trigger] pos[k]) by {
        assert(group[order[k] as int] == pos[k]);
    }
    assert forall|a: int, b: int|
        0 <= a < b < pos.len() implies pick(items, pos)[a].created_at <= pick(items, pos)[b].created_at by {
        assert(ranks_before(scores, order[a] as int, order[b] as int));
    }
}

/// The metadata of a compressed record: its kind, the number of originals,
/// the key points as a JSON array and the instants of the first and last
/// original.
pub open spec fn compressed_metadata(n: nat, points: Seq<Seq<char>>, first: i64, last: i64) -> Seq<
    (Seq<char>, Seq<char>),
> {
    seq![
        ("type"@, "compressed"@),
        ("original_count"@, decimal(n)),
        ("key_points"@, json_array_of(points)),
        ("date_range_start"@, rfc3339_of(first)),
        ("date_range_end"@, rfc3339_of(last)),
    ]
}

/// `points` are the key points of a chronologically ordered group.
pub open spec fn key_points_of(sorted: Seq<MemoryItem>, points: Seq<Seq<char>>) -> bool {
    exists|top: Seq<usize>|
        is_top_k(token_counts(group_tokens(sorted)), KEY_POINTS as nat, top) && points
            == top.map_values(|j: usize| distinct_words(group_tokens(sorted))[j as int])
}

/// The views of a list of string pairs.
pub open spec fn pairs_view(s: Seq<(String, String)>) -> Seq<(Seq<char>, Seq<char>)> {
    s.map_values(|p: (String, String)| (p.0@, p.1@))
}

/// The ids of a list of memories.
pub open spec fn ids_of(s: Seq<MemoryItem>) -> Seq<Seq<char>> {
    s.map_values(|m: MemoryItem| m.id@)
}

/// `r` is the compressed replacement of the memories at positions `group`,
/// with id `id`, stamped at `now`: the positions `pos` are the group in
/// chronological order (each group position appears, no other, none twice
/// when the group has no repeats); `r` lists their ids in that order, starts
/// at the earliest, carries their mean importance, summarises them, never
/// expires, and belongs to the earliest original's folder.
pub open spec fn compressed_record(items: Seq<MemoryItem>, group: Seq<usize>, id: Seq<char>, now: i64, r: MemoryItem) -> bool {
    &&& r.importance <= IMPORTANCE_SCALE
    &&& exists|pos: Seq<usize>|
        #![trigger pick(items, pos)]
        {
            let sorted = pick(items, pos);
            &&& pos.len() == group.len()
            &&& forall|k: int| 0 <= k < pos.len() ==> group.contains(#[trigger] pos[k])
            &&& forall|k: int| 0 <= k < group.len() ==> pos.contains(#[trigger] group[k])
            &&& group.no_duplicates() ==> pos.no_duplicates()
            &&& forall|a: int, b: int|
                0 <= a < b < sorted.len() ==> sorted[a].created_at <= sorted[b].created_at
            &&& r.id@ == id
            &&& r.user_id@ == sorted[0].user_id@
            &&& r.session_id@ == sorted[0].session_id@
            &&& r.is_compressed
            &&& ids_of(sorted) == views(r.compressed_from@)
            &&& r.importance == importance_sum(sorted) / sorted.len()
            &&& r.created_at == sorted[0].created_at
            &&& r.updated_at == now
            &&& r.expires_at.is_none() && r.ttl_hours.is_none()
            &&& exists|top: Seq<usize>|
                is_top_k(importances(sorted), EXCERPTS as nat, top) && r.content@ == summary_spec(
                    sorted,
                    top,
                )
            &&& exists|points: Seq<Seq<char>>|
                #[trigger] key_points_of(sorted, points) && pairs_view(r.metadata@)
                    == compressed_metadata(
                    sorted.len(),
                    points,
                    sorted[0].created_at,
                    sorted.last().created_at,
                )
        }
}

/// The compressed replacement of the memories at positions `group`, with id
/// `id`, stamped at `now`. Its originals are taken in chronological order:
/// it lists their ids, starts at the earliest, carries their mean importance
/// and a summary, never expires, and belongs to the first original's folder.
pub fn create_compressed_memory(items: &Vec<MemoryItem>, group: &Vec<usize>, id: String, now: i64) -> (r: MemoryItem)
    requires
        group@.len() > 0,
        forall|k: int| 0 <= k < group@.len() ==> group@[k] < items@.len(),
        forall|k: int| 0 <= k < items@.len() ==> items@[k].importance <= IMPORTANCE_SCALE,
    ensures
        compressed_record(items@, group@, id@, now, r),
{
    let pos = chronological_order(items, group);
    let ghost sorted = pick(items@, pos@);
    proof {
        let order = choose|order: Seq<usize>|
            chronological(items@, group@, order) && pos@ == order.map_values(
                |j: usize| group@[j as int],
            );
        lemma_chronological(items@, group@, order);
        assert forall|k: int| 0 <= k < pos@.len() implies pos@[k] < items@.len() by {
            assert(group@.contains(pos@[k]));
        }
    }
    let n = pos.len();
    let content = compression_summary(items, &pos);
    let points = extract_key_points(items, &pos);
    let mut ids: Vec<String> = Vec::new();
    let mut picked: Vec<MemoryItem> = Vec::new();
    let mut i: usize = 0;
    while i < n
        invariant
            i <= n,
            n == pos@.len(),
            forall|k: int| 0 <= k < pos@.len() ==> pos@[k] < items@.len(),
            views(ids@) == ids_of(sorted.subrange(0, i as int)),
            sorted == pick(items@, pos@),
        decreases n - i,
    {
        let ghost before = ids@;
        ids.push(items[pos[i]].id.clone());
        proof {
            assert(views(ids@) =~= views(before).push(items@[pos@[i as int] as int].id@));
            assert(views(ids@) =~= ids_of(sorted.subrange(0, i + 1)));
        }
        i = i + 1;
    }
    assert(sorted.subrange(0, n as int) =~= sorted);
    let importance = mean_of(items, &pos);
    let first = items[pos[0]].created_at;
    let last = items[pos[n - 1]].created_at;
    let mut metadata: Vec<(String, String)> = Vec::new();
    metadata.push(("type".to_string(), "compressed".to_string()));
    metadata.push(("original_count".to_string(), decimal_string(n as u64)));
    metadata.push(("key_points".to_string(), to_json_array(&points)));
    metadata.push(("date_range_start".to_string(), rfc3339(first)));
    metadata.push(("date_range_end".to_string(), rfc3339(last)));
    let ghost pts = views(points@);
    proof {
        assert(key_points_of(sorted, pts));
        assert(pairs_view(metadata@) =~= compressed_metadata(
            n as nat,
            pts,
            sorted[0].created_at,
            sorted.last().created_at,
        ));
    }
    MemoryItem {
        id,
        user_id: items[pos[0]].user_id.clone(),
        session_id: items[pos[0]].session_id.clone(),
        content,
        metadata,
        created_at: first,
        updated_at: now,
        expires_at: None,
        importance,
        ttl_hours: None,
        is_compressed: true,
        compressed_from: ids,
    }
}

} // verus!
