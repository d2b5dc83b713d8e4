//! Sessions and the deterministic summary text of a session's memories.
use vstd::prelude::*;

use crate::compress::{
    chronological, chronological_order, importance_sum, importances, join, lemma_chronological, mean_of,
    pick, span_spec,
};
use crate::models::{MemoryItem, IMPORTANCE_SCALE};
use crate::validation::ValidationError;
use crate::rank::{is_top_k, top_k};
use crate::text::{
    chars_of, count_words, decimal, decimal_string, distinct_words, occurrences, string_of,
    tokenize, tokens_spec, views,
};
use crate::util::owned;

verus! {

/// Longest highlight of a memory, in characters, before it is cut.
pub const HIGHLIGHT_CHARS: usize = 100;

/// Number of highlights in a session summary.
pub const HIGHLIGHTS: usize = 3;

/// A chronological grouping of a user's memories.
#[derive(Debug, Clone)]
pub struct Session {
    pub id: String,
    pub user_id: String,
    pub name: Option<String>,
    pub created_at: i64,
    pub last_active: i64,
    /// Live count of the session's active memories.
    pub memory_count: usize,
    pub tags: Vec<String>,
    pub metadata: Vec<(String, String)>,
}

/// The derived summary of a session.
#[derive(Debug)]
pub struct SessionSummary {
    pub session_id: String,
    pub user_id: String,
    pub summary_text: String,
    pub key_topics: Vec<String>,
    pub memory_count: usize,
    pub date_range: (i64, i64),
    /// Mean importance in thousandths, rounded down.
    pub importance_score: u32,
    pub created_at: i64,
    pub updated_at: i64,
}

/// A highlight of a memory: its content in double quotes, cut to its first
/// `HIGHLIGHT_CHARS` characters followed by `...` when longer.
pub open spec fn highlight_spec(c: Seq<char>) -> Seq<char> {
    "\""@ + (if c.len() > HIGHLIGHT_CHARS {
        c.subrange(0, HIGHLIGHT_CHARS as int) + "..."@
    } else {
        c
    }) + "\""@
}

/// The highlight of a content.
pub fn highlight(c: &String) -> (r: String)
    ensures
        r@ == highlight_spec(c@),
{
    let mut r = owned("\"");
    let mut cs = chars_of(c.as_str());
    if cs.len() > HIGHLIGHT_CHARS {
        cs.truncate(HIGHLIGHT_CHARS);
        let cut = string_of(&cs);
        r.append(cut.as_str());
        r.append("...");
    } else {
        r.append(c.as_str());
    }
    r.append("\"");
    assert(r@ =~= highlight_spec(c@));
    r
}

/// Number of memories with importance above 0.7.
pub open spec fn high_count(s: Seq<MemoryItem>) -> nat
    decreases s.len(),
{
    if s.len() == 0 {
        0
    } else {
        high_count(s.drop_last()) + if s.last().importance > 700 {
            1nat
        } else {
            0nat
        }
    }
}

/// Number of memories with importance above 0.4 and at most 0.7.
pub open spec fn medium_count(s: Seq<MemoryItem>) -> nat
    decreases s.len(),
{
    if s.len() == 0 {
        0
    } else {
        medium_count(s.drop_last()) + if 400 < s.last().importance <= 700 {
            1nat
        } else {
            0nat
        }
    }
}

/// The opening sentence of a session summary: count and time span.
pub open spec fn head_spec(s: Seq<MemoryItem>) -> Seq<char> {
    "Session contains "@ + decimal(s.len()) + " memories"@ + span_spec(
        s.len(),
        s[0].created_at,
        s.last().created_at,
    ) + "."@
}

/// The key-topics sentence, empty without topics.
pub open spec fn topics_spec(topics: Seq<Seq<char>>) -> Seq<char> {
    if topics.len() == 0 {
        Seq::empty()
    } else {
        " Key topics: "@ + join(topics, ", "@) + "."@
    }
}

/// The highlights of the memories at positions `top`, empty without any.
pub open spec fn highlights_spec(s: Seq<MemoryItem>, top: Seq<usize>) -> Seq<char> {
    if top.len() == 0 {
        Seq::empty()
    } else {
        " Notable memories include: "@ + join(
            top.map_values(|j: usize| highlight_spec(s[j as int].content@)),
            "; "@,
        )
    }
}

/// The tallies of high and medium importance, each left out when zero.
pub open spec fn tallies_spec(s: Seq<MemoryItem>) -> Seq<char> {
    (if high_count(s) > 0 {
        " "@ + decimal(high_count(s)) + " high-importance items"@
    } else {
        Seq::empty()
    }) + (if medium_count(s) > 0 {
        ", "@ + decimal(medium_count(s)) + " medium-importance items"@
    } else {
        Seq::empty()
    })
}

/// The summary text of a session's memories in chronological order: the
/// count and time span, the key topics, up to three highlights of the most
/// important memories, and the tallies of high and medium importance.
pub open spec fn summary_text_spec(s: Seq<MemoryItem>, topics: Seq<Seq<char>>, top: Seq<usize>) -> Seq<char> {
    head_spec(s) + topics_spec(topics) + highlights_spec(s, top) + tallies_spec(s)
}

fn head_text(items: &Vec<MemoryItem>, pos: &Vec<usize>) -> (r: String)
    requires
        pos@.len() > 0,
        forall|k: int| 0 <= k < pos@.len() ==> pos@[k] < items@.len(),
        forall|a: int, b: int| 0 <= a < b < pos@.len() ==> pick(items@, pos@)[a].created_at <= pick(items@, pos@)[b].created_at,
    ensures
        r@ == head_spec(pick(items@, pos@)),
{
    let n = pos.len();
    let mut r = owned("Session contains ");
    let ns = decimal_string(n as u64);
    r.append(ns.as_str());
    r.append(" memories");
    let first = items[pos[0]].created_at;
    let last = items[pos[n - 1]].created_at;
    if n > 1 {
        proof {
            assert(pick(items@, pos@)[0].created_at <= pick(items@, pos@)[n - 1].created_at);
        }
        let d: i128 = last as i128 - first as i128;
        let (value, unit) = if d / 86400 > 0 {
            (d / 86400, " days")
        } else if d / 3600 > 0 {
            (d / 3600, " hours")
        } else {
            (d / 60, " minutes")
        };
        r.append(" over ");
        let vs = decimal_string(value as u64);
        r.append(vs.as_str());
        r.append(unit);
    }
    r.append(".");
    assert(r@ =~= head_spec(pick(items@, pos@)));
    r
}

fn highlights_text(items: &Vec<MemoryItem>, pos: &Vec<usize>) -> (r: String)
    requires
        forall|k: int| 0 <= k < pos@.len() ==> pos@[k] < items@.len(),
    ensures
        exists|top: Seq<usize>|
            is_top_k(importances(pick(items@, pos@)), HIGHLIGHTS as nat, top) && r@ == highlights_spec(pick(items@, pos@), top),
{
    let n = pos.len();
    let mut scores: Vec<u64> = Vec::new();
    let mut i: usize = 0;
    while i < n
        invariant
            i <= n,
            n == pos@.len(),
            forall|q: int| 0 <= q < pos@.len() ==> pos@[q] < items@.len(),
            scores@ == importances(pick(items@, pos@).subrange(0, i as int)),
        decreases n - i,
    {
        scores.push(items[pos[i]].importance as u64);
        proof {
            assert(importances(pick(items@, pos@).subrange(0, i + 1)) =~= scores@);
        }
        i = i + 1;
    }
    assert(pick(items@, pos@).subrange(0, n as int) =~= pick(items@, pos@));
    let top = top_k(&scores, HIGHLIGHTS);
    let ghost parts = top@.map_values(|j: usize| highlight_spec(pick(items@, pos@)[j as int].content@));
    let mut r = String::new();
    if top.len() > 0 {
        r.append(" Notable memories include: ");
        let mut k: usize = 0;
        while k < top.len()
            invariant
                k <= top@.len(),
                n == pos@.len(),
                forall|q: int| 0 <= q < pos@.len() ==> pos@[q] < items@.len(),
                forall|a: int| 0 <= a < top@.len() ==> top@[a] < n,
                parts == top@.map_values(|j: usize| highlight_spec(pick(items@, pos@)[j as int].content@)),
                r@ == " Notable memories include: "@ + join(parts.subrange(0, k as int), "; "@),
            decreases top@.len() - k,
        {
            if k > 0 {
                r.append("; ");
            }
            let h = highlight(&items[pos[top[k]]].content);
            r.append(h.as_str());
            proof {
                let sub = parts.subrange(0, k + 1);
                assert(sub.drop_last() =~= parts.subrange(0, k as int));
                assert(sub.last() == h@);
                if k == 0 {
                    assert(join(sub, "; "@) == h@);
                }
            }
            k = k + 1;
        }
        assert(parts.subrange(0, top@.len() as int) =~= parts);
    }
    assert(scores@ == importances(pick(items@, pos@)));
    assert(r@ == highlights_spec(pick(items@, pos@), top@));
    r
}

fn tallies_text(items: &Vec<MemoryItem>, pos: &Vec<usize>) -> (r: String)
    requires
        forall|k: int| 0 <= k < pos@.len() ==> pos@[k] < items@.len(),
    ensures
        r@ == tallies_spec(pick(items@, pos@)),
{
    let n = pos.len();
    let mut high: u64 = 0;
    let mut medium: u64 = 0;
    let mut i: usize = 0;
    while i < n
        invariant
            i <= n,
            n == pos@.len(),
            forall|q: int| 0 <= q < pos@.len() ==> pos@[q] < items@.len(),
            high == high_count(pick(items@, pos@).subrange(0, i as int)),
            medium == medium_count(pick(items@, pos@).subrange(0, i as int)),
            high <= i && medium <= i,
        decreases n - i,
    {
        proof {
            assert(pick(items@, pos@).subrange(0, i + 1).drop_last() =~= pick(items@, pos@).subrange(0, i as int));
        }
        let imp = items[pos[i]].importance;
        if imp > 700 {
            high = high + 1;
        }
        if imp > 400 && imp <= 700 {
            medium = medium + 1;
        }
        i = i + 1;
    }
    assert(pick(items@, pos@).subrange(0, n as int) =~= pick(items@, pos@));
    let mut r = String::new();
    if high > 0 {
        r.append(" ");
        let hs = decimal_string(high);
        r.append(hs.as_str());
        r.append(" high-importance items");
    }
    if medium > 0 {
        r.append(", ");
        let ms = decimal_string(medium);
        r.append(ms.as_str());
        r.append(" medium-importance items");
    }
    assert(r@ =~= tallies_spec(pick(items@, pos@)));
    r
}

fn topics_text(topics: &Vec<String>) -> (r: String)
    ensures
        r@ == topics_spec(views(topics@)),
{
    let mut r = String::new();
    if topics.len() > 0 {
        r.append(" Key topics: ");
        let mut k: usize = 0;
        while k < topics.len()
            invariant
                k <= topics@.len(),
                r@ == " Key topics: "@ + join(views(topics@).subrange(0, k as int), ", "@),
            decreases topics@.len() - k,
        {
            if k > 0 {
                r.append(", ");
            }
            r.append(topics[k].as_str());
            proof {
                let sub = views(topics@).subrange(0, k + 1);
                assert(sub.drop_last() =~= views(topics@).subrange(0, k as int));
                if k == 0 {
                    assert(join(sub, ", "@) == sub[0]);
                }
            }
            k = k + 1;
        }
        assert(views(topics@).subrange(0, topics@.len() as int) =~= views(topics@));
        r.append(".");
    }
    r
}

/// The summary text of the memories at positions `pos`, given in
/// chronological order.
pub fn summary_text_of(items: &Vec<MemoryItem>, pos: &Vec<usize>, topics: &Vec<String>) -> (r: String)
    requires
        pos@.len() > 0,
        forall|k: int| 0 <= k < pos@.len() ==> pos@[k] < items@.len(),
        forall|a: int, b: int|
            0 <= a < b < pos@.len() ==> pick(items@, pos@)[a].created_at <= pick(items@, pos@)[b].created_at,
    ensures
        exists|top: Seq<usize>|
            is_top_k(importances(pick(items@, pos@)), HIGHLIGHTS as nat, top) && r@ == summary_text_spec(
                pick(items@, pos@),
                views(topics@),
                top,
            ),
{
    let mut r = head_text(items, pos);
    let t = topics_text(topics);
    r.append(t.as_str());
    let h = highlights_text(items, pos);
    r.append(h.as_str());
    let c = tallies_text(items, pos);
    r.append(c.as_str());
    r
}

/// The positions `0 .. n`.
fn all_positions(n: usize) -> (r: Vec<usize>)
    ensures
        r@ == Seq::new(n as nat, |i: int| i as usize),
{
    let mut r: Vec<usize> = Vec::new();
    let mut i: usize = 0;
    while i < n
        invariant
            i <= n,
            r@ == Seq::new(i as nat, |q: int| q as usize),
        decreases n - i,
    {
        r.push(i);
        proof {
            assert(r@ =~= Seq::new((i + 1) as nat, |q: int| q as usize));
        }
        i = i + 1;
    }
    r
}

/// The summary text of a session's memories, given in chronological order.
pub fn generate_summary_text(s: &Vec<MemoryItem>, topics: &Vec<String>) -> (r: String)
    requires
        s@.len() > 0,
        forall|a: int, b: int| 0 <= a < b < s@.len() ==> s@[a].created_at <= s@[b].created_at,
    ensures
        exists|top: Seq<usize>|
            is_top_k(importances(s@), HIGHLIGHTS as nat, top) && r@ == summary_text_spec(
                s@,
                views(topics@),
                top,
            ),
{
    let pos = all_positions(s.len());
    assert(pick(s@, pos@) =~= s@);
    summary_text_of(s, &pos, topics)
}

/// The summary of a session from its memories (in any order), with the key
/// topics already chosen, stamped at `now`: the memories are taken in
/// chronological order; the summary spans from the first to the last, scores
/// their mean importance, and belongs to the first memory's user. Without
/// memories there is nothing to summarise.
pub fn session_summary(session_id: &str, memories: &Vec<MemoryItem>, topics: &Vec<String>, now: i64) -> (r: Result<SessionSummary, ValidationError>)
    requires
        forall|k: int| 0 <= k < memories@.len() ==> memories@[k].importance <= IMPORTANCE_SCALE,
    ensures
        r is Err <==> memories@.len() == 0,
        r matches Ok(s) ==> exists|pos: Seq<usize>|
            #![trigger pick(memories@, pos)]
            {
                let sorted = pick(memories@, pos);
                &&& chronological(
                    memories@,
                    Seq::new(memories@.len(), |i: int| i as usize),
                    pos,
                )
                &&& s.date_range == (sorted[0].created_at, sorted.last().created_at)
                &&& s.importance_score == importance_sum(sorted) / sorted.len()
                &&& exists|top: Seq<usize>|
                    is_top_k(importances(sorted), HIGHLIGHTS as nat, top) && s.summary_text@
                        == summary_text_spec(sorted, views(topics@), top)
                &&& views(s.key_topics@) == views(topics@)
                &&& s.memory_count == memories@.len()
                &&& s.user_id@ == sorted[0].user_id@
                &&& s.session_id@ == session_id@
                &&& s.created_at == now && s.updated_at == now
            },
{
    let n = memories.len();
    if n == 0 {
        return Err(ValidationError::InvalidInput { message: owned("No memories found for session") });
    }
    let all = all_positions(n);
    let pos = chronological_order(memories, &all);
    let ghost order = choose|o: Seq<usize>|
        chronological(memories@, all@, o) && pos@ == o.map_values(|j: usize| all@[j as int]);
    proof {
        assert(pos@ =~= order);
        lemma_chronological(memories@, all@, order);
    }
    let text = summary_text_of(memories, &pos, topics);
    let score = mean_of(memories, &pos);
    let mut key_topics: Vec<String> = Vec::new();
    let mut k: usize = 0;
    while k < topics.len()
        invariant
            k <= topics@.len(),
            views(key_topics@) == views(topics@).subrange(0, k as int),
        decreases topics@.len() - k,
    {
        let ghost before = key_topics@;
        key_topics.push(topics[k].clone());
        proof {
            assert(views(key_topics@) =~= views(before).push(topics@[k as int]@));
        }
        k = k + 1;
    }
    assert(views(topics@).subrange(0, topics@.len() as int) =~= views(topics@));
    let first = pos[0];
    let last = pos[n - 1];
    Ok(
        SessionSummary {
            session_id: owned(session_id),
            user_id: memories[first].user_id.clone(),
            summary_text: text,
            key_topics,
            memory_count: n,
            date_range: (memories[first].created_at, memories[last].created_at),
            importance_score: score,
            created_at: now,
            updated_at: now,
        },
    )
}

/// Fewest old memories a session needs to be summarised by decay.
pub const MIN_SUMMARY_MEMORIES: u64 = 5;

/// The session ids of a list of memories, in order.
pub open spec fn session_ids(s: Seq<MemoryItem>) -> Seq<Seq<char>> {
    s.map_values(|m: MemoryItem| m.session_id@)
}

/// The sessions, in order of first appearance, that hold at least
/// `MIN_SUMMARY_MEMORIES` of the given (old) memories.
pub fn sessions_to_summarize(old: &Vec<MemoryItem>) -> (r: Vec<String>)
    ensures
        views(r@) == distinct_words(session_ids(old@)).filter(
            |w: Seq<char>| occurrences(session_ids(old@), w) >= MIN_SUMMARY_MEMORIES,
        ),
{
    let mut ids: Vec<String> = Vec::new();
    let mut i: usize = 0;
    while i < old.len()
        invariant
            i <= old@.len(),
            views(ids@) == session_ids(old@.subrange(0, i as int)),
        decreases old@.len() - i,
    {
        let ghost before = ids@;
        ids.push(old[i].session_id.clone());
        proof {
            assert(views(ids@) =~= views(before).push(old@[i as int].session_id@));
            assert(views(ids@) =~= session_ids(old@.subrange(0, i + 1)));
        }
        i = i + 1;
    }
    assert(old@.subrange(0, old@.len() as int) =~= old@);
    let (sessions, counts) = count_words(&ids);
    let ghost all = session_ids(old@);
    let ghost pred = |w: Seq<char>| occurrences(all, w) >= MIN_SUMMARY_MEMORIES;
    let mut r: Vec<String> = Vec::new();
    let mut k: usize = 0;
    while k < sessions.len()
        invariant
            k <= sessions@.len(),
            counts@.len() == sessions@.len(),
            views(sessions@) == distinct_words(all),
            forall|j: int| 0 <= j < counts@.len() ==> counts@[j] == occurrences(all, #[trigger] sessions@[j]@),
            pred == (|w: Seq<char>| occurrences(all, w) >= MIN_SUMMARY_MEMORIES),
            views(r@) == views(sessions@).subrange(0, k as int).filter(pred),
        decreases sessions@.len() - k,
    {
        let ghost before = r@;
        proof {
            let sub = views(sessions@).subrange(0, k + 1);
            assert(sub.drop_last() =~= views(sessions@).subrange(0, k as int));
            assert(sub.last() == sessions@[k as int]@);
            reveal(Seq::filter);
        }
        if counts[k] >= MIN_SUMMARY_MEMORIES {
            r.push(sessions[k].clone());
            proof {
                assert(views(r@) =~= views(before).push(sessions@[k as int]@));
            }
        }
        k = k + 1;
    }
    assert(views(sessions@).subrange(0, sessions@.len() as int) =~= views(sessions@));
    r
}

/// Number of the documents whose tokens contain `w`.
pub open spec fn doc_frequency(docs: Seq<Seq<Seq<char>>>, w: Seq<char>) -> nat
    decreases docs.len(),
{
    if docs.len() == 0 {
        0
    } else {
        doc_frequency(docs.drop_last(), w) + if docs.last().contains(w) {
            1nat
        } else {
            0nat
        }
    }
}

/// The topic tokens of each memory.
pub open spec fn topic_docs(s: Seq<MemoryItem>) -> Seq<Seq<Seq<char>>> {
    s.map_values(|m: MemoryItem| tokens_spec(m.content@, true))
}

/// The topic tokens of all memories, one memory after the other.
pub open spec fn all_topic_tokens(s: Seq<MemoryItem>) -> Seq<Seq<char>>
    decreases s.len(),
{
    if s.len() == 0 {
        Seq::empty()
    } else {
        all_topic_tokens(s.drop_last()) + tokens_spec(s.last().content@, true)
    }
}

/// Term statistics of a session for topic ranking: every distinct topic
/// token in order of first appearance, with its term frequency (occurrences
/// over all memories) and document frequency (memories that hold it).
pub fn topic_term_stats(s: &Vec<MemoryItem>) -> (r: Vec<(String, u64, u64)>)
    ensures
        r@.len() == distinct_words(all_topic_tokens(s@)).len(),
        forall|j: int|
            0 <= j < r@.len() ==> {
                let w = distinct_words(all_topic_tokens(s@))[j];
                &&& (#[trigger] r@[j]).0@ == w
                &&& r@[j].1 == occurrences(all_topic_tokens(s@), w)
                &&& r@[j].2 == doc_frequency(topic_docs(s@), w)
            },
{
    let mut docs: Vec<Vec<String>> = Vec::new();
    let mut all: Vec<String> = Vec::new();
    let mut i: usize = 0;
    while i < s.len()
        invariant
            i <= s@.len(),
            docs@.len() == i,
            forall|k: int| 0 <= k < i ==> views(#[trigger] docs@[k]@) == tokens_spec(s@[k].content@, true),
            views(all@) == all_topic_tokens(s@.subrange(0, i as int)),
        decreases s@.len() - i,
    {
        let t = tokenize(s[i].content.as_str(), true);
        let mut t2 = tokenize(s[i].content.as_str(), true);
        proof {
            assert(views(t@) =~= tokens_spec(s@[i as int].content@, true));
            assert(views(t2@) =~= tokens_spec(s@[i as int].content@, true));
            assert(s@.subrange(0, i + 1).drop_last() =~= s@.subrange(0, i as int));
        }
        let ghost before = all@;
        let ghost tv = t2@;
        all.append(&mut t2);
        proof {
            assert(views(all@) =~= views(before) + views(tv));
        }
        docs.push(t);
        i = i + 1;
    }
    assert(s@.subrange(0, s@.len() as int) =~= s@);
    let (words, counts) = count_words(&all);
    let ghost dv = topic_docs(s@);
    let mut r: Vec<(String, u64, u64)> = Vec::new();
    let mut j: usize = 0;
    while j < words.len()
        invariant
            j <= words@.len(),
            counts@.len() == words@.len(),
            views(words@) == distinct_words(all_topic_tokens(s@)),
            forall|q: int| 0 <= q < counts@.len() ==> counts@[q] == occurrences(all_topic_tokens(s@), #[trigger] words@[q]@),
            docs@.len() == s@.len(),
            dv == topic_docs(s@),
            forall|k: int| 0 <= k < docs@.len() ==> views(#[trigger] docs@[k]@) == dv[k],
            r@.len() == j,
            forall|q: int|
                0 <= q < j ==> {
                    &&& (#[trigger] r@[q]).0@ == words@[q]@
                    &&& r@[q].1 == counts@[q]
                    &&& r@[q].2 == doc_frequency(dv, words@[q]@)
                },
        decreases words@.len() - j,
    {
        let w = &words[j];
        let mut df: u64 = 0;
        let mut k: usize = 0;
        while k < docs.len()
            invariant
                k <= docs@.len(),
                docs@.len() == dv.len(),
                forall|q: int| 0 <= q < docs@.len() ==> views(#[trigger] docs@[q]@) == dv[q],
                df == doc_frequency(dv.subrange(0, k as int), w@),
                df <= k,
            decreases docs@.len() - k,
        {
            proof {
                assert(dv.subrange(0, k + 1).drop_last() =~= dv.subrange(0, k as int));
                assert(dv.subrange(0, k + 1).last() == dv[k as int]);
            }
            let d = &docs[k];
            let mut found = false;
            let mut q: usize = 0;
            while q < d.len()
                invariant_except_break
                    !found,
                invariant
                    q <= d@.len(),
                    forall|x: int| 0 <= x < q ==> d@[x]@ != w@,
                ensures
                    found <==> exists|x: int| 0 <= x < d@.len() && d@[x]@ == w@,
                decreases d@.len() - q,
            {
                if d[q] == *w {
                    found = true;
                    break;
                }
                q = q + 1;
            }
            proof {
                assert(views(d@) == dv[k as int]);
                if found {
                    let x = choose|x: int| 0 <= x < d@.len() && d@[x]@ == w@;
                    assert(views(d@)[x] == w@);
                    assert(dv[k as int].contains(w@));
                } else {
                    assert forall|x: int| 0 <= x < dv[k as int].len() implies dv[k as int][x] != w@ by {
                        assert(views(d@)[x] == d@[x]@);
                    }
                }
            }
            if found {
                df = df + 1;
            }
            k = k + 1;
        }
        assert(dv.subrange(0, dv.len() as int) =~= dv);
        r.push((w.clone(), counts[j], df));
        proof {
            assert(views(words@)[j as int] == words@[j as int]@);
        }
        j = j + 1;
    }
    proof {
        assert forall|q: int| 0 <= q < r@.len() implies views(words@)[q] == words@[q]@ by {}
    }
    r
}

/// What chrono's `%Y-%m-%d` format makes of an instant in seconds (empty
/// when chrono cannot represent it).
pub uninterp spec fn day_key_of(t: i64) -> Seq<char>;

/// Relies on `chrono::DateTime::from_timestamp` and `format("%Y-%m-%d")`:
/// the UTC calendar day of the instant, or an empty string out of range.
#[verifier::external_body]
pub fn day_key(t: i64) -> (r: String)
    ensures
        r@ == day_key_of(t),
{
    chrono::DateTime::from_timestamp(t, 0).map(|d| d.format("%Y-%m-%d").to_string()).unwrap_or_default()
}

/// Aggregates over a user's sessions.
#[derive(Debug, Clone)]
pub struct SessionAnalytics {
    pub user_id: String,
    pub total_sessions: usize,
    pub total_memories: usize,
    /// Position of the session with the most memories (the last such one).
    pub most_active_session: Option<usize>,
    /// Position of the most recently active session (the last such one).
    pub most_recent_session: Option<usize>,
    /// Memories per day of last activity, days in order of first appearance.
    pub activity_by_day: Vec<(String, usize)>,
}

/// Total memory count of a list of sessions.
pub open spec fn memory_total(s: Seq<Session>) -> int
    decreases s.len(),
{
    if s.len() == 0 {
        0
    } else {
        memory_total(s.drop_last()) + s.last().memory_count
    }
}

/// Position `i` holds the largest value of `f`, and no later position holds
/// as large a one.
pub open spec fn last_max(s: Seq<Session>, f: spec_fn(Session) -> int, i: int) -> bool {
    &&& 0 <= i < s.len()
    &&& forall|j: int| 0 <= j < s.len() ==> f(#[trigger] s[j]) <= f(s[i])
    &&& forall|j: int| i < j < s.len() ==> f(#[trigger] s[j]) < f(s[i])
}

/// Memory count of the sessions whose day of last activity is `day`.
pub open spec fn day_total(s: Seq<Session>, day: Seq<char>) -> int
    decreases s.len(),
{
    if s.len() == 0 {
        0
    } else {
        day_total(s.drop_last(), day) + if day_key_of(s.last().last_active) == day {
            s.last().memory_count as int
        } else {
            0
        }
    }
}

/// The days of last activity of a list of sessions, in order.
pub open spec fn session_days(s: Seq<Session>) -> Seq<Seq<char>> {
    s.map_values(|x: Session| day_key_of(x.last_active))
}

/// Analytics of a user's sessions: how many, how many memories, the most
/// active and the most recent session, and memories per day of last
/// activity.
pub fn session_analytics(user_id: &str, sessions: &Vec<Session>) -> (r: SessionAnalytics)
    requires
        memory_total(sessions@) <= usize::MAX,
    ensures
        r.user_id@ == user_id@,
        r.total_sessions == sessions@.len(),
        r.total_memories == memory_total(sessions@),
        sessions@.len() == 0 ==> r.most_active_session.is_none() && r.most_recent_session.is_none(),
        sessions@.len() > 0 ==> (r.most_active_session matches Some(i) && last_max(
            sessions@,
            |x: Session| x.memory_count as int,
            i as int,
        )),
        sessions@.len() > 0 ==> (r.most_recent_session matches Some(i) && last_max(
            sessions@,
            |x: Session| x.last_active as int,
            i as int,
        )),
        r.activity_by_day@.len() == distinct_words(session_days(sessions@)).len(),
        forall|k: int|
            0 <= k < r.activity_by_day@.len() ==> (#[trigger] r.activity_by_day@[k]).0@
                == distinct_words(session_days(sessions@))[k] && r.activity_by_day@[k].1
                == day_total(sessions@, distinct_words(session_days(sessions@))[k]),
{
    let ghost fa = |x: Session| x.memory_count as int;
    let ghost fr = |x: Session| x.last_active as int;
    let n = sessions.len();
    let mut total: usize = 0;
    let mut active: usize = 0;
    let mut recent: usize = 0;
    let mut i: usize = 0;
    while i < n
        invariant
            i <= n,
            n == sessions@.len(),
            memory_total(sessions@) <= usize::MAX,
            total == memory_total(sessions@.subrange(0, i as int)),
            fa == (|x: Session| x.memory_count as int),
            fr == (|x: Session| x.last_active as int),
            i > 0 ==> last_max(sessions@.subrange(0, i as int), fa, active as int),
            i > 0 ==> last_max(sessions@.subrange(0, i as int), fr, recent as int),
        decreases n - i,
    {
        proof {
            assert(sessions@.subrange(0, i + 1).drop_last() =~= sessions@.subrange(0, i as int));
            lemma_total_prefix(sessions@, i as int + 1);
        }
        total = total + sessions[i].memory_count;
        if i == 0 || sessions[i].memory_count >= sessions[active].memory_count {
            active = i;
        }
        if i == 0 || sessions[i].last_active >= sessions[recent].last_active {
            recent = i;
        }
        proof {
            let sub = sessions@.subrange(0, i + 1);
            assert forall|j: int| 0 <= j < sub.len() implies sub[j] == sessions@[j] by {}
        }
        i = i + 1;
    }
    assert(sessions@.subrange(0, n as int) =~= sessions@);
    let mut days: Vec<String> = Vec::new();
    let mut k: usize = 0;
    while k < n
        invariant
            k <= n,
            n == sessions@.len(),
            views(days@) == session_days(sessions@.subrange(0, k as int)),
        decreases n - k,
    {
        let d = day_key(sessions[k].last_active);
        let ghost before = days@;
        days.push(d);
        proof {
            assert(views(days@) =~= views(before).push(day_key_of(sessions@[k as int].last_active)));
            assert(views(days@) =~= session_days(sessions@.subrange(0, k + 1)));
        }
        k = k + 1;
    }
    assert(sessions@.subrange(0, n as int) =~= sessions@);
    assert(views(days@).len() == days@.len());
    let (keys, _counts) = count_words(&days);
    let mut by_day: Vec<(String, usize)> = Vec::new();
    let mut q: usize = 0;
    while q < keys.len()
        invariant
            q <= keys@.len(),
            n == sessions@.len(),
            memory_total(sessions@) <= usize::MAX,
            views(keys@) == distinct_words(session_days(sessions@)),
            views(days@) == session_days(sessions@),
            days@.len() == n,
            by_day@.len() == q,
            forall|x: int|
                0 <= x < q ==> (#[trigger] by_day@[x]).0@ == keys@[x]@ && by_day@[x].1
                    == day_total(sessions@, keys@[x]@),
        decreases keys@.len() - q,
    {
        let key = &keys[q];
        let mut sum: usize = 0;
        let mut j: usize = 0;
        while j < n
            invariant
                j <= n,
                n == sessions@.len(),
                memory_total(sessions@) <= usize::MAX,
                views(days@) == session_days(sessions@),
                days@.len() == n,
                sum == day_total(sessions@.subrange(0, j as int), key@),
                sum <= memory_total(sessions@.subrange(0, j as int)),
            decreases n - j,
        {
            proof {
                assert(sessions@.subrange(0, j + 1).drop_last() =~= sessions@.subrange(0, j as int));
                lemma_total_prefix(sessions@, j as int + 1);
                assert(views(days@)[j as int] == days@[j as int]@);
            }
            if days[j] == *key {
                sum = sum + sessions[j].memory_count;
            }
            j = j + 1;
        }
        assert(sessions@.subrange(0, n as int) =~= sessions@);
        by_day.push((key.clone(), sum));
        proof {
            assert(views(keys@)[q as int] == keys@[q as int]@);
        }
        q = q + 1;
    }
    proof {
        assert forall|x: int| 0 <= x < by_day@.len() implies views(keys@)[x] == keys@[x]@ by {}
    }
    SessionAnalytics {
        user_id: owned(user_id),
        total_sessions: n,
        total_memories: total,
        most_active_session: if n > 0 {
            Some(active)
        } else {
            None
        },
        most_recent_session: if n > 0 {
            Some(recent)
        } else {
            None
        },
        activity_by_day: by_day,
    }
}

proof fn lemma_total_prefix(s: Seq<Session>, i: int)
    requires
        0 <= i <= s.len(),
    ensures
        memory_total(s.subrange(0, i)) <= memory_total(s),
        memory_total(s.subrange(0, i)) >= 0,
    decreases s.len() - i,
{
    if i < s.len() {
        lemma_total_prefix(s, i + 1);
        assert(s.subrange(0, i + 1).drop_last() =~= s.subrange(0, i));
    } else {
        assert(s.subrange(0, i) =~= s);
    }
    lemma_total_nonneg(s.subrange(0, i));
}

proof fn lemma_total_nonneg(s: Seq<Session>)
    ensures
        memory_total(s) >= 0,
    decreases s.len(),
{
    if s.len() > 0 {
        lemma_total_nonneg(s.drop_last());
    }
}

/// A score that ranks later instants first (and keeps ties in order).
pub open spec fn latest_first(t: i64) -> u64 {
    (t as int - i64::MIN as int) as u64
}

/// Positions of the sessions named by any of the matched memories, most
/// recently active first (ties in list order): the result of a
/// cross-session keyword search.
pub fn select_sessions(sessions: &Vec<Session>, matched: &Vec<MemoryItem>) -> (r: Vec<usize>)
    ensures
        exists|keep: Seq<usize>, top: Seq<usize>|
            #![trigger through_positions(keep, top)]
            {
                &&& forall|k: int| 0 <= k < keep.len() ==> keep[k] < sessions@.len()
                &&& forall|a: int, b: int| 0 <= a < b < keep.len() ==> keep[a] < keep[b]
                &&& forall|i: int|
                    0 <= i < sessions@.len() ==> (keep.contains(i as usize) <==> session_ids(
                        matched@,
                    ).contains(#[trigger] sessions@[i].id@))
                &&& is_top_k(
                    keep.map_values(|p: usize| latest_first(sessions@[p as int].last_active)),
                    keep.len(),
                    top,
                )
                &&& r@ == through_positions(keep, top)
            },
{
    let mut ids: Vec<String> = Vec::new();
    let mut i: usize = 0;
    while i < matched.len()
        invariant
            i <= matched@.len(),
            views(ids@) == session_ids(matched@.subrange(0, i as int)),
        decreases matched@.len() - i,
    {
        let ghost before = ids@;
        ids.push(matched[i].session_id.clone());
        proof {
            assert(views(ids@) =~= views(before).push(matched@[i as int].session_id@));
            assert(views(ids@) =~= session_ids(matched@.subrange(0, i + 1)));
        }
        i = i + 1;
    }
    assert(matched@.subrange(0, matched@.len() as int) =~= matched@);
    let ghost all = session_ids(matched@);
    let mut keep: Vec<usize> = Vec::new();
    let mut scores: Vec<u64> = Vec::new();
    let mut p: usize = 0;
    while p < sessions.len()
        invariant
            p <= sessions@.len(),
            views(ids@) == all,
            forall|k: int| 0 <= k < keep@.len() ==> keep@[k] < p,
            forall|a: int, b: int| 0 <= a < b < keep@.len() ==> keep@[a] < keep@[b],
            forall|q: int|
                0 <= q < p ==> (keep@.contains(q as usize) <==> all.contains(
                    #[trigger] sessions@[q].id@,
                )),
            scores@ == keep@.map_values(|x: usize| latest_first(sessions@[x as int].last_active)),
        decreases sessions@.len() - p,
    {
        let mut found = false;
        let mut j: usize = 0;
        while j < ids.len()
            invariant_except_break
                !found,
            invariant
                j <= ids@.len(),
                p < sessions@.len(),
                forall|x: int| 0 <= x < j ==> ids@[x]@ != sessions@[p as int].id@,
            ensures
                found <==> exists|x: int| 0 <= x < ids@.len() && ids@[x]@ == sessions@[p as int].id@,
            decreases ids@.len() - j,
        {
            if ids[j] == sessions[p].id {
                found = true;
                break;
            }
            j = j + 1;
        }
        proof {
            if found {
                let x = choose|x: int| 0 <= x < ids@.len() && ids@[x]@ == sessions@[p as int].id@;
                assert(views(ids@)[x] == ids@[x]@);
                assert(all.contains(sessions@[p as int].id@));
            } else {
                assert forall|x: int| 0 <= x < all.len() implies all[x] != sessions@[p as int].id@ by {
                    assert(views(ids@)[x] == ids@[x]@);
                }
            }
        }
        let ghost before = keep@;
        if found {
            keep.push(p);
            let t = sessions[p].last_active;
            scores.push((t as i128 - i64::MIN as i128) as u64);
            proof {
                assert(scores@ =~= keep@.map_values(|x: usize| latest_first(sessions@[x as int].last_active)));
            }
        }
        proof {
            assert forall|q: int|
                0 <= q < p + 1 implies (keep@.contains(q as usize) <==> all.contains(
                    #[trigger] sessions@[q].id@,
                )) by {
                if q < p {
                    if before.contains(q as usize) {
                        let y = choose|y: int| 0 <= y < before.len() && before[y] == q as usize;
                        assert(keep@[y] == q as usize);
                    }
                    if keep@.contains(q as usize) {
                        let y = choose|y: int| 0 <= y < keep@.len() && keep@[y] == q as usize;
                        if y < before.len() {
                            assert(before[y] == q as usize);
                        }
                    }
                } else {
                    if found {
                        assert(keep@[keep@.len() - 1] == q as usize);
                    } else {
                        if keep@.contains(q as usize) {
                            let y = choose|y: int| 0 <= y < keep@.len() && keep@[y] == q as usize;
                            assert(keep@[y] < p);
                        }
                    }
                }
            }
        }
        p = p + 1;
    }
    let top = top_k(&scores, keep.len());
    let mut r: Vec<usize> = Vec::new();
    let mut k: usize = 0;
    while k < top.len()
        invariant
            k <= top@.len(),
            forall|a: int| 0 <= a < top@.len() ==> top@[a] < keep@.len(),
            r@ == top@.subrange(0, k as int).map_values(|x: usize| keep@[x as int]),
        decreases top@.len() - k,
    {
        r.push(keep[top[k]]);
        proof {
            assert(top@.subrange(0, k + 1).map_values(|x: usize| keep@[x as int]) =~= r@);
        }
        k = k + 1;
    }
    assert(top@.subrange(0, top@.len() as int) =~= top@);
    assert(r@ == through_positions(keep@, top@));
    r
}

/// The entries of `keep` at the positions `top`.
pub open spec fn through_positions(keep: Seq<usize>, top: Seq<usize>) -> Seq<usize> {
    top.map_values(|j: usize| keep[j as int])
}

} // verus!
