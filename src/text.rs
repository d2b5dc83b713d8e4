//! Text helpers: case folding, tokenisation and stop words.
use vstd::prelude::*;

use vstd::utf8::encode_utf8;

use crate::util::str_is;

verus! {

/// What `str::to_lowercase` makes of a string.
pub uninterp spec fn lower_of(s: Seq<char>) -> Seq<char>;

/// Relies on `str::to_lowercase`: the result depends on the characters alone,
/// and an empty string stays empty.
#[verifier::external_body]
pub fn lowercase(s: &str) -> (r: String)
    ensures
        r@ == lower_of(s@),
        s@.len() == 0 ==> r@.len() == 0,
{
    s.to_lowercase()
}

} // verus!

verus! {

/// A text is blank when every character is white space (the empty text
/// included): nothing is left once it is trimmed.
pub open spec fn blank_of(s: Seq<char>) -> bool {
    forall|i: int| 0 <= i < s.len() ==> space_of(#[trigger] s[i])
}

/// Whether a text is blank.
pub fn is_blank(s: &str) -> (r: bool)
    ensures
        r == blank_of(s@),
{
    let cs = chars_of(s);
    let mut i: usize = 0;
    while i < cs.len()
        invariant
            i <= cs@.len(),
            cs@ == s@,
            forall|k: int| 0 <= k < i ==> space_of(#[trigger] cs@[k]),
        decreases cs@.len() - i,
    {
        if !is_space(cs[i]) {
            return false;
        }
        i = i + 1;
    }
    true
}

} // verus!

verus! {

/// The common English words that carry no topic.
pub open spec fn stop_word_spec(w: Seq<char>) -> bool {
    w == "the"@
    || w == "a"@
    || w == "an"@
    || w == "and"@
    || w == "or"@
    || w == "but"@
    || w == "in"@
    || w == "on"@
    || w == "at"@
    || w == "to"@
    || w == "for"@
    || w == "of"@
    || w == "with"@
    || w == "by"@
    || w == "from"@
    || w == "this"@
    || w == "that"@
    || w == "these"@
    || w == "those"@
    || w == "i"@
    || w == "you"@
    || w == "he"@
    || w == "she"@
    || w == "it"@
    || w == "we"@
    || w == "they"@
    || w == "am"@
    || w == "is"@
    || w == "are"@
    || w == "was"@
    || w == "were"@
    || w == "be"@
    || w == "been"@
    || w == "being"@
    || w == "have"@
    || w == "has"@
    || w == "had"@
    || w == "do"@
    || w == "does"@
    || w == "did"@
    || w == "will"@
    || w == "would"@
    || w == "could"@
    || w == "should"@
    || w == "may"@
    || w == "might"@
    || w == "must"@
}

/// Whether `word` is one of the common English words that carry no topic.
pub fn is_stop_word(word: &str) -> (r: bool)
    ensures
        r == stop_word_spec(word@),
{
    let s = word.to_string();
    str_is(&s, "the")
        || str_is(&s, "a")
        || str_is(&s, "an")
        || str_is(&s, "and")
        || str_is(&s, "or")
        || str_is(&s, "but")
        || str_is(&s, "in")
        || str_is(&s, "on")
        || str_is(&s, "at")
        || str_is(&s, "to")
        || str_is(&s, "for")
        || str_is(&s, "of")
        || str_is(&s, "with")
        || str_is(&s, "by")
        || str_is(&s, "from")
        || str_is(&s, "this")
        || str_is(&s, "that")
        || str_is(&s, "these")
        || str_is(&s, "those")
        || str_is(&s, "i")
        || str_is(&s, "you")
        || str_is(&s, "he")
        || str_is(&s, "she")
        || str_is(&s, "it")
        || str_is(&s, "we")
        || str_is(&s, "they")
        || str_is(&s, "am")
        || str_is(&s, "is")
        || str_is(&s, "are")
        || str_is(&s, "was")
        || str_is(&s, "were")
        || str_is(&s, "be")
        || str_is(&s, "been")
        || str_is(&s, "being")
        || str_is(&s, "have")
        || str_is(&s, "has")
        || str_is(&s, "had")
        || str_is(&s, "do")
        || str_is(&s, "does")
        || str_is(&s, "did")
        || str_is(&s, "will")
        || str_is(&s, "would")
        || str_is(&s, "could")
        || str_is(&s, "should")
        || str_is(&s, "may")
        || str_is(&s, "might")
        || str_is(&s, "must")
}

/// Words left out of the key points of a compressed group.
pub open spec fn compression_stop_word_spec(w: Seq<char>) -> bool {
    w == "the"@
    || w == "and"@
    || w == "or"@
    || w == "but"@
    || w == "in"@
    || w == "on"@
    || w == "at"@
    || w == "to"@
    || w == "for"@
    || w == "of"@
    || w == "with"@
    || w == "by"@
    || w == "from"@
    || w == "up"@
    || w == "about"@
    || w == "into"@
    || w == "through"@
    || w == "during"@
    || w == "before"@
    || w == "after"@
    || w == "above"@
    || w == "below"@
    || w == "between"@
    || w == "among"@
    || w == "this"@
    || w == "that"@
    || w == "these"@
    || w == "those"@
    || w == "was"@
    || w == "were"@
    || w == "are"@
    || w == "is"@
    || w == "been"@
    || w == "being"@
    || w == "have"@
    || w == "has"@
    || w == "had"@
    || w == "will"@
    || w == "would"@
    || w == "could"@
    || w == "should"@
    || w == "may"@
    || w == "might"@
    || w == "can"@
    || w == "must"@
    || w == "shall"@
    || w == "do"@
    || w == "does"@
    || w == "did"@
}

/// Whether `word` is left out of the key points of a compressed group.
pub fn is_compression_stop_word(word: &str) -> (r: bool)
    ensures
        r == compression_stop_word_spec(word@),
{
    let s = word.to_string();
    str_is(&s, "the")
        || str_is(&s, "and")
        || str_is(&s, "or")
        || str_is(&s, "but")
        || str_is(&s, "in")
        || str_is(&s, "on")
        || str_is(&s, "at")
        || str_is(&s, "to")
        || str_is(&s, "for")
        || str_is(&s, "of")
        || str_is(&s, "with")
        || str_is(&s, "by")
        || str_is(&s, "from")
        || str_is(&s, "up")
        || str_is(&s, "about")
        || str_is(&s, "into")
        || str_is(&s, "through")
        || str_is(&s, "during")
        || str_is(&s, "before")
        || str_is(&s, "after")
        || str_is(&s, "above")
        || str_is(&s, "below")
        || str_is(&s, "between")
        || str_is(&s, "among")
        || str_is(&s, "this")
        || str_is(&s, "that")
        || str_is(&s, "these")
        || str_is(&s, "those")
        || str_is(&s, "was")
        || str_is(&s, "were")
        || str_is(&s, "are")
        || str_is(&s, "is")
        || str_is(&s, "been")
        || str_is(&s, "being")
        || str_is(&s, "have")
        || str_is(&s, "has")
        || str_is(&s, "had")
        || str_is(&s, "will")
        || str_is(&s, "would")
        || str_is(&s, "could")
        || str_is(&s, "should")
        || str_is(&s, "may")
        || str_is(&s, "might")
        || str_is(&s, "can")
        || str_is(&s, "must")
        || str_is(&s, "shall")
        || str_is(&s, "do")
        || str_is(&s, "does")
        || str_is(&s, "did")
}

/// Words left out of a session's key topics.
pub open spec fn topic_stop_word_spec(w: Seq<char>) -> bool {
    w == "the"@
    || w == "and"@
    || w == "or"@
    || w == "but"@
    || w == "in"@
    || w == "on"@
    || w == "at"@
    || w == "to"@
    || w == "for"@
    || w == "of"@
    || w == "with"@
    || w == "by"@
    || w == "from"@
    || w == "up"@
    || w == "about"@
    || w == "into"@
    || w == "through"@
    || w == "during"@
    || w == "before"@
    || w == "after"@
    || w == "above"@
    || w == "below"@
    || w == "between"@
    || w == "among"@
    || w == "this"@
    || w == "that"@
    || w == "these"@
    || w == "those"@
    || w == "was"@
    || w == "were"@
    || w == "are"@
    || w == "is"@
    || w == "been"@
    || w == "being"@
    || w == "have"@
    || w == "has"@
    || w == "had"@
    || w == "will"@
    || w == "would"@
    || w == "could"@
    || w == "should"@
    || w == "may"@
    || w == "might"@
    || w == "can"@
    || w == "must"@
    || w == "shall"@
    || w == "am"@
    || w == "do"@
    || w == "does"@
    || w == "did"@
    || w == "done"@
    || w == "get"@
    || w == "got"@
    || w == "getting"@
    || w == "very"@
    || w == "much"@
    || w == "more"@
    || w == "most"@
    || w == "many"@
    || w == "some"@
    || w == "any"@
    || w == "all"@
    || w == "each"@
    || w == "every"@
    || w == "few"@
    || w == "several"@
    || w == "other"@
    || w == "another"@
    || w == "such"@
    || w == "only"@
    || w == "own"@
    || w == "same"@
    || w == "so"@
    || w == "than"@
    || w == "too"@
    || w == "just"@
    || w == "now"@
    || w == "here"@
    || w == "there"@
    || w == "when"@
    || w == "where"@
    || w == "why"@
    || w == "how"@
    || w == "what"@
    || w == "which"@
    || w == "who"@
}

/// Whether `word`, lower-cased, is left out of a session's key topics.
pub fn is_topic_stop_word(word: &str) -> (r: bool)
    ensures
        r == topic_stop_word_spec(lower_of(word@)),
{
    let s = lowercase(word);
    str_is(&s, "the")
        || str_is(&s, "and")
        || str_is(&s, "or")
        || str_is(&s, "but")
        || str_is(&s, "in")
        || str_is(&s, "on")
        || str_is(&s, "at")
        || str_is(&s, "to")
        || str_is(&s, "for")
        || str_is(&s, "of")
        || str_is(&s, "with")
        || str_is(&s, "by")
        || str_is(&s, "from")
        || str_is(&s, "up")
        || str_is(&s, "about")
        || str_is(&s, "into")
        || str_is(&s, "through")
        || str_is(&s, "during")
        || str_is(&s, "before")
        || str_is(&s, "after")
        || str_is(&s, "above")
        || str_is(&s, "below")
        || str_is(&s, "between")
        || str_is(&s, "among")
        || str_is(&s, "this")
        || str_is(&s, "that")
        || str_is(&s, "these")
        || str_is(&s, "those")
        || str_is(&s, "was")
        || str_is(&s, "were")
        || str_is(&s, "are")
        || str_is(&s, "is")
        || str_is(&s, "been")
        || str_is(&s, "being")
        || str_is(&s, "have")
        || str_is(&s, "has")
        || str_is(&s, "had")
        || str_is(&s, "will")
        || str_is(&s, "would")
        || str_is(&s, "could")
        || str_is(&s, "should")
        || str_is(&s, "may")
        || str_is(&s, "might")
        || str_is(&s, "can")
        || str_is(&s, "must")
        || str_is(&s, "shall")
        || str_is(&s, "am")
        || str_is(&s, "do")
        || str_is(&s, "does")
        || str_is(&s, "did")
        || str_is(&s, "done")
        || str_is(&s, "get")
        || str_is(&s, "got")
        || str_is(&s, "getting")
        || str_is(&s, "very")
        || str_is(&s, "much")
        || str_is(&s, "more")
        || str_is(&s, "most")
        || str_is(&s, "many")
        || str_is(&s, "some")
        || str_is(&s, "any")
        || str_is(&s, "all")
        || str_is(&s, "each")
        || str_is(&s, "every")
        || str_is(&s, "few")
        || str_is(&s, "several")
        || str_is(&s, "other")
        || str_is(&s, "another")
        || str_is(&s, "such")
        || str_is(&s, "only")
        || str_is(&s, "own")
        || str_is(&s, "same")
        || str_is(&s, "so")
        || str_is(&s, "than")
        || str_is(&s, "too")
        || str_is(&s, "just")
        || str_is(&s, "now")
        || str_is(&s, "here")
        || str_is(&s, "there")
        || str_is(&s, "when")
        || str_is(&s, "where")
        || str_is(&s, "why")
        || str_is(&s, "how")
        || str_is(&s, "what")
        || str_is(&s, "which")
        || str_is(&s, "who")
}

} // verus!

verus! {

/// What `char::is_alphanumeric` says of a character.
pub uninterp spec fn alnum_of(c: char) -> bool;

/// Relies on `char::is_alphanumeric`: the Unicode alphabetic or numeric
/// property of the character alone.
#[verifier::external_body]
pub fn is_alnum(c: char) -> (r: bool)
    ensures
        r == alnum_of(c),
{
    c.is_alphanumeric()
}

/// What `char::is_whitespace` says of a character.
pub uninterp spec fn space_of(c: char) -> bool;

/// Relies on `char::is_whitespace`: the Unicode `White_Space` property of the
/// character alone.
#[verifier::external_body]
pub fn is_space(c: char) -> (r: bool)
    ensures
        r == space_of(c),
{
    c.is_whitespace()
}

/// Relies on `str::chars`: the characters of a string, in order.
#[verifier::external_body]
pub fn chars_of(s: &str) -> (r: Vec<char>)
    ensures
        r@ == s@,
{
    s.chars().collect()
}

/// Relies on `String`'s `FromIterator<&char>`: the string of the characters,
/// in order.
#[verifier::external_body]
pub fn string_of(v: &Vec<char>) -> (r: String)
    ensures
        r@ == v@,
{
    v.iter().collect()
}

/// The digit character of a value below ten.
pub open spec fn digit_char(d: nat) -> char {
    if d == 0 {
        '0'
    } else if d == 1 {
        '1'
    } else if d == 2 {
        '2'
    } else if d == 3 {
        '3'
    } else if d == 4 {
        '4'
    } else if d == 5 {
        '5'
    } else if d == 6 {
        '6'
    } else if d == 7 {
        '7'
    } else if d == 8 {
        '8'
    } else {
        '9'
    }
}

/// Decimal digits of a number, without sign or leading zeros.
pub open spec fn decimal(n: nat) -> Seq<char>
    decreases n,
{
    if n < 10 {
        seq![digit_char(n)]
    } else {
        decimal(n / 10).push(digit_char(n % 10))
    }
}

/// Relies on `u64`'s `Display` through `ToString`: the decimal digits of the
/// number, without sign or leading zeros.
#[verifier::external_body]
pub fn decimal_string(n: u64) -> (r: String)
    ensures
        r@ == decimal(n as nat),
{
    n.to_string()
}

/// Words of a text, scanning left to right: the words completed so far and
/// the word in progress. White space ends a word.
pub open spec fn scan_words(s: Seq<char>) -> (Seq<Seq<char>>, Seq<char>)
    decreases s.len(),
{
    if s.len() == 0 {
        (Seq::empty(), Seq::empty())
    } else {
        let (done, cur) = scan_words(s.drop_last());
        let c = s.last();
        if space_of(c) {
            if cur.len() > 0 {
                (done.push(cur), Seq::empty())
            } else {
                (done, Seq::empty())
            }
        } else {
            (done, cur.push(c))
        }
    }
}

/// The maximal runs of non-white-space characters of a text, in order: what
/// `str::split_whitespace` yields.
pub open spec fn words_of(s: Seq<char>) -> Seq<Seq<char>> {
    let (done, cur) = scan_words(s);
    if cur.len() > 0 {
        done.push(cur)
    } else {
        done
    }
}

/// The words of a text, split on white space.
pub fn split_words(text: &str) -> (r: Vec<Vec<char>>)
    ensures
        r@.len() == words_of(text@).len(),
        forall|k: int| 0 <= k < r@.len() ==> #[trigger] r@[k]@ == words_of(text@)[k],
{
    let cs = chars_of(text);
    let mut done: Vec<Vec<char>> = Vec::new();
    let mut cur: Vec<char> = Vec::new();
    let mut i: usize = 0;
    while i < cs.len()
        invariant
            i <= cs@.len(),
            cs@ == text@,
            done@.len() == scan_words(cs@.subrange(0, i as int)).0.len(),
            forall|k: int|
                0 <= k < done@.len() ==> #[trigger] done@[k]@ == scan_words(
                    cs@.subrange(0, i as int),
                ).0[k],
            cur@ == scan_words(cs@.subrange(0, i as int)).1,
        decreases cs@.len() - i,
    {
        let c = cs[i];
        proof {
            assert(cs@.subrange(0, i + 1).drop_last() =~= cs@.subrange(0, i as int));
        }
        if is_space(c) {
            if cur.len() > 0 {
                let w = cur;
                done.push(w);
                cur = Vec::new();
            } else {
                cur = Vec::new();
            }
        } else {
            cur.push(c);
        }
        i = i + 1;
    }
    assert(cs@.subrange(0, cs@.len() as int) =~= cs@);
    if cur.len() > 0 {
        done.push(cur);
    }
    done
}

/// The characters of `w` that `keep` accepts, in order.
pub open spec fn keep_chars(w: Seq<char>, keep: spec_fn(char) -> bool) -> Seq<char>
    decreases w.len(),
{
    if w.len() == 0 {
        Seq::empty()
    } else if keep(w.last()) {
        keep_chars(w.drop_last(), keep).push(w.last())
    } else {
        keep_chars(w.drop_last(), keep)
    }
}

/// Characters kept in a key-point token: letters and digits.
pub open spec fn point_char(c: char) -> bool {
    alnum_of(c)
}

/// Characters kept in a topic token: letters, digits, `-` and `_`.
pub open spec fn topic_char(c: char) -> bool {
    alnum_of(c) || c == '-' || c == '_'
}

/// The characters of a word that a token keeps, letters and digits, and with
/// `dashes` also `-` and `_`.
pub fn clean_word(w: &Vec<char>, dashes: bool) -> (r: Vec<char>)
    ensures
        r@ == keep_chars(w@, if dashes { |c: char| topic_char(c) } else { |c: char| point_char(c) }),
{
    let ghost keep = if dashes {
        |c: char| topic_char(c)
    } else {
        |c: char| point_char(c)
    };
    let mut r: Vec<char> = Vec::new();
    let mut i: usize = 0;
    while i < w.len()
        invariant
            i <= w@.len(),
            r@ == keep_chars(w@.subrange(0, i as int), keep),
            keep == (if dashes { |c: char| topic_char(c) } else { |c: char| point_char(c) }),
        decreases w@.len() - i,
    {
        let c = w[i];
        proof {
            assert(w@.subrange(0, i + 1).drop_last() =~= w@.subrange(0, i as int));
        }
        if is_alnum(c) || (dashes && (c == '-' || c == '_')) {
            r.push(c);
        } else {
        }
        i = i + 1;
    }
    assert(w@.subrange(0, w@.len() as int) =~= w@);
    r
}

} // verus!

verus! {

/// Length in bytes of the UTF-8 encoding of a text, as `str::len` reports it.
pub open spec fn utf8_len(s: Seq<char>) -> int {
    (encode_utf8(s).len() as usize) as int
}

/// The keep rule of a token kind: topic tokens also keep `-` and `_`.
pub open spec fn keep_rule(topic: bool) -> spec_fn(char) -> bool {
    if topic {
        |c: char| topic_char(c)
    } else {
        |c: char| point_char(c)
    }
}

/// Whether a cleaned word is kept as a token. A key point has more than three
/// bytes and is no compression stop word; a topic has three bytes or more and,
/// lower-cased, is no topic stop word.
pub open spec fn token_ok(t: Seq<char>, topic: bool) -> bool {
    if topic {
        utf8_len(t) >= 3 && !topic_stop_word_spec(lower_of(t))
    } else {
        utf8_len(t) > 3 && !compression_stop_word_spec(t)
    }
}

/// The tokens of a list of words: each word cleaned, kept if accepted.
pub open spec fn tokens_of_words(ws: Seq<Seq<char>>, topic: bool) -> Seq<Seq<char>>
    decreases ws.len(),
{
    if ws.len() == 0 {
        Seq::empty()
    } else {
        let prev = tokens_of_words(ws.drop_last(), topic);
        let t = keep_chars(ws.last(), keep_rule(topic));
        if token_ok(t, topic) {
            prev.push(t)
        } else {
            prev
        }
    }
}

/// The tokens of a text: its lower-cased words, cleaned and filtered.
pub open spec fn tokens_spec(text: Seq<char>, topic: bool) -> Seq<Seq<char>> {
    tokens_of_words(words_of(lower_of(text)), topic)
}

/// The tokens of a text, in order: the text is lower-cased and split on white
/// space, each word keeps its letters and digits (and, for topics, `-` and
/// `_`), and the words that `token_ok` accepts remain.
pub fn tokenize(text: &str, topic: bool) -> (r: Vec<String>)
    ensures
        r@.len() == tokens_spec(text@, topic).len(),
        forall|k: int| 0 <= k < r@.len() ==> #[trigger] r@[k]@ == tokens_spec(text@, topic)[k],
{
    let low = lowercase(text);
    let ws = split_words(low.as_str());
    let ghost wss = words_of(low@);
    let mut r: Vec<String> = Vec::new();
    let mut i: usize = 0;
    while i < ws.len()
        invariant
            i <= ws@.len(),
            ws@.len() == wss.len(),
            wss == words_of(lower_of(text@)),
            forall|k: int| 0 <= k < ws@.len() ==> #[trigger] ws@[k]@ == wss[k],
            r@.len() == tokens_of_words(wss.subrange(0, i as int), topic).len(),
            forall|k: int|
                0 <= k < r@.len() ==> #[trigger] r@[k]@ == tokens_of_words(
                    wss.subrange(0, i as int),
                    topic,
                )[k],
        decreases ws@.len() - i,
    {
        let cleaned = clean_word(&ws[i], topic);
        let t = string_of(&cleaned);
        let n = t.as_str().len();
        proof {
            assert(wss.subrange(0, i + 1).drop_last() =~= wss.subrange(0, i as int));
            assert(wss.subrange(0, i + 1).last() == wss[i as int]);
            assert(cleaned@ == keep_chars(wss[i as int], keep_rule(topic)));
        }
        let ok = if topic {
            n >= 3 && !is_topic_stop_word(t.as_str())
        } else {
            n > 3 && !is_compression_stop_word(t.as_str())
        };
        if ok {
            r.push(t);
        }
        i = i + 1;
    }
    assert(wss.subrange(0, wss.len() as int) =~= wss);
    r
}

} // verus!

verus! {

/// The distinct words of a list, in order of first appearance.
pub open spec fn distinct_words(s: Seq<Seq<char>>) -> Seq<Seq<char>>
    decreases s.len(),
{
    if s.len() == 0 {
        Seq::empty()
    } else {
        let d = distinct_words(s.drop_last());
        if d.contains(s.last()) {
            d
        } else {
            d.push(s.last())
        }
    }
}

/// Number of times `w` occurs in `s`.
pub open spec fn occurrences(s: Seq<Seq<char>>, w: Seq<char>) -> nat
    decreases s.len(),
{
    if s.len() == 0 {
        0
    } else {
        occurrences(s.drop_last(), w) + if s.last() == w {
            1nat
        } else {
            0nat
        }
    }
}

proof fn lemma_distinct_unique(s: Seq<Seq<char>>)
    ensures
        forall|a: int, b: int|
            0 <= a < b < distinct_words(s).len() ==> distinct_words(s)[a] != distinct_words(
                s,
            )[b],
        distinct_words(s).len() <= s.len(),
    decreases s.len(),
{
    if s.len() > 0 {
        lemma_distinct_unique(s.drop_last());
    }
}

proof fn lemma_occurrences_bound(s: Seq<Seq<char>>, w: Seq<char>)
    ensures
        occurrences(s, w) <= s.len(),
    decreases s.len(),
{
    if s.len() > 0 {
        lemma_occurrences_bound(s.drop_last(), w);
    }
}

/// The views of a vector of strings.
pub open spec fn views(v: Seq<String>) -> Seq<Seq<char>> {
    v.map_values(|s: String| s@)
}

/// The distinct tokens of a list, in order of first appearance, and how often
/// each occurs.
pub fn count_words(tokens: &Vec<String>) -> (r: (Vec<String>, Vec<u64>))
    ensures
        views(r.0@) == distinct_words(views(tokens@)),
        r.1@.len() == r.0@.len(),
        forall|j: int|
            0 <= j < r.1@.len() ==> r.1@[j] == occurrences(views(tokens@), #[trigger] r.0@[j]@),
{
    let ghost all = views(tokens@);
    let mut words: Vec<String> = Vec::new();
    let mut counts: Vec<u64> = Vec::new();
    let mut i: usize = 0;
    while i < tokens.len()
        invariant
            i <= tokens@.len(),
            all == views(tokens@),
            views(words@) == distinct_words(all.subrange(0, i as int)),
            counts@.len() == words@.len(),
            forall|j: int|
                0 <= j < counts@.len() ==> counts@[j] == occurrences(
                    all.subrange(0, i as int),
                    #[trigger] words@[j]@,
                ),
            forall|j: int| 0 <= j < counts@.len() ==> counts@[j] <= i,
        decreases tokens@.len() - i,
    {
        let ghost pre = all.subrange(0, i as int);
        let ghost next = all.subrange(0, i + 1);
        proof {
            assert(next.drop_last() =~= pre);
            assert(next.last() == tokens@[i as int]@);
            lemma_distinct_unique(pre);
        }
        let t = &tokens[i];
        let mut j: usize = 0;
        let mut found: bool = false;
        while j < words.len()
            invariant_except_break
                !found,
            invariant
                j <= words@.len(),
                forall|q: int| 0 <= q < j ==> words@[q]@ != t@,
            ensures
                found ==> j < words@.len() && words@[j as int]@ == t@,
                !found ==> forall|q: int| 0 <= q < words@.len() ==> words@[q]@ != t@,
            decreases words@.len() - j,
        {
            if words[j] == *t {
                found = true;
                break;
            }
            j = j + 1;
        }
        proof {
            assert(views(words@).len() == words@.len());
            assert forall|q: int| 0 <= q < words@.len() implies views(words@)[q] == words@[q]@ by {}
        }
        if found {
            proof {
                assert(views(words@)[j as int] == t@);
                assert(distinct_words(pre).contains(t@));
            }
            let c = counts[j];
            counts.set(j, c + 1);
            proof {
                assert forall|q: int| 0 <= q < counts@.len() implies counts@[q] == occurrences(
                    next,
                    #[trigger] words@[q]@,
                ) by {
                    if q != j {
                        assert(views(words@)[q] != views(words@)[j as int]);
                    }
                }
            }
        } else {
            proof {
                assert forall|q: int| 0 <= q < views(words@).len() implies views(words@)[q]
                    != t@ by {
                    assert(views(words@)[q] == words@[q]@);
                }
                assert(!distinct_words(pre).contains(t@));
            }
            words.push(t.clone());
            counts.push(1);
            proof {
                assert(views(words@) =~= distinct_words(pre).push(t@));
                assert forall|q: int| 0 <= q < counts@.len() implies counts@[q] == occurrences(
                    next,
                    #[trigger] words@[q]@,
                ) by {
                    if q < counts@.len() - 1 {
                        assert(views(words@)[q] == words@[q]@);
                        assert(words@[q]@ != t@);
                    } else {
                        assert(occurrences(pre, t@) == 0) by {
                            lemma_not_contained_zero(pre, t@);
                        }
                    }
                }
            }
        }
        i = i + 1;
    }
    assert(all.subrange(0, tokens@.len() as int) =~= all);
    (words, counts)
}

proof fn lemma_not_contained_zero(s: Seq<Seq<char>>, w: Seq<char>)
    requires
        !distinct_words(s).contains(w),
    ensures
        occurrences(s, w) == 0,
    decreases s.len(),
{
    if s.len() > 0 {
        let d = distinct_words(s.drop_last());
        if d.contains(w) {
            let k = choose|k: int| 0 <= k < d.len() && d[k] == w;
            if !d.contains(s.last()) {
                assert(distinct_words(s)[k] == w);
            }
        }
        if s.last() == w {
            if d.contains(s.last()) {
            } else {
                assert(distinct_words(s)[d.len() as int] == w);
            }
        }
        lemma_not_contained_zero(s.drop_last(), w);
    }
}

} // verus!
