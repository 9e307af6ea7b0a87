//! Listing scores through a conjunction of named predicates.
//!
//! Text predicates compare as the store's `LIKE` does: case-insensitive for
//! ASCII letters, matching anywhere in the text.

use vstd::prelude::*;
use crate::models::Score;
use crate::text::{contains_folded, find_folded, occurs_at, occurs_here};
use crate::text::{chars_of, split_words, words};

verus! {

/// The predicates of a search; each one that is set must hold.
#[derive(Debug)]
pub struct SearchFilter {
    /// Its words, in order, in the title or in a composer's name.
    pub query: Option<String>,
    pub title: Option<String>,
    pub composer: Option<String>,
    pub genre: Option<String>,
    /// An exact key code.
    pub key: Option<i32>,
    /// No key (only where `key` is unset).
    pub no_key: bool,
    /// A rating at least this.
    pub min_rating: Option<i32>,
    /// No rating (only where `min_rating` is unset).
    pub no_rating: bool,
    pub difficulty: Option<i32>,
}

/// The words `ws` occur in `hay` in order, without overlapping, from `start` on.
pub open spec fn in_order_from(hay: Seq<char>, ws: Seq<Seq<char>>, start: int) -> bool
    decreases ws.len(),
{
    if ws.len() == 0 {
        true
    } else {
        exists|i: int|
            start <= i && #[trigger] occurs_at(hay, ws[0], i) && in_order_from(
                hay,
                ws.drop_first(),
                i + ws[0].len(),
            )
    }
}

proof fn lemma_in_order_earlier(hay: Seq<char>, ws: Seq<Seq<char>>, s1: int, s2: int)
    requires
        s1 <= s2,
        in_order_from(hay, ws, s2),
    ensures
        in_order_from(hay, ws, s1),
{
    if ws.len() > 0 {
        let i = choose|i: int|
            s2 <= i && #[trigger] occurs_at(hay, ws[0], i) && in_order_from(
                hay,
                ws.drop_first(),
                i + ws[0].len(),
            );
        assert(s1 <= i && occurs_at(hay, ws[0], i));
    }
}

/// The first place at or after `start` where `needle` occurs.
fn find_from(hay: &Vec<char>, needle: &Vec<char>, start: usize) -> (r: Option<usize>)
    ensures
        match r {
            Some(i) => start <= i && occurs_at(hay@, needle@, i as int) && forall|j: int|
                start <= j < i ==> !occurs_at(hay@, needle@, j),
            None => forall|j: int| start <= j ==> !occurs_at(hay@, needle@, j),
        },
{
    if start > hay.len() {
        return None;
    }
    let mut i = start;
    while needle.len() <= hay.len() - i
        invariant
            start <= i <= hay@.len(),
            forall|j: int| start <= j < i ==> !occurs_at(hay@, needle@, j),
        decreases hay@.len() - i,
    {
        if occurs_here(hay, needle, i) {
            return Some(i);
        }
        if i == hay.len() {
            return None;
        }
        i += 1;
    }
    None
}

/// Whether the words `ws` occur in `hay` in order.
fn words_in_order(hay: &Vec<char>, ws: &Vec<Vec<char>>) -> (r: bool)
    ensures
        r == in_order_from(hay@, ws@.map_values(|w: Vec<char>| w@), 0),
{
    let ghost all = ws@.map_values(|w: Vec<char>| w@);
    let mut k: usize = 0;
    let mut pos: usize = 0;
    assert(all.subrange(0, all.len() as int) =~= all);
    while k < ws.len()
        invariant
            k <= ws@.len(),
            all == ws@.map_values(|w: Vec<char>| w@),
            in_order_from(hay@, all, 0) == in_order_from(hay@, all.subrange(k as int, all.len() as int), pos as int),
        decreases ws@.len() - k,
    {
        let ghost rest = all.subrange(k as int, all.len() as int);
        assert(rest.drop_first() =~= all.subrange(k + 1, all.len() as int));
        assert(rest[0] == ws@[k as int]@);
        match find_from(hay, &ws[k], pos) {
            None => {
                assert(!in_order_from(hay@, rest, pos as int));
                return false;
            },
            Some(i) => {
                proof {
                    if in_order_from(hay@, rest, pos as int) {
                        let j = choose|j: int|
                            pos <= j && #[trigger] occurs_at(hay@, rest[0], j) && in_order_from(
                                hay@,
                                rest.drop_first(),
                                j + rest[0].len(),
                            );
                        lemma_in_order_earlier(hay@, rest.drop_first(), i + rest[0].len(), j + rest[0].len());
                    }
                    if in_order_from(hay@, rest.drop_first(), i + rest[0].len()) {
                        assert(occurs_at(hay@, rest[0], i as int));
                    }
                }
                assert(hay@.len() == hay.len());
                pos = i + ws[k].len();
                k += 1;
            },
        }
    }
    true
}

/// `name` contains `part`, for some name of `names`.
pub open spec fn any_contains(names: Seq<String>, part: Seq<char>) -> bool {
    exists|i: int| 0 <= i < names.len() && contains_folded(#[trigger] names[i]@, part)
}

/// The query's words occur in order in `text`.
pub open spec fn query_hits(text: Seq<char>, q: Seq<char>) -> bool {
    in_order_from(text, words(q), 0)
}

/// `s` passes every predicate of `f` that is set.
pub open spec fn score_matches(s: Score, f: SearchFilter) -> bool {
    &&& f.query matches Some(q) ==> (query_hits(s.title@, q@) || exists|i: int|
        0 <= i < s.composers.len() && query_hits(#[trigger] s.composers[i]@, q@))
    &&& f.title matches Some(t) ==> contains_folded(s.title@, t@)
    &&& f.composer matches Some(c) ==> any_contains(s.composers@, c@)
    &&& f.genre matches Some(g) ==> any_contains(s.genres@, g@)
    &&& match f.key {
        Some(k) => s.key matches Some(sk) && sk.code == k,
        None => f.no_key ==> s.key is None,
    }
    &&& match f.min_rating {
        Some(r) => s.rating matches Some(sr) && sr >= r,
        None => f.no_rating ==> s.rating is None,
    }
    &&& f.difficulty matches Some(d) ==> s.difficulty == Some(d)
}

fn any_name_contains(names: &Vec<String>, part: &Vec<char>) -> (r: bool)
    ensures
        r == any_contains(names@, part@),
{
    let mut i: usize = 0;
    while i < names.len()
        invariant
            i <= names@.len(),
            forall|j: int| 0 <= j < i ==> !contains_folded(#[trigger] names@[j]@, part@),
        decreases names@.len() - i,
    {
        if find_folded(&chars_of(names[i].as_str()), part) {
            return true;
        }
        i += 1;
    }
    false
}

fn any_query_hit(names: &Vec<String>, ws: &Vec<Vec<char>>, q: &String) -> (r: bool)
    requires
        ws@.map_values(|w: Vec<char>| w@) == words(q@),
    ensures
        r == exists|i: int| 0 <= i < names@.len() && query_hits(#[trigger] names@[i]@, q@),
{
    let mut i: usize = 0;
    while i < names.len()
        invariant
            i <= names@.len(),
            ws@.map_values(|w: Vec<char>| w@) == words(q@),
            forall|j: int| 0 <= j < i ==> !query_hits(#[trigger] names@[j]@, q@),
        decreases names@.len() - i,
    {
        if words_in_order(&chars_of(names[i].as_str()), ws) {
            return true;
        }
        i += 1;
    }
    false
}

fn word_list(q: &str) -> (r: Vec<Vec<char>>)
    ensures
        r@.map_values(|w: Vec<char>| w@) == words(q@),
{
    let cs = chars_of(q);
    let r = split_words(&cs);
    assert(r@.map_values(|w: Vec<char>| w@) =~= words(q@));
    r
}

/// Whether `s` passes every predicate of `f` that is set.
pub fn passes_filter(s: &Score, f: &SearchFilter) -> (r: bool)
    ensures
        r == score_matches(*s, *f),
{
    if let Some(q) = &f.query {
        let ws = word_list(q.as_str());
        if !words_in_order(&chars_of(s.title.as_str()), &ws) && !any_query_hit(&s.composers, &ws, q) {
            return false;
        }
    }
    if let Some(t) = &f.title {
        if !find_folded(&chars_of(s.title.as_str()), &chars_of(t.as_str())) {
            return false;
        }
    }
    if let Some(c) = &f.composer {
        if !any_name_contains(&s.composers, &chars_of(c.as_str())) {
            return false;
        }
    }
    if let Some(g) = &f.genre {
        if !any_name_contains(&s.genres, &chars_of(g.as_str())) {
            return false;
        }
    }
    match f.key {
        Some(k) => match &s.key {
            Some(sk) => if sk.code != k {
                return false;
            },
            None => return false,
        },
        None => if f.no_key && s.key.is_some() {
            return false;
        },
    }
    match f.min_rating {
        Some(r) => match s.rating {
            Some(sr) => if sr < r {
                return false;
            },
            None => return false,
        },
        None => if f.no_rating && s.rating.is_some() {
            return false;
        },
    }
    if let Some(d) = f.difficulty {
        if s.difficulty != Some(d) {
            return false;
        }
    }
    true
}

/// The indices of the scores that pass, in order.
pub open spec fn passing(scores: Seq<Score>, f: SearchFilter) -> Seq<int>
    decreases scores.len(),
{
    if scores.len() == 0 {
        Seq::empty()
    } else {
        let pre = passing(scores.drop_last(), f);
        if score_matches(scores.last(), f) {
            pre.push(scores.len() - 1)
        } else {
            pre
        }
    }
}

/// The first `limit` scores, in the given order, that pass the filter, by index.
pub fn search_scores(scores: &Vec<Score>, f: &SearchFilter, limit: usize) -> (r: Vec<usize>)
    ensures
        r@.map_values(|i: usize| i as int) == passing(scores@, *f).take(
            if limit < passing(scores@, *f).len() { limit as int } else { passing(scores@, *f).len() as int },
        ),
{
    let mut out: Vec<usize> = Vec::new();
    let mut i: usize = 0;
    while i < scores.len() && out.len() < limit
        invariant
            i <= scores@.len(),
            out@.len() <= limit,
            out@.map_values(|k: usize| k as int) == passing(scores@.subrange(0, i as int), *f),
        decreases scores@.len() - i,
    {
        assert(scores@.subrange(0, i + 1).drop_last() =~= scores@.subrange(0, i as int));
        if passes_filter(&scores[i], f) {
            out.push(i);
        }
        i += 1;
        assert(out@.map_values(|k: usize| k as int) =~= passing(scores@.subrange(0, i as int), *f));
    }
    proof {
        lemma_passing_prefix(scores@, *f, i as int);
        if i < scores@.len() {
            assert(out@.len() == limit);
        } else {
            assert(scores@.subrange(0, i as int) =~= scores@);
        }
        let p = passing(scores@, *f);
        assert(out@.map_values(|k: usize| k as int) =~= p.take(
            if limit < p.len() { limit as int } else { p.len() as int },
        ));
    }
    out
}

/// The passing indices of a prefix are a prefix of the passing indices.
proof fn lemma_passing_prefix(scores: Seq<Score>, f: SearchFilter, n: int)
    requires
        0 <= n <= scores.len(),
    ensures
        passing(scores.subrange(0, n), f).len() <= passing(scores, f).len(),
        passing(scores.subrange(0, n), f) == passing(scores, f).take(
            passing(scores.subrange(0, n), f).len() as int,
        ),
    decreases scores.len() - n,
{
    if n == scores.len() {
        assert(scores.subrange(0, n) =~= scores);
        assert(passing(scores, f).take(passing(scores, f).len() as int) =~= passing(scores, f));
    } else {
        lemma_passing_prefix(scores, f, n + 1);
        let a = scores.subrange(0, n);
        let b = scores.subrange(0, n + 1);
        assert(b.drop_last() =~= a);
        let pb = passing(b, f);
        let pa = passing(a, f);
        assert(pa == pb.take(pa.len() as int)) by {
            if score_matches(b.last(), f) {
                assert(pb == pa.push(n));
                assert(pa =~= pb.take(pa.len() as int));
            } else {
                assert(pa =~= pb.take(pa.len() as int));
            }
        }
        assert(pa =~= passing(scores, f).take(pa.len() as int));
    }
}

} // verus!
