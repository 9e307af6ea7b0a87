//! Turning a user's identifier into exactly one record.
//!
//! The stages are tried in order, and the first that matches decides:
//! the identifier read as an integer id; an exact match on the record's
//! natural key; a case-insensitive match on its title; and last a
//! case-insensitive substring match on its title, which must be unique.
//! Case is folded as the relational store folds it: ASCII letters only.

use vstd::prelude::*;
use crate::error::ForScoreError;
use crate::models::{Library, Score, Setlist};
use crate::text::{chars_of, contains_folded, eq_folded, equals_folded, find_folded, same_text};

verus! {

pub open spec fn is_digit(c: char) -> bool {
    '0' <= c && c <= '9'
}

pub open spec fn all_digits(s: Seq<char>) -> bool {
    forall|i: int| 0 <= i < s.len() ==> is_digit(#[trigger] s[i])
}

/// The value of a run of decimal digits.
pub open spec fn digits_value(s: Seq<char>) -> int
    decreases s.len(),
{
    if s.len() == 0 {
        0
    } else {
        digits_value(s.drop_last()) * 10 + (s.last() as int - '0' as int)
    }
}

/// The integer a text denotes as `i64::from_str` reads it: an optional sign,
/// then one or more decimal digits, with a value that fits in an `i64`.
pub open spec fn parse_id(s: Seq<char>) -> Option<int> {
    let signed = s.len() > 0 && (s[0] == '+' || s[0] == '-');
    let d = if signed {
        s.drop_first()
    } else {
        s
    };
    let v = if signed && s[0] == '-' {
        -digits_value(d)
    } else {
        digits_value(d)
    };
    if d.len() > 0 && all_digits(d) && i64::MIN <= v <= i64::MAX {
        Some(v)
    } else {
        None
    }
}

proof fn lemma_digits_grow(s: Seq<char>, k: int)
    requires
        0 <= k <= s.len(),
        all_digits(s),
    ensures
        digits_value(s.subrange(0, k)) <= digits_value(s),
        0 <= digits_value(s.subrange(0, k)),
    decreases s.len() - k,
{
    if k < s.len() {
        lemma_digits_grow(s, k + 1);
        assert(s.subrange(0, k + 1).drop_last() =~= s.subrange(0, k));
        assert(is_digit(s[k]));
    } else {
        assert(s.subrange(0, k) =~= s);
        lemma_digits_nonneg(s);
    }
}

proof fn lemma_digits_nonneg(s: Seq<char>)
    requires
        all_digits(s),
    ensures
        0 <= digits_value(s),
    decreases s.len(),
{
    if s.len() > 0 {
        assert(is_digit(s.last()));
        lemma_digits_nonneg(s.drop_last());
    }
}

/// Reads `s` as an id, as `parse_id` says.
pub fn parse_identifier(s: &str) -> (r: Option<i64>)
    ensures
        match parse_id(s@) {
            Some(v) => r == Some(v as i64),
            None => r is None,
        },
{
    let cs = chars_of(s);
    let n = cs.len();
    if n == 0 {
        return None;
    }
    let signed = cs[0] == '+' || cs[0] == '-';
    let neg = cs[0] == '-';
    let start: usize = if signed { 1 } else { 0 };
    if start >= n {
        return None;
    }
    let ghost d = if signed { cs@.drop_first() } else { cs@ };
    assert(d =~= cs@.subrange(start as int, n as int));
    let mut acc: i128 = 0;
    let mut i: usize = start;
    while i < n
        invariant
            start <= i <= n,
            n == cs@.len(),
            cs@ == s@,
            d == (if signed { s@.drop_first() } else { s@ }),
            signed == (s@.len() > 0 && (s@[0] == '+' || s@[0] == '-')),
            d == cs@.subrange(start as int, n as int),
            all_digits(d.subrange(0, i - start)),
            acc as int == digits_value(d.subrange(0, i - start)),
            0 <= acc <= 9223372036854775808,
        decreases n - i,
    {
        let c = cs[i];
        if !('0' <= c && c <= '9') {
            assert(!is_digit(d[i - start]));
            assert(!all_digits(d));
            return None;
        }
        let ghost pre = d.subrange(0, i - start);
        let ghost cur = d.subrange(0, i - start + 1);
        assert(cur.drop_last() =~= pre);
        assert(cur.last() == c);
        let next = acc * 10 + ((c as u32) - ('0' as u32)) as i128;
        if next > 9223372036854775808 {
            proof {
                if all_digits(d) {
                    lemma_digits_grow(d, i - start + 1);
                    assert(digits_value(d) > 9223372036854775808);
                }
            }
            assert(parse_id(s@) is None);
            return None;
        }
        acc = next;
        i += 1;
        assert(all_digits(cur));
    }
    assert(d.subrange(0, n - start) =~= d);
    if neg {
        Some((-acc) as i64)
    } else if acc > 9223372036854775807 {
        None
    } else {
        Some(acc as i64)
    }
}

/// What a record offers to the resolver.
#[derive(Debug, Clone)]
pub struct Candidate {
    pub id: i64,
    pub key: String,
    pub title: String,
}

/// The stages of resolution, in the order they are tried.
pub open spec fn stage_matches(stage: int, c: Candidate, ident: Seq<char>) -> bool {
    if stage == 0 {
        parse_id(ident) == Some(c.id as int)
    } else if stage == 1 {
        c.key@ == ident
    } else if stage == 2 {
        eq_folded(c.title@, ident)
    } else {
        contains_folded(c.title@, ident)
    }
}

/// No candidate matches at any stage before `stage`.
pub open spec fn none_before(cs: Seq<Candidate>, ident: Seq<char>, stage: int) -> bool {
    forall|t: int, j: int|
        0 <= t < stage && 0 <= j < cs.len() ==> !#[trigger] stage_matches(t, cs[j], ident)
}

/// The outcome of resolving an identifier.
pub enum Resolution {
    Found(int),
    Ambiguous,
    NotFound,
}

/// `o` is what resolving `ident` among `cs` gives. At the first three stages
/// the first matching candidate wins; at the last, a match must be unique.
pub open spec fn resolves(cs: Seq<Candidate>, ident: Seq<char>, o: Resolution) -> bool {
    match o {
        Resolution::Found(i) => 0 <= i < cs.len() && exists|s: int|
            0 <= s < 4 && none_before(cs, ident, s) && #[trigger] stage_matches(s, cs[i], ident)
                && (s < 3 ==> forall|j: int| 0 <= j < i ==> !stage_matches(s, cs[j], ident))
                && (s == 3 ==> forall|j: int|
                0 <= j < cs.len() && j != i ==> !stage_matches(3, cs[j], ident)),
        Resolution::Ambiguous => none_before(cs, ident, 3) && exists|i: int, j: int|
            0 <= i < j < cs.len() && stage_matches(3, cs[i], ident) && stage_matches(
                3,
                cs[j],
                ident,
            ),
        Resolution::NotFound => none_before(cs, ident, 4),
    }
}

/// The kinds of record that can be resolved; each has its own not-found error.
#[derive(Debug, Clone, Copy, PartialEq, Eq)]
pub enum EntityKind {
    Score,
    Setlist,
    Library,
    Composer,
}

/// `e` is the not-found error of `kind` for `ident`.
pub open spec fn is_not_found(kind: EntityKind, e: ForScoreError, ident: Seq<char>) -> bool {
    match kind {
        EntityKind::Score => e matches ForScoreError::ScoreNotFound(t) && t@ == ident,
        EntityKind::Setlist => e matches ForScoreError::SetlistNotFound(t) && t@ == ident,
        EntityKind::Library => e matches ForScoreError::LibraryNotFound(t) && t@ == ident,
        EntityKind::Composer => e matches ForScoreError::ComposerNotFound(t) && t@ == ident,
    }
}

/// The result of `resolve` stands for the resolution `o`.
pub open spec fn result_is(
    kind: EntityKind,
    ident: Seq<char>,
    r: Result<usize, ForScoreError>,
    o: Resolution,
) -> bool {
    match o {
        Resolution::Found(i) => r == Ok::<usize, ForScoreError>(i as usize),
        Resolution::Ambiguous => r matches Err(ForScoreError::AmbiguousIdentifier(t)) && t@
            == ident,
        Resolution::NotFound => r matches Err(e) && is_not_found(kind, e, ident),
    }
}

fn not_found(kind: EntityKind, ident: &str) -> (e: ForScoreError)
    ensures
        is_not_found(kind, e, ident@),
{
    let t = ident.to_owned();
    match kind {
        EntityKind::Score => ForScoreError::ScoreNotFound(t),
        EntityKind::Setlist => ForScoreError::SetlistNotFound(t),
        EntityKind::Library => ForScoreError::LibraryNotFound(t),
        EntityKind::Composer => ForScoreError::ComposerNotFound(t),
    }
}

fn first_at_stage(cs: &Vec<Candidate>, ident: &str, idv: &Vec<char>, id: Option<i64>, stage: u8) -> (r: Option<usize>)
    requires
        stage < 3,
        idv@ == ident@,
        match parse_id(ident@) {
            Some(v) => id == Some(v as i64),
            None => id is None,
        },
    ensures
        match r {
            Some(i) => i < cs@.len() && stage_matches(stage as int, cs@[i as int], ident@)
                && forall|j: int| 0 <= j < i ==> !stage_matches(stage as int, cs@[j], ident@),
            None => forall|j: int|
                0 <= j < cs@.len() ==> !stage_matches(stage as int, cs@[j], ident@),
        },
{
    let mut i: usize = 0;
    while i < cs.len()
        invariant
            i <= cs@.len(),
            stage < 3,
            idv@ == ident@,
            match parse_id(ident@) {
                Some(v) => id == Some(v as i64),
                None => id is None,
            },
            forall|j: int| 0 <= j < i ==> !stage_matches(stage as int, cs@[j], ident@),
        decreases cs@.len() - i,
    {
        let c = &cs[i];
        let hit = if stage == 0 {
            match id {
                Some(v) => c.id == v,
                None => false,
            }
        } else if stage == 1 {
            same_text(c.key.as_str(), ident)
        } else {
            equals_folded(&chars_of(c.title.as_str()), idv)
        };
        assert(hit == stage_matches(stage as int, cs@[i as int], ident@));
        if hit {
            return Some(i);
        }
        i += 1;
    }
    None
}

/// Resolves `ident` among the candidates `cs`, giving the index of the one it names.
pub fn resolve(kind: EntityKind, cs: &Vec<Candidate>, ident: &str) -> (r: Result<
    usize,
    ForScoreError,
>)
    ensures
        exists|o: Resolution| resolves(cs@, ident@, o) && result_is(kind, ident@, r, o),
{
    let idv = chars_of(ident);
    let id = parse_identifier(ident);
    let mut stage: u8 = 0;
    while stage < 3
        invariant
            stage <= 3,
            idv@ == ident@,
            match parse_id(ident@) {
                Some(v) => id == Some(v as i64),
                None => id is None,
            },
            none_before(cs@, ident@, stage as int),
        decreases 3 - stage,
    {
        match first_at_stage(cs, ident, &idv, id, stage) {
            Some(i) => {
                let ghost o = Resolution::Found(i as int);
                assert(resolves(cs@, ident@, o));
                assert(result_is(kind, ident@, Ok(i), o));
                return Ok(i);
            }
            None => {
                assert forall|t: int, j: int|
                    0 <= t < stage + 1 && 0 <= j < cs@.len() implies !#[trigger] stage_matches(
                    t,
                    cs@[j],
                    ident@,
                ) by {
                    if t < stage {
                    }
                }
            }
        }
        stage += 1;
    }
    let mut found: Option<usize> = None;
    let mut i: usize = 0;
    while i < cs.len()
        invariant
            i <= cs@.len(),
            idv@ == ident@,
            none_before(cs@, ident@, 3),
            match found {
                Some(k) => k < i && stage_matches(3, cs@[k as int], ident@) && forall|j: int|
                    0 <= j < i && j != k ==> !stage_matches(3, cs@[j], ident@),
                None => forall|j: int| 0 <= j < i ==> !stage_matches(3, cs@[j], ident@),
            },
        decreases cs@.len() - i,
    {
        if find_folded(&chars_of(cs[i].title.as_str()), &idv) {
            match found {
                Some(k) => {
                    let ghost o = Resolution::Ambiguous;
                    assert(stage_matches(3, cs@[k as int], ident@));
                    assert(stage_matches(3, cs@[i as int], ident@));
                    assert(resolves(cs@, ident@, o));
                    let r = Err(ForScoreError::AmbiguousIdentifier(ident.to_owned()));
                    assert(result_is(kind, ident@, r, o));
                    return r;
                }
                None => {
                    found = Some(i);
                }
            }
        }
        i += 1;
    }
    match found {
        Some(k) => {
            let ghost o = Resolution::Found(k as int);
            assert(i == cs@.len());
            assert(none_before(cs@, ident@, 3));
            assert(forall|j: int| 0 <= j < cs@.len() && j != k ==> !stage_matches(3, cs@[j], ident@));
            assert(stage_matches(3, cs@[k as int], ident@));
            assert(resolves(cs@, ident@, o));
            assert(result_is(kind, ident@, Ok(k), o));
            Ok(k)
        }
        None => {
            let ghost o = Resolution::NotFound;
            assert forall|t: int, j: int|
                0 <= t < 4 && 0 <= j < cs@.len() implies !#[trigger] stage_matches(
                t,
                cs@[j],
                ident@,
            ) by {
                if t < 3 {
                }
            }
            let r = Err(not_found(kind, ident));
            assert(resolves(cs@, ident@, o));
            assert(result_is(kind, ident@, r, o));
            r
        }
    }
}

/// What a score offers to the resolver: its id, its file path, its title.
pub open spec fn score_candidate(s: Score) -> Candidate {
    Candidate { id: s.id, key: s.path, title: s.title }
}

/// What a setlist offers to the resolver: its id and its name, twice.
pub open spec fn setlist_candidate(s: Setlist) -> Candidate {
    Candidate { id: s.id, key: s.title, title: s.title }
}

/// What a library offers to the resolver: its id and its name, twice.
pub open spec fn library_candidate(l: Library) -> Candidate {
    Candidate { id: l.id, key: l.title, title: l.title }
}

/// Resolves a score by id, path, title, or a unique part of its title.
pub fn resolve_score(scores: &Vec<Score>, identifier: &str) -> (r: Result<usize, ForScoreError>)
    ensures
        exists|o: Resolution|
            resolves(scores@.map_values(|s: Score| score_candidate(s)), identifier@, o)
                && result_is(EntityKind::Score, identifier@, r, o),
{
    let mut cs: Vec<Candidate> = Vec::new();
    let mut i: usize = 0;
    while i < scores.len()
        invariant
            i <= scores@.len(),
            cs@ == scores@.subrange(0, i as int).map_values(|s: Score| score_candidate(s)),
        decreases scores@.len() - i,
    {
        let s = &scores[i];
        cs.push(Candidate { id: s.id, key: s.path.clone(), title: s.title.clone() });
        i += 1;
        assert(cs@ =~= scores@.subrange(0, i as int).map_values(|s: Score| score_candidate(s)));
    }
    assert(scores@.subrange(0, i as int) =~= scores@);
    resolve(EntityKind::Score, &cs, identifier)
}

/// Resolves a setlist by id, name, or a unique part of its name.
pub fn resolve_setlist(setlists: &Vec<Setlist>, identifier: &str) -> (r: Result<
    usize,
    ForScoreError,
>)
    ensures
        exists|o: Resolution|
            resolves(setlists@.map_values(|s: Setlist| setlist_candidate(s)), identifier@, o)
                && result_is(EntityKind::Setlist, identifier@, r, o),
{
    let mut cs: Vec<Candidate> = Vec::new();
    let mut i: usize = 0;
    while i < setlists.len()
        invariant
            i <= setlists@.len(),
            cs@ == setlists@.subrange(0, i as int).map_values(|s: Setlist| setlist_candidate(s)),
        decreases setlists@.len() - i,
    {
        let s = &setlists[i];
        cs.push(Candidate { id: s.id, key: s.title.clone(), title: s.title.clone() });
        i += 1;
        assert(cs@ =~= setlists@.subrange(0, i as int).map_values(
            |s: Setlist| setlist_candidate(s),
        ));
    }
    assert(setlists@.subrange(0, i as int) =~= setlists@);
    resolve(EntityKind::Setlist, &cs, identifier)
}

/// Resolves a library by id, name, or a unique part of its name.
pub fn resolve_library(libraries: &Vec<Library>, identifier: &str) -> (r: Result<
    usize,
    ForScoreError,
>)
    ensures
        exists|o: Resolution|
            resolves(libraries@.map_values(|l: Library| library_candidate(l)), identifier@, o)
                && result_is(EntityKind::Library, identifier@, r, o),
{
    let mut cs: Vec<Candidate> = Vec::new();
    let mut i: usize = 0;
    while i < libraries.len()
        invariant
            i <= libraries@.len(),
            cs@ == libraries@.subrange(0, i as int).map_values(
                |l: Library| library_candidate(l),
            ),
        decreases libraries@.len() - i,
    {
        let l = &libraries[i];
        cs.push(Candidate { id: l.id, key: l.title.clone(), title: l.title.clone() });
        i += 1;
        assert(cs@ =~= libraries@.subrange(0, i as int).map_values(
            |l: Library| library_candidate(l),
        ));
    }
    assert(libraries@.subrange(0, i as int) =~= libraries@);
    resolve(EntityKind::Library, &cs, identifier)
}

/// Resolution is deterministic: one identifier among one list of candidates
/// has exactly one outcome.
pub proof fn lemma_resolution_unique(cs: Seq<Candidate>, ident: Seq<char>, o1: Resolution, o2: Resolution)
    requires
        resolves(cs, ident, o1),
        resolves(cs, ident, o2),
    ensures
        o1 == o2,
{
    match (o1, o2) {
        (Resolution::Found(i), Resolution::Found(j)) => {
            let s = choose|s: int|
                0 <= s < 4 && none_before(cs, ident, s) && #[trigger] stage_matches(s, cs[i], ident)
                    && (s < 3 ==> forall|j: int| 0 <= j < i ==> !stage_matches(s, cs[j], ident))
                    && (s == 3 ==> forall|j: int|
                    0 <= j < cs.len() && j != i ==> !stage_matches(3, cs[j], ident));
            let t = choose|t: int|
                0 <= t < 4 && none_before(cs, ident, t) && #[trigger] stage_matches(t, cs[j], ident)
                    && (t < 3 ==> forall|k: int| 0 <= k < j ==> !stage_matches(t, cs[k], ident))
                    && (t == 3 ==> forall|k: int|
                    0 <= k < cs.len() && k != j ==> !stage_matches(3, cs[k], ident));
            if s < t {
                assert(!stage_matches(s, cs[i], ident));
            } else if t < s {
                assert(!stage_matches(t, cs[j], ident));
            } else if i < j {
                assert(!stage_matches(s, cs[i], ident));
            } else if j < i {
                assert(!stage_matches(t, cs[j], ident));
            }
        },
        (Resolution::Found(i), Resolution::Ambiguous) => {
            lemma_found_not_ambiguous(cs, ident, i);
        },
        (Resolution::Ambiguous, Resolution::Found(i)) => {
            lemma_found_not_ambiguous(cs, ident, i);
        },
        (Resolution::Found(i), Resolution::NotFound) => {
            lemma_found_some_match(cs, ident, i);
        },
        (Resolution::NotFound, Resolution::Found(i)) => {
            lemma_found_some_match(cs, ident, i);
        },
        (Resolution::Ambiguous, Resolution::NotFound) | (Resolution::NotFound, Resolution::Ambiguous) => {
            let (a, b) = choose|a: int, b: int|
                0 <= a < b < cs.len() && stage_matches(3, cs[a], ident) && stage_matches(3, cs[b], ident);
            assert(!stage_matches(3, cs[a], ident));
        },
        _ => {},
    }
}

proof fn lemma_found_some_match(cs: Seq<Candidate>, ident: Seq<char>, i: int)
    requires
        resolves(cs, ident, Resolution::Found(i)),
    ensures
        !none_before(cs, ident, 4),
{
    let s = choose|s: int|
        0 <= s < 4 && none_before(cs, ident, s) && #[trigger] stage_matches(s, cs[i], ident)
            && (s < 3 ==> forall|j: int| 0 <= j < i ==> !stage_matches(s, cs[j], ident))
            && (s == 3 ==> forall|j: int|
            0 <= j < cs.len() && j != i ==> !stage_matches(3, cs[j], ident));
    assert(stage_matches(s, cs[i], ident));
}

proof fn lemma_found_not_ambiguous(cs: Seq<Candidate>, ident: Seq<char>, i: int)
    requires
        resolves(cs, ident, Resolution::Found(i)),
    ensures
        !resolves(cs, ident, Resolution::Ambiguous),
{
    let s = choose|s: int|
        0 <= s < 4 && none_before(cs, ident, s) && #[trigger] stage_matches(s, cs[i], ident)
            && (s < 3 ==> forall|j: int| 0 <= j < i ==> !stage_matches(s, cs[j], ident))
            && (s == 3 ==> forall|j: int|
            0 <= j < cs.len() && j != i ==> !stage_matches(3, cs[j], ident));
    if resolves(cs, ident, Resolution::Ambiguous) {
        if s < 3 {
            assert(!stage_matches(s, cs[i], ident));
        } else {
            let (a, b) = choose|a: int, b: int|
                0 <= a < b < cs.len() && stage_matches(3, cs[a], ident) && stage_matches(3, cs[b], ident);
            if a != i {
                assert(!stage_matches(3, cs[a], ident));
            } else {
                assert(!stage_matches(3, cs[b], ident));
            }
        }
    }
}

/// An identifier that reads as the id of some candidate resolves to a
/// candidate with that id, whatever titles or paths also contain it.
pub proof fn lemma_id_wins(cs: Seq<Candidate>, ident: Seq<char>, k: int, o: Resolution)
    requires
        0 <= k < cs.len(),
        parse_id(ident) == Some(cs[k].id as int),
        resolves(cs, ident, o),
    ensures
        o matches Resolution::Found(i) && cs[i].id == cs[k].id,
{
    assert(stage_matches(0, cs[k], ident));
    match o {
        Resolution::Found(i) => {
            let s = choose|s: int|
                0 <= s < 4 && none_before(cs, ident, s) && #[trigger] stage_matches(s, cs[i], ident)
                    && (s < 3 ==> forall|j: int| 0 <= j < i ==> !stage_matches(s, cs[j], ident))
                    && (s == 3 ==> forall|j: int|
                    0 <= j < cs.len() && j != i ==> !stage_matches(3, cs[j], ident));
            if s > 0 {
                assert(!stage_matches(0, cs[k], ident));
            }
        },
        _ => {
            assert(!stage_matches(0, cs[k], ident));
        },
    }
}

/// Where nothing matches before the substring stage, two candidates whose
/// titles both contain the identifier make it ambiguous.
pub proof fn lemma_shared_part_ambiguous(cs: Seq<Candidate>, ident: Seq<char>, i: int, j: int, o: Resolution)
    requires
        0 <= i < j < cs.len(),
        none_before(cs, ident, 3),
        contains_folded(cs[i].title@, ident),
        contains_folded(cs[j].title@, ident),
        resolves(cs, ident, o),
    ensures
        o == Resolution::Ambiguous,
{
    assert(stage_matches(3, cs[i], ident));
    assert(stage_matches(3, cs[j], ident));
    assert(resolves(cs, ident, Resolution::Ambiguous));
    lemma_resolution_unique(cs, ident, o, Resolution::Ambiguous);
}

/// Where nothing matches before the substring stage, the one candidate whose
/// title contains the identifier is the one it resolves to.
pub proof fn lemma_single_part_found(cs: Seq<Candidate>, ident: Seq<char>, i: int, o: Resolution)
    requires
        0 <= i < cs.len(),
        none_before(cs, ident, 3),
        contains_folded(cs[i].title@, ident),
        forall|j: int| 0 <= j < cs.len() && j != i ==> !contains_folded(#[trigger] cs[j].title@, ident),
        resolves(cs, ident, o),
    ensures
        o == Resolution::Found(i),
{
    assert(stage_matches(3, cs[i], ident));
    assert forall|j: int| 0 <= j < cs.len() && j != i implies !stage_matches(3, cs[j], ident) by {
        assert(!contains_folded(cs[j].title@, ident));
    }
    assert(resolves(cs, ident, Resolution::Found(i)));
    lemma_resolution_unique(cs, ident, o, Resolution::Found(i));
}

} // verus!
