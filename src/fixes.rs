//! Finding bookmarks that repeat an older one.

use vstd::prelude::*;
use crate::text::same_text;

verus! {

/// A bookmark as duplicate detection sees it.
#[derive(Debug)]
pub struct BookmarkRow {
    pub id: i64,
    pub score: i64,
    pub title: Option<String>,
    pub path: Option<String>,
    pub uuid: Option<String>,
    pub start_page: Option<i32>,
    pub end_page: Option<i32>,
    pub score_title: Option<String>,
}

/// Two bookmarks mark the same thing: same score, same title, same pages.
/// As in the store's comparisons, an unset title or page matches nothing.
pub open spec fn same_mark(a: BookmarkRow, b: BookmarkRow) -> bool {
    &&& a.score == b.score
    &&& a.title is Some && b.title is Some && a.title.unwrap()@ == b.title.unwrap()@
    &&& a.start_page is Some && a.start_page == b.start_page
    &&& a.end_page is Some && a.end_page == b.end_page
}

/// A duplicate: the index of the newer bookmark and the id of the oldest
/// one it repeats, which is kept.
#[derive(Debug, Clone, Copy, PartialEq, Eq)]
pub struct Duplicate {
    pub index: usize,
    pub original_id: i64,
}

/// The bookmark at `i` repeats one with a smaller id.
pub open spec fn is_duplicate(rows: Seq<BookmarkRow>, i: int) -> bool {
    exists|j: int| 0 <= j < rows.len() && same_mark(rows[j], rows[i]) && rows[j].id < rows[i].id
}

/// `id` is the smallest id among the bookmarks that mark what `i` marks.
pub open spec fn is_original(rows: Seq<BookmarkRow>, i: int, id: i64) -> bool {
    &&& exists|j: int| 0 <= j < rows.len() && same_mark(rows[j], rows[i]) && rows[j].id == id
    &&& forall|j: int| 0 <= j < rows.len() && same_mark(rows[j], rows[i]) ==> id <= rows[j].id
}

fn opt_text_eq(a: &Option<String>, b: &Option<String>) -> (r: bool)
    ensures
        r == (a is Some && b is Some && a.unwrap()@ == b.unwrap()@),
{
    match (a, b) {
        (Some(x), Some(y)) => same_text(x.as_str(), y.as_str()),
        _ => false,
    }
}

fn marks_same(a: &BookmarkRow, b: &BookmarkRow) -> (r: bool)
    ensures
        r == same_mark(*a, *b),
{
    a.score == b.score && opt_text_eq(&a.title, &b.title) && a.start_page.is_some()
        && a.start_page == b.start_page && a.end_page.is_some() && a.end_page == b.end_page
}

/// The bookmarks that repeat an older one (same score, title and pages), in
/// the order of `rows`, each with the id of the oldest it repeats.
pub fn find_duplicate_bookmarks(rows: &Vec<BookmarkRow>) -> (r: Vec<Duplicate>)
    ensures
        forall|k: int|
            0 <= k < r@.len() ==> #[trigger] r@[k].index < rows@.len() && is_duplicate(
                rows@,
                r@[k].index as int,
            ) && is_original(rows@, r@[k].index as int, r@[k].original_id),
        forall|k: int, l: int| 0 <= k < l < r@.len() ==> r@[k].index < r@[l].index,
        forall|i: int|
            0 <= i < rows@.len() && is_duplicate(rows@, i) ==> exists|k: int|
                0 <= k < r@.len() && #[trigger] r@[k].index == i,
{
    let mut out: Vec<Duplicate> = Vec::new();
    let mut i: usize = 0;
    while i < rows.len()
        invariant
            i <= rows@.len(),
            forall|k: int|
                0 <= k < out@.len() ==> #[trigger] out@[k].index < i && is_duplicate(
                    rows@,
                    out@[k].index as int,
                ) && is_original(rows@, out@[k].index as int, out@[k].original_id),
            forall|k: int, l: int| 0 <= k < l < out@.len() ==> out@[k].index < out@[l].index,
            forall|q: int|
                0 <= q < i && is_duplicate(rows@, q) ==> exists|k: int|
                    0 <= k < out@.len() && #[trigger] out@[k].index == q,
        decreases rows@.len() - i,
    {
        let mut min: i64 = rows[i].id;
        let mut found = false;
        let mut j: usize = 0;
        while j < rows.len()
            invariant
                i < rows@.len(),
                j <= rows@.len(),
                min <= rows@[i as int].id,
                found ==> exists|w: int|
                    0 <= w < rows@.len() && same_mark(rows@[w], rows@[i as int]) && rows@[w].id
                        == min,
                !found ==> min == rows@[i as int].id,
                found ==> min < rows@[i as int].id,
                forall|w: int|
                    0 <= w < j && same_mark(rows@[w], rows@[i as int]) ==> min <= rows@[w].id,
                forall|w: int|
                    0 <= w < j && same_mark(rows@[w], rows@[i as int]) && rows@[w].id
                        < rows@[i as int].id ==> found,
            decreases rows@.len() - j,
        {
            if marks_same(&rows[j], &rows[i]) && rows[j].id < min {
                min = rows[j].id;
                found = true;
            }
            j += 1;
        }
        if found {
            let ghost before = out@;
            assert(is_duplicate(rows@, i as int));
            assert(is_original(rows@, i as int, min));
            out.push(Duplicate { index: i, original_id: min });
            assert forall|k: int| 0 <= k < out@.len() implies #[trigger] out@[k].index < i + 1
                && is_duplicate(rows@, out@[k].index as int) && is_original(
                rows@,
                out@[k].index as int,
                out@[k].original_id,
            ) by {
                if k < before.len() {
                    assert(out@[k] == before[k]);
                }
            }
            assert forall|q: int|
                0 <= q < i + 1 && is_duplicate(rows@, q) implies exists|k: int|
                0 <= k < out@.len() && #[trigger] out@[k].index == q by {
                if q < i {
                    let k = choose|k: int| 0 <= k < before.len() && #[trigger] before[k].index == q;
                    assert(out@[k].index == q);
                } else {
                    assert(out@[out@.len() - 1].index == q);
                }
            }
        } else {
            assert(!is_duplicate(rows@, i as int));
        }
        i += 1;
    }
    out
}

} // verus!
