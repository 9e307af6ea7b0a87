//! Shared metadata values (composers, genres): lookup, get-or-create with id
//! allocation, and merging one composer into another.

use vstd::prelude::*;
use crate::error::ForScoreError;
use crate::models::{Composer, Genre};
use crate::text::same_text;

verus! {

/// A link row between an item and a composer value.
#[derive(Debug, Clone, Copy, PartialEq, Eq)]
pub struct ComposerLink {
    pub item: i64,
    pub composer: i64,
}

/// The first composer named exactly `name`.
pub fn get_composer_by_name(composers: &Vec<Composer>, name: &str) -> (r: Result<usize, ForScoreError>)
    ensures
        match r {
            Ok(i) => i < composers@.len() && composers@[i as int].name@ == name@ && forall|j: int|
                0 <= j < i ==> composers@[j].name@ != name@,
            Err(e) => e matches ForScoreError::ComposerNotFound(t) && t@ == name@ && forall|j: int|
                0 <= j < composers@.len() ==> composers@[j].name@ != name@,
        },
{
    let mut i: usize = 0;
    while i < composers.len()
        invariant
            i <= composers@.len(),
            forall|j: int| 0 <= j < i ==> composers@[j].name@ != name@,
        decreases composers@.len() - i,
    {
        if same_text(composers[i].name.as_str(), name) {
            return Ok(i);
        }
        i += 1;
    }
    Err(ForScoreError::ComposerNotFound(name.to_owned()))
}

/// The largest id of `ids`, or 0 for none.
pub open spec fn max_id(ids: Seq<i64>) -> int
    decreases ids.len(),
{
    if ids.len() == 0 {
        0
    } else {
        let m = max_id(ids.drop_last());
        if ids.last() as int > m {
            ids.last() as int
        } else {
            m
        }
    }
}

/// The id a new row takes: one past the largest in use. Where that does not
/// fit in an `i64`, the id space is exhausted.
pub fn next_id(ids: &Vec<i64>) -> (r: Result<i64, ForScoreError>)
    ensures
        max_id(ids@) < i64::MAX ==> r == Ok::<i64, ForScoreError>((max_id(ids@) + 1) as i64),
        max_id(ids@) >= i64::MAX ==> r == Err::<i64, ForScoreError>(ForScoreError::IdSpaceExhausted),
{
    let mut m: i64 = 0;
    let mut i: usize = 0;
    while i < ids.len()
        invariant
            i <= ids@.len(),
            m as int == max_id(ids@.subrange(0, i as int)),
        decreases ids@.len() - i,
    {
        assert(ids@.subrange(0, i + 1).drop_last() =~= ids@.subrange(0, i as int));
        if ids[i] > m {
            m = ids[i];
        }
        i += 1;
    }
    assert(ids@.subrange(0, i as int) =~= ids@);
    if m == i64::MAX {
        Err(ForScoreError::IdSpaceExhausted)
    } else {
        Ok(m + 1)
    }
}

/// What get-or-create does for a value name.
#[derive(Debug, Clone, Copy, PartialEq, Eq)]
pub enum GetOrCreate {
    /// The value exists, under this id.
    Existing(i64),
    /// The value is to be inserted under this new id.
    Create(i64),
}

/// Finds the composer named `name`, or picks the id under which to create
/// it: one past the largest id of the shared table (`table_ids`).
pub fn get_or_create_composer(composers: &Vec<Composer>, table_ids: &Vec<i64>, name: &str) -> (r:
    Result<GetOrCreate, ForScoreError>)
    ensures
        match r {
            Ok(GetOrCreate::Existing(id)) => exists|i: int|
                0 <= i < composers@.len() && composers@[i].name@ == name@ && composers@[i].id
                    == id,
            Ok(GetOrCreate::Create(id)) => (forall|j: int|
                0 <= j < composers@.len() ==> composers@[j].name@ != name@) && id == max_id(
                table_ids@,
            ) + 1,
            Err(e) => (forall|j: int| 0 <= j < composers@.len() ==> composers@[j].name@ != name@)
                && max_id(table_ids@) >= i64::MAX && e == ForScoreError::IdSpaceExhausted,
        },
{
    match get_composer_by_name(composers, name) {
        Ok(i) => Ok(GetOrCreate::Existing(composers[i].id)),
        Err(_) => match next_id(table_ids) {
            Ok(id) => Ok(GetOrCreate::Create(id)),
            Err(e) => Err(e),
        },
    }
}

/// Finds the genre named `name`, or picks the id under which to create it:
/// one past the largest id of the shared table (`table_ids`).
pub fn get_or_create_genre(genres: &Vec<Genre>, table_ids: &Vec<i64>, name: &str) -> (r: Result<
    GetOrCreate,
    ForScoreError,
>)
    ensures
        match r {
            Ok(GetOrCreate::Existing(id)) => exists|i: int|
                0 <= i < genres@.len() && genres@[i].name@ == name@ && genres@[i].id == id,
            Ok(GetOrCreate::Create(id)) => (forall|j: int|
                0 <= j < genres@.len() ==> genres@[j].name@ != name@) && id == max_id(table_ids@) + 1,
            Err(e) => (forall|j: int| 0 <= j < genres@.len() ==> genres@[j].name@ != name@)
                && max_id(table_ids@) >= i64::MAX && e == ForScoreError::IdSpaceExhausted,
        },
{
    let mut i: usize = 0;
    while i < genres.len()
        invariant
            i <= genres@.len(),
            forall|j: int| 0 <= j < i ==> genres@[j].name@ != name@,
        decreases genres@.len() - i,
    {
        if same_text(genres[i].name.as_str(), name) {
            return Ok(GetOrCreate::Existing(genres[i].id));
        }
        i += 1;
    }
    match next_id(table_ids) {
        Ok(id) => Ok(GetOrCreate::Create(id)),
        Err(e) => Err(e),
    }
}

/// A link of composer `source` moved to composer `target`; others unchanged.
pub open spec fn relinked(l: ComposerLink, source: i64, target: i64) -> ComposerLink {
    if l.composer == source {
        ComposerLink { item: l.item, composer: target }
    } else {
        l
    }
}

/// How many links point at composer `c`.
pub open spec fn link_count(links: Seq<ComposerLink>, c: i64) -> nat
    decreases links.len(),
{
    if links.len() == 0 {
        0
    } else {
        link_count(links.drop_last(), c) + if links.last().composer == c {
            1nat
        } else {
            0nat
        }
    }
}

/// The relational side of a composer merge.
#[derive(Debug)]
pub struct MergePlan {
    /// The value row to delete.
    pub source_id: i64,
    pub target_id: i64,
    /// The link rows after the merge, in their order.
    pub links: Vec<ComposerLink>,
    /// How many link rows moved to the target.
    pub relinked: usize,
}

/// Merges composer `source_name` into `target_name`: every link of the source
/// moves to the target, and the source's value row is to be deleted. Either
/// name that is not a composer is refused, the source checked first.
pub fn merge_composers(
    composers: &Vec<Composer>,
    links: &Vec<ComposerLink>,
    source_name: &str,
    target_name: &str,
) -> (r: Result<MergePlan, ForScoreError>)
    ensures
        match r {
            Ok(p) => (exists|i: int|
                0 <= i < composers@.len() && composers@[i].name@ == source_name@
                    && composers@[i].id == p.source_id && forall|j: int|
                    0 <= j < i ==> composers@[j].name@ != source_name@) && (exists|i: int|
                0 <= i < composers@.len() && composers@[i].name@ == target_name@
                    && composers@[i].id == p.target_id && forall|j: int|
                    0 <= j < i ==> composers@[j].name@ != target_name@) && p.links@
                == links@.map_values(|l: ComposerLink| relinked(l, p.source_id, p.target_id))
                && p.relinked == link_count(links@, p.source_id),
            Err(e) => match e {
                ForScoreError::ComposerNotFound(t) => (t@ == source_name@ && forall|j: int|
                    0 <= j < composers@.len() ==> composers@[j].name@ != source_name@) || (t@
                    == target_name@ && forall|j: int|
                    0 <= j < composers@.len() ==> composers@[j].name@ != target_name@),
                _ => false,
            },
        },
{
    let si = match get_composer_by_name(composers, source_name) {
        Ok(i) => i,
        Err(e) => return Err(e),
    };
    let ti = match get_composer_by_name(composers, target_name) {
        Ok(i) => i,
        Err(e) => return Err(e),
    };
    let source = composers[si].id;
    let target = composers[ti].id;
    let mut out: Vec<ComposerLink> = Vec::new();
    let mut count: usize = 0;
    let mut i: usize = 0;
    while i < links.len()
        invariant
            i <= links@.len(),
            count <= i,
            out@ == links@.subrange(0, i as int).map_values(
                |l: ComposerLink| relinked(l, source, target),
            ),
            count == link_count(links@.subrange(0, i as int), source),
        decreases links@.len() - i,
    {
        let l = links[i];
        assert(links@.subrange(0, i + 1).drop_last() =~= links@.subrange(0, i as int));
        if l.composer == source {
            out.push(ComposerLink { item: l.item, composer: target });
            count += 1;
        } else {
            out.push(l);
        }
        i += 1;
        assert(out@ =~= links@.subrange(0, i as int).map_values(
            |l: ComposerLink| relinked(l, source, target),
        ));
    }
    assert(links@.subrange(0, i as int) =~= links@);
    Ok(MergePlan { source_id: source, target_id: target, links: out, relinked: count })
}

/// After a merge of one composer into another, no link points at the
/// source; each link that did now points at the target, for the same item;
/// every other link is as it was; and the links pointing at the target are
/// those it had plus those moved.
pub proof fn lemma_merge_relinks(links: Seq<ComposerLink>, source: i64, target: i64)
    requires
        source != target,
    ensures
        ({
            let after = links.map_values(|l: ComposerLink| relinked(l, source, target));
            &&& after.len() == links.len()
            &&& forall|i: int| 0 <= i < after.len() ==> (#[trigger] after[i]).composer != source
            &&& forall|i: int|
                0 <= i < links.len() && (#[trigger] links[i]).composer == source ==> after[i]
                    == ComposerLink { item: links[i].item, composer: target }
            &&& forall|i: int|
                0 <= i < links.len() && (#[trigger] links[i]).composer != source ==> after[i]
                    == links[i]
            &&& link_count(after, source) == 0
            &&& link_count(after, target) == link_count(links, target) + link_count(links, source)
        }),
    decreases links.len(),
{
    let after = links.map_values(|l: ComposerLink| relinked(l, source, target));
    if links.len() > 0 {
        let pre = links.drop_last();
        lemma_merge_relinks(pre, source, target);
        assert(after.drop_last() =~= pre.map_values(|l: ComposerLink| relinked(l, source, target)));
    }
}

} // verus!
