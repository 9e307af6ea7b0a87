//! Ordered setlist membership, as the relational link rows hold it.
//!
//! The order of a setlist is the order of its link rows. Each link carries an
//! identity token that the setlist's mirror file uses to match entries, so a
//! member keeps its token through every reordering.

use vstd::prelude::*;
use crate::error::ForScoreError;
use crate::mirror::{has_id, item_element, rebuilt, SetlistItem};
use crate::models::BOOKMARK;

verus! {

/// One link row of a setlist: the item, its entity tag, and the link's token.
#[derive(Debug)]
pub struct Member {
    pub item: i64,
    pub entity: i32,
    pub token: String,
}

impl Member {
    pub fn copy(&self) -> (r: Member)
        ensures
            r == *self,
    {
        Member { item: self.item, entity: self.entity, token: self.token.clone() }
    }
}

pub open spec fn is_upper_hex(c: char) -> bool {
    ('0' <= c && c <= '9') || ('A' <= c && c <= 'F')
}

/// The shape of a minted token: an upper-case hyphenated version-4 UUID.
pub open spec fn token_shape(s: Seq<char>) -> bool {
    &&& s.len() == 36
    &&& forall|i: int|
        0 <= i < 36 ==> if i == 8 || i == 13 || i == 18 || i == 23 {
            s[i] == '-'
        } else {
            is_upper_hex(#[trigger] s[i])
        }
    &&& s[14] == '4'
}

/// Relies on `uuid::Uuid::new_v4` and its upper-case hex formatting: a fresh
/// random UUID, written as 8-4-4-4-12 upper-case hex digits.
#[verifier::external_body]
fn new_token() -> (r: String)
    ensures
        token_shape(r@),
{
    format!("{:X}", uuid::Uuid::new_v4())
}

/// `item` is linked at some row of `ms`.
pub open spec fn is_member(ms: Seq<Member>, item: i64) -> bool {
    exists|i: int| 0 <= i < ms.len() && #[trigger] ms[i].item == item
}

/// The link to add for `item`, or `None` where it is already a member. A
/// token that the item carries in another setlist is reused; otherwise a
/// fresh one is minted.
pub fn add_member(members: &Vec<Member>, item: i64, entity: i32, reused: Option<String>) -> (r:
    Option<Member>)
    ensures
        r is None <==> is_member(members@, item),
        r matches Some(m) ==> m.item == item && m.entity == entity && match reused {
            Some(t) => m.token == t,
            None => token_shape(m.token@),
        },
{
    if position_of(members, item).is_some() {
        return None;
    }
    let token = match reused {
        Some(t) => t,
        None => new_token(),
    };
    Some(Member { item, entity, token })
}

/// The index of the first row that links `item`.
pub fn position_of(members: &Vec<Member>, item: i64) -> (r: Option<usize>)
    ensures
        match r {
            Some(k) => k < members@.len() && members@[k as int].item == item && forall|j: int|
                0 <= j < k ==> members@[j].item != item,
            None => !is_member(members@, item),
        },
{
    let mut i: usize = 0;
    while i < members.len()
        invariant
            i <= members@.len(),
            forall|j: int| 0 <= j < i ==> members@[j].item != item,
        decreases members@.len() - i,
    {
        if members[i].item == item {
            return Some(i);
        }
        i += 1;
    }
    None
}

/// The rows left once the first link of `item` is taken out.
pub fn remove_member(members: &Vec<Member>, item: i64) -> (r: (Vec<Member>, Option<Member>))
    ensures
        match r.1 {
            Some(m) => exists|k: int|
                0 <= k < members@.len() && members@[k] == m && m.item == item && (forall|j: int|
                    0 <= j < k ==> members@[j].item != item) && r.0@ == members@.remove(k),
            None => !is_member(members@, item) && r.0@ == members@,
        },
{
    let mut rows = copy_all(members);
    match position_of(members, item) {
        Some(k) => {
            let m = rows.remove(k);
            (rows, Some(m))
        },
        None => (rows, None),
    }
}

fn copy_all(members: &Vec<Member>) -> (r: Vec<Member>)
    ensures
        r@ == members@,
{
    let mut out: Vec<Member> = Vec::new();
    let mut i: usize = 0;
    while i < members.len()
        invariant
            i <= members@.len(),
            out@ == members@.subrange(0, i as int),
        decreases members@.len() - i,
    {
        out.push(members[i].copy());
        i += 1;
        assert(out@ =~= members@.subrange(0, i as int));
    }
    assert(out@ =~= members@);
    out
}

/// A 1-based position brought into `[1, n]`.
pub open spec fn clamp_position(p: int, n: int) -> int {
    if p < 1 {
        1
    } else if p > n {
        n
    } else {
        p
    }
}

/// The rows once the row at `k` is moved to the 1-based position `p`.
pub open spec fn moved(ms: Seq<Member>, k: int, p: int) -> Seq<Member> {
    ms.remove(k).insert(clamp_position(p, ms.len() as int) - 1, ms[k])
}

/// Moves `item` to the 1-based `new_position`, brought into `[1, n]`. Every
/// row keeps its token; only the order changes. An item that is not a member
/// is refused.
pub fn reorder_members(members: &Vec<Member>, item: i64, new_position: usize) -> (r: Result<
    Vec<Member>,
    ForScoreError,
>)
    ensures
        match r {
            Ok(v) => exists|k: int|
                0 <= k < members@.len() && members@[k].item == item && (forall|j: int|
                    0 <= j < k ==> members@[j].item != item) && v@ == moved(
                    members@,
                    k,
                    new_position as int,
                ),
            Err(e) => !is_member(members@, item) && e == ForScoreError::NotInSetlist(item),
        },
{
    let n = members.len();
    match position_of(members, item) {
        None => Err(ForScoreError::NotInSetlist(item)),
        Some(k) => {
            let mut rows = copy_all(members);
            let m = rows.remove(k);
            let p = if new_position < 1 {
                1
            } else if new_position > n {
                n
            } else {
                new_position
            };
            rows.insert(p - 1, m);
            assert(rows@ == moved(members@, k as int, new_position as int));
            Ok(rows)
        },
    }
}

/// Moving a member to the position it already holds changes nothing.
pub proof fn lemma_reorder_in_place(ms: Seq<Member>, k: int, p: int)
    requires
        0 <= k < ms.len(),
        clamp_position(p, ms.len() as int) == k + 1,
    ensures
        moved(ms, k, p) == ms,
{
    assert(moved(ms, k, p) =~= ms);
}

/// Reordering keeps every row, token included: the rows after are the rows
/// before, each once, in another order.
pub proof fn lemma_reorder_keeps_tokens(ms: Seq<Member>, k: int, p: int)
    requires
        0 <= k < ms.len(),
    ensures
        moved(ms, k, p).len() == ms.len(),
        moved(ms, k, p).to_multiset() == ms.to_multiset(),
        forall|i: int| 0 <= i < ms.len() ==> moved(ms, k, p).contains(#[trigger] ms[i]),
{
    broadcast use vstd::multiset::group_multiset_axioms;
    let rest = ms.remove(k);
    let q = clamp_position(p, ms.len() as int) - 1;
    let after = rest.insert(q, ms[k]);
    vstd::seq_lib::to_multiset_remove(ms, k);
    vstd::seq_lib::to_multiset_insert(rest, q, ms[k]);
    vstd::seq_lib::to_multiset_contains(ms, ms[k]);
    assert(ms.contains(ms[k]));
    assert(after.to_multiset() =~= ms.to_multiset());
    assert forall|i: int| 0 <= i < ms.len() implies after.contains(#[trigger] ms[i]) by {
        vstd::seq_lib::to_multiset_contains(ms, ms[i]);
        vstd::seq_lib::to_multiset_contains(after, ms[i]);
        assert(ms.contains(ms[i]));
    }
}

/// The item row behind a link, as the mirror lists it.
#[derive(Debug)]
pub struct ItemRow {
    pub path: String,
    pub title: String,
    pub start_page: Option<i32>,
    pub end_page: Option<i32>,
}

/// The mirror item for a link and its item row: the link's token, and for a
/// bookmark its page range.
pub open spec fn item_for(m: Member, row: ItemRow) -> SetlistItem {
    let bm = m.entity == BOOKMARK;
    SetlistItem {
        file_path: row.path,
        title: row.title,
        identifier: m.token,
        is_bookmark: bm,
        first_page: if bm && row.start_page is Some {
            Some(row.start_page.unwrap() as i64)
        } else {
            None
        },
        last_page: if bm && row.end_page is Some {
            Some(row.end_page.unwrap() as i64)
        } else {
            None
        },
    }
}

/// The mirror items of a setlist, one per link, in link order; `rows[i]` is
/// the item row of `members[i]`.
pub fn setlist_items(members: &Vec<Member>, rows: &Vec<ItemRow>) -> (r: Vec<SetlistItem>)
    requires
        rows@.len() == members@.len(),
    ensures
        r@.len() == members@.len(),
        forall|i: int| 0 <= i < r@.len() ==> #[trigger] r@[i] == item_for(members@[i], rows@[i]),
{
    let mut out: Vec<SetlistItem> = Vec::new();
    let mut i: usize = 0;
    while i < members.len()
        invariant
            i <= members@.len(),
            rows@.len() == members@.len(),
            out@.len() == i,
            forall|k: int| 0 <= k < i ==> #[trigger] out@[k] == item_for(members@[k], rows@[k]),
        decreases members@.len() - i,
    {
        let m = &members[i];
        let row = &rows[i];
        let bm = m.entity == BOOKMARK;
        let first_page = if bm && row.start_page.is_some() {
            Some(row.start_page.unwrap() as i64)
        } else {
            None
        };
        let last_page = if bm && row.end_page.is_some() {
            Some(row.end_page.unwrap() as i64)
        } else {
            None
        };
        out.push(
            SetlistItem {
                file_path: row.path.clone(),
                title: row.title.clone(),
                identifier: m.token.clone(),
                is_bookmark: bm,
                first_page,
                last_page,
            },
        );
        i += 1;
    }
    out
}

/// The mirror list rebuilt from a setlist's links carries, at each place,
/// the token of the link at that place: a member keeps its token in the
/// mirror through a reorder, as the links keep theirs.
pub proof fn lemma_rebuilt_tokens<O>(ms: Seq<Member>, items: Seq<SetlistItem>)
    requires
        items.len() == ms.len(),
        forall|i: int| 0 <= i < items.len() ==> (#[trigger] items[i]).identifier == ms[i].token,
    ensures
        rebuilt::<O>(items).len() == ms.len(),
        forall|i: int| 0 <= i < ms.len() ==> has_id(#[trigger] rebuilt::<O>(items)[i], ms[i].token@),
{
    reveal_strlit("FilePath");
    reveal_strlit("Title");
    reveal_strlit("Identifier");
    assert forall|i: int| 0 <= i < ms.len() implies has_id(#[trigger] rebuilt::<O>(items)[i], ms[i].token@) by {
        let e = crate::mirror::item_entry::<O>(items[i]);
        assert("FilePath"@.len() != "Identifier"@.len());
        assert("Title"@.len() != "Identifier"@.len());
        assert(e[0].0 != "Identifier"@);
        assert(e[1].0 != "Identifier"@);
        assert(e[2].0 == "Identifier"@);
        crate::dict::lemma_index_of_is(e, "Identifier"@, 2);
        assert(rebuilt::<O>(items)[i] == item_element::<O>(items[i]));
    }
}

} // verus!
