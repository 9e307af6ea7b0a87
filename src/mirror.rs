//! The sidecar mirror files: what they hold and how edits reach them.
//!
//! A mirror file is a compressed dictionary. The library sees its top level
//! as a `Dict` of fields; the lists that the sync layer matches by identity
//! token (a score's bookmarks, a setlist's items) hold nested dictionaries.
//! Values the library does not read are carried through unchanged as `Raw`.

use vstd::prelude::*;
use crate::dict::{index_of, inserted, lemma_index_of, lemma_inserted_other, lookup, Dict};
use crate::text::same_text;
use crate::text::{decimal, decimal_text};

verus! {

/// A value inside a nested dictionary.
#[derive(Debug)]
pub enum Leaf<O> {
    Str(String),
    Int(i64),
    Raw(O),
}

pub enum LeafV<O> {
    Str(Seq<char>),
    Int(i64),
    Raw(O),
}

impl<O> View for Leaf<O> {
    type V = LeafV<O>;

    open spec fn view(&self) -> LeafV<O> {
        match self {
            Leaf::Str(s) => LeafV::Str(s@),
            Leaf::Int(i) => LeafV::Int(*i),
            Leaf::Raw(o) => LeafV::Raw(*o),
        }
    }
}

/// An element of a list field.
#[derive(Debug)]
pub enum Element<O> {
    Dict(Dict<Leaf<O>>),
    Str(String),
    Raw(O),
}

pub enum ElementV<O> {
    Dict(Seq<(Seq<char>, LeafV<O>)>),
    Str(Seq<char>),
    Raw(O),
}

impl<O> View for Element<O> {
    type V = ElementV<O>;

    open spec fn view(&self) -> ElementV<O> {
        match self {
            Element::Dict(d) => ElementV::Dict(d@),
            Element::Str(s) => ElementV::Str(s@),
            Element::Raw(o) => ElementV::Raw(*o),
        }
    }
}

/// A top-level value of a mirror file.
#[derive(Debug)]
pub enum Field<O> {
    Str(String),
    Int(i64),
    List(Vec<Element<O>>),
    Raw(O),
}

pub enum FieldV<O> {
    Str(Seq<char>),
    Int(i64),
    List(Seq<ElementV<O>>),
    Raw(O),
}

pub open spec fn list_view<O>(l: Seq<Element<O>>) -> Seq<ElementV<O>> {
    l.map_values(|e: Element<O>| e@)
}

impl<O> View for Field<O> {
    type V = FieldV<O>;

    open spec fn view(&self) -> FieldV<O> {
        match self {
            Field::Str(s) => FieldV::Str(s@),
            Field::Int(i) => FieldV::Int(*i),
            Field::List(l) => FieldV::List(list_view(l@)),
            Field::Raw(o) => FieldV::Raw(*o),
        }
    }
}

/// The top level of a mirror file, as the library sees it.
pub type MirrorV<O> = Seq<(Seq<char>, FieldV<O>)>;

/// A nested dictionary, as the library sees it.
pub type EntryV<O> = Seq<(Seq<char>, LeafV<O>)>;

/// The field changes for a score's mirror; `None` leaves a field alone.
#[derive(Debug)]
pub struct ItmUpdate {
    pub title: Option<String>,
    pub composer: Option<String>,
    pub genre: Option<String>,
    pub key: Option<i64>,
    pub rating: Option<i64>,
    pub difficulty: Option<i64>,
}

impl ItmUpdate {
    pub open spec fn empty(&self) -> bool {
        self.title is None && self.composer is None && self.genre is None && self.key is None
            && self.rating is None && self.difficulty is None
    }

    /// An update that changes nothing.
    pub fn new() -> (r: ItmUpdate)
        ensures
            r.empty(),
    {
        ItmUpdate { title: None, composer: None, genre: None, key: None, rating: None, difficulty: None }
    }

    pub fn is_empty(&self) -> (r: bool)
        ensures
            r == self.empty(),
    {
        self.title.is_none() && self.composer.is_none() && self.genre.is_none()
            && self.key.is_none() && self.rating.is_none() && self.difficulty.is_none()
    }
}

/// The field changes for a bookmark's entry inside its score's mirror.
#[derive(Debug)]
pub struct ItmBookmarkUpdate {
    pub title: Option<String>,
    pub composer: Option<String>,
    pub genre: Option<String>,
    pub key: Option<i64>,
    pub rating: Option<i64>,
    pub difficulty: Option<i64>,
}

impl ItmBookmarkUpdate {
    pub open spec fn empty(&self) -> bool {
        self.title is None && self.composer is None && self.genre is None && self.key is None
            && self.rating is None && self.difficulty is None
    }

    /// An update that changes nothing.
    pub fn new() -> (r: ItmBookmarkUpdate)
        ensures
            r.empty(),
    {
        ItmBookmarkUpdate {
            title: None,
            composer: None,
            genre: None,
            key: None,
            rating: None,
            difficulty: None,
        }
    }

    pub fn is_empty(&self) -> (r: bool)
        ensures
            r == self.empty(),
    {
        self.title.is_none() && self.composer.is_none() && self.genre.is_none()
            && self.key.is_none() && self.rating.is_none() && self.difficulty.is_none()
    }
}

pub open spec fn put_str<O>(d: MirrorV<O>, k: Seq<char>, v: Option<String>) -> MirrorV<O> {
    match v {
        Some(t) => inserted(d, k, FieldV::Str(t@)),
        None => d,
    }
}

pub open spec fn put_int<O>(d: MirrorV<O>, k: Seq<char>, v: Option<i64>) -> MirrorV<O> {
    match v {
        Some(x) => inserted(d, k, FieldV::Int(x)),
        None => d,
    }
}

pub open spec fn put_leaf_str<O>(d: EntryV<O>, k: Seq<char>, v: Option<String>) -> EntryV<O> {
    match v {
        Some(t) => inserted(d, k, LeafV::Str(t@)),
        None => d,
    }
}

pub open spec fn put_leaf_int<O>(d: EntryV<O>, k: Seq<char>, v: Option<i64>) -> EntryV<O> {
    match v {
        Some(x) => inserted(d, k, LeafV::Int(x)),
        None => d,
    }
}

/// A score's mirror after `u`: each named field overwritten, in the order
/// title, composer, genre, key, rating, difficulty.
pub open spec fn score_patched<O>(d: MirrorV<O>, u: ItmUpdate) -> MirrorV<O> {
    put_int(
        put_int(
            put_int(
                put_str(put_str(put_str(d, "title"@, u.title), "composer"@, u.composer), "genre"@, u.genre),
                "key"@,
                u.key,
            ),
            "rating"@,
            u.rating,
        ),
        "difficulty"@,
        u.difficulty,
    )
}

/// A bookmark's entry after `u`, with the capitalised keys that entries use.
pub open spec fn bookmark_patched<O>(d: EntryV<O>, u: ItmBookmarkUpdate) -> EntryV<O> {
    put_leaf_int(
        put_leaf_int(
            put_leaf_int(
                put_leaf_str(put_leaf_str(put_leaf_str(d, "Title"@, u.title), "Composer"@, u.composer), "Genre"@, u.genre),
                "Key"@,
                u.key,
            ),
            "Rating"@,
            u.rating,
        ),
        "Difficulty"@,
        u.difficulty,
    )
}

fn set_str<O>(m: &mut Dict<Field<O>>, k: &str, v: &Option<String>)
    ensures
        final(m)@ == put_str(old(m)@, k@, *v),
{
    if let Some(t) = v {
        m.insert(k.to_owned(), Field::Str(t.clone()));
    }
}

fn set_int<O>(m: &mut Dict<Field<O>>, k: &str, v: Option<i64>)
    ensures
        final(m)@ == put_int(old(m)@, k@, v),
{
    if let Some(x) = v {
        m.insert(k.to_owned(), Field::Int(x));
    }
}

fn set_leaf_str<O>(m: &mut Dict<Leaf<O>>, k: &str, v: &Option<String>)
    ensures
        final(m)@ == put_leaf_str(old(m)@, k@, *v),
{
    if let Some(t) = v {
        m.insert(k.to_owned(), Leaf::Str(t.clone()));
    }
}

fn set_leaf_int<O>(m: &mut Dict<Leaf<O>>, k: &str, v: Option<i64>)
    ensures
        final(m)@ == put_leaf_int(old(m)@, k@, v),
{
    if let Some(x) = v {
        m.insert(k.to_owned(), Leaf::Int(x));
    }
}

/// Overwrites the fields that `u` names in a score's mirror and leaves every
/// other key as it was. An empty update changes nothing and gives `false`.
pub fn update_itm<O>(m: &mut Dict<Field<O>>, u: &ItmUpdate) -> (r: bool)
    ensures
        r == !u.empty(),
        final(m)@ == if r {
            score_patched(old(m)@, *u)
        } else {
            old(m)@
        },
{
    if u.is_empty() {
        return false;
    }
    set_str(m, "title", &u.title);
    set_str(m, "composer", &u.composer);
    set_str(m, "genre", &u.genre);
    set_int(m, "key", u.key);
    set_int(m, "rating", u.rating);
    set_int(m, "difficulty", u.difficulty);
    true
}

/// Patching a score's mirror leaves every key that the update does not name
/// exactly as it was: same value, same place.
pub proof fn lemma_patch_isolated<O>(d: MirrorV<O>, u: ItmUpdate, k: Seq<char>)
    requires
        k != "title"@,
        k != "composer"@,
        k != "genre"@,
        k != "key"@,
        k != "rating"@,
        k != "difficulty"@,
    ensures
        lookup(score_patched(d, u), k) == lookup(d, k),
        index_of(score_patched(d, u), k) == index_of(d, k),
{
    let d1 = put_str(d, "title"@, u.title);
    let d2 = put_str(d1, "composer"@, u.composer);
    let d3 = put_str(d2, "genre"@, u.genre);
    let d4 = put_int(d3, "key"@, u.key);
    let d5 = put_int(d4, "rating"@, u.rating);
    if let Some(t) = u.title {
        lemma_inserted_other(d, "title"@, FieldV::Str(t@), k);
    }
    if let Some(t) = u.composer {
        lemma_inserted_other(d1, "composer"@, FieldV::Str(t@), k);
    }
    if let Some(t) = u.genre {
        lemma_inserted_other(d2, "genre"@, FieldV::Str(t@), k);
    }
    if let Some(x) = u.key {
        lemma_inserted_other(d3, "key"@, FieldV::<O>::Int(x), k);
    }
    if let Some(x) = u.rating {
        lemma_inserted_other(d4, "rating"@, FieldV::<O>::Int(x), k);
    }
    if let Some(x) = u.difficulty {
        lemma_inserted_other(d5, "difficulty"@, FieldV::<O>::Int(x), k);
    }
}

/// `e` is a nested dictionary whose `Identifier` is the text `id`.
pub open spec fn has_id<O>(e: ElementV<O>, id: Seq<char>) -> bool {
    e matches ElementV::Dict(d) && lookup(d, "Identifier"@) == Some(LeafV::<O>::Str(id))
}

/// `j` is the first element of `l` whose `Identifier` is `id`.
pub open spec fn first_with_id<O>(l: Seq<ElementV<O>>, id: Seq<char>, j: int) -> bool {
    0 <= j < l.len() && has_id(l[j], id) && forall|q: int| 0 <= q < j ==> !has_id(#[trigger] l[q], id)
}

/// No element of `l` has `Identifier` `id`.
pub open spec fn no_id<O>(l: Seq<ElementV<O>>, id: Seq<char>) -> bool {
    forall|q: int| 0 <= q < l.len() ==> !has_id(#[trigger] l[q], id)
}

/// The list under `k`, where `k` holds a list.
pub open spec fn list_at<O>(d: MirrorV<O>, k: Seq<char>) -> Option<Seq<ElementV<O>>> {
    match lookup(d, k) {
        Some(FieldV::List(l)) => Some(l),
        _ => None,
    }
}

fn id_of<O>(e: &Element<O>, id: &str) -> (r: bool)
    ensures
        r == has_id(e@, id@),
{
    match e {
        Element::Dict(d) => match d.get("Identifier") {
            Some(Leaf::Str(t)) => same_text(t.as_str(), id),
            _ => false,
        },
        _ => false,
    }
}

/// Where the first element with `Identifier` `id` stands.
pub fn find_by_identity_token<O>(l: &Vec<Element<O>>, id: &str) -> (r: Option<usize>)
    ensures
        match r {
            Some(j) => first_with_id(list_view(l@), id@, j as int),
            None => no_id(list_view(l@), id@),
        },
{
    let mut j: usize = 0;
    while j < l.len()
        invariant
            j <= l@.len(),
            forall|q: int| 0 <= q < j ==> !has_id(#[trigger] list_view(l@)[q], id@),
        decreases l@.len() - j,
    {
        if id_of(&l[j], id) {
            return Some(j);
        }
        j += 1;
    }
    None
}

/// Takes the list under `k` out of `m`, leaving a placeholder, with its index.
fn take_list<O>(m: &mut Dict<Field<O>>, k: &str) -> (r: Option<(usize, Vec<Element<O>>)>)
    ensures
        match r {
            Some((i, l)) => i == index_of(old(m)@, k@) && i < old(m)@.len() && list_at(old(m)@, k@)
                == Some(list_view(l@)) && final(m)@ == old(m)@.update(
                i as int,
                (k@, FieldV::Int(0)),
            ),
            None => list_at(old(m)@, k@) is None && final(m)@ == old(m)@,
        },
{
    match m.position(k) {
        None => None,
        Some(i) => {
            proof {
                lemma_index_of(m@, k@);
            }
            let f = m.swap_value(i, Field::Int(0));
            match f {
                Field::List(l) => Some((i, l)),
                other => {
                    m.swap_value(i, other);
                    assert(m@ =~= old(m)@);
                    None
                },
            }
        },
    }
}

/// Puts a list back where `take_list` took it.
fn put_list<O>(m: &mut Dict<Field<O>>, k: &str, i: usize, l: Vec<Element<O>>)
    requires
        i < old(m)@.len(),
        old(m)@[i as int].0 == k@,
    ensures
        final(m)@ == old(m)@.update(i as int, (k@, FieldV::List(list_view(l@)))),
{
    m.swap_value(i, Field::List(l));
}

/// Overwrites the fields that `u` names in the entry of the bookmark with
/// token `uuid`, inside its score's mirror. Without a token, without a
/// `bookmarks` list, without a matching entry, or with an empty update,
/// nothing changes and the result is `false`.
pub fn update_bookmark_in_itm<O>(m: &mut Dict<Field<O>>, uuid: Option<&str>, u: &ItmBookmarkUpdate) -> (r: bool)
    ensures
        !r ==> final(m)@ == old(m)@,
        r <==> !u.empty() && uuid is Some && list_at(old(m)@, "bookmarks"@) is Some && !no_id(
            list_at(old(m)@, "bookmarks"@).unwrap(),
            uuid.unwrap()@,
        ),
        r ==> exists|j: int|
            #![trigger first_with_id(list_at(old(m)@, "bookmarks"@).unwrap(), uuid.unwrap()@, j)]
            first_with_id(list_at(old(m)@, "bookmarks"@).unwrap(), uuid.unwrap()@, j)
                && final(m)@ == inserted(
                old(m)@,
                "bookmarks"@,
                FieldV::List(
                    list_at(old(m)@, "bookmarks"@).unwrap().update(
                        j,
                        ElementV::Dict(
                            bookmark_patched(list_at(old(m)@, "bookmarks"@).unwrap()[j]->Dict_0, *u),
                        ),
                    ),
                ),
            ),
{
    if u.is_empty() {
        return false;
    }
    let id = match uuid {
        Some(t) => t,
        None => return false,
    };
    let ghost m0 = m@;
    let (i, mut l) = match take_list(m, "bookmarks") {
        Some(p) => p,
        None => return false,
    };
    proof {
        lemma_index_of(m0, "bookmarks"@);
    }
    match find_by_identity_token(&l, id) {
        None => {
            let ghost l0 = l@;
            put_list(m, "bookmarks", i, l);
            assert(m@ =~= m0);
            false
        },
        Some(j) => {
            let ghost l0 = list_view(l@);
            let e = l.remove(j);
            match e {
                Element::Dict(mut d) => {
                    let ghost d0 = d@;
                    set_leaf_str(&mut d, "Title", &u.title);
                    set_leaf_str(&mut d, "Composer", &u.composer);
                    set_leaf_str(&mut d, "Genre", &u.genre);
                    set_leaf_int(&mut d, "Key", u.key);
                    set_leaf_int(&mut d, "Rating", u.rating);
                    set_leaf_int(&mut d, "Difficulty", u.difficulty);
                    l.insert(j, Element::Dict(d));
                    assert(list_view(l@) =~= l0.update(
                        j as int,
                        ElementV::Dict(bookmark_patched(d0, *u)),
                    ));
                    put_list(m, "bookmarks", i, l);
                    assert(first_with_id(l0, id@, j as int));
                    true
                },
                _ => {
                    assert(has_id(l0[j as int], id@));
                    false
                },
            }
        },
    }
}

/// Takes the first element with `Identifier` `id` out of the list under
/// `list_key`. The list then holds exactly one element less; where there is
/// no such list or element, nothing changes and the result is `false`.
pub fn remove_by_identity_token<O>(m: &mut Dict<Field<O>>, list_key: &str, id: &str) -> (r: bool)
    ensures
        r <==> list_at(old(m)@, list_key@) is Some && !no_id(list_at(old(m)@, list_key@).unwrap(), id@),
        !r ==> final(m)@ == old(m)@,
        r ==> exists|j: int|
            #![trigger first_with_id(list_at(old(m)@, list_key@).unwrap(), id@, j)]
            first_with_id(list_at(old(m)@, list_key@).unwrap(), id@, j) && final(m)@ == inserted(
                old(m)@,
                list_key@,
                FieldV::List(list_at(old(m)@, list_key@).unwrap().remove(j)),
            ),
{
    let ghost m0 = m@;
    let (i, mut l) = match take_list(m, list_key) {
        Some(p) => p,
        None => return false,
    };
    proof {
        lemma_index_of(m0, list_key@);
    }
    match find_by_identity_token(&l, id) {
        None => {
            put_list(m, list_key, i, l);
            assert(m@ =~= m0);
            false
        },
        Some(j) => {
            let ghost l0 = list_view(l@);
            l.remove(j);
            assert(list_view(l@) =~= l0.remove(j as int));
            put_list(m, list_key, i, l);
            assert(first_with_id(l0, id@, j as int));
            true
        },
    }
}

/// Removes the entry of the bookmark with token `uuid` from its score's mirror.
pub fn delete_bookmark_from_itm<O>(m: &mut Dict<Field<O>>, uuid: Option<&str>) -> (r: bool)
    ensures
        r <==> uuid is Some && list_at(old(m)@, "bookmarks"@) is Some && !no_id(
            list_at(old(m)@, "bookmarks"@).unwrap(),
            uuid.unwrap()@,
        ),
        !r ==> final(m)@ == old(m)@,
        r ==> exists|j: int|
            #![trigger first_with_id(list_at(old(m)@, "bookmarks"@).unwrap(), uuid.unwrap()@, j)]
            first_with_id(list_at(old(m)@, "bookmarks"@).unwrap(), uuid.unwrap()@, j)
                && final(m)@ == inserted(
                old(m)@,
                "bookmarks"@,
                FieldV::List(list_at(old(m)@, "bookmarks"@).unwrap().remove(j)),
            ),
{
    match uuid {
        Some(id) => remove_by_identity_token(m, "bookmarks", id),
        None => false,
    }
}

/// A score or bookmark as a setlist's mirror lists it.
#[derive(Debug)]
pub struct SetlistItem {
    pub file_path: String,
    pub title: String,
    pub identifier: String,
    pub is_bookmark: bool,
    pub first_page: Option<i64>,
    pub last_page: Option<i64>,
}

pub open spec fn page_entry<O>(k: Seq<char>, p: Option<i64>) -> EntryV<O> {
    match p {
        Some(n) => seq![(k, LeafV::Str(decimal(n as int)))],
        None => Seq::empty(),
    }
}

/// The entry of a setlist item: its path, title and token, and for a bookmark
/// the `Bookmark` mark and its page range, the pages written in decimal.
pub open spec fn item_entry<O>(it: SetlistItem) -> EntryV<O> {
    let base = seq![
        ("FilePath"@, LeafV::Str(it.file_path@)),
        ("Title"@, LeafV::Str(it.title@)),
        ("Identifier"@, LeafV::Str(it.identifier@)),
    ];
    if it.is_bookmark {
        base.push(("Bookmark"@, LeafV::Str("YES"@))) + page_entry("First Page"@, it.first_page)
            + page_entry("Last Page"@, it.last_page)
    } else {
        base
    }
}

pub open spec fn item_element<O>(it: SetlistItem) -> ElementV<O> {
    ElementV::Dict(item_entry(it))
}

fn push_page<O>(d: &mut Dict<Leaf<O>>, k: &str, p: Option<i64>)
    ensures
        final(d)@ == old(d)@ + page_entry::<O>(k@, p),
{
    if let Some(n) = p {
        d.entries.push((k.to_owned(), Leaf::Str(decimal_text(n))));
    }
    assert(d@ =~= old(d)@ + page_entry::<O>(k@, p));
}

/// Builds the mirror entry of a setlist item.
pub fn item_dict<O>(it: &SetlistItem) -> (r: Dict<Leaf<O>>)
    ensures
        r@ == item_entry::<O>(*it),
{
    let mut d: Dict<Leaf<O>> = Dict { entries: Vec::new() };
    d.entries.push(("FilePath".to_owned(), Leaf::Str(it.file_path.clone())));
    d.entries.push(("Title".to_owned(), Leaf::Str(it.title.clone())));
    d.entries.push(("Identifier".to_owned(), Leaf::Str(it.identifier.clone())));
    if it.is_bookmark {
        d.entries.push(("Bookmark".to_owned(), Leaf::Str("YES".to_owned())));
        push_page(&mut d, "First Page", it.first_page);
        push_page(&mut d, "Last Page", it.last_page);
    }
    assert(d@ =~= item_entry::<O>(*it));
    d
}

/// Appends an item to a setlist's mirror. An item whose token is already
/// listed is left alone and gives `false`; where the mirror holds no `items`
/// list, one is made.
pub fn add_item_to_setlist_file<O>(m: &mut Dict<Field<O>>, item: &SetlistItem) -> (r: bool)
    ensures
        match list_at(old(m)@, "items"@) {
            Some(l) => if no_id(l, item.identifier@) {
                r && final(m)@ == inserted(old(m)@, "items"@, FieldV::List(l.push(item_element(*item))))
            } else {
                !r && final(m)@ == old(m)@
            },
            None => r && final(m)@ == inserted(
                old(m)@,
                "items"@,
                FieldV::List(seq![item_element::<O>(*item)]),
            ),
        },
{
    let ghost m0 = m@;
    match take_list(m, "items") {
        Some((i, mut l)) => {
            proof {
                lemma_index_of(m0, "items"@);
            }
            if find_by_identity_token(&l, item.identifier.as_str()).is_some() {
                put_list(m, "items", i, l);
                assert(m@ =~= m0);
                false
            } else {
                let ghost l0 = list_view(l@);
                l.push(Element::Dict(item_dict(item)));
                assert(list_view(l@) =~= l0.push(item_element(*item)));
                put_list(m, "items", i, l);
                true
            }
        },
        None => {
            let mut l: Vec<Element<O>> = Vec::new();
            l.push(Element::Dict(item_dict(item)));
            assert(list_view(l@) =~= seq![item_element::<O>(*item)]);
            m.insert("items".to_owned(), Field::List(l));
            true
        },
    }
}

/// Removes the item with token `identifier` from a setlist's mirror.
pub fn remove_item_from_setlist_file<O>(m: &mut Dict<Field<O>>, identifier: &str) -> (r: bool)
    ensures
        r <==> list_at(old(m)@, "items"@) is Some && !no_id(list_at(old(m)@, "items"@).unwrap(), identifier@),
        !r ==> final(m)@ == old(m)@,
        r ==> exists|j: int|
            #![trigger first_with_id(list_at(old(m)@, "items"@).unwrap(), identifier@, j)]
            first_with_id(list_at(old(m)@, "items"@).unwrap(), identifier@, j) && final(m)@ == inserted(
                old(m)@,
                "items"@,
                FieldV::List(list_at(old(m)@, "items"@).unwrap().remove(j)),
            ),
{
    remove_by_identity_token(m, "items", identifier)
}

/// The `items` list rebuilt from `items`, in their order.
pub open spec fn rebuilt<O>(items: Seq<SetlistItem>) -> Seq<ElementV<O>> {
    items.map_values(|it: SetlistItem| item_element::<O>(it))
}

/// Replaces a setlist mirror's `items` list wholesale by the entries of
/// `items`, in their order; every other key is kept.
pub fn reorder_setlist_file<O>(m: &mut Dict<Field<O>>, items: &Vec<SetlistItem>)
    ensures
        final(m)@ == inserted(old(m)@, "items"@, FieldV::List(rebuilt::<O>(items@))),
{
    let mut l: Vec<Element<O>> = Vec::new();
    let mut j: usize = 0;
    while j < items.len()
        invariant
            j <= items@.len(),
            list_view(l@) == rebuilt::<O>(items@.subrange(0, j as int)),
        decreases items@.len() - j,
    {
        let ghost before = l@;
        let e = Element::Dict(item_dict(&items[j]));
        assert(e@ == item_element::<O>(items@[j as int]));
        l.push(e);
        assert(l@ == before.push(e));
        assert(list_view(before).len() == before.len());
        j += 1;
        assert forall|k: int| 0 <= k < j implies list_view(l@)[k] == rebuilt::<O>(
            items@.subrange(0, j as int),
        )[k] by {
            if k < j - 1 {
                assert(list_view(before)[k] == rebuilt::<O>(items@.subrange(0, j - 1))[k]);
            }
        }
        assert(list_view(l@) =~= rebuilt::<O>(items@.subrange(0, j as int)));
    }
    assert(items@.subrange(0, j as int) =~= items@);
    m.insert("items".to_owned(), Field::List(l));
}

/// Sets the `title` of a setlist's mirror, as a rename does.
pub fn retitle_setlist_file<O>(m: &mut Dict<Field<O>>, new_name: &str)
    ensures
        final(m)@ == inserted(old(m)@, "title"@, FieldV::Str(new_name@)),
{
    m.insert("title".to_owned(), Field::Str(new_name.to_owned()));
}

/// The keys that a new setlist mirror lists as padded.
pub open spec fn padded_keys<O>() -> Seq<ElementV<O>> {
    seq![
        ElementV::Str("items"@),
        ElementV::Str("lastPlayed"@),
        ElementV::Str("library"@),
        ElementV::Str("menuIndex"@),
        ElementV::Str("title"@),
    ]
}

/// The mirror of a new, empty setlist.
pub open spec fn new_setlist_view<O>(name: Seq<char>) -> MirrorV<O> {
    seq![
        ("title"@, FieldV::Str(name)),
        ("items"@, FieldV::List(Seq::empty())),
        ("menuIndex"@, FieldV::Int(0)),
        ("kRecoverableDestination"@, FieldV::Int(4)),
        ("kRecoverablePaddedKeys"@, FieldV::List(padded_keys())),
    ]
}

/// Builds the mirror of a new, empty setlist named `name`.
pub fn create_setlist_file<O>(name: &str) -> (r: Dict<Field<O>>)
    ensures
        r@ == new_setlist_view::<O>(name@),
{
    let mut padded: Vec<Element<O>> = Vec::new();
    padded.push(Element::Str("items".to_owned()));
    padded.push(Element::Str("lastPlayed".to_owned()));
    padded.push(Element::Str("library".to_owned()));
    padded.push(Element::Str("menuIndex".to_owned()));
    padded.push(Element::Str("title".to_owned()));
    assert(list_view(padded@) =~= padded_keys::<O>());
    let mut d: Dict<Field<O>> = Dict { entries: Vec::new() };
    d.entries.push(("title".to_owned(), Field::Str(name.to_owned())));
    d.entries.push(("items".to_owned(), Field::List(Vec::new())));
    d.entries.push(("menuIndex".to_owned(), Field::Int(0)));
    d.entries.push(("kRecoverableDestination".to_owned(), Field::Int(4)));
    d.entries.push(("kRecoverablePaddedKeys".to_owned(), Field::List(padded)));
    assert(list_view(Seq::<Element<O>>::empty()) =~= Seq::<ElementV<O>>::empty());
    assert(d@ =~= new_setlist_view::<O>(name@));
    d
}

/// `e` is a bookmark entry whose composer is `name`.
pub open spec fn by_composer<O>(e: ElementV<O>, name: Seq<char>) -> bool {
    e matches ElementV::Dict(d) && lookup(d, "Composer"@) == Some(LeafV::<O>::Str(name))
}

/// A bookmark entry with composer `from` renamed to `to`; others unchanged.
pub open spec fn renamed_entry<O>(e: ElementV<O>, from: Seq<char>, to: Seq<char>) -> ElementV<O> {
    if by_composer(e, from) {
        ElementV::Dict(inserted(e->Dict_0, "Composer"@, LeafV::Str(to)))
    } else {
        e
    }
}

/// How many entries of `l` have composer `name`.
pub open spec fn composer_count<O>(l: Seq<ElementV<O>>, name: Seq<char>) -> nat
    decreases l.len(),
{
    if l.len() == 0 {
        0
    } else {
        composer_count(l.drop_last(), name) + if by_composer(l.last(), name) {
            1nat
        } else {
            0nat
        }
    }
}

/// A score mirror whose own composer is `from` gets `to`.
pub open spec fn top_renamed<O>(d: MirrorV<O>, from: Seq<char>, to: Seq<char>) -> MirrorV<O> {
    if lookup(d, "composer"@) == Some(FieldV::<O>::Str(from)) {
        inserted(d, "composer"@, FieldV::Str(to))
    } else {
        d
    }
}

/// A score mirror with composer `from` renamed to `to`, in its own fields
/// and in each of its bookmark entries.
pub open spec fn composer_renamed<O>(d: MirrorV<O>, from: Seq<char>, to: Seq<char>) -> MirrorV<O> {
    let t = top_renamed(d, from, to);
    match list_at(t, "bookmarks"@) {
        Some(l) => inserted(
            t,
            "bookmarks"@,
            FieldV::List(l.map_values(|e: ElementV<O>| renamed_entry(e, from, to))),
        ),
        None => t,
    }
}

fn rename_in_entry<O>(e: Element<O>, from: &str, to: &str) -> (r: (Element<O>, bool))
    ensures
        r.0@ == renamed_entry(e@, from@, to@),
        r.1 == by_composer(e@, from@),
{
    match e {
        Element::Dict(mut d) => {
            let hit = match d.get("Composer") {
                Some(Leaf::Str(t)) => same_text(t.as_str(), from),
                _ => false,
            };
            if hit {
                d.insert("Composer".to_owned(), Leaf::Str(to.to_owned()));
            }
            (Element::Dict(d), hit)
        },
        other => (other, false),
    }
}

/// Renames composer `from` to `to` in a score's mirror: its own `composer`
/// field and every bookmark entry's `Composer`. Gives whether the score's own
/// field changed and how many bookmark entries did.
pub fn rename_composer_in_itm<O>(m: &mut Dict<Field<O>>, from: &str, to: &str) -> (r: (bool, usize))
    ensures
        final(m)@ == composer_renamed(old(m)@, from@, to@),
        r.0 == (lookup(old(m)@, "composer"@) == Some(FieldV::<O>::Str(from@))),
        r.1 == match list_at(top_renamed(old(m)@, from@, to@), "bookmarks"@) {
            Some(l) => composer_count(l, from@),
            None => 0,
        },
{
    let own = match m.get("composer") {
        Some(Field::Str(t)) => same_text(t.as_str(), from),
        _ => false,
    };
    if own {
        m.insert("composer".to_owned(), Field::Str(to.to_owned()));
    }
    let ghost t0 = m@;
    let (i, mut l) = match take_list(m, "bookmarks") {
        Some(p) => p,
        None => return (own, 0),
    };
    proof {
        lemma_index_of(t0, "bookmarks"@);
    }
    let ghost l0 = list_view(l@);
    let n = l.len();
    let mut out: Vec<Element<O>> = Vec::new();
    let mut count: usize = 0;
    while l.len() > 0
        invariant
            n == l0.len(),
            out@.len() + l@.len() == n,
            list_view(out@) == l0.subrange(0, out@.len() as int).map_values(
                |e: ElementV<O>| renamed_entry(e, from@, to@),
            ),
            list_view(l@) == l0.subrange(out@.len() as int, n as int),
            count == composer_count(l0.subrange(0, out@.len() as int), from@),
            count <= out@.len(),
        decreases l@.len(),
    {
        let ghost k = out@.len() as int;
        let ghost before = out@;
        assert(list_view(l@)[0] == l@[0]@);
        let ghost lb = l@;
        let e = l.remove(0);
        assert(e@ == l0[k]);
        let (e2, hit) = rename_in_entry(e, from, to);
        out.push(e2);
        assert(out@ == before.push(e2));
        assert(list_view(before).len() == before.len());
        assert(l0.subrange(0, k + 1).drop_last() =~= l0.subrange(0, k));
        if hit {
            count += 1;
        }
        assert forall|q: int| 0 <= q < k + 1 implies #[trigger] list_view(out@)[q]
            == l0.subrange(0, k + 1).map_values(|e: ElementV<O>| renamed_entry(e, from@, to@))[q] by {
            if q < k {
                assert(list_view(before)[q] == l0.subrange(0, k).map_values(
                    |e: ElementV<O>| renamed_entry(e, from@, to@),
                )[q]);
            }
        }
        assert(list_view(out@) =~= l0.subrange(0, k + 1).map_values(
            |e: ElementV<O>| renamed_entry(e, from@, to@),
        ));
        assert forall|q: int| 0 <= q < l@.len() implies #[trigger] list_view(l@)[q] == l0.subrange(
            k + 1,
            n as int,
        )[q] by {
            assert(l@[q] == lb[q + 1]);
            assert(list_view(lb)[q + 1] == l0.subrange(k, n as int)[q + 1]);
        }
        assert(list_view(l@) =~= l0.subrange(k + 1, n as int));
    }
    assert(l0.subrange(0, n as int) =~= l0);
    put_list(m, "bookmarks", i, out);
    (own, count)
}

/// A folder's list of setlist names with `from` renamed to `to`.
pub open spec fn names_renamed<O>(l: Seq<ElementV<O>>, from: Seq<char>, to: Seq<char>) -> Seq<ElementV<O>> {
    l.map_values(|e: ElementV<O>| if e == ElementV::<O>::Str(from) { ElementV::Str(to) } else { e })
}

/// Renames setlist `from` to `to` in a folder's mirror (its `setlists` list of
/// names). Gives whether any name changed; if none did, nothing changes.
pub fn rename_setlist_in_folder<O>(m: &mut Dict<Field<O>>, from: &str, to: &str) -> (r: bool)
    ensures
        r <==> (list_at(old(m)@, "setlists"@) matches Some(l) && l.contains(ElementV::<O>::Str(from@))),
        final(m)@ == if r {
            inserted(old(m)@, "setlists"@, FieldV::List(names_renamed(list_at(old(m)@, "setlists"@).unwrap(), from@, to@)))
        } else {
            old(m)@
        },
{
    let ghost m0 = m@;
    let (i, mut l) = match take_list(m, "setlists") {
        Some(p) => p,
        None => return false,
    };
    proof {
        lemma_index_of(m0, "setlists"@);
    }
    let ghost l0 = list_view(l@);
    let n = l.len();
    let mut out: Vec<Element<O>> = Vec::new();
    let mut changed = false;
    while l.len() > 0
        invariant
            n == l0.len(),
            out@.len() + l@.len() == n,
            list_view(out@) == names_renamed(l0.subrange(0, out@.len() as int), from@, to@),
            list_view(l@) == l0.subrange(out@.len() as int, n as int),
            changed <==> l0.subrange(0, out@.len() as int).contains(ElementV::<O>::Str(from@)),
        decreases l@.len(),
    {
        let ghost k = out@.len() as int;
        let ghost before = out@;
        assert(list_view(l@)[0] == l@[0]@);
        let ghost lb = l@;
        let e = l.remove(0);
        assert(e@ == l0[k]);
        let hit = match &e {
            Element::Str(t) => same_text(t.as_str(), from),
            _ => false,
        };
        let e2 = if hit {
            Element::Str(to.to_owned())
        } else {
            e
        };
        out.push(e2);
        assert(out@ == before.push(e2));
        assert(list_view(before).len() == before.len());
        if hit {
            changed = true;
            assert(l0.subrange(0, k + 1)[k] == ElementV::<O>::Str(from@));
        } else {
            proof {
                if changed {
                    let q = choose|q: int|
                        0 <= q < k && l0.subrange(0, k)[q] == ElementV::<O>::Str(from@);
                    assert(l0.subrange(0, k + 1)[q] == ElementV::<O>::Str(from@));
                } else {
                    assert forall|q: int| 0 <= q < k + 1 implies #[trigger] l0.subrange(0, k + 1)[q]
                        != ElementV::<O>::Str(from@) by {
                        if q < k {
                            assert(l0.subrange(0, k)[q] == l0.subrange(0, k + 1)[q]);
                        }
                    }
                }
            }
        }
        assert forall|q: int| 0 <= q < k + 1 implies #[trigger] list_view(out@)[q]
            == names_renamed(l0.subrange(0, k + 1), from@, to@)[q] by {
            if q < k {
                assert(list_view(before)[q] == names_renamed(l0.subrange(0, k), from@, to@)[q]);
            }
        }
        assert(list_view(out@) =~= names_renamed(l0.subrange(0, k + 1), from@, to@));
        assert forall|q: int| 0 <= q < l@.len() implies #[trigger] list_view(l@)[q] == l0.subrange(
            k + 1,
            n as int,
        )[q] by {
            assert(l@[q] == lb[q + 1]);
            assert(list_view(lb)[q + 1] == l0.subrange(k, n as int)[q + 1]);
        }
        assert(list_view(l@) =~= l0.subrange(k + 1, n as int));
    }
    assert(l0.subrange(0, n as int) =~= l0);
    if changed {
        put_list(m, "setlists", i, out);
        true
    } else {
        assert(names_renamed(l0, from@, to@) =~= l0);
        put_list(m, "setlists", i, out);
        assert(m@ =~= m0);
        false
    }
}

} // verus!
