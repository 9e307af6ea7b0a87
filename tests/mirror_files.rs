use forscore_sync::dict::Dict;
use forscore_sync::mirror::{
    add_item_to_setlist_file, create_setlist_file, delete_bookmark_from_itm, remove_item_from_setlist_file,
    rename_composer_in_itm, rename_setlist_in_folder, reorder_setlist_file, retitle_setlist_file,
    update_bookmark_in_itm, update_itm, Element, Field, ItmBookmarkUpdate, ItmUpdate, Leaf, SetlistItem,
};

type Raw = String;

fn entry(pairs: Vec<(&str, Leaf<Raw>)>) -> Element<Raw> {
    Element::Dict(Dict { entries: pairs.into_iter().map(|(k, v)| (k.to_string(), v)).collect() })
}

fn s(v: &str) -> Leaf<Raw> {
    Leaf::Str(v.to_string())
}

fn score_mirror() -> Dict<Field<Raw>> {
    Dict {
        entries: vec![
            ("title".to_string(), Field::Str("Old".to_string())),
            ("added".to_string(), Field::Raw("2021-03-04T05:06:07Z".to_string())),
            ("rating".to_string(), Field::Int(2)),
            ("composer".to_string(), Field::Str("J Bach".to_string())),
            (
                "bookmarks".to_string(),
                Field::List(vec![
                    entry(vec![("Identifier", s("BM-1")), ("Title", s("Aria")), ("Composer", s("J Bach"))]),
                    Element::Raw("odd".to_string()),
                    entry(vec![("Identifier", s("BM-2")), ("Title", s("Gigue")), ("Composer", s("Handel"))]),
                    entry(vec![("Title", s("No id")), ("Composer", s("J Bach"))]),
                ]),
            ),
            ("pages".to_string(), Field::Int(12)),
        ],
    }
}

fn keys<V>(d: &Dict<V>) -> Vec<String> {
    d.entries.iter().map(|e| e.0.clone()).collect()
}

fn field<'a>(d: &'a Dict<Field<Raw>>, k: &str) -> &'a Field<Raw> {
    &d.entries.iter().find(|e| e.0 == k).unwrap().1
}

fn list<'a>(d: &'a Dict<Field<Raw>>, k: &str) -> &'a Vec<Element<Raw>> {
    match field(d, k) {
        Field::List(l) => l,
        other => panic!("{:?}", other),
    }
}

fn leaf<'a>(e: &'a Element<Raw>, k: &str) -> Option<&'a Leaf<Raw>> {
    match e {
        Element::Dict(d) => d.entries.iter().find(|p| p.0 == k).map(|p| &p.1),
        _ => None,
    }
}

fn leaf_str(e: &Element<Raw>, k: &str) -> Option<String> {
    match leaf(e, k) {
        Some(Leaf::Str(t)) => Some(t.clone()),
        _ => None,
    }
}

#[test]
fn patching_one_field_leaves_the_rest() {
    let mut m = score_mirror();
    let mut u = ItmUpdate::new();
    assert!(u.is_empty());
    u.rating = Some(5);
    assert!(!u.is_empty());
    assert!(update_itm(&mut m, &u));
    assert_eq!(keys(&m), keys(&score_mirror()));
    assert!(matches!(field(&m, "rating"), Field::Int(5)));
    assert!(matches!(field(&m, "added"), Field::Raw(t) if t == "2021-03-04T05:06:07Z"));
    assert!(matches!(field(&m, "title"), Field::Str(t) if t == "Old"));
    assert!(matches!(field(&m, "pages"), Field::Int(12)));
    assert_eq!(list(&m, "bookmarks").len(), 4);
}

#[test]
fn patching_appends_new_keys_in_order() {
    let mut m = score_mirror();
    let mut u = ItmUpdate::new();
    u.title = Some("New".to_string());
    u.genre = Some("Baroque".to_string());
    u.difficulty = Some(3);
    u.key = Some(610);
    assert!(update_itm(&mut m, &u));
    assert_eq!(
        keys(&m),
        vec!["title", "added", "rating", "composer", "bookmarks", "pages", "genre", "key", "difficulty"]
    );
    assert!(matches!(field(&m, "title"), Field::Str(t) if t == "New"));
    assert!(matches!(field(&m, "key"), Field::Int(610)));
}

#[test]
fn empty_update_writes_nothing() {
    let mut m = score_mirror();
    assert!(!update_itm(&mut m, &ItmUpdate::new()));
    assert_eq!(keys(&m), keys(&score_mirror()));
}

#[test]
fn bookmark_entry_is_patched_by_token() {
    let mut m = score_mirror();
    let mut u = ItmBookmarkUpdate::new();
    assert!(u.is_empty());
    u.title = Some("Gavotte".to_string());
    u.rating = Some(4);
    assert!(update_bookmark_in_itm(&mut m, Some("BM-2"), &u));
    let l = list(&m, "bookmarks");
    assert_eq!(leaf_str(&l[2], "Title").as_deref(), Some("Gavotte"));
    assert!(matches!(leaf(&l[2], "Rating"), Some(Leaf::Int(4))));
    assert_eq!(leaf_str(&l[2], "Composer").as_deref(), Some("Handel"));
    assert_eq!(leaf_str(&l[0], "Title").as_deref(), Some("Aria"));
    assert!(!update_bookmark_in_itm(&mut m, Some("BM-9"), &u));
    assert!(!update_bookmark_in_itm(&mut m, None, &u));
    assert!(!update_bookmark_in_itm(&mut m, Some("BM-1"), &ItmBookmarkUpdate::new()));
}

#[test]
fn bookmark_removal_takes_exactly_one() {
    let mut m = score_mirror();
    assert!(delete_bookmark_from_itm(&mut m, Some("BM-1")));
    let l = list(&m, "bookmarks");
    assert_eq!(l.len(), 3);
    assert_eq!(leaf_str(&l[1], "Identifier").as_deref(), Some("BM-2"));
    assert!(!delete_bookmark_from_itm(&mut m, Some("BM-1")));
    assert!(!delete_bookmark_from_itm(&mut m, None));
    assert_eq!(list(&m, "bookmarks").len(), 3);
}

#[test]
fn composer_rename_reaches_score_and_bookmarks() {
    let mut m = score_mirror();
    let (own, bms) = rename_composer_in_itm(&mut m, "J Bach", "Johann Bach");
    assert!(own);
    assert_eq!(bms, 2);
    assert!(matches!(field(&m, "composer"), Field::Str(t) if t == "Johann Bach"));
    let l = list(&m, "bookmarks");
    assert_eq!(leaf_str(&l[0], "Composer").as_deref(), Some("Johann Bach"));
    assert_eq!(leaf_str(&l[2], "Composer").as_deref(), Some("Handel"));
    assert_eq!(leaf_str(&l[3], "Composer").as_deref(), Some("Johann Bach"));
    let (own, bms) = rename_composer_in_itm(&mut m, "J Bach", "Johann Bach");
    assert!(!own);
    assert_eq!(bms, 0);
}

fn recital() -> Dict<Field<Raw>> {
    create_setlist_file("Recital")
}

fn sonata() -> SetlistItem {
    SetlistItem {
        file_path: "/a/b.pdf".to_string(),
        title: "Sonata".to_string(),
        identifier: "TOKEN-1".to_string(),
        is_bookmark: false,
        first_page: None,
        last_page: None,
    }
}

#[test]
fn new_setlist_mirror_has_its_fields() {
    let m = recital();
    assert_eq!(keys(&m), vec!["title", "items", "menuIndex", "kRecoverableDestination", "kRecoverablePaddedKeys"]);
    assert!(matches!(field(&m, "title"), Field::Str(t) if t == "Recital"));
    assert!(list(&m, "items").is_empty());
    assert!(matches!(field(&m, "kRecoverableDestination"), Field::Int(4)));
    let padded: Vec<String> = list(&m, "kRecoverablePaddedKeys")
        .iter()
        .map(|e| match e {
            Element::Str(t) => t.clone(),
            _ => panic!(),
        })
        .collect();
    assert_eq!(padded, vec!["items", "lastPlayed", "library", "menuIndex", "title"]);
}

#[test]
fn adding_a_score_appends_one_entry() {
    let mut m = recital();
    assert!(add_item_to_setlist_file(&mut m, &sonata()));
    let l = list(&m, "items");
    assert_eq!(l.len(), 1);
    assert_eq!(leaf_str(&l[0], "FilePath").as_deref(), Some("/a/b.pdf"));
    assert_eq!(leaf_str(&l[0], "Title").as_deref(), Some("Sonata"));
    assert_eq!(leaf_str(&l[0], "Identifier").as_deref(), Some("TOKEN-1"));
    assert!(leaf(&l[0], "Bookmark").is_none());
    assert!(!add_item_to_setlist_file(&mut m, &sonata()));
    assert_eq!(list(&m, "items").len(), 1);
}

#[test]
fn adding_a_bookmark_writes_its_pages() {
    let mut m: Dict<Field<Raw>> = Dict::new();
    let bm = SetlistItem {
        file_path: "/a/b.pdf".to_string(),
        title: "Aria".to_string(),
        identifier: "TOKEN-2".to_string(),
        is_bookmark: true,
        first_page: Some(12),
        last_page: Some(-3),
    };
    assert!(add_item_to_setlist_file(&mut m, &bm));
    let l = list(&m, "items");
    assert_eq!(leaf_str(&l[0], "Bookmark").as_deref(), Some("YES"));
    assert_eq!(leaf_str(&l[0], "First Page").as_deref(), Some("12"));
    assert_eq!(leaf_str(&l[0], "Last Page").as_deref(), Some("-3"));
}

#[test]
fn removing_an_item_by_token() {
    let mut m = recital();
    add_item_to_setlist_file(&mut m, &sonata());
    assert!(!remove_item_from_setlist_file(&mut m, "OTHER"));
    assert!(remove_item_from_setlist_file(&mut m, "TOKEN-1"));
    assert!(list(&m, "items").is_empty());
}

#[test]
fn rebuilding_replaces_the_list_in_order() {
    let mut m = recital();
    add_item_to_setlist_file(&mut m, &sonata());
    let mut second = sonata();
    second.identifier = "TOKEN-0".to_string();
    second.title = "Prelude".to_string();
    reorder_setlist_file(&mut m, &vec![second, sonata()]);
    let l = list(&m, "items");
    assert_eq!(l.len(), 2);
    assert_eq!(leaf_str(&l[0], "Identifier").as_deref(), Some("TOKEN-0"));
    assert_eq!(leaf_str(&l[1], "Identifier").as_deref(), Some("TOKEN-1"));
    assert_eq!(keys(&m)[1], "items");
}

#[test]
fn renaming_a_setlist_sets_its_title_and_folders() {
    let mut m = recital();
    retitle_setlist_file(&mut m, "Concert");
    assert!(matches!(field(&m, "title"), Field::Str(t) if t == "Concert"));
    let mut folder: Dict<Field<Raw>> = Dict {
        entries: vec![(
            "setlists".to_string(),
            Field::List(vec![Element::Str("Gig".to_string()), Element::Str("Recital".to_string())]),
        )],
    };
    assert!(rename_setlist_in_folder(&mut folder, "Recital", "Concert"));
    assert!(matches!(&list(&folder, "setlists")[1], Element::Str(t) if t == "Concert"));
    assert!(!rename_setlist_in_folder(&mut folder, "Recital", "Concert"));
}
