use forscore_sync::dict::Dict;
use forscore_sync::membership::{add_member, setlist_items, ItemRow, Member};
use forscore_sync::metadata::{merge_composers, ComposerLink};
use forscore_sync::mirror::{add_item_to_setlist_file, create_setlist_file, rename_composer_in_itm, Element, Field, Leaf};
use forscore_sync::models::{Composer, SCORE};
use forscore_sync::paths::setlist_file_path;

fn text<'a>(e: &'a Element<()>, k: &str) -> Option<&'a str> {
    match e {
        Element::Dict(d) => d.entries.iter().find(|p| p.0 == k).and_then(|p| match &p.1 {
            Leaf::Str(s) => Some(s.as_str()),
            _ => None,
        }),
        _ => None,
    }
}

#[test]
fn adding_a_score_to_a_setlist_end_to_end() {
    let members: Vec<Member> = vec![];
    let link = add_member(&members, 77, SCORE, None).unwrap();
    assert_eq!(link.token.len(), 36);
    let rows = vec![ItemRow { path: "/a/b.pdf".to_string(), title: "Sonata".to_string(), start_page: None, end_page: None }];
    let token = link.token.clone();
    let items = setlist_items(&vec![link], &rows);
    assert_eq!(setlist_file_path("/sync", "Recital"), "/sync/Recital.set");
    let mut mirror = create_setlist_file::<()>("Recital");
    assert!(add_item_to_setlist_file(&mut mirror, &items[0]));
    let list = match &mirror.entries.iter().find(|e| e.0 == "items").unwrap().1 {
        Field::List(l) => l,
        _ => panic!(),
    };
    assert_eq!(list.len(), 1);
    assert_eq!(text(&list[0], "FilePath"), Some("/a/b.pdf"));
    assert_eq!(text(&list[0], "Title"), Some("Sonata"));
    assert_eq!(text(&list[0], "Identifier"), Some(token.as_str()));

    // a token the score carries elsewhere is reused
    let again = add_member(&members, 77, SCORE, Some(token.clone())).unwrap();
    assert_eq!(again.token, token);
}

#[test]
fn merging_composers_end_to_end() {
    let composers = vec![
        Composer { id: 1, name: "J Bach".to_string(), score_count: 2 },
        Composer { id: 2, name: "Johann Bach".to_string(), score_count: 1 },
    ];
    let links = vec![
        ComposerLink { item: 10, composer: 1 },
        ComposerLink { item: 11, composer: 2 },
        ComposerLink { item: 12, composer: 1 },
    ];
    let plan = merge_composers(&composers, &links, "J Bach", "Johann Bach").unwrap();
    assert!(plan.links.iter().all(|l| l.composer == 2));
    assert_eq!(plan.source_id, 1);
    assert_eq!(plan.relinked, 2);

    let mut scores_touched = 0;
    for _ in [10, 12] {
        let mut mirror: Dict<Field<()>> = Dict {
            entries: vec![("composer".to_string(), Field::Str("J Bach".to_string()))],
        };
        let (own, bookmarks) = rename_composer_in_itm(&mut mirror, "J Bach", "Johann Bach");
        assert_eq!(bookmarks, 0);
        if own {
            scores_touched += 1;
        }
        assert!(matches!(&mirror.entries[0].1, Field::Str(s) if s == "Johann Bach"));
    }
    assert_eq!(scores_touched, plan.relinked);
}
