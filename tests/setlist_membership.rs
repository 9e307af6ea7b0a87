use forscore_sync::error::ForScoreError;
use forscore_sync::membership::{add_member, remove_member, reorder_members, setlist_items, ItemRow, Member};
use forscore_sync::models::{BOOKMARK, SCORE};

fn member(item: i64, token: &str) -> Member {
    Member { item, entity: SCORE, token: token.to_string() }
}

fn members() -> Vec<Member> {
    vec![member(10, "T-A"), member(20, "T-B"), member(30, "T-C"), member(40, "T-D")]
}

fn order(ms: &[Member]) -> Vec<(i64, String)> {
    ms.iter().map(|m| (m.item, m.token.clone())).collect()
}

#[test]
fn reorder_to_current_position_changes_nothing() {
    let ms = members();
    for (k, m) in ms.iter().enumerate() {
        let after = reorder_members(&ms, m.item, k + 1).unwrap();
        assert_eq!(order(&after), order(&ms));
    }
}

#[test]
fn reorder_moves_and_keeps_tokens() {
    let ms = members();
    let after = reorder_members(&ms, 40, 1).unwrap();
    assert_eq!(
        order(&after),
        vec![
            (40, "T-D".to_string()),
            (10, "T-A".to_string()),
            (20, "T-B".to_string()),
            (30, "T-C".to_string())
        ]
    );
    let after = reorder_members(&ms, 10, 3).unwrap();
    assert_eq!(
        order(&after),
        vec![
            (20, "T-B".to_string()),
            (30, "T-C".to_string()),
            (10, "T-A".to_string()),
            (40, "T-D".to_string())
        ]
    );
}

#[test]
fn reorder_position_is_clamped() {
    let ms = members();
    let last = reorder_members(&ms, 20, 99).unwrap();
    assert_eq!(last.iter().map(|m| m.item).collect::<Vec<_>>(), vec![10, 30, 40, 20]);
    let first = reorder_members(&ms, 30, 0).unwrap();
    assert_eq!(first.iter().map(|m| m.item).collect::<Vec<_>>(), vec![30, 10, 20, 40]);
}

#[test]
fn reorder_of_non_member_is_refused() {
    assert_eq!(reorder_members(&members(), 77, 1).unwrap_err(), ForScoreError::NotInSetlist(77));
}

#[test]
fn add_is_a_no_op_for_a_member() {
    assert!(add_member(&members(), 20, SCORE, None).is_none());
}

#[test]
fn add_reuses_a_known_token() {
    let m = add_member(&members(), 50, BOOKMARK, Some("KNOWN".to_string())).unwrap();
    assert_eq!((m.item, m.entity, m.token.as_str()), (50, BOOKMARK, "KNOWN"));
}

#[test]
fn add_mints_a_fresh_token() {
    let a = add_member(&members(), 50, SCORE, None).unwrap();
    let b = add_member(&members(), 50, SCORE, None).unwrap();
    assert_eq!(a.token.len(), 36);
    let chars: Vec<char> = a.token.chars().collect();
    for (i, c) in chars.iter().enumerate() {
        if [8, 13, 18, 23].contains(&i) {
            assert_eq!(*c, '-');
        } else {
            assert!(c.is_ascii_hexdigit() && !c.is_ascii_lowercase());
        }
    }
    assert_eq!(chars[14], '4');
    assert_ne!(a.token, b.token);
}

#[test]
fn remove_takes_out_the_link_and_gives_its_token() {
    let (rows, gone) = remove_member(&members(), 30);
    assert_eq!(gone.unwrap().token, "T-C");
    assert_eq!(rows.iter().map(|m| m.item).collect::<Vec<_>>(), vec![10, 20, 40]);
    let (rows, gone) = remove_member(&members(), 31);
    assert!(gone.is_none());
    assert_eq!(rows.len(), 4);
}

#[test]
fn mirror_items_carry_link_tokens() {
    let ms = vec![member(1, "LINK-1"), Member { item: 2, entity: BOOKMARK, token: "LINK-2".to_string() }];
    let rows = vec![
        ItemRow { path: "/a/b.pdf".to_string(), title: "Sonata".to_string(), start_page: Some(1), end_page: Some(3) },
        ItemRow { path: "/a/c.pdf".to_string(), title: "Aria".to_string(), start_page: Some(4), end_page: None },
    ];
    let items = setlist_items(&ms, &rows);
    assert_eq!(items[0].identifier, "LINK-1");
    assert!(!items[0].is_bookmark);
    assert_eq!(items[0].first_page, None);
    assert_eq!(items[1].identifier, "LINK-2");
    assert!(items[1].is_bookmark);
    assert_eq!((items[1].first_page, items[1].last_page), (Some(4), None));
}
