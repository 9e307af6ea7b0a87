use forscore_sync::error::ForScoreError;
use forscore_sync::metadata::{get_composer_by_name, get_or_create_composer, merge_composers, next_id, ComposerLink, GetOrCreate};
use forscore_sync::models::{core_data_timestamp, Composer};
use forscore_sync::paths::{encode_setlist_name, itm_path_for_score, setlist_file_path, truncate};

fn composers() -> Vec<Composer> {
    vec![
        Composer { id: 3, name: "J Bach".to_string(), score_count: 2 },
        Composer { id: 8, name: "Johann Bach".to_string(), score_count: 1 },
        Composer { id: 9, name: "Handel".to_string(), score_count: 1 },
    ]
}

fn link(item: i64, composer: i64) -> ComposerLink {
    ComposerLink { item, composer }
}

#[test]
fn merging_relinks_every_item_of_the_source() {
    let links = vec![link(100, 3), link(101, 8), link(102, 3), link(103, 9)];
    let p = merge_composers(&composers(), &links, "J Bach", "Johann Bach").unwrap();
    assert_eq!((p.source_id, p.target_id), (3, 8));
    assert_eq!(p.links, vec![link(100, 8), link(101, 8), link(102, 8), link(103, 9)]);
    assert_eq!(p.relinked, 2);
}

#[test]
fn merging_unknown_composers_is_refused() {
    let links = vec![link(100, 3)];
    assert_eq!(
        merge_composers(&composers(), &links, "JS Bach", "Johann Bach").unwrap_err(),
        ForScoreError::ComposerNotFound("JS Bach".to_string())
    );
    assert_eq!(
        merge_composers(&composers(), &links, "J Bach", "Bach").unwrap_err(),
        ForScoreError::ComposerNotFound("Bach".to_string())
    );
}

#[test]
fn composers_are_found_by_exact_name() {
    assert_eq!(get_composer_by_name(&composers(), "Handel"), Ok(2));
    assert!(get_composer_by_name(&composers(), "handel").is_err());
}

#[test]
fn get_or_create_allocates_past_the_largest_id() {
    let ids = vec![3, 41, 8, 9];
    assert_eq!(get_or_create_composer(&composers(), &ids, "Handel"), Ok(GetOrCreate::Existing(9)));
    assert_eq!(get_or_create_composer(&composers(), &ids, "Purcell"), Ok(GetOrCreate::Create(42)));
    assert_eq!(next_id(&vec![]), Ok(1));
    assert_eq!(next_id(&vec![-4]), Ok(1));
    assert_eq!(next_id(&vec![i64::MAX]), Err(ForScoreError::IdSpaceExhausted));
}

#[test]
fn setlist_names_are_percent_encoded() {
    assert_eq!(encode_setlist_name("Recital"), "Recital");
    assert_eq!(encode_setlist_name("Rock & Roll_2.0 -x"), "Rock %26 Roll_2.0 -x");
    assert_eq!(encode_setlist_name("Café/Bar"), "Caf%C3%A9%2FBar");
    assert_eq!(encode_setlist_name("♭𝄞"), "%E2%99%AD%F0%9D%84%9E");
}

#[test]
fn mirror_paths_join_the_sync_folder() {
    assert_eq!(setlist_file_path("/sync", "Recital"), "/sync/Recital.set");
    assert_eq!(setlist_file_path("/sync/", "A?"), "/sync/A%3F.set");
    assert_eq!(itm_path_for_score("/sync", "b.pdf"), "/sync/b.pdf.itm");
    assert_eq!(itm_path_for_score("/sync", "/a/b.pdf"), "/a/b.pdf.itm");
}

#[test]
fn long_cells_are_truncated() {
    assert_eq!(truncate("Sonata", 6), "Sonata");
    assert_eq!(truncate("Sonata", 4), "Son…");
    assert_eq!(truncate("Ää", 1), "…");
    assert_eq!(truncate("", 0), "");
}

#[test]
fn timestamps_count_from_2001() {
    assert_eq!(core_data_timestamp(978307200), 0);
    assert_eq!(core_data_timestamp(1_700_000_000), 721_692_800);
}

#[test]
fn open_links_are_url_encoded() {
    assert_eq!(forscore_sync::paths::open_url("a b/é~.pdf"), "forscore://open?path=a%20b%2F%C3%A9~.pdf");
}
