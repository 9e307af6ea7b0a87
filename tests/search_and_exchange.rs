use forscore_sync::error::ForScoreError;
use forscore_sync::exchange::{export_header, export_record, find_columns, import_row};
use forscore_sync::fixes::{find_duplicate_bookmarks, BookmarkRow, Duplicate};
use forscore_sync::key::MusicalKey;
use forscore_sync::models::Score;
use forscore_sync::search::{passes_filter, search_scores, SearchFilter};

fn score(id: i64, title: &str, composers: &[&str]) -> Score {
    Score {
        id,
        path: format!("{}.pdf", id),
        title: title.to_string(),
        sort_title: None,
        uuid: None,
        rating: None,
        difficulty: None,
        key: None,
        bpm: None,
        start_page: None,
        end_page: None,
        composers: composers.iter().map(|c| c.to_string()).collect(),
        genres: vec![],
        keywords: vec![],
        labels: vec![],
    }
}

fn filter() -> SearchFilter {
    SearchFilter {
        query: None,
        title: None,
        composer: None,
        genre: None,
        key: None,
        no_key: false,
        min_rating: None,
        no_rating: false,
        difficulty: None,
    }
}

fn strings(v: &[&str]) -> Vec<String> {
    v.iter().map(|s| s.to_string()).collect()
}

#[test]
fn query_words_match_in_order() {
    let s = score(1, "Prelude Op. 28 No. 4", &["Chopin"]);
    let mut f = filter();
    f.query = Some("op 28".to_string());
    assert!(passes_filter(&s, &f));
    f.query = Some("28 op".to_string());
    assert!(!passes_filter(&s, &f));
    f.query = Some("CHOP".to_string());
    assert!(passes_filter(&s, &f));
    f.query = Some("   ".to_string());
    assert!(passes_filter(&s, &f));
}

#[test]
fn predicates_combine_with_and() {
    let mut s = score(1, "Nocturne", &["Chopin", "Field"]);
    s.rating = Some(4);
    s.difficulty = Some(3);
    s.genres = strings(&["Romantic"]);
    s.key = MusicalKey::from_code(711);
    let mut f = filter();
    f.composer = Some("fiel".to_string());
    f.genre = Some("roman".to_string());
    f.min_rating = Some(4);
    f.difficulty = Some(3);
    f.key = Some(711);
    assert!(passes_filter(&s, &f));
    f.min_rating = Some(5);
    assert!(!passes_filter(&s, &f));
    f.min_rating = None;
    f.no_rating = true;
    assert!(!passes_filter(&s, &f));
    let mut g = filter();
    g.no_key = true;
    assert!(!passes_filter(&s, &g));
    s.key = None;
    assert!(passes_filter(&s, &g));
}

#[test]
fn search_keeps_order_and_limit() {
    let scores = vec![
        score(1, "Sonata in C", &[]),
        score(2, "Etude", &[]),
        score(3, "Sonata in D", &[]),
        score(4, "Sonatina", &[]),
    ];
    let mut f = filter();
    f.title = Some("sonat".to_string());
    assert_eq!(search_scores(&scores, &f, 10), vec![0, 2, 3]);
    assert_eq!(search_scores(&scores, &f, 2), vec![0, 2]);
    assert_eq!(search_scores(&scores, &f, 0), Vec::<usize>::new());
}

#[test]
fn import_reads_the_columns_it_knows() {
    let cols = find_columns(&strings(&["title", "id", "rating", "extra", "key", "difficulty"])).unwrap();
    assert_eq!(cols.id, 1);
    assert_eq!(cols.composer, None);
    let row = import_row(&cols, &strings(&["Sonata", "42", "7", "x", "Bb minor", "2"])).unwrap();
    assert_eq!(row.id, 42);
    assert_eq!(row.title.as_deref(), Some("Sonata"));
    assert_eq!(row.rating, None);
    assert_eq!(row.key_code, Some(611));
    assert_eq!(row.difficulty, Some(2));
    let row = import_row(&cols, &strings(&["", "42", "6", "x", "H minor"])).unwrap();
    assert_eq!(row.title, None);
    assert_eq!(row.rating, Some(6));
    assert_eq!(row.key_code, None);
    assert_eq!(row.difficulty, None);
    assert!(import_row(&cols, &strings(&["Sonata", "abc"])).is_none());
    assert_eq!(find_columns(&strings(&["title"])).unwrap_err(), ForScoreError::MissingIdColumn);
}

#[test]
fn export_writes_one_row_per_score() {
    let mut s = score(7, "Sonata", &["Bach", "Handel"]);
    s.key = MusicalKey::from_code(411);
    s.rating = Some(5);
    s.bpm = Some(120);
    s.labels = strings(&["red"]);
    assert_eq!(export_header().len(), 11);
    assert_eq!(
        export_record(&s),
        strings(&["7", "7.pdf", "Sonata", "Bach; Handel", "", "F# Minor", "5", "", "120", "", "red"])
    );
}

fn bm(id: i64, score: i64, title: Option<&str>, pages: (Option<i32>, Option<i32>)) -> BookmarkRow {
    BookmarkRow {
        id,
        score,
        title: title.map(|t| t.to_string()),
        path: Some("a.pdf".to_string()),
        uuid: None,
        start_page: pages.0,
        end_page: pages.1,
        score_title: Some("A".to_string()),
    }
}

#[test]
fn duplicates_point_at_the_oldest() {
    let rows = vec![
        bm(5, 1, Some("Aria"), (Some(1), Some(2))),
        bm(3, 1, Some("Aria"), (Some(1), Some(2))),
        bm(9, 1, Some("Aria"), (Some(1), Some(2))),
        bm(4, 2, Some("Aria"), (Some(1), Some(2))),
        bm(6, 1, Some("Aria"), (Some(1), Some(3))),
        bm(7, 1, None, (Some(1), Some(2))),
        bm(8, 1, None, (Some(1), Some(2))),
    ];
    assert_eq!(
        find_duplicate_bookmarks(&rows),
        vec![Duplicate { index: 0, original_id: 3 }, Duplicate { index: 2, original_id: 3 }]
    );
}
