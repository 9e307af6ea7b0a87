use forscore_sync::error::ForScoreError;
use forscore_sync::models::{Library, Score, Setlist};
use forscore_sync::resolve::{parse_identifier, resolve_library, resolve_score, resolve_setlist};

fn score(id: i64, path: &str, title: &str) -> Score {
    Score {
        id,
        path: path.to_string(),
        title: title.to_string(),
        sort_title: None,
        uuid: None,
        rating: None,
        difficulty: None,
        key: None,
        bpm: None,
        start_page: None,
        end_page: None,
        composers: vec![],
        genres: vec![],
        keywords: vec![],
        labels: vec![],
    }
}

fn setlist(id: i64, title: &str) -> Setlist {
    Setlist { id, title: title.to_string(), uuid: None, score_count: 0 }
}

fn library() -> Vec<Score> {
    vec![
        score(12, "a/sonata.pdf", "Sonata Op. 12"),
        score(7, "b/etude.pdf", "Etude 12"),
        score(3, "c/prelude.pdf", "Prelude in C"),
        score(4, "d/prelude2.pdf", "Prelude in D"),
    ]
}

#[test]
fn numeric_identifier_resolves_as_id_first() {
    let scores = library();
    // "12" is also part of two titles; the id wins.
    assert_eq!(resolve_score(&scores, "12"), Ok(0));
    assert_eq!(resolve_score(&scores, "7"), Ok(1));
}

#[test]
fn exact_path_resolves() {
    assert_eq!(resolve_score(&library(), "c/prelude.pdf"), Ok(2));
}

#[test]
fn title_matches_without_case() {
    assert_eq!(resolve_score(&library(), "prelude IN d"), Ok(3));
}

#[test]
fn shared_part_is_ambiguous() {
    match resolve_score(&library(), "Prelude") {
        Err(ForScoreError::AmbiguousIdentifier(t)) => assert_eq!(t, "Prelude"),
        other => panic!("gave {:?}", other),
    }
}

#[test]
fn unique_part_resolves() {
    assert_eq!(resolve_score(&library(), "etu"), Ok(1));
    assert_eq!(resolve_score(&library(), "op. 1"), Ok(0));
}

#[test]
fn unknown_identifier_is_not_found() {
    match resolve_score(&library(), "Nocturne") {
        Err(ForScoreError::ScoreNotFound(t)) => assert_eq!(t, "Nocturne"),
        other => panic!("gave {:?}", other),
    }
    // an id that names no score falls through to the titles
    match resolve_score(&library(), "99") {
        Err(ForScoreError::ScoreNotFound(t)) => assert_eq!(t, "99"),
        other => panic!("gave {:?}", other),
    }
}

#[test]
fn setlists_and_libraries_resolve_by_name() {
    let sls = vec![setlist(1, "Recital"), setlist(2, "Recital Encore"), setlist(3, "Gig")];
    assert_eq!(resolve_setlist(&sls, "Recital"), Ok(0));
    assert_eq!(resolve_setlist(&sls, "recital encore"), Ok(1));
    assert_eq!(resolve_setlist(&sls, "3"), Ok(2));
    assert!(matches!(resolve_setlist(&sls, "Rec"), Err(ForScoreError::AmbiguousIdentifier(_))));
    assert!(matches!(resolve_setlist(&sls, "Jazz"), Err(ForScoreError::SetlistNotFound(_))));
    let libs = vec![Library { id: 5, title: "Piano".to_string(), score_count: 2 }];
    assert_eq!(resolve_library(&libs, "pia"), Ok(0));
    assert!(matches!(resolve_library(&libs, "Violin"), Err(ForScoreError::LibraryNotFound(_))));
}

#[test]
fn identifiers_read_as_i64() {
    assert_eq!(parse_identifier("42"), Some(42));
    assert_eq!(parse_identifier("+42"), Some(42));
    assert_eq!(parse_identifier("-3"), Some(-3));
    assert_eq!(parse_identifier("9223372036854775807"), Some(i64::MAX));
    assert_eq!(parse_identifier("-9223372036854775808"), Some(i64::MIN));
    for bad in ["", "+", "-", "12a", " 1", "9223372036854775808", "1.5", "١"] {
        assert_eq!(parse_identifier(bad), None, "{}", bad);
    }
}
