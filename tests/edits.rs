use forscore_sync::edit::{check_difficulty, check_rating, itm_update_for, plan_edit, EditRequest};
use forscore_sync::error::ForScoreError;
use forscore_sync::orchestrate::{Action, Event, Mutation, Outcome};

fn request() -> EditRequest {
    EditRequest { title: None, composer: None, genre: None, key: None, rating: None, difficulty: None }
}

#[test]
fn ratings_and_difficulties_out_of_range_are_refused() {
    assert_eq!(check_rating(0), Err(ForScoreError::InvalidRating(0)));
    assert_eq!(check_rating(7), Err(ForScoreError::InvalidRating(7)));
    assert_eq!(check_rating(6), Ok(6));
    assert_eq!(check_rating(1), Ok(1));
    assert_eq!(check_difficulty(6), Err(ForScoreError::InvalidDifficulty(6)));
    assert_eq!(check_difficulty(0), Err(ForScoreError::InvalidDifficulty(0)));
    assert_eq!(check_difficulty(5), Ok(5));
}

#[test]
fn a_refused_request_plans_nothing() {
    let mut r = request();
    r.title = Some("New".to_string());
    r.rating = Some(9);
    assert_eq!(plan_edit(&r).unwrap_err(), ForScoreError::InvalidRating(9));
    r.rating = Some(3);
    r.difficulty = Some(-1);
    assert_eq!(plan_edit(&r).unwrap_err(), ForScoreError::InvalidDifficulty(-1));
    r.key = Some("H Major".to_string());
    assert_eq!(plan_edit(&r).unwrap_err(), ForScoreError::InvalidKey("H Major".to_string()));
}

#[test]
fn a_checked_request_becomes_a_plan() {
    let mut r = request();
    r.title = Some("Sonata ÄB".to_string());
    r.key = Some("Db major".to_string());
    r.rating = Some(6);
    r.composer = Some("Bach".to_string());
    let p = plan_edit(&r).unwrap();
    assert_eq!(p.title.as_deref(), Some("Sonata ÄB"));
    assert_eq!(p.sort_title.as_deref(), Some("sonata äb"));
    assert_eq!(p.key_code, Some(110));
    assert_eq!(p.rating, Some(6));
    assert_eq!(p.difficulty, None);
    let u = itm_update_for(&p);
    assert_eq!(u.key, Some(110));
    assert_eq!(u.rating, Some(6));
    assert_eq!(u.composer.as_deref(), Some("Bach"));
    assert!(u.genre.is_none());
}

#[test]
fn mirror_failure_after_store_write_is_a_warning() {
    let mut m = Mutation::new(false);
    assert!(matches!(m.step(Event::Checked(Ok(()))), Action::WriteStore));
    assert!(matches!(m.step(Event::StoreWritten), Action::WriteMirror));
    match m.step(Event::MirrorWriteFailed("disk full".to_string())) {
        Action::Finish(Ok(Outcome::MirrorFailed(why))) => assert_eq!(why, "disk full"),
        other => panic!("{:?}", other),
    }
}

#[test]
fn outcomes_of_a_mutation() {
    let mut m = Mutation::new(false);
    m.step(Event::Checked(Ok(())));
    m.step(Event::StoreWritten);
    assert!(matches!(m.step(Event::MirrorWritten), Action::Finish(Ok(Outcome::Full))));
    let mut m = Mutation::new(false);
    m.step(Event::Checked(Ok(())));
    m.step(Event::StoreWritten);
    assert!(matches!(m.step(Event::MirrorMissing), Action::Finish(Ok(Outcome::NoMirror))));
    let mut m = Mutation::new(false);
    m.step(Event::Checked(Ok(())));
    let e = ForScoreError::Other("locked".to_string());
    assert!(matches!(m.step(Event::StoreFailed(e.clone())), Action::Finish(Err(x)) if x == e));
    assert!(matches!(m.step(Event::StoreWritten), Action::Finish(Err(ForScoreError::OutOfOrder))));
}

#[test]
fn refusal_and_preview_write_nothing() {
    let mut m = Mutation::new(false);
    let a = m.step(Event::Checked(Err(ForScoreError::InvalidRating(8))));
    assert!(matches!(a, Action::Finish(Err(ForScoreError::InvalidRating(8)))));
    assert!(!matches!(m.step(Event::StoreWritten), Action::WriteStore | Action::WriteMirror));
    let mut p = Mutation::new(true);
    assert!(matches!(p.step(Event::Checked(Ok(()))), Action::Finish(Ok(Outcome::Previewed))));
}
