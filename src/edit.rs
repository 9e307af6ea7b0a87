//! Editing a score: checking a request, and the changes it makes in each store.
//!
//! A request is checked whole before anything is written, so a refused
//! request leaves the relational store and the mirror as they were.

use vstd::prelude::*;
use crate::error::ForScoreError;
use crate::key::{parse_code, MusicalKey};
use crate::mirror::ItmUpdate;
use crate::text::trim;

verus! {

/// What the case folding of `str::to_lowercase` gives for a text.
pub uninterp spec fn lower_of(s: Seq<char>) -> Seq<char>;

/// Relies on `str::to_lowercase`: the full Unicode lower-case form, which
/// depends on the characters alone; an empty text stays empty.
#[verifier::external_body]
pub(crate) fn lowercase(s: &str) -> (r: String)
    ensures
        r@ == lower_of(s@),
        s@.len() == 0 ==> r@.len() == 0,
{
    s.to_lowercase()
}

/// A rating is 1 to 6.
pub open spec fn rating_ok(r: int) -> bool {
    1 <= r <= 6
}

/// A difficulty is 1 to 5.
pub open spec fn difficulty_ok(d: int) -> bool {
    1 <= d <= 5
}

pub fn check_rating(r: i32) -> (res: Result<i32, ForScoreError>)
    ensures
        rating_ok(r as int) ==> res == Ok::<i32, ForScoreError>(r),
        !rating_ok(r as int) ==> res == Err::<i32, ForScoreError>(ForScoreError::InvalidRating(r)),
{
    if r < 1 || r > 6 {
        Err(ForScoreError::InvalidRating(r))
    } else {
        Ok(r)
    }
}

pub fn check_difficulty(d: i32) -> (res: Result<i32, ForScoreError>)
    ensures
        difficulty_ok(d as int) ==> res == Ok::<i32, ForScoreError>(d),
        !difficulty_ok(d as int) ==> res == Err::<i32, ForScoreError>(
            ForScoreError::InvalidDifficulty(d),
        ),
{
    if d < 1 || d > 5 {
        Err(ForScoreError::InvalidDifficulty(d))
    } else {
        Ok(d)
    }
}

/// The fields a user asks to change on a score; `None` leaves a field alone.
#[derive(Debug)]
pub struct EditRequest {
    pub title: Option<String>,
    pub composer: Option<String>,
    pub genre: Option<String>,
    pub key: Option<String>,
    pub rating: Option<i32>,
    pub difficulty: Option<i32>,
}

/// A checked request: the values to write, the key as its code, and the
/// sort title that goes with a new title.
#[derive(Debug)]
pub struct EditPlan {
    pub title: Option<String>,
    pub sort_title: Option<String>,
    pub composer: Option<String>,
    pub genre: Option<String>,
    pub key_code: Option<i32>,
    pub rating: Option<i32>,
    pub difficulty: Option<i32>,
}

/// Checks an edit request and turns it into the values to write.
pub fn plan_edit(req: &EditRequest) -> (r: Result<EditPlan, ForScoreError>)
    ensures
        match req.key {
            Some(k) if parse_code(k@) is None => r matches Err(ForScoreError::InvalidKey(t)) && t@
                == trim(k@),
            _ => match req.rating {
                Some(x) if !rating_ok(x as int) => r == Err::<EditPlan, ForScoreError>(
                    ForScoreError::InvalidRating(x),
                ),
                _ => match req.difficulty {
                    Some(d) if !difficulty_ok(d as int) => r == Err::<EditPlan, ForScoreError>(
                        ForScoreError::InvalidDifficulty(d),
                    ),
                    _ => r matches Ok(p) && p.title == req.title && p.composer == req.composer
                        && p.genre == req.genre && p.rating == req.rating && p.difficulty
                        == req.difficulty && match req.title {
                        Some(t) => p.sort_title matches Some(s) && s@ == lower_of(t@),
                        None => p.sort_title is None,
                    } && match req.key {
                        Some(k) => p.key_code == Some(parse_code(k@).unwrap() as i32),
                        None => p.key_code is None,
                    },
                },
            },
        },
{
    let key_code = match &req.key {
        Some(k) => match MusicalKey::from_string(k.as_str()) {
            Ok(key) => Some(key.code),
            Err(e) => return Err(e),
        },
        None => None,
    };
    let rating = match req.rating {
        Some(x) => match check_rating(x) {
            Ok(v) => Some(v),
            Err(e) => return Err(e),
        },
        None => None,
    };
    let difficulty = match req.difficulty {
        Some(d) => match check_difficulty(d) {
            Ok(v) => Some(v),
            Err(e) => return Err(e),
        },
        None => None,
    };
    let sort_title = match &req.title {
        Some(t) => Some(lowercase(t.as_str())),
        None => None,
    };
    Ok(
        EditPlan {
            title: req.title.clone(),
            sort_title,
            composer: req.composer.clone(),
            genre: req.genre.clone(),
            key_code,
            rating,
            difficulty,
        },
    )
}

fn widen(v: Option<i32>) -> (r: Option<i64>)
    ensures
        match v {
            Some(x) => r == Some(x as i64),
            None => r is None,
        },
{
    match v {
        Some(x) => Some(x as i64),
        None => None,
    }
}

/// The mirror changes that carry a checked edit to the score's mirror file.
pub fn itm_update_for(plan: &EditPlan) -> (u: ItmUpdate)
    ensures
        u.title == plan.title,
        u.composer == plan.composer,
        u.genre == plan.genre,
        u.key == match plan.key_code {
            Some(c) => Some(c as i64),
            None => None::<i64>,
        },
        u.rating == match plan.rating {
            Some(x) => Some(x as i64),
            None => None::<i64>,
        },
        u.difficulty == match plan.difficulty {
            Some(x) => Some(x as i64),
            None => None::<i64>,
        },
{
    ItmUpdate {
        title: plan.title.clone(),
        composer: plan.composer.clone(),
        genre: plan.genre.clone(),
        key: widen(plan.key_code),
        rating: widen(plan.rating),
        difficulty: widen(plan.difficulty),
    }
}

} // verus!
