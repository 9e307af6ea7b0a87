//! The CSV exchange format: which columns an import reads and what each row
//! changes, and the row an export writes for a score.

use vstd::prelude::*;
use crate::edit::{lower_of, lowercase, EditPlan};
use crate::error::ForScoreError;
use crate::key::{parse_code, MusicalKey};
use crate::models::Score;
use crate::resolve::{parse_id, parse_identifier};
use crate::text::same_text;
use crate::text::{decimal, decimal_text, push_str};

verus! {

/// The positions of the columns an import reads; only `id` is required.
#[derive(Debug, Clone, Copy, PartialEq, Eq)]
pub struct CsvColumns {
    pub id: usize,
    pub title: Option<usize>,
    pub composer: Option<usize>,
    pub genre: Option<usize>,
    pub key: Option<usize>,
    pub rating: Option<usize>,
    pub difficulty: Option<usize>,
}

/// `r` is where the first header named `name` stands, if any.
pub open spec fn is_column(headers: Seq<String>, name: Seq<char>, r: Option<usize>) -> bool {
    match r {
        Some(i) => i < headers.len() && headers[i as int]@ == name && forall|j: int|
            0 <= j < i ==> headers[j]@ != name,
        None => forall|j: int| 0 <= j < headers.len() ==> headers[j]@ != name,
    }
}

fn column(headers: &Vec<String>, name: &str) -> (r: Option<usize>)
    ensures
        is_column(headers@, name@, r),
{
    let mut i: usize = 0;
    while i < headers.len()
        invariant
            i <= headers@.len(),
            forall|j: int| 0 <= j < i ==> headers@[j]@ != name@,
        decreases headers@.len() - i,
    {
        if same_text(headers[i].as_str(), name) {
            return Some(i);
        }
        i += 1;
    }
    None
}

/// Finds the columns of an import by their header names. Without an `id`
/// column the file is refused.
pub fn find_columns(headers: &Vec<String>) -> (r: Result<CsvColumns, ForScoreError>)
    ensures
        match r {
            Ok(c) => is_column(headers@, "id"@, Some(c.id)) && is_column(headers@, "title"@, c.title)
                && is_column(headers@, "composer"@, c.composer) && is_column(
                headers@,
                "genre"@,
                c.genre,
            ) && is_column(headers@, "key"@, c.key) && is_column(headers@, "rating"@, c.rating)
                && is_column(headers@, "difficulty"@, c.difficulty),
            Err(e) => e == ForScoreError::MissingIdColumn && is_column(headers@, "id"@, None),
        },
{
    let id = match column(headers, "id") {
        Some(i) => i,
        None => return Err(ForScoreError::MissingIdColumn),
    };
    Ok(
        CsvColumns {
            id,
            title: column(headers, "title"),
            composer: column(headers, "composer"),
            genre: column(headers, "genre"),
            key: column(headers, "key"),
            rating: column(headers, "rating"),
            difficulty: column(headers, "difficulty"),
        },
    )
}

/// What one imported row changes on the score with its id.
#[derive(Debug)]
pub struct ImportRow {
    pub id: i64,
    pub title: Option<String>,
    pub composer: Option<String>,
    pub genre: Option<String>,
    pub key_code: Option<i32>,
    pub rating: Option<i32>,
    pub difficulty: Option<i32>,
}

/// The cell of `record` at `col`, where the row has one.
pub open spec fn cell(record: Seq<String>, col: Option<usize>) -> Option<Seq<char>> {
    match col {
        Some(i) if i < record.len() => Some(record[i as int]@),
        _ => None,
    }
}

/// A text cell counts where it is not empty.
pub open spec fn text_value(c: Option<Seq<char>>) -> Option<Seq<char>> {
    match c {
        Some(t) if t.len() > 0 => Some(t),
        _ => None,
    }
}

/// A number cell counts where it reads as an integer within `[lo, hi]`.
pub open spec fn number_value(c: Option<Seq<char>>, lo: int, hi: int) -> Option<int> {
    match c {
        Some(t) => match parse_id(t) {
            Some(v) if lo <= v <= hi => Some(v),
            _ => None,
        },
        None => None,
    }
}

fn text_cell(record: &Vec<String>, col: Option<usize>) -> (r: Option<String>)
    ensures
        match text_value(cell(record@, col)) {
            Some(t) => r matches Some(s) && s@ == t,
            None => r is None,
        },
{
    match col {
        Some(i) => if i < record.len() && !record[i].as_str().is_empty() {
            Some(record[i].clone())
        } else {
            None
        },
        None => None,
    }
}

fn number_cell(record: &Vec<String>, col: Option<usize>, lo: i64, hi: i64) -> (r: Option<i32>)
    requires
        i32::MIN <= lo <= hi <= i32::MAX,
    ensures
        match number_value(cell(record@, col), lo as int, hi as int) {
            Some(v) => r == Some(v as i32),
            None => r is None,
        },
{
    match col {
        Some(i) => if i < record.len() {
            match parse_identifier(record[i].as_str()) {
                Some(v) => if lo <= v && v <= hi {
                    Some(v as i32)
                } else {
                    None
                },
                None => None,
            }
        } else {
            None
        },
        None => None,
    }
}

/// Reads one row of an import. A row whose id does not read as an integer
/// is skipped (`None`). Empty cells, key texts that are not keys, and ratings
/// or difficulties out of range leave their field alone.
pub fn import_row(cols: &CsvColumns, record: &Vec<String>) -> (r: Option<ImportRow>)
    ensures
        match cell(record@, Some(cols.id)) {
            Some(t) if parse_id(t) is Some => r matches Some(row) && row.id == parse_id(t).unwrap()
                && (match text_value(cell(record@, cols.title)) {
                Some(v) => row.title matches Some(s) && s@ == v,
                None => row.title is None,
            }) && (match text_value(cell(record@, cols.composer)) {
                Some(v) => row.composer matches Some(s) && s@ == v,
                None => row.composer is None,
            }) && (match text_value(cell(record@, cols.genre)) {
                Some(v) => row.genre matches Some(s) && s@ == v,
                None => row.genre is None,
            }) && (match text_value(cell(record@, cols.key)) {
                Some(v) if parse_code(v) is Some => row.key_code == Some(parse_code(v).unwrap() as i32),
                _ => row.key_code is None,
            }) && (match number_value(cell(record@, cols.rating), 1, 6) {
                Some(v) => row.rating == Some(v as i32),
                None => row.rating is None,
            }) && (match number_value(cell(record@, cols.difficulty), 1, 5) {
                Some(v) => row.difficulty == Some(v as i32),
                None => row.difficulty is None,
            }),
            _ => r is None,
        },
{
    if cols.id >= record.len() {
        return None;
    }
    let id = match parse_identifier(record[cols.id].as_str()) {
        Some(v) => v,
        None => return None,
    };
    let key_code = match text_cell(record, cols.key) {
        Some(k) => match MusicalKey::from_string(k.as_str()) {
            Ok(key) => Some(key.code),
            Err(_) => None,
        },
        None => None,
    };
    Some(
        ImportRow {
            id,
            title: text_cell(record, cols.title),
            composer: text_cell(record, cols.composer),
            genre: text_cell(record, cols.genre),
            key_code,
            rating: number_cell(record, cols.rating, 1, 6),
            difficulty: number_cell(record, cols.difficulty, 1, 5),
        },
    )
}

/// The values to write for an imported row: its fields, and the sort title
/// that goes with a new title.
pub fn import_plan(row: ImportRow) -> (p: EditPlan)
    ensures
        p.title == row.title,
        p.composer == row.composer,
        p.genre == row.genre,
        p.key_code == row.key_code,
        p.rating == row.rating,
        p.difficulty == row.difficulty,
        match row.title {
            Some(t) => p.sort_title matches Some(s) && s@ == lower_of(t@),
            None => p.sort_title is None,
        },
{
    let sort_title = match &row.title {
        Some(t) => Some(lowercase(t.as_str())),
        None => None,
    };
    EditPlan {
        title: row.title,
        sort_title,
        composer: row.composer,
        genre: row.genre,
        key_code: row.key_code,
        rating: row.rating,
        difficulty: row.difficulty,
    }
}

/// The texts of `parts` joined by `"; "`.
pub open spec fn joined_list(parts: Seq<String>) -> Seq<char>
    decreases parts.len(),
{
    if parts.len() == 0 {
        Seq::empty()
    } else if parts.len() == 1 {
        parts[0]@
    } else {
        joined_list(parts.drop_last()) + "; "@ + parts.last()@
    }
}

fn join_list(parts: &Vec<String>) -> (r: String)
    ensures
        r@ == joined_list(parts@),
{
    let mut out = String::new();
    let mut i: usize = 0;
    while i < parts.len()
        invariant
            i <= parts@.len(),
            out@ == joined_list(parts@.subrange(0, i as int)),
        decreases parts@.len() - i,
    {
        assert(parts@.subrange(0, i + 1).drop_last() =~= parts@.subrange(0, i as int));
        if i > 0 {
            push_str(&mut out, "; ");
        } else {
            assert(out@ =~= Seq::<char>::empty());
        }
        push_str(&mut out, parts[i].as_str());
        i += 1;
        assert(out@ =~= joined_list(parts@.subrange(0, i as int)));
    }
    assert(parts@.subrange(0, i as int) =~= parts@);
    out
}

fn opt_decimal(v: Option<i32>) -> (r: String)
    ensures
        r@ == match v {
            Some(x) => decimal(x as int),
            None => Seq::<char>::empty(),
        },
{
    match v {
        Some(x) => decimal_text(x as i64),
        None => String::new(),
    }
}

/// The header row of an export.
pub fn export_header() -> (r: Vec<&'static str>)
    ensures
        r@.map_values(|h: &str| h@) == seq![
            "id"@,
            "path"@,
            "title"@,
            "composer"@,
            "genre"@,
            "key"@,
            "rating"@,
            "difficulty"@,
            "bpm"@,
            "keywords"@,
            "labels"@,
        ],
{
    let r = vec!["id", "path", "title", "composer", "genre", "key", "rating", "difficulty", "bpm", "keywords", "labels"];
    assert(r@.map_values(|h: &str| h@) =~= seq![
        "id"@,
        "path"@,
        "title"@,
        "composer"@,
        "genre"@,
        "key"@,
        "rating"@,
        "difficulty"@,
        "bpm"@,
        "keywords"@,
        "labels"@,
    ]);
    r
}

/// The row an export writes for a score: id, path, title, composers, genres,
/// key, rating, difficulty, tempo, keywords, labels. Lists are joined by
/// `"; "`; an unset value is an empty cell.
pub fn export_record(score: &Score) -> (r: Vec<String>)
    ensures
        r@.len() == 11,
        r@[0]@ == decimal(score.id as int),
        r@[1]@ == score.path@,
        r@[2]@ == score.title@,
        r@[3]@ == joined_list(score.composers@),
        r@[4]@ == joined_list(score.genres@),
        r@[5]@ == match score.key {
            Some(k) => k.shown(),
            None => Seq::<char>::empty(),
        },
        r@[6]@ == match score.rating {
            Some(x) => decimal(x as int),
            None => Seq::<char>::empty(),
        },
        r@[7]@ == match score.difficulty {
            Some(x) => decimal(x as int),
            None => Seq::<char>::empty(),
        },
        r@[8]@ == match score.bpm {
            Some(x) => decimal(x as int),
            None => Seq::<char>::empty(),
        },
        r@[9]@ == joined_list(score.keywords@),
        r@[10]@ == joined_list(score.labels@),
{
    let key = match &score.key {
        Some(k) => k.display(),
        None => String::new(),
    };
    let mut r: Vec<String> = Vec::new();
    r.push(decimal_text(score.id));
    r.push(score.path.clone());
    r.push(score.title.clone());
    r.push(join_list(&score.composers));
    r.push(join_list(&score.genres));
    r.push(key);
    r.push(opt_decimal(score.rating));
    r.push(opt_decimal(score.difficulty));
    r.push(opt_decimal(score.bpm));
    r.push(join_list(&score.keywords));
    r.push(join_list(&score.labels));
    r
}

} // verus!
