//! The records the library works on, as the relational store holds them.

use vstd::prelude::*;
use crate::key::MusicalKey;

verus! {

/// The entity tags of the shared tables: each kind of row has its own.
pub const ITEM: i32 = 4;
pub const BOOKMARK: i32 = 5;
pub const SCORE: i32 = 6;
pub const LIBRARY: i32 = 7;
pub const META: i32 = 9;
pub const COMPOSER: i32 = 10;
pub const DIFFICULTY: i32 = 11;
pub const GENRE: i32 = 12;
pub const KEYWORD: i32 = 13;
pub const LABEL: i32 = 14;
pub const RATING: i32 = 15;
pub const PAGE: i32 = 16;
pub const SETLIST: i32 = 19;
pub const TRACK: i32 = 22;

/// Seconds from the Unix epoch to 2001-01-01, the epoch of the store's timestamps.
pub const CORE_DATA_EPOCH_OFFSET: i64 = 978307200;

/// A time in Unix seconds as the store writes it: seconds since 2001-01-01.
pub fn core_data_timestamp(unix_seconds: i64) -> (r: i64)
    requires
        unix_seconds >= i64::MIN + CORE_DATA_EPOCH_OFFSET,
    ensures
        r == unix_seconds - CORE_DATA_EPOCH_OFFSET,
{
    unix_seconds - CORE_DATA_EPOCH_OFFSET
}

/// A score: one document of the library.
#[derive(Debug, Clone)]
pub struct Score {
    pub id: i64,
    pub path: String,
    pub title: String,
    pub sort_title: Option<String>,
    pub uuid: Option<String>,
    pub rating: Option<i32>,
    pub difficulty: Option<i32>,
    pub key: Option<MusicalKey>,
    pub bpm: Option<i32>,
    pub start_page: Option<i32>,
    pub end_page: Option<i32>,
    pub composers: Vec<String>,
    pub genres: Vec<String>,
    pub keywords: Vec<String>,
    pub labels: Vec<String>,
}

/// A bookmark: a page range inside a score's document.
#[derive(Debug, Clone)]
pub struct Bookmark {
    pub id: i64,
    pub path: String,
    pub title: String,
    pub uuid: Option<String>,
    pub start_page: Option<i32>,
    pub end_page: Option<i32>,
    pub rating: Option<i32>,
    pub difficulty: Option<i32>,
    pub key: Option<MusicalKey>,
    pub composers: Vec<String>,
    pub genres: Vec<String>,
}

/// An ordered group of scores and bookmarks.
#[derive(Debug, Clone)]
pub struct Setlist {
    pub id: i64,
    pub title: String,
    pub uuid: Option<String>,
    pub score_count: i32,
}

/// A named, unordered group of scores.
#[derive(Debug, Clone)]
pub struct Library {
    pub id: i64,
    pub title: String,
    pub score_count: i32,
}

/// A composer value shared by the items that link to it.
#[derive(Debug, Clone)]
pub struct Composer {
    pub id: i64,
    pub name: String,
    pub score_count: i32,
}

/// A genre value shared by the items that link to it.
#[derive(Debug, Clone)]
pub struct Genre {
    pub id: i64,
    pub name: String,
    pub score_count: i32,
}

/// A keyword (tag) value shared by the items that link to it.
#[derive(Debug, Clone)]
pub struct Keyword {
    pub id: i64,
    pub name: String,
    pub score_count: i32,
}

} // verus!
