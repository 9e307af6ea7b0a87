//! Musical keys and their compact integer codes.
//!
//! A code is `note * 100 + sharp * 10 + mode`, with `note` in 1..=7 for the
//! letters C D E F G A B, `sharp` 0 or 1, and `mode` 0 for major, 1 for minor.

use vstd::prelude::*;
use crate::error::ForScoreError;
use crate::text::{
    chars_of, equals_folded, eq_folded, is_ws, split_words, string_of, trim, trim_bounds, upper,
    to_upper, words,
};

verus! {

/// A decoded key: its code and the two words it is shown with.
#[derive(Debug, Clone)]
pub struct MusicalKey {
    pub code: i32,
    pub note: String,
    pub mode: String,
}

/// `code` names a key: a note in 1..=7, a sharp digit and a mode digit of 0 or 1.
pub open spec fn valid_code(code: int) -> bool {
    &&& 100 <= code < 800
    &&& (code / 10) % 10 <= 1
    &&& code % 10 <= 1
}

pub open spec fn letter(n: int) -> char {
    if n == 1 {
        'C'
    } else if n == 2 {
        'D'
    } else if n == 3 {
        'E'
    } else if n == 4 {
        'F'
    } else if n == 5 {
        'G'
    } else if n == 6 {
        'A'
    } else {
        'B'
    }
}

/// The note word of a key: its letter, then `#` where it is sharp.
pub open spec fn note_name(n: int, sharp: int) -> Seq<char> {
    if sharp == 1 {
        seq![letter(n), '#']
    } else {
        seq![letter(n)]
    }
}

/// The mode word of a key.
pub open spec fn mode_name(m: int) -> Seq<char> {
    if m == 0 {
        seq!['M', 'a', 'j', 'o', 'r']
    } else {
        seq!['M', 'i', 'n', 'o', 'r']
    }
}

/// What a key is shown as: `"<note> <mode>"`.
pub open spec fn key_display(n: int, sharp: int, m: int) -> Seq<char> {
    note_name(n, sharp) + seq![' '] + mode_name(m)
}

/// The shown form of a valid code.
pub open spec fn code_display(code: int) -> Seq<char> {
    key_display(code / 100, (code / 10) % 10, code % 10)
}

/// The key a code stands for, or none where it is not a valid code.
pub open spec fn decode(code: int) -> Option<Seq<char>> {
    if valid_code(code) {
        Some(code_display(code))
    } else {
        None
    }
}

/// The note and sharp flag that a note word stands for, case-insensitively:
/// a letter from A to G, optionally followed by `#` or `♯`, or one of the flat
/// spellings Db, Eb, Gb, Ab, Bb (also with `♭`), which stand for the sharp of
/// the letter below.
pub open spec fn note_of(t: Seq<char>) -> Option<(int, int)> {
    if t.len() == 1 {
        let a = upper(t[0]);
        if a == 'C' {
            Some((1, 0))
        } else if a == 'D' {
            Some((2, 0))
        } else if a == 'E' {
            Some((3, 0))
        } else if a == 'F' {
            Some((4, 0))
        } else if a == 'G' {
            Some((5, 0))
        } else if a == 'A' {
            Some((6, 0))
        } else if a == 'B' {
            Some((7, 0))
        } else {
            None
        }
    } else if t.len() == 2 {
        let a = upper(t[0]);
        let b = upper(t[1]);
        if b == '#' || b == '♯' {
            if a == 'C' {
                Some((1, 1))
            } else if a == 'D' {
                Some((2, 1))
            } else if a == 'F' {
                Some((4, 1))
            } else if a == 'G' {
                Some((5, 1))
            } else if a == 'A' {
                Some((6, 1))
            } else {
                None
            }
        } else if b == 'B' || b == '♭' {
            if a == 'D' {
                Some((1, 1))
            } else if a == 'E' {
                Some((2, 1))
            } else if a == 'G' {
                Some((4, 1))
            } else if a == 'A' {
                Some((5, 1))
            } else if a == 'B' {
                Some((6, 1))
            } else {
                None
            }
        } else {
            None
        }
    } else {
        None
    }
}

/// The mode a mode word stands for, case-insensitively: Major or Maj is 0,
/// Minor or Min is 1.
pub open spec fn mode_of(t: Seq<char>) -> Option<int> {
    if eq_folded(t, seq!['m', 'a', 'j', 'o', 'r']) || eq_folded(t, seq!['m', 'a', 'j']) {
        Some(0)
    } else if eq_folded(t, seq!['m', 'i', 'n', 'o', 'r']) || eq_folded(t, seq!['m', 'i', 'n']) {
        Some(1)
    } else {
        None
    }
}

/// The code of a key text: exactly two words, a note word and a mode word.
pub open spec fn parse_code(s: Seq<char>) -> Option<int> {
    let w = words(s);
    if w.len() == 2 && note_of(w[0]) is Some && mode_of(w[1]) is Some {
        let (n, sharp) = note_of(w[0]).unwrap();
        Some(n * 100 + sharp * 10 + mode_of(w[1]).unwrap())
    } else {
        None
    }
}

/// The canonical form of a valid key text: the sharp spelling of its note and
/// the full name of its mode.
pub open spec fn canonical(s: Seq<char>) -> Seq<char> {
    let w = words(s);
    let (n, sharp) = note_of(w[0]).unwrap();
    key_display(n, sharp, mode_of(w[1]).unwrap())
}

fn letter_of(n: i32) -> (r: char)
    requires
        1 <= n <= 7,
    ensures
        r == letter(n as int),
{
    match n {
        1 => 'C',
        2 => 'D',
        3 => 'E',
        4 => 'F',
        5 => 'G',
        6 => 'A',
        _ => 'B',
    }
}

fn note_of_word(t: &Vec<char>) -> (r: Option<(i32, i32)>)
    ensures
        match note_of(t@) {
            Some(p) => r == Some((p.0 as i32, p.1 as i32)),
            None => r is None,
        },
{
    if t.len() == 1 {
        match to_upper(t[0]) {
            'C' => Some((1, 0)),
            'D' => Some((2, 0)),
            'E' => Some((3, 0)),
            'F' => Some((4, 0)),
            'G' => Some((5, 0)),
            'A' => Some((6, 0)),
            'B' => Some((7, 0)),
            _ => None,
        }
    } else if t.len() == 2 {
        let a = to_upper(t[0]);
        let b = to_upper(t[1]);
        if b == '#' || b == '♯' {
            match a {
                'C' => Some((1, 1)),
                'D' => Some((2, 1)),
                'F' => Some((4, 1)),
                'G' => Some((5, 1)),
                'A' => Some((6, 1)),
                _ => None,
            }
        } else if b == 'B' || b == '♭' {
            match a {
                'D' => Some((1, 1)),
                'E' => Some((2, 1)),
                'G' => Some((4, 1)),
                'A' => Some((5, 1)),
                'B' => Some((6, 1)),
                _ => None,
            }
        } else {
            None
        }
    } else {
        None
    }
}

fn mode_of_word(t: &Vec<char>) -> (r: Option<i32>)
    ensures
        match mode_of(t@) {
            Some(m) => r == Some(m as i32),
            None => r is None,
        },
{
    let major = vec!['m', 'a', 'j', 'o', 'r'];
    let maj = vec!['m', 'a', 'j'];
    let minor = vec!['m', 'i', 'n', 'o', 'r'];
    let min = vec!['m', 'i', 'n'];
    assert(major@ =~= seq!['m', 'a', 'j', 'o', 'r']);
    assert(maj@ =~= seq!['m', 'a', 'j']);
    assert(minor@ =~= seq!['m', 'i', 'n', 'o', 'r']);
    assert(min@ =~= seq!['m', 'i', 'n']);
    if equals_folded(t, &major) || equals_folded(t, &maj) {
        Some(0)
    } else if equals_folded(t, &minor) || equals_folded(t, &min) {
        Some(1)
    } else {
        None
    }
}

fn mode_text(m: i32) -> (r: String)
    requires
        0 <= m <= 1,
    ensures
        r@ == mode_name(m as int),
{
    let v = if m == 0 {
        vec!['M', 'a', 'j', 'o', 'r']
    } else {
        vec!['M', 'i', 'n', 'o', 'r']
    };
    assert(v@ =~= mode_name(m as int));
    string_of(&v)
}

fn note_text(n: i32, sharp: i32) -> (r: String)
    requires
        1 <= n <= 7,
        0 <= sharp <= 1,
    ensures
        r@ == note_name(n as int, sharp as int),
{
    let mut v: Vec<char> = Vec::new();
    v.push(letter_of(n));
    if sharp == 1 {
        v.push('#');
    }
    assert(v@ =~= note_name(n as int, sharp as int));
    string_of(&v)
}

impl MusicalKey {
    /// The key shown as `"<note> <mode>"`.
    pub open spec fn shown(&self) -> Seq<char> {
        self.note@ + seq![' '] + self.mode@
    }

    /// Decodes a key code; a code that names no key gives `None`.
    pub fn from_code(code: i32) -> (r: Option<MusicalKey>)
        ensures
            r is Some <==> valid_code(code as int),
            r is Some ==> r.unwrap().code == code && r.unwrap().note@ == note_name(
                code as int / 100,
                (code as int / 10) % 10,
            ) && r.unwrap().mode@ == mode_name(code as int % 10),
            r is Some ==> Some(r.unwrap().shown()) == decode(code as int),
    {
        if code < 100 || code >= 800 {
            return None;
        }
        let n = code / 100;
        let sharp = (code / 10) % 10;
        let m = code % 10;
        if sharp > 1 || m > 1 {
            return None;
        }
        let k = MusicalKey { code, note: note_text(n, sharp), mode: mode_text(m) };
        assert(k.shown() =~= code_display(code as int));
        Some(k)
    }

    /// Encodes a key text such as `"C Major"`, `"f# min"` or `"Bb Major"`.
    /// Any other text is refused with `InvalidKey`, which carries the text
    /// without its surrounding whitespace.
    pub fn from_string(s: &str) -> (r: Result<MusicalKey, ForScoreError>)
        ensures
            match parse_code(s@) {
                Some(c) => r is Ok && r.unwrap().code == c && r.unwrap().shown() == canonical(s@),
                None => r matches Err(ForScoreError::InvalidKey(t)) && t@ == trim(s@),
            },
    {
        let cs = chars_of(s);
        let w = split_words(&cs);
        if w.len() == 2 {
            let note = note_of_word(&w[0]);
            let mode = mode_of_word(&w[1]);
            if let (Some((n, sharp)), Some(m)) = (note, mode) {
                let code = n * 100 + sharp * 10 + m;
                let k = MusicalKey { code, note: note_text(n, sharp), mode: mode_text(m) };
                assert(k.shown() =~= canonical(s@));
                return Ok(k);
            }
        }
        let (i, j) = trim_bounds(&cs);
        let t = string_of(&slice_of(&cs, i, j));
        Err(ForScoreError::InvalidKey(t))
    }

    /// The key as it is shown: `"<note> <mode>"`.
    pub fn display(&self) -> (r: String)
        ensures
            r@ == self.shown(),
    {
        let mut out = self.note.clone();
        crate::text::push_char(&mut out, ' ');
        crate::text::push_str(&mut out, self.mode.as_str());
        assert(out@ =~= self.shown());
        out
    }
}

fn slice_of(v: &Vec<char>, from: usize, to: usize) -> (r: Vec<char>)
    requires
        from <= to <= v@.len(),
    ensures
        r@ == v@.subrange(from as int, to as int),
{
    let mut out: Vec<char> = Vec::new();
    let mut i = from;
    while i < to
        invariant
            from <= i <= to <= v@.len(),
            out@ == v@.subrange(from as int, i as int),
        decreases to - i,
    {
        out.push(v[i]);
        i += 1;
        assert(out@ =~= v@.subrange(from as int, i as int));
    }
    out
}

/// Decoding the encoding of a valid key text gives its canonical form.
pub proof fn lemma_key_round_trip(s: Seq<char>)
    requires
        parse_code(s) is Some,
    ensures
        decode(parse_code(s).unwrap()) == Some(canonical(s)),
{
    let w = words(s);
    let (n, sharp) = note_of(w[0]).unwrap();
    let m = mode_of(w[1]).unwrap();
    let c = n * 100 + sharp * 10 + m;
    assert(c / 100 == n);
    assert((c / 10) % 10 == sharp);
    assert(c % 10 == m);
}

} // verus!
