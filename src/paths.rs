//! Where the mirror files of scores and setlists live, and how a long text
//! is shortened for a table cell.

use vstd::prelude::*;
use vstd::utf8::{
    encode_scalar, has_width_1_encoding, has_width_2_encoding, has_width_3_encoding,
    last_continuation_byte, leading_byte_width_1, leading_byte_width_2, leading_byte_width_3,
    leading_byte_width_4, second_last_continuation_byte, third_last_continuation_byte,
};
use crate::text::{chars_of, push_char, push_str, string_of};

verus! {

/// Characters that a setlist's file name keeps as they are.
pub open spec fn name_keeps(c: char) -> bool {
    ('a' <= c && c <= 'z') || ('A' <= c && c <= 'Z') || ('0' <= c && c <= '9') || c == '-'
        || c == '_' || c == '.' || c == ' '
}

pub open spec fn hex_digit(n: int) -> char {
    if n < 10 {
        (n + '0' as int) as u8 as char
    } else {
        (n - 10 + 'A' as int) as u8 as char
    }
}

/// Each byte written as `%` and two upper-case hex digits.
pub open spec fn percent_bytes(b: Seq<u8>) -> Seq<char>
    decreases b.len(),
{
    if b.len() == 0 {
        Seq::empty()
    } else {
        percent_bytes(b.drop_last()) + seq![
            '%',
            hex_digit(b.last() as int / 16),
            hex_digit(b.last() as int % 16),
        ]
    }
}

/// One character of a setlist name as its file name writes it: kept, or its
/// UTF-8 bytes percent-encoded.
pub open spec fn encode_char(c: char) -> Seq<char> {
    if name_keeps(c) {
        seq![c]
    } else {
        percent_bytes(encode_scalar(c as u32))
    }
}

/// A setlist name made safe for a file name.
pub open spec fn encoded_name(s: Seq<char>) -> Seq<char>
    decreases s.len(),
{
    if s.len() == 0 {
        Seq::empty()
    } else {
        encoded_name(s.drop_last()) + encode_char(s.last())
    }
}

fn utf8_bytes(c: char) -> (r: Vec<u8>)
    ensures
        r@ == encode_scalar(c as u32),
{
    let v = c as u32;
    let mut r: Vec<u8> = Vec::new();
    if v <= 0x7F {
        r.push((v & 0x7F) as u8);
        assert(r@ =~= seq![leading_byte_width_1(v)]);
    } else if v <= 0x7FF {
        r.push(0xC0 | ((v >> 6) & 0x1F) as u8);
        r.push(0x80 | (v & 0x3F) as u8);
        assert(r@ =~= seq![leading_byte_width_2(v), last_continuation_byte(v)]);
    } else if v <= 0xFFFF && !(0xD800 <= v && v <= 0xDFFF) {
        r.push(0xE0 | ((v >> 12) & 0x0F) as u8);
        r.push(0x80 | ((v >> 6) & 0x3F) as u8);
        r.push(0x80 | (v & 0x3F) as u8);
        assert(r@ =~= seq![
            leading_byte_width_3(v),
            second_last_continuation_byte(v),
            last_continuation_byte(v),
        ]);
    } else {
        r.push(0xF0 | ((v >> 18) & 0x7) as u8);
        r.push(0x80 | ((v >> 12) & 0x3F) as u8);
        r.push(0x80 | ((v >> 6) & 0x3F) as u8);
        r.push(0x80 | (v & 0x3F) as u8);
        assert(!has_width_1_encoding(v) && !has_width_2_encoding(v) && !has_width_3_encoding(v));
        assert(r@ =~= seq![
            leading_byte_width_4(v),
            third_last_continuation_byte(v),
            second_last_continuation_byte(v),
            last_continuation_byte(v),
        ]);
    }
    r
}

fn hex_char(n: u8) -> (r: char)
    requires
        n < 16,
    ensures
        r == hex_digit(n as int),
{
    if n < 10 {
        (n + 48) as char
    } else {
        (n - 10 + 65) as char
    }
}

/// A setlist name made safe for a file name: ASCII letters and digits and
/// `- _ .` and space are kept; every other character becomes the
/// percent-encoding of its UTF-8 bytes.
pub fn encode_setlist_name(name: &str) -> (r: String)
    ensures
        r@ == encoded_name(name@),
{
    let cs = chars_of(name);
    let mut out: Vec<char> = Vec::new();
    let mut i: usize = 0;
    while i < cs.len()
        invariant
            i <= cs@.len(),
            cs@ == name@,
            out@ == encoded_name(cs@.subrange(0, i as int)),
        decreases cs@.len() - i,
    {
        let c = cs[i];
        let ghost pre = out@;
        assert(cs@.subrange(0, i + 1).drop_last() =~= cs@.subrange(0, i as int));
        if ('a' <= c && c <= 'z') || ('A' <= c && c <= 'Z') || ('0' <= c && c <= '9') || c == '-'
            || c == '_' || c == '.' || c == ' ' {
            out.push(c);
        } else {
            let bytes = utf8_bytes(c);
            let mut j: usize = 0;
            while j < bytes.len()
                invariant
                    j <= bytes@.len(),
                    bytes@ == encode_scalar(c as u32),
                    out@ == pre + percent_bytes(bytes@.subrange(0, j as int)),
                decreases bytes@.len() - j,
            {
                let b = bytes[j];
                out.push('%');
                out.push(hex_char(b / 16));
                out.push(hex_char(b % 16));
                assert(bytes@.subrange(0, j + 1).drop_last() =~= bytes@.subrange(0, j as int));
                j += 1;
                assert(out@ =~= pre + percent_bytes(bytes@.subrange(0, j as int)));
            }
            assert(bytes@.subrange(0, j as int) =~= bytes@);
        }
        i += 1;
        assert(out@ =~= encoded_name(cs@.subrange(0, i as int)));
    }
    assert(cs@.subrange(0, i as int) =~= cs@);
    string_of(&out)
}

/// Characters that URL encoding keeps as they are.
pub open spec fn url_keeps(c: char) -> bool {
    ('a' <= c && c <= 'z') || ('A' <= c && c <= 'Z') || ('0' <= c && c <= '9') || c == '-'
        || c == '.' || c == '_' || c == '~'
}

/// A text URL-encoded: kept characters as they are, every other character
/// as the percent-encoding of its UTF-8 bytes.
pub open spec fn url_encoded(s: Seq<char>) -> Seq<char>
    decreases s.len(),
{
    if s.len() == 0 {
        Seq::empty()
    } else {
        url_encoded(s.drop_last()) + if url_keeps(s.last()) {
            seq![s.last()]
        } else {
            percent_bytes(encode_scalar(s.last() as u32))
        }
    }
}

/// Relies on `urlencoding::encode`: ASCII letters, digits and `- . _ ~`
/// kept, every other byte of the UTF-8 form written as `%` and two
/// upper-case hex digits.
#[verifier::external_body]
fn url_encode(s: &str) -> (r: String)
    ensures
        r@ == url_encoded(s@),
{
    urlencoding::encode(s).into_owned()
}

/// The link that opens a document in the owning app.
pub fn open_url(path: &str) -> (r: String)
    ensures
        r@ == "forscore://open?path="@ + url_encoded(path@),
{
    let mut url = "forscore://open?path=".to_owned();
    push_str(&mut url, url_encode(path).as_str());
    url
}

/// A file name joined to a directory as `PathBuf::join` does: an absolute
/// name stands alone; otherwise one `/` separates the two.
pub open spec fn joined(dir: Seq<char>, file: Seq<char>) -> Seq<char> {
    if file.len() > 0 && file[0] == '/' {
        file
    } else if dir.len() == 0 || dir.last() == '/' {
        dir + file
    } else {
        dir + seq!['/'] + file
    }
}

fn join(dir: &str, file: &String) -> (r: String)
    ensures
        r@ == joined(dir@, file@),
{
    let d = chars_of(dir);
    let f = chars_of(file.as_str());
    if f.len() > 0 && f[0] == '/' {
        return string_of(&f);
    }
    let mut out = string_of(&d);
    if d.len() > 0 && d[d.len() - 1] != '/' {
        push_char(&mut out, '/');
    }
    push_str(&mut out, file.as_str());
    out
}

/// The mirror file of the score whose document is `pdf_path`, in the sync folder.
pub fn itm_path_for_score(sync_folder: &str, pdf_path: &str) -> (r: String)
    ensures
        r@ == joined(sync_folder@, pdf_path@ + ".itm"@),
{
    let mut name = pdf_path.to_owned();
    push_str(&mut name, ".itm");
    join(sync_folder, &name)
}

/// The mirror file of the setlist named `name`, in the sync folder.
pub fn setlist_file_path(sync_folder: &str, name: &str) -> (r: String)
    ensures
        r@ == joined(sync_folder@, encoded_name(name@) + ".set"@),
{
    let mut file = encode_setlist_name(name);
    push_str(&mut file, ".set");
    join(sync_folder, &file)
}

/// `s` cut to at most `max_len` characters; a cut text ends in `…`.
pub open spec fn truncated(s: Seq<char>, max_len: int) -> Seq<char> {
    if s.len() <= max_len {
        s
    } else {
        s.take(max_len - 1).push('…')
    }
}

/// Shortens `s` to at most `max_len` characters for a table cell.
pub fn truncate(s: &str, max_len: usize) -> (r: String)
    requires
        max_len >= 1 || s@.len() == 0,
    ensures
        r@ == truncated(s@, max_len as int),
{
    let cs = chars_of(s);
    if cs.len() <= max_len {
        return string_of(&cs);
    }
    let mut out: Vec<char> = Vec::new();
    let mut i: usize = 0;
    while i < max_len - 1
        invariant
            max_len >= 1,
            i <= max_len - 1 < cs@.len(),
            out@ == cs@.take(i as int),
        decreases max_len - 1 - i,
    {
        out.push(cs[i]);
        i += 1;
        assert(out@ =~= cs@.take(i as int));
    }
    out.push('…');
    string_of(&out)
}

} // verus!
