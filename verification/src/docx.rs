//! The text of a word processor document: one member of a zip archive, inflated
//! and stripped of its markup.

use crate::json::{blank, hex_value, is_digit};
use crate::text::{chars_of, same, starts_with};
use vstd::prelude::*;

verus! {

/// What raw deflate data inflates to; `None` where it is no such data.
pub uninterp spec fn inflated(data: Seq<u8>) -> Option<Seq<u8>>;

/// The text that bytes hold as UTF-8, with a replacement character for what is
/// not valid.
pub uninterp spec fn lossy_text(data: Seq<u8>) -> Seq<char>;

/// Calls `miniz_oxide::inflate::decompress_to_vec`, which inflates raw deflate
/// data and fails on any other. The result is a function of the bytes alone, and
/// is named. The output is not bounded.
#[verifier::external_body]
fn inflate(data: &Vec<u8>) -> (out: Option<Vec<u8>>)
    ensures
        match out {
            Some(v) => inflated(data@) == Some(v@),
            None => inflated(data@) is None,
        },
{
    miniz_oxide::inflate::decompress_to_vec(data.as_slice()).ok()
}

/// Calls `String::from_utf8_lossy`, which decodes UTF-8 and puts a replacement
/// character for what is not valid. The result is a function of the bytes alone,
/// and is named.
#[verifier::external_body]
pub(crate) fn decode_lossy(data: &Vec<u8>) -> (out: String)
    ensures
        out@ == lossy_text(data@),
{
    String::from_utf8_lossy(data.as_slice()).into_owned()
}

// ----------------------------------------------------------------------------- bytes

/// The little endian number in the two bytes at `i`.
pub open spec fn le16(d: Seq<u8>, i: int) -> int {
    d[i] + 256 * d[i + 1]
}

/// The little endian number in the four bytes at `i`.
pub open spec fn le32(d: Seq<u8>, i: int) -> int {
    d[i] + 256 * d[i + 1] + 65536 * d[i + 2] + 16777216 * d[i + 3]
}

/// Whether the four bytes at `i` are `P`, `K` and the two given.
pub open spec fn signature_at(d: Seq<u8>, i: int, a: u8, b: u8) -> bool {
    d[i] == 0x50 && d[i + 1] == 0x4b && d[i + 2] == a && d[i + 3] == b
}

fn read16(d: &Vec<u8>, i: usize) -> (out: usize)
    requires
        i + 2 <= d.len(),
    ensures
        out == le16(d@, i as int),
        out < 65536,
{
    d[i] as usize + 256 * (d[i + 1] as usize)
}

fn read32(d: &Vec<u8>, i: usize) -> (out: u64)
    requires
        i + 4 <= d.len(),
    ensures
        out == le32(d@, i as int),
        out < 0x1_0000_0000,
{
    d[i] as u64 + 256 * (d[i + 1] as u64) + 65536 * (d[i + 2] as u64) + 16777216 * (d[i
        + 3] as u64)
}

fn has_signature(d: &Vec<u8>, i: usize, a: u8, b: u8) -> (out: bool)
    requires
        i + 4 <= d.len(),
    ensures
        out == signature_at(d@, i as int, a, b),
{
    d[i] == 0x50 && d[i + 1] == 0x4b && d[i + 2] == a && d[i + 3] == b
}

/// The lower case of an ASCII letter; every other byte is kept.
pub open spec fn lower_byte(b: u8) -> u8 {
    if 0x41 <= b <= 0x5a {
        (b + 32) as u8
    } else {
        b
    }
}

/// Whether two byte strings are the same but for the case of ASCII letters.
pub open spec fn same_name(a: Seq<u8>, b: Seq<u8>) -> bool {
    a.len() == b.len() && forall|i: int|
        0 <= i < a.len() ==> lower_byte(#[trigger] a[i]) == lower_byte(b[i])
}

fn to_lower_byte(b: u8) -> (out: u8)
    ensures
        out == lower_byte(b),
{
    if 0x41 <= b && b <= 0x5a {
        b + 32
    } else {
        b
    }
}

fn is_same_name(d: &Vec<u8>, from: usize, n: usize, want: &Vec<u8>) -> (out: bool)
    requires
        from + n <= d@.len(),
    ensures
        out == same_name(d@.subrange(from as int, from + n), want@),
{
    if n != want.len() {
        return false;
    }
    let mut i: usize = 0;
    let ghost a = d@.subrange(from as int, from + n);
    while i < n
        invariant
            i <= n,
            n == want@.len(),
            from + n <= d.len(),
            a == d@.subrange(from as int, from + n),
            forall|k: int| 0 <= k < i ==> lower_byte(#[trigger] a[k]) == lower_byte(want@[k]),
        decreases n - i,
    {
        assert(a[i as int] == d@[from + i]);
        if to_lower_byte(d[from + i]) != to_lower_byte(want[i]) {
            return false;
        }
        i += 1;
    }
    true
}

fn copy_bytes(d: &Vec<u8>, from: usize, to: usize) -> (out: Vec<u8>)
    requires
        from <= to <= d@.len(),
    ensures
        out@ == d@.subrange(from as int, to as int),
{
    let mut out: Vec<u8> = Vec::new();
    let mut i: usize = from;
    while i < to
        invariant
            from <= i <= to <= d@.len(),
            out@ == d@.subrange(from as int, i as int),
        decreases to - i,
    {
        out.push(d[i]);
        i += 1;
        assert(d@.subrange(from as int, i as int) =~= d@.subrange(from as int, i - 1).push(
            d@[i - 1],
        ));
    }
    out
}

// ------------------------------------------------------------------------- the archive

/// The last place at or before `i`, and not before `stop`, where the end record
/// of an archive begins.
pub open spec fn end_record(d: Seq<u8>, i: int, stop: int) -> Option<int>
    decreases i - stop + 1,
{
    if i < stop {
        None
    } else if signature_at(d, i, 5, 6) {
        Some(i)
    } else {
        end_record(d, i - 1, stop)
    }
}

/// What is stored of the member whose local header begins at `at`: the method
/// and the length come from the directory. A stored member is kept as it is, a
/// deflated one is inflated, any other method is unknown.
pub open spec fn stored_member(d: Seq<u8>, at: int, method: int, size: int) -> Option<Seq<u8>> {
    if at + 30 > d.len() || !signature_at(d, at, 3, 4) {
        None
    } else {
        let start = at + 30 + le16(d, at + 26) + le16(d, at + 28);
        if start + size > d.len() {
            None
        } else {
            let data = d.subrange(start, start + size);
            if method == 0 {
                Some(data)
            } else if method == 8 {
                inflated(data)
            } else {
                None
            }
        }
    }
}

/// The member with the given name among the `n` directory entries from `p` on. A
/// directory that is cut short or holds another signature gives none.
pub open spec fn directory_member(d: Seq<u8>, p: int, n: int, want: Seq<u8>) -> Option<Seq<u8>>
    decreases n,
{
    if n <= 0 || p + 46 > d.len() || !signature_at(d, p, 1, 2) {
        None
    } else {
        let name_len = le16(d, p + 28);
        if p + 46 + name_len > d.len() {
            None
        } else if same_name(d.subrange(p + 46, p + 46 + name_len), want) {
            stored_member(d, le32(d, p + 42), le16(d, p + 10), le32(d, p + 20))
        } else {
            directory_member(
                d,
                p + 46 + name_len + le16(d, p + 30) + le16(d, p + 32),
                n - 1,
                want,
            )
        }
    }
}

/// The member with the given name of a zip archive.
pub open spec fn archive_member(d: Seq<u8>, want: Seq<u8>) -> Option<Seq<u8>> {
    let stop = if d.len() > 22 + 65535 {
        d.len() - (22 + 65535)
    } else {
        0
    };
    if d.len() < 22 {
        None
    } else {
        match end_record(d, d.len() - 22, stop) {
            None => None,
            Some(e) => directory_member(d, le32(d, e + 16), le16(d, e + 10), want),
        }
    }
}

fn read_member(d: &Vec<u8>, at: u64, method: usize, size: u64) -> (out: Option<Vec<u8>>)
    requires
        at < 0x1_0000_0000,
        size < 0x1_0000_0000,
    ensures
        match out {
            Some(v) => stored_member(d@, at as int, method as int, size as int) == Some(v@),
            None => stored_member(d@, at as int, method as int, size as int) is None,
        },
{
    let len: u64 = d.len() as u64;
    if at + 30 > len {
        return None;
    }
    let i: usize = at as usize;
    if !has_signature(d, i, 3, 4) {
        return None;
    }
    let start: u64 = at + 30 + read16(d, i + 26) as u64 + read16(d, i + 28) as u64;
    if start + size > len {
        return None;
    }
    let data: Vec<u8> = copy_bytes(d, start as usize, (start + size) as usize);
    if method == 0 {
        Some(data)
    } else if method == 8 {
        inflate(&data)
    } else {
        None
    }
}

/// The member with the given name of a zip archive, stored or deflated. Names
/// are compared without regard to the case of ASCII letters.
pub fn zip_read_entry(data: &Vec<u8>, want: &Vec<u8>) -> (out: Option<Vec<u8>>)
    ensures
        match out {
            Some(v) => archive_member(data@, want@) == Some(v@),
            None => archive_member(data@, want@) is None,
        },
{
    if data.len() < 22 {
        return None;
    }
    let stop: usize = if data.len() > 22 + 65535 {
        data.len() - (22 + 65535)
    } else {
        0
    };
    let mut i: usize = data.len() - 22;
    while !has_signature(data, i, 5, 6)
        invariant
            stop <= i <= data.len() - 22,
            end_record(data@, data@.len() - 22, stop as int) == end_record(
                data@,
                i as int,
                stop as int,
            ),
            stop == if data@.len() > 22 + 65535 {
                data@.len() - (22 + 65535)
            } else {
                0
            },
        decreases i,
    {
        if i == stop {
            assert(end_record(data@, i - 1, stop as int) is None);
            return None;
        }
        i -= 1;
    }
    let len: u64 = data.len() as u64;
    let mut n: usize = read16(data, i + 10);
    let mut p: u64 = read32(data, i + 16);
    let ghost end = i;
    while n > 0
        invariant
            p < 0x1_0000_0000 + (65536 - n) * 0x40000,
            n < 65536,
            len == data.len(),
            archive_member(data@, want@) == directory_member(data@, p as int, n as int, want@),
        decreases n,
    {
        assert((65536 - n) * 0x40000 <= 65536 * 0x40000) by (nonlinear_arith)
            requires
                n < 65536,
        ;
        if p + 46 > len {
            return None;
        }
        let at: usize = p as usize;
        if !has_signature(data, at, 1, 2) {
            return None;
        }
        let name_len: usize = read16(data, at + 28);
        if p + 46 + name_len as u64 > len {
            return None;
        }
        if is_same_name(data, at + 46, name_len, want) {
            let method: usize = read16(data, at + 10);
            return read_member(data, read32(data, at + 42), method, read32(data, at + 20));
        }
        let step: u64 = 46 + name_len as u64 + read16(data, at + 30) as u64 + read16(
            data,
            at + 32,
        ) as u64;
        assert(step < 0x40000);
        assert((65536 - n) * 0x40000 + 0x40000 == (65536 - (n - 1)) * 0x40000)
            by (nonlinear_arith);
        p = p + step;
        n -= 1;
    }
    None
}

// -------------------------------------------------------------------------- the markup

/// How many bytes a character takes in UTF-8.
pub open spec fn utf8_len(c: char) -> nat {
    if (c as u32) < 0x80 {
        1
    } else if (c as u32) < 0x800 {
        2
    } else if (c as u32) < 0x10000 {
        3
    } else {
        4
    }
}

/// The name of the entity that begins at `i`, put behind what was read, and the
/// position after it. It ends at a semicolon, at the end of the text, or once it
/// is longer than ten bytes.
pub open spec fn entity_rest(s: Seq<char>, i: int, name: Seq<char>, bytes: nat) -> (Seq<char>, int)
    decreases s.len() - i,
{
    if i < 0 || i >= s.len() {
        (name, i)
    } else if s[i] == ';' {
        (name, i + 1)
    } else if bytes + utf8_len(s[i]) > 10 {
        (name.push(s[i]), i + 1)
    } else {
        entity_rest(s, i + 1, name.push(s[i]), bytes + utf8_len(s[i]))
    }
}

/// The number that digits from `i` on denote in a base, put behind `before`;
/// `None` where another character stands among them or the number is too large.
pub open spec fn number_rest(s: Seq<char>, i: int, hex: bool, before: nat) -> Option<nat>
    decreases s.len() - i,
{
    if i < 0 || i >= s.len() {
        Some(before)
    } else {
        let d = if hex {
            hex_value(s[i])
        } else if is_digit(s[i]) {
            Some((s[i] as u32 - 48) as nat)
        } else {
            None
        };
        match d {
            None => None,
            Some(v) => {
                let n = before * (if hex {
                    16nat
                } else {
                    10
                }) + v;
                if n > u32::MAX {
                    None
                } else {
                    number_rest(s, i + 1, hex, n)
                }
            },
        }
    }
}

/// The number that a text denotes: an optional plus sign and one digit at least.
pub open spec fn number_of(s: Seq<char>, hex: bool) -> Option<nat> {
    let start = if s.len() > 0 && s[0] == '+' {
        1int
    } else {
        0
    };
    if start >= s.len() {
        None
    } else {
        number_rest(s, start, hex, 0)
    }
}

/// The character that an entity stands for.
pub open spec fn entity_char(name: Seq<char>) -> Option<char> {
    if name == "amp"@ {
        Some('&')
    } else if name == "lt"@ {
        Some('<')
    } else if name == "gt"@ {
        Some('>')
    } else if name == "quot"@ {
        Some('"')
    } else if name == "apos"@ {
        Some('\'')
    } else if name.len() > 0 && name[0] == '#' {
        let hex = name.len() > 1 && (name[1] == 'x' || name[1] == 'X');
        let n = if hex {
            number_of(name.skip(2), true)
        } else {
            number_of(name.skip(1), false)
        };
        match n {
            Some(v) => if v < 0xD800 || 0xE000 <= v <= 0x10FFFF {
                Some(v as char)
            } else {
                None
            },
            None => None,
        }
    } else {
        None
    }
}

/// Whether a tag has the given name: only blanks part the name from what follows.
pub open spec fn named(tag: Seq<char>, name: Seq<char>) -> bool {
    name.is_prefix_of(tag) && (tag.len() == name.len() || blank(tag[name.len() as int]))
}

/// What a tag stands for in the text: a line feed where a paragraph or a line
/// ends, a blank for a tabulator, nothing else.
pub open spec fn tag_text(tag: Seq<char>) -> Seq<char> {
    if named(tag, "/w:p"@) || "/w:br"@.is_prefix_of(tag) || tag == "w:br"@ {
        seq!['\n']
    } else if "w:tab"@.is_prefix_of(tag) {
        seq![' ']
    } else {
        Seq::empty()
    }
}

/// The text of the markup from `i` on, put behind `before`; `tag` holds what was
/// read of the last tag, `open` tells whether it is still open.
pub open spec fn plain_rest(
    s: Seq<char>,
    i: int,
    open: bool,
    tag: Seq<char>,
    before: Seq<char>,
) -> Seq<char>
    decreases s.len() - i,
{
    if i < 0 || i >= s.len() {
        before
    } else if s[i] == '<' {
        plain_rest(s, i + 1, true, Seq::empty(), before)
    } else if s[i] == '>' {
        plain_rest(s, i + 1, false, tag, before + tag_text(tag))
    } else if open {
        plain_rest(s, i + 1, true, tag.push(s[i]), before)
    } else if s[i] != '&' {
        plain_rest(s, i + 1, false, tag, before.push(s[i]))
    } else {
        let r = entity_rest(s, i + 1, Seq::empty(), 0);
        let more = match entity_char(r.0) {
            Some(c) => before.push(c),
            None => before,
        };
        if i < r.1 <= s.len() {
            plain_rest(s, r.1, false, tag, more)
        } else {
            more
        }
    }
}

/// The text of a document's markup.
pub open spec fn plain_text(s: Seq<char>) -> Seq<char> {
    plain_rest(s, 0, false, Seq::empty(), Seq::empty())
}

fn char_bytes(c: char) -> (out: usize)
    ensures
        out == utf8_len(c),
        1 <= out <= 4,
{
    let n: u32 = c as u32;
    if n < 0x80 {
        1
    } else if n < 0x800 {
        2
    } else if n < 0x10000 {
        3
    } else {
        4
    }
}

fn read_entity(s: &Vec<char>, from: usize) -> (out: (Vec<char>, usize))
    requires
        from <= s@.len(),
    ensures
        (out.0@, out.1 as int) == entity_rest(s@, from as int, Seq::empty(), 0),
        from <= out.1 <= s@.len(),
{
    let mut name: Vec<char> = Vec::new();
    let mut bytes: usize = 0;
    let mut i: usize = from;
    while i < s.len()
        invariant
            from <= i <= s@.len(),
            bytes <= 10,
            entity_rest(s@, from as int, Seq::empty(), 0) == entity_rest(
                s@,
                i as int,
                name@,
                bytes as nat,
            ),
        decreases s@.len() - i,
    {
        if s[i] == ';' {
            return (name, i + 1);
        }
        let n: usize = char_bytes(s[i]);
        name.push(s[i]);
        if bytes + n > 10 {
            return (name, i + 1);
        }
        bytes = bytes + n;
        i += 1;
    }
    (name, i)
}

fn read_number(s: &Vec<char>, from: usize, hex: bool) -> (out: Option<u32>)
    requires
        from <= s@.len(),
    ensures
        match out {
            Some(n) => number_of(s@.skip(from as int), hex) == Some(n as nat),
            None => number_of(s@.skip(from as int), hex) is None,
        },
{
    let ghost t = s@.skip(from as int);
    let mut i: usize = from;
    if i < s.len() && s[i] == '+' {
        i += 1;
    }
    if i >= s.len() {
        return None;
    }
    let ghost start = i - from;
    let mut n: u64 = 0;
    while i < s.len()
        invariant
            from <= i <= s@.len(),
            t == s@.skip(from as int),
            n <= u32::MAX,
            number_of(t, hex) == number_rest(t, i - from, hex, n as nat),
        decreases s@.len() - i,
    {
        let c: char = s[i];
        assert(t[i - from] == c);
        let d: Option<u64> = if '0' <= c && c <= '9' {
            Some((c as u32 - 48) as u64)
        } else if hex && 'a' <= c && c <= 'f' {
            Some((c as u32 - 87) as u64)
        } else if hex && 'A' <= c && c <= 'F' {
            Some((c as u32 - 55) as u64)
        } else {
            None
        };
        match d {
            None => {
                return None;
            },
            Some(v) => {
                n = n * (if hex {
                    16u64
                } else {
                    10u64
                }) + v;
                if n > 0xFFFF_FFFF {
                    return None;
                }
            },
        }
        i += 1;
    }
    Some(n as u32)
}

fn read_entity_char(name: &Vec<char>) -> (out: Option<char>)
    ensures
        out == entity_char(name@),
{
    let text: String = crate::text::string_of(name, 0, name.len());
    assert(name@.subrange(0, name@.len() as int) =~= name@);
    if same(text.as_str(), "amp") {
        Some('&')
    } else if same(text.as_str(), "lt") {
        Some('<')
    } else if same(text.as_str(), "gt") {
        Some('>')
    } else if same(text.as_str(), "quot") {
        Some('"')
    } else if same(text.as_str(), "apos") {
        Some('\'')
    } else if name.len() > 0 && name[0] == '#' {
        let hex: bool = name.len() > 1 && (name[1] == 'x' || name[1] == 'X');
        let n: Option<u32> = if hex {
            read_number(name, 2, true)
        } else {
            read_number(name, 1, false)
        };
        match n {
            Some(v) => char::from_u32(v),
            None => None,
        }
    } else {
        None
    }
}

fn has_name(tag: &str, name: &str) -> (out: bool)
    ensures
        out == named(tag@, name@),
{
    if !starts_with(tag, name) {
        return false;
    }
    let n: usize = name.unicode_len();
    if tag.unicode_len() == n {
        return true;
    }
    let c: char = tag.get_char(n);
    c == ' ' || c == '\t' || c == '\r' || c == '\n'
}

/// The text of a document's markup: line feeds where paragraphs end, no tags,
/// the usual entities replaced.
pub fn xml_to_text(xml: &str) -> (out: String)
    ensures
        out@ == plain_text(xml@),
{
    let s: Vec<char> = chars_of(xml);
    let mut out: String = String::new();
    let mut tag: String = String::new();
    let mut open: bool = false;
    let mut i: usize = 0;
    assert(out@ =~= Seq::empty());
    assert(tag@ =~= Seq::empty());
    while i < s.len()
        invariant
            i <= s@.len(),
            s@ == xml@,
            plain_text(xml@) == plain_rest(s@, i as int, open, tag@, out@),
        decreases s@.len() - i,
    {
        let c: char = s[i];
        if c == '<' {
            open = true;
            tag = String::new();
            assert(tag@ =~= Seq::empty());
            i += 1;
        } else if c == '>' {
            let ghost before = out@;
            if has_name(tag.as_str(), "/w:p") || starts_with(tag.as_str(), "/w:br") || same(
                tag.as_str(),
                "w:br",
            ) {
                out.push('\n');
            } else if starts_with(tag.as_str(), "w:tab") {
                out.push(' ');
            }
            assert(out@ =~= before + tag_text(tag@));
            open = false;
            i += 1;
        } else if open {
            tag.push(c);
            i += 1;
        } else if c != '&' {
            out.push(c);
            i += 1;
        } else {
            let (name, j): (Vec<char>, usize) = read_entity(&s, i + 1);
            match read_entity_char(&name) {
                Some(e) => {
                    out.push(e);
                },
                None => {},
            }
            i = j;
        }
    }
    out
}

/// How large a document may be to be compared by its text.
pub const SIM_MAX_BYTES: u64 = 4 * 1024 * 1024;

/// The text of a word processor document.
pub open spec fn document_text(d: Seq<u8>, want: Seq<u8>) -> Option<Seq<char>> {
    if d.len() > 2 * SIM_MAX_BYTES {
        None
    } else {
        match archive_member(d, want) {
            Some(x) => Some(plain_text(lossy_text(x))),
            None => None,
        }
    }
}

/// The name of the member that holds the text: `word/document.xml`.
pub open spec fn document_name() -> Seq<u8> {
    seq![
        0x77u8,
        0x6f,
        0x72,
        0x64,
        0x2f,
        0x64,
        0x6f,
        0x63,
        0x75,
        0x6d,
        0x65,
        0x6e,
        0x74,
        0x2e,
        0x78,
        0x6d,
        0x6c,
    ]
}

/// The text of a word processor document, from the bytes of its file.
pub fn extract_docx_text(data: &Vec<u8>) -> (out: Option<String>)
    ensures
        match out {
            Some(t) => document_text(data@, document_name()) == Some(t@),
            None => document_text(data@, document_name()) is None,
        },
{
    if data.len() as u64 > 2 * SIM_MAX_BYTES {
        return None;
    }
    let want: Vec<u8> = vec![
        0x77u8,
        0x6f,
        0x72,
        0x64,
        0x2f,
        0x64,
        0x6f,
        0x63,
        0x75,
        0x6d,
        0x65,
        0x6e,
        0x74,
        0x2e,
        0x78,
        0x6d,
        0x6c,
    ];
    assert(want@ =~= document_name());
    match zip_read_entry(data, &want) {
        Some(x) => Some(xml_to_text(decode_lossy(&x).as_str())),
        None => None,
    }
}

} // verus!
