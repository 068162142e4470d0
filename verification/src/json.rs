//! JSON text: a value type, the reader of the rule files, and the escaping
//! used by every line that the scanners write.

use crate::text::{chars_of, hex_char, occurs_here, same, string_of};
use vstd::prelude::*;

verus! {

/// The mathematical value of a JSON text. A number is kept as it is written.
pub enum JsonV {
    Null,
    Bool(bool),
    Num(Seq<char>),
    Str(Seq<char>),
    Arr(Seq<JsonV>),
    Obj(Seq<(Seq<char>, JsonV)>),
}

/// A JSON value. A number is kept as it is written; the members of an object
/// keep their order and may repeat a key.
#[derive(Debug)]
pub enum Json {
    Null,
    Bool(bool),
    Num(String),
    Str(String),
    Arr(Vec<Json>),
    Obj(Vec<(String, Json)>),
}

impl Json {
    /// The mathematical value.
    pub open spec fn view(self) -> JsonV
        decreases self,
    {
        match self {
            Json::Null => JsonV::Null,
            Json::Bool(b) => JsonV::Bool(b),
            Json::Num(t) => JsonV::Num(t@),
            Json::Str(t) => JsonV::Str(t@),
            Json::Arr(v) => JsonV::Arr(Seq::new(v@.len(), |i: int| if 0 <= i < v@.len() {
                v@[i].view()
            } else {
                JsonV::Null
            })),
            Json::Obj(v) => JsonV::Obj(Seq::new(v@.len(), |i: int| if 0 <= i < v@.len() {
                (v@[i].0@, v@[i].1.view())
            } else {
                (Seq::empty(), JsonV::Null)
            })),
        }
    }
}

/// The values of a sequence of JSON values.
pub open spec fn values(v: Seq<Json>) -> Seq<JsonV> {
    Seq::new(v.len(), |i: int| v[i].view())
}

/// The members of a sequence of keyed JSON values.
pub open spec fn members(v: Seq<(String, Json)>) -> Seq<(Seq<char>, JsonV)> {
    Seq::new(v.len(), |i: int| (v[i].0@, v[i].1.view()))
}

pub proof fn lemma_view_arr(v: Vec<Json>)
    ensures
        Json::Arr(v).view() == JsonV::Arr(values(v@)),
{
    assert(Json::Arr(v).view()->Arr_0 =~= values(v@));
}

pub proof fn lemma_view_obj(v: Vec<(String, Json)>)
    ensures
        Json::Obj(v).view() == JsonV::Obj(members(v@)),
{
    assert(Json::Obj(v).view()->Obj_0 =~= members(v@));
}

// ---------------------------------------------------------------- the grammar

/// The blanks that JSON allows between tokens.
pub open spec fn blank(c: char) -> bool {
    c == ' ' || c == '\t' || c == '\r' || c == '\n'
}

/// The first position at or after `i` that holds no blank.
pub open spec fn skip_blanks(s: Seq<char>, i: int) -> int
    decreases s.len() - i,
{
    if 0 <= i < s.len() && blank(s[i]) {
        skip_blanks(s, i + 1)
    } else {
        i
    }
}

/// The value of a hexadecimal digit, in either case.
pub open spec fn hex_value(c: char) -> Option<nat> {
    if '0' <= c && c <= '9' {
        Some((c as nat - 48) as nat)
    } else if 'a' <= c && c <= 'f' {
        Some((c as nat - 87) as nat)
    } else if 'A' <= c && c <= 'F' {
        Some((c as nat - 55) as nat)
    } else {
        None
    }
}

/// The four hexadecimal digits at `i`.
pub open spec fn hex4(s: Seq<char>, i: int) -> Result<nat, Seq<char>> {
    if i + 4 > s.len() {
        Err("\\u 编码不完整"@)
    } else {
        match (hex_value(s[i]), hex_value(s[i + 1]), hex_value(s[i + 2]), hex_value(s[i + 3])) {
            (Some(a), Some(b), Some(c), Some(d)) => Ok(4096 * a + 256 * b + 16 * c + d),
            _ => Err("\\u 编码非法"@),
        }
    }
}

/// The character of the `\u` escape whose digits start at `i`, and the
/// position after it. A character outside the basic plane is a pair of escapes.
pub open spec fn unicode_escape(s: Seq<char>, i: int) -> Result<(char, int), Seq<char>> {
    match hex4(s, i) {
        Err(e) => Err(e),
        Ok(hi) => if 0xD800 <= hi < 0xDC00 {
            if i + 5 < s.len() && s[i + 4] == '\\' && s[i + 5] == 'u' {
                match hex4(s, i + 6) {
                    Err(e) => Err(e),
                    Ok(lo) => if 0xDC00 <= lo < 0xE000 {
                        Ok(
                            (
                                (0x10000 + (hi - 0xD800) * 1024 + (lo - 0xDC00)) as char,
                                i + 10,
                            ),
                        )
                    } else {
                        Err("低代理区码点非法"@)
                    },
                }
            } else {
                Err("高代理后缺低代理"@)
            }
        } else if 0xDC00 <= hi < 0xE000 {
            Err("孤立低代理"@)
        } else {
            Ok((hi as char, i + 4))
        },
    }
}

/// The character that the escape letter `e` stands for.
pub open spec fn plain_escape(e: char) -> Option<char> {
    if e == '"' || e == '\\' || e == '/' {
        Some(e)
    } else if e == 'b' {
        Some('\u{8}')
    } else if e == 'f' {
        Some('\u{c}')
    } else if e == 'n' {
        Some('\n')
    } else if e == 'r' {
        Some('\r')
    } else if e == 't' {
        Some('\t')
    } else {
        None
    }
}

/// One unit of a string body at `i`: a character, or `None` for the closing
/// quote; with the position after it.
pub open spec fn string_unit(s: Seq<char>, i: int) -> Result<(Option<char>, int), Seq<char>> {
    if i >= s.len() {
        Err("字符串未闭合"@)
    } else if s[i] == '"' {
        Ok((None, i + 1))
    } else if s[i] != '\\' {
        Ok((Some(s[i]), i + 1))
    } else if i + 1 >= s.len() {
        Err("转义未闭合"@)
    } else {
        match plain_escape(s[i + 1]) {
            Some(c) => Ok((Some(c), i + 2)),
            None => if s[i + 1] == 'u' {
                match unicode_escape(s, i + 2) {
                    Ok((c, j)) => Ok((Some(c), j)),
                    Err(e) => Err(e),
                }
            } else {
                Err("非法转义 \\"@.push(s[i + 1]))
            },
        }
    }
}

/// The rest of a string body at `i`, put behind what was read before.
pub open spec fn string_rest(s: Seq<char>, i: int, before: Seq<char>) -> Result<
    (Seq<char>, int),
    Seq<char>,
>
    decreases s.len() - i,
{
    match string_unit(s, i) {
        Err(e) => Err(e),
        Ok((None, j)) => Ok((before, j)),
        Ok((Some(c), j)) => string_rest(s, j, before.push(c)),
    }
}

pub open spec fn is_digit(c: char) -> bool {
    '0' <= c && c <= '9'
}

/// The first position at or after `i` that holds no decimal digit.
pub open spec fn digits_end(s: Seq<char>, i: int) -> int
    decreases s.len() - i,
{
    if 0 <= i < s.len() && is_digit(s[i]) {
        digits_end(s, i + 1)
    } else {
        i
    }
}

/// Whether a sign stands at `i`.
pub open spec fn sign_at(s: Seq<char>, i: int) -> bool {
    0 <= i < s.len() && (s[i] == '+' || s[i] == '-')
}

/// Whether `t` is a decimal number: an optional sign, digits with at most one
/// point among or around them (one digit at least), an optional exponent.
pub open spec fn number_text(t: Seq<char>) -> bool {
    let a = if sign_at(t, 0) {
        1int
    } else {
        0
    };
    let b = digits_end(t, a);
    let point = b < t.len() && t[b] == '.';
    let c = if point {
        digits_end(t, b + 1)
    } else {
        b
    };
    let some_digit = b > a || (point && c > b + 1);
    let d = if sign_at(t, c + 1) {
        c + 2
    } else {
        c + 1
    };
    some_digit && (c == t.len() || ((t[c] == 'e' || t[c] == 'E') && d < t.len() && digits_end(t, d)
        == t.len()))
}

/// The characters that a number may hold.
pub open spec fn number_char(c: char) -> bool {
    is_digit(c) || c == '.' || c == 'e' || c == 'E' || c == '+' || c == '-'
}

/// The first position at or after `i` that holds no number character.
pub open spec fn number_end(s: Seq<char>, i: int) -> int
    decreases s.len() - i,
{
    if 0 <= i < s.len() && number_char(s[i]) {
        number_end(s, i + 1)
    } else {
        i
    }
}

/// The number at `i`.
pub open spec fn number_at(s: Seq<char>, i: int) -> Result<(JsonV, int), Seq<char>> {
    let t = s.subrange(i, number_end(s, i));
    if number_text(t) {
        Ok((JsonV::Num(t), number_end(s, i)))
    } else {
        Err("数字非法: "@ + t)
    }
}

/// The word `w` at `i`, standing for `v`.
pub open spec fn word_at(s: Seq<char>, i: int, w: Seq<char>, v: JsonV) -> Result<
    (JsonV, int),
    Seq<char>,
> {
    if crate::text::occurs_at(s, w, i) {
        Ok((v, i + w.len()))
    } else {
        Err("字面量 "@ + w + " 非法"@)
    }
}

/// The value at `i`, after blanks, and the position after it.
pub open spec fn value_at(s: Seq<char>, i: int) -> Result<(JsonV, int), Seq<char>>
    decreases s.len() - i, 1int,
{
    let k = skip_blanks(s, i);
    if k < i || k >= s.len() {
        Err("JSON 意外结束"@)
    } else if s[k] == '{' {
        let m = skip_blanks(s, k + 1);
        if m < s.len() && s[m] == '}' {
            Ok((JsonV::Obj(Seq::empty()), m + 1))
        } else if m <= k || m > s.len() {
            Err("JSON 意外结束"@)
        } else {
            members_at(s, m, Seq::empty())
        }
    } else if s[k] == '[' {
        let m = skip_blanks(s, k + 1);
        if m < s.len() && s[m] == ']' {
            Ok((JsonV::Arr(Seq::empty()), m + 1))
        } else if m <= k || m > s.len() {
            Err("JSON 意外结束"@)
        } else {
            items_at(s, m, Seq::empty())
        }
    } else if s[k] == '"' {
        match string_rest(s, k + 1, Seq::empty()) {
            Ok((t, j)) => Ok((JsonV::Str(t), j)),
            Err(e) => Err(e),
        }
    } else if s[k] == 't' {
        word_at(s, k, "true"@, JsonV::Bool(true))
    } else if s[k] == 'f' {
        word_at(s, k, "false"@, JsonV::Bool(false))
    } else if s[k] == 'n' {
        word_at(s, k, "null"@, JsonV::Null)
    } else {
        number_at(s, k)
    }
}

/// The items of an array from `i` on, put behind those read before.
pub open spec fn items_at(s: Seq<char>, i: int, before: Seq<JsonV>) -> Result<
    (JsonV, int),
    Seq<char>,
>
    decreases s.len() - i, 2int,
{
    match value_at(s, i) {
        Err(e) => Err(e),
        Ok((v, j)) => {
            let k = skip_blanks(s, j);
            if k >= s.len() {
                Err("数组未闭合"@)
            } else if s[k] == ']' {
                Ok((JsonV::Arr(before.push(v)), k + 1))
            } else if s[k] != ',' || k < i {
                Err("数组分隔符非法"@)
            } else {
                items_at(s, k + 1, before.push(v))
            }
        },
    }
}

/// The members of an object from `i` on, put behind those read before.
pub open spec fn members_at(s: Seq<char>, i: int, before: Seq<(Seq<char>, JsonV)>) -> Result<
    (JsonV, int),
    Seq<char>,
>
    decreases s.len() - i, 2int,
{
    let q = skip_blanks(s, i);
    if q >= s.len() || s[q] != '"' {
        Err("对象键必须为字符串"@)
    } else {
        match string_rest(s, q + 1, Seq::empty()) {
            Err(e) => Err(e),
            Ok((key, j)) => {
                let k = skip_blanks(s, j);
                if k >= s.len() || s[k] != ':' || k < i {
                    Err("对象缺冒号"@)
                } else {
                    match value_at(s, k + 1) {
                        Err(e) => Err(e),
                        Ok((v, l)) => {
                            let n = skip_blanks(s, l);
                            if n >= s.len() {
                                Err("对象未闭合"@)
                            } else if s[n] == '}' {
                                Ok((JsonV::Obj(before.push((key, v))), n + 1))
                            } else if s[n] != ',' || n < i {
                                Err("对象分隔符非法"@)
                            } else {
                                members_at(s, n + 1, before.push((key, v)))
                            }
                        },
                    }
                }
            },
        }
    }
}

/// What a whole text denotes: one value with nothing but blanks round it.
pub open spec fn json_text(s: Seq<char>) -> Result<JsonV, Seq<char>> {
    match value_at(s, 0) {
        Err(e) => Err(e),
        Ok((v, j)) => if skip_blanks(s, j) == s.len() {
            Ok(v)
        } else {
            Err("JSON 结尾有多余内容"@)
        },
    }
}

// ------------------------------------------------------- positions only move on

pub proof fn lemma_skip_blanks(s: Seq<char>, i: int)
    requires
        0 <= i <= s.len(),
    ensures
        i <= skip_blanks(s, i) <= s.len(),
    decreases s.len() - i,
{
    if i < s.len() && blank(s[i]) {
        lemma_skip_blanks(s, i + 1);
    }
}

proof fn lemma_number_end(s: Seq<char>, i: int)
    requires
        0 <= i <= s.len(),
    ensures
        i <= number_end(s, i) <= s.len(),
    decreases s.len() - i,
{
    if i < s.len() && number_char(s[i]) {
        lemma_number_end(s, i + 1);
    }
}

proof fn lemma_string_rest(s: Seq<char>, i: int, before: Seq<char>)
    requires
        0 <= i <= s.len(),
    ensures
        string_rest(s, i, before) matches Ok((t, j)) ==> i < j <= s.len(),
    decreases s.len() - i,
{
    match string_unit(s, i) {
        Ok((Some(c), j)) => {
            lemma_string_rest(s, j, before.push(c));
        },
        _ => {},
    }
}

proof fn lemma_number_at(s: Seq<char>, i: int)
    requires
        0 <= i < s.len(),
    ensures
        number_at(s, i) matches Ok((v, j)) ==> i < j <= s.len(),
{
    lemma_number_end(s, i);
    let t = s.subrange(i, number_end(s, i));
    if t.len() == 0 {
        assert(digits_end(t, 0) == 0);
        assert(!number_text(t));
    }
}

pub proof fn lemma_value_at(s: Seq<char>, i: int)
    requires
        0 <= i <= s.len(),
    ensures
        value_at(s, i) matches Ok((v, j)) ==> i < j <= s.len(),
    decreases s.len() - i, 1int,
{
    lemma_skip_blanks(s, i);
    let k = skip_blanks(s, i);
    if k < s.len() {
        lemma_skip_blanks(s, k + 1);
        if s[k] == '{' {
            lemma_members_at(s, skip_blanks(s, k + 1), Seq::empty());
        } else if s[k] == '[' {
            lemma_items_at(s, skip_blanks(s, k + 1), Seq::empty());
        } else if s[k] == '"' {
            lemma_string_rest(s, k + 1, Seq::empty());
        } else {
            reveal_strlit("true");
            reveal_strlit("false");
            reveal_strlit("null");
            lemma_number_at(s, k);
        }
    }
}

proof fn lemma_items_at(s: Seq<char>, i: int, before: Seq<JsonV>)
    requires
        0 <= i <= s.len(),
    ensures
        items_at(s, i, before) matches Ok((v, j)) ==> i < j <= s.len(),
    decreases s.len() - i, 2int,
{
    lemma_value_at(s, i);
    match value_at(s, i) {
        Ok((v, j)) => {
            lemma_skip_blanks(s, j);
            let k = skip_blanks(s, j);
            if k < s.len() && s[k] == ',' {
                lemma_items_at(s, k + 1, before.push(v));
            }
        },
        _ => {},
    }
}

proof fn lemma_members_at(s: Seq<char>, i: int, before: Seq<(Seq<char>, JsonV)>)
    requires
        0 <= i <= s.len(),
    ensures
        members_at(s, i, before) matches Ok((v, j)) ==> i < j <= s.len(),
    decreases s.len() - i, 2int,
{
    lemma_skip_blanks(s, i);
    let q = skip_blanks(s, i);
    if q < s.len() && s[q] == '"' {
        lemma_string_rest(s, q + 1, Seq::empty());
        match string_rest(s, q + 1, Seq::empty()) {
            Ok((key, j)) => {
                lemma_skip_blanks(s, j);
                let k = skip_blanks(s, j);
                if k < s.len() {
                    lemma_value_at(s, k + 1);
                    match value_at(s, k + 1) {
                        Ok((v, l)) => {
                            lemma_skip_blanks(s, l);
                            let n = skip_blanks(s, l);
                            if n < s.len() && s[n] == ',' {
                                lemma_members_at(s, n + 1, before.push((key, v)));
                            }
                        },
                        _ => {},
                    }
                }
            },
            _ => {},
        }
    }
}

// ------------------------------------------------------------------ the reader

/// `char::from_u32` returns the character with the given scalar value, and
/// `None` for a number that is no Unicode scalar value.
pub assume_specification[ char::from_u32 ](n: u32) -> (out: Option<char>)
    ensures
        out == (if n < 0xD800 || 0xE000 <= n <= 0x10FFFF {
            Some(n as char)
        } else {
            None::<char>
        }),
;

fn read_blanks(s: &Vec<char>, from: usize) -> (out: usize)
    requires
        from <= s@.len(),
    ensures
        out == skip_blanks(s@, from as int),
        from <= out <= s@.len(),
{
    let mut i: usize = from;
    while i < s.len() && (s[i] == ' ' || s[i] == '\t' || s[i] == '\r' || s[i] == '\n')
        invariant
            from <= i <= s@.len(),
            skip_blanks(s@, from as int) == skip_blanks(s@, i as int),
        decreases s@.len() - i,
    {
        i += 1;
    }
    i
}

fn read_hex_value(c: char) -> (out: Option<u32>)
    ensures
        match out {
            Some(d) => hex_value(c) == Some(d as nat) && d < 16,
            None => hex_value(c) is None,
        },
{
    if '0' <= c && c <= '9' {
        Some(c as u32 - 48)
    } else if 'a' <= c && c <= 'f' {
        Some(c as u32 - 87)
    } else if 'A' <= c && c <= 'F' {
        Some(c as u32 - 55)
    } else {
        None
    }
}

fn read_hex4(s: &Vec<char>, i: usize) -> (out: Result<u32, String>)
    requires
        i <= s@.len(),
    ensures
        match out {
            Ok(n) => hex4(s@, i as int) == Ok::<nat, Seq<char>>(n as nat) && n < 0x10000 && i + 4
                <= s@.len(),
            Err(e) => hex4(s@, i as int) == Err::<nat, Seq<char>>(e@),
        },
{
    if s.len() - i < 4 {
        return Err("\\u 编码不完整".to_owned());
    }
    match (
        read_hex_value(s[i]),
        read_hex_value(s[i + 1]),
        read_hex_value(s[i + 2]),
        read_hex_value(s[i + 3]),
    ) {
        (Some(a), Some(b), Some(c), Some(d)) => Ok(4096 * a + 256 * b + 16 * c + d),
        _ => Err("\\u 编码非法".to_owned()),
    }
}

fn read_unicode_escape(s: &Vec<char>, i: usize) -> (out: Result<(char, usize), String>)
    requires
        i <= s@.len(),
    ensures
        match out {
            Ok((c, j)) => unicode_escape(s@, i as int) == Ok::<(char, int), Seq<char>>(
                (c, j as int),
            ) && i < j <= s@.len(),
            Err(e) => unicode_escape(s@, i as int) == Err::<(char, int), Seq<char>>(e@),
        },
{
    let hi: u32 = match read_hex4(s, i) {
        Ok(n) => n,
        Err(e) => return Err(e),
    };
    if 0xD800 <= hi && hi < 0xDC00 {
        if s.len() - i > 5 && s[i + 4] == '\\' && s[i + 5] == 'u' {
            let lo: u32 = match read_hex4(s, i + 6) {
                Ok(n) => n,
                Err(e) => return Err(e),
            };
            if 0xDC00 <= lo && lo < 0xE000 {
                let cp: u32 = 0x10000 + (hi - 0xD800) * 1024 + (lo - 0xDC00);
                match char::from_u32(cp) {
                    Some(c) => Ok((c, i + 10)),
                    None => {
                        assert(false);
                        Err(String::new())
                    },
                }
            } else {
                Err("低代理区码点非法".to_owned())
            }
        } else {
            Err("高代理后缺低代理".to_owned())
        }
    } else if 0xDC00 <= hi && hi < 0xE000 {
        Err("孤立低代理".to_owned())
    } else {
        match char::from_u32(hi) {
            Some(c) => {
                assert(i + 4 <= s.len());
                Ok((c, i + 4))
            },
            None => {
                assert(false);
                Err(String::new())
            },
        }
    }
}

fn read_string_unit(s: &Vec<char>, i: usize) -> (out: Result<(Option<char>, usize), String>)
    requires
        i <= s@.len(),
    ensures
        match out {
            Ok((c, j)) => string_unit(s@, i as int) == Ok::<(Option<char>, int), Seq<char>>(
                (c, j as int),
            ) && i < j <= s@.len(),
            Err(e) => string_unit(s@, i as int) == Err::<(Option<char>, int), Seq<char>>(e@),
        },
{
    if i >= s.len() {
        return Err("字符串未闭合".to_owned());
    }
    if s[i] == '"' {
        return Ok((None, i + 1));
    }
    if s[i] != '\\' {
        return Ok((Some(s[i]), i + 1));
    }
    if s.len() - i < 2 {
        return Err("转义未闭合".to_owned());
    }
    let e: char = s[i + 1];
    if e == '"' || e == '\\' || e == '/' {
        Ok((Some(e), i + 2))
    } else if e == 'b' {
        Ok((Some('\u{8}'), i + 2))
    } else if e == 'f' {
        Ok((Some('\u{c}'), i + 2))
    } else if e == 'n' {
        Ok((Some('\n'), i + 2))
    } else if e == 'r' {
        Ok((Some('\r'), i + 2))
    } else if e == 't' {
        Ok((Some('\t'), i + 2))
    } else if e == 'u' {
        match read_unicode_escape(s, i + 2) {
            Ok((c, j)) => Ok((Some(c), j)),
            Err(m) => Err(m),
        }
    } else {
        let mut m: String = "非法转义 \\".to_owned();
        m.push(e);
        Err(m)
    }
}

/// Reads a string body; the opening quote stands before `from`.
fn read_string(s: &Vec<char>, from: usize) -> (out: Result<(String, usize), String>)
    requires
        from <= s@.len(),
    ensures
        match out {
            Ok((t, j)) => string_rest(s@, from as int, Seq::empty()) == Ok::<
                (Seq<char>, int),
                Seq<char>,
            >((t@, j as int)) && from < j <= s@.len(),
            Err(e) => string_rest(s@, from as int, Seq::empty()) == Err::<
                (Seq<char>, int),
                Seq<char>,
            >(e@),
        },
{
    let mut out: String = String::new();
    let mut i: usize = from;
    assert(out@ =~= Seq::empty());
    loop
        invariant
            from <= i <= s@.len(),
            string_rest(s@, from as int, Seq::empty()) == string_rest(s@, i as int, out@),
        decreases s@.len() - i,
    {
        match read_string_unit(s, i) {
            Err(e) => return Err(e),
            Ok((None, j)) => return Ok((out, j)),
            Ok((Some(c), j)) => {
                out.push(c);
                i = j;
            },
        }
    }
}

fn read_digits(t: &Vec<char>, from: usize) -> (out: usize)
    requires
        from <= t@.len(),
    ensures
        out == digits_end(t@, from as int),
        from <= out <= t@.len(),
{
    let mut i: usize = from;
    while i < t.len() && '0' <= t[i] && t[i] <= '9'
        invariant
            from <= i <= t@.len(),
            digits_end(t@, from as int) == digits_end(t@, i as int),
        decreases t@.len() - i,
    {
        i += 1;
    }
    i
}

fn is_number_text(t: &Vec<char>) -> (out: bool)
    ensures
        out == number_text(t@),
{
    let n: usize = t.len();
    let a: usize = if n > 0 && (t[0] == '+' || t[0] == '-') {
        1
    } else {
        0
    };
    let b: usize = read_digits(t, a);
    let point: bool = b < n && t[b] == '.';
    let c: usize = if point {
        read_digits(t, b + 1)
    } else {
        b
    };
    let some_digit: bool = b > a || (point && c - b > 1);
    if !some_digit {
        return false;
    }
    if c == n {
        return true;
    }
    if t[c] != 'e' && t[c] != 'E' {
        return false;
    }
    let d: usize = if n - c > 1 && (t[c + 1] == '+' || t[c + 1] == '-') {
        c + 2
    } else {
        c + 1
    };
    d < n && read_digits(t, d) == n
}

fn read_number(s: &Vec<char>, from: usize) -> (out: Result<(Json, usize), String>)
    requires
        from < s@.len(),
    ensures
        match out {
            Ok((v, j)) => number_at(s@, from as int) == Ok::<(JsonV, int), Seq<char>>(
                (v.view(), j as int),
            ),
            Err(e) => number_at(s@, from as int) == Err::<(JsonV, int), Seq<char>>(e@),
        },
        out matches Ok((v, j)) ==> from < j <= s@.len(),
{
    let mut i: usize = from;
    let mut t: Vec<char> = Vec::new();
    while i < s.len() && (('0' <= s[i] && s[i] <= '9') || s[i] == '.' || s[i] == 'e' || s[i] == 'E'
        || s[i] == '+' || s[i] == '-')
        invariant
            from <= i <= s@.len(),
            t@ == s@.subrange(from as int, i as int),
            number_end(s@, from as int) == number_end(s@, i as int),
        decreases s@.len() - i,
    {
        t.push(s[i]);
        i += 1;
        assert(s@.subrange(from as int, i as int) =~= s@.subrange(from as int, i - 1).push(
            s@[i - 1],
        ));
    }
    proof {
        lemma_number_at(s@, from as int);
    }
    let txt: String = string_of(s, from, i);
    if is_number_text(&t) {
        Ok((Json::Num(txt), i))
    } else {
        let mut m: String = "数字非法: ".to_owned();
        m.append(txt.as_str());
        Err(m)
    }
}

fn read_word(s: &Vec<char>, i: usize, w: &str, v: Json) -> (out: Result<(Json, usize), String>)
    requires
        i < s@.len(),
        w@.len() > 0,
    ensures
        match out {
            Ok((r, j)) => word_at(s@, i as int, w@, v.view()) == Ok::<(JsonV, int), Seq<char>>(
                (r.view(), j as int),
            ) && i < j <= s@.len(),
            Err(e) => word_at(s@, i as int, w@, v.view()) == Err::<(JsonV, int), Seq<char>>(e@),
        },
{
    let p: Vec<char> = chars_of(w);
    if occurs_here(s, &p, i) {
        assert(i + p@.len() <= s.len());
        Ok((v, i + p.len()))
    } else {
        let mut m: String = "字面量 ".to_owned();
        m.append(w);
        m.append(" 非法");
        Err(m)
    }
}

fn read_value(s: &Vec<char>, from: usize) -> (out: Result<(Json, usize), String>)
    requires
        from <= s@.len(),
    ensures
        match out {
            Ok((v, j)) => value_at(s@, from as int) == Ok::<(JsonV, int), Seq<char>>(
                (v.view(), j as int),
            ) && from < j <= s@.len(),
            Err(e) => value_at(s@, from as int) == Err::<(JsonV, int), Seq<char>>(e@),
        },
    decreases s@.len() - from, 1int,
{
    proof {
        lemma_value_at(s@, from as int);
        reveal_strlit("true");
        reveal_strlit("false");
        reveal_strlit("null");
    }
    let k: usize = read_blanks(s, from);
    if k >= s.len() {
        return Err("JSON 意外结束".to_owned());
    }
    let c: char = s[k];
    if c == '{' {
        let m: usize = read_blanks(s, k + 1);
        if m < s.len() && s[m] == '}' {
            let none: Vec<(String, Json)> = Vec::new();
            proof {
                lemma_view_obj(none);
                assert(members(none@) =~= Seq::empty());
            }
            return Ok((Json::Obj(none), m + 1));
        }
        read_members(s, m)
    } else if c == '[' {
        let m: usize = read_blanks(s, k + 1);
        if m < s.len() && s[m] == ']' {
            let none: Vec<Json> = Vec::new();
            proof {
                lemma_view_arr(none);
                assert(values(none@) =~= Seq::empty());
            }
            return Ok((Json::Arr(none), m + 1));
        }
        read_items(s, m)
    } else if c == '"' {
        match read_string(s, k + 1) {
            Ok((t, j)) => Ok((Json::Str(t), j)),
            Err(e) => Err(e),
        }
    } else if c == 't' {
        read_word(s, k, "true", Json::Bool(true))
    } else if c == 'f' {
        read_word(s, k, "false", Json::Bool(false))
    } else if c == 'n' {
        read_word(s, k, "null", Json::Null)
    } else {
        read_number(s, k)
    }
}

fn read_items(s: &Vec<char>, from: usize) -> (out: Result<(Json, usize), String>)
    requires
        from <= s@.len(),
    ensures
        match out {
            Ok((v, j)) => items_at(s@, from as int, Seq::empty()) == Ok::<(JsonV, int), Seq<char>>(
                (v.view(), j as int),
            ),
            Err(e) => items_at(s@, from as int, Seq::empty()) == Err::<(JsonV, int), Seq<char>>(e@),
        },
        out matches Ok((v, j)) ==> from < j <= s@.len(),
    decreases s@.len() - from, 2int,
{
    let mut out: Vec<Json> = Vec::new();
    let mut i: usize = from;
    assert(values(out@) =~= Seq::empty());
    loop
        invariant
            from <= i <= s@.len(),
            items_at(s@, from as int, Seq::empty()) == items_at(s@, i as int, values(out@)),
        decreases s@.len() - i,
    {
        match read_value(s, i) {
            Err(e) => return Err(e),
            Ok((v, j)) => {
                let k: usize = read_blanks(s, j);
                proof {
                    assert(values(out@.push(v)) =~= values(out@).push(v.view()));
                }
                if k >= s.len() {
                    return Err("数组未闭合".to_owned());
                }
                out.push(v);
                if s[k] == ']' {
                    proof {
                        lemma_view_arr(out);
                    }
                    return Ok((Json::Arr(out), k + 1));
                }
                if s[k] != ',' {
                    return Err("数组分隔符非法".to_owned());
                }
                i = k + 1;
            },
        }
    }
}

fn read_members(s: &Vec<char>, from: usize) -> (out: Result<(Json, usize), String>)
    requires
        from <= s@.len(),
    ensures
        match out {
            Ok((v, j)) => members_at(s@, from as int, Seq::empty()) == Ok::<
                (JsonV, int),
                Seq<char>,
            >((v.view(), j as int)),
            Err(e) => members_at(s@, from as int, Seq::empty()) == Err::<(JsonV, int), Seq<char>>(
                e@,
            ),
        },
        out matches Ok((v, j)) ==> from < j <= s@.len(),
    decreases s@.len() - from, 2int,
{
    let mut out: Vec<(String, Json)> = Vec::new();
    let mut i: usize = from;
    assert(members(out@) =~= Seq::empty());
    loop
        invariant
            from <= i <= s@.len(),
            members_at(s@, from as int, Seq::empty()) == members_at(s@, i as int, members(out@)),
        decreases s@.len() - i,
    {
        let q: usize = read_blanks(s, i);
        if q >= s.len() || s[q] != '"' {
            return Err("对象键必须为字符串".to_owned());
        }
        let (key, j): (String, usize) = match read_string(s, q + 1) {
            Err(e) => return Err(e),
            Ok(r) => r,
        };
        let k: usize = read_blanks(s, j);
        if k >= s.len() || s[k] != ':' {
            return Err("对象缺冒号".to_owned());
        }
        let (v, l): (Json, usize) = match read_value(s, k + 1) {
            Err(e) => return Err(e),
            Ok(r) => r,
        };
        let n: usize = read_blanks(s, l);
        if n >= s.len() {
            return Err("对象未闭合".to_owned());
        }
        proof {
            assert(members(out@.push((key, v))) =~= members(out@).push((key@, v.view())));
        }
        out.push((key, v));
        if s[n] == '}' {
            proof {
                lemma_view_obj(out);
            }
            return Ok((Json::Obj(out), n + 1));
        }
        if s[n] != ',' {
            return Err("对象分隔符非法".to_owned());
        }
        i = n + 1;
    }
}

/// Reads a JSON text: one value, with blanks round it and nothing else.
pub fn parse_json(text: &str) -> (out: Result<Json, String>)
    ensures
        match out {
            Ok(v) => json_text(text@) == Ok::<JsonV, Seq<char>>(v.view()),
            Err(e) => json_text(text@) == Err::<JsonV, Seq<char>>(e@),
        },
{
    let s: Vec<char> = chars_of(text);
    match read_value(&s, 0) {
        Err(e) => Err(e),
        Ok((v, j)) => {
            if read_blanks(&s, j) != s.len() {
                Err("JSON 结尾有多余内容".to_owned())
            } else {
                Ok(v)
            }
        },
    }
}

// -------------------------------------------------------------- reading members

/// The value of the first member with the given key.
pub open spec fn first_member(m: Seq<(Seq<char>, JsonV)>, key: Seq<char>) -> Option<JsonV>
    decreases m.len(),
{
    if m.len() == 0 {
        None
    } else if m[0].0 == key {
        Some(m[0].1)
    } else {
        first_member(m.skip(1), key)
    }
}

/// The member of an object with the given key; `None` for any other value.
pub open spec fn member(v: JsonV, key: Seq<char>) -> Option<JsonV> {
    match v {
        JsonV::Obj(m) => first_member(m, key),
        _ => None,
    }
}

impl Json {
    /// The member with the given key, where the value is an object that has one.
    pub fn get(&self, key: &str) -> (out: Option<&Json>)
        ensures
            match out {
                Some(v) => member(self.view(), key@) == Some(v.view()),
                None => member(self.view(), key@) is None,
            },
    {
        match self {
            Json::Obj(m) => {
                proof {
                    lemma_view_obj(*m);
                }
                let mut i: usize = 0;
                assert(members(m@).skip(0) =~= members(m@));
                while i < m.len()
                    invariant
                        i <= m@.len(),
                        first_member(members(m@), key@) == first_member(
                            members(m@).skip(i as int),
                            key@,
                        ),
                        member(self.view(), key@) == first_member(members(m@), key@),
                    decreases m@.len() - i,
                {
                    assert(members(m@).skip(i as int).skip(1) =~= members(m@).skip(i + 1));
                    if same(m[i].0.as_str(), key) {
                        return Some(&m[i].1);
                    }
                    i += 1;
                }
                None
            },
            _ => None,
        }
    }

    /// The text of a string value.
    pub fn as_str(&self) -> (out: Option<&str>)
        ensures
            match out {
                Some(t) => self.view() == JsonV::Str(t@),
                None => !(self.view() is Str),
            },
    {
        match self {
            Json::Str(t) => Some(t.as_str()),
            _ => None,
        }
    }

    /// The items of an array value.
    pub fn as_arr(&self) -> (out: Option<&Vec<Json>>)
        ensures
            match out {
                Some(a) => self.view() == JsonV::Arr(values(a@)),
                None => !(self.view() is Arr),
            },
    {
        match self {
            Json::Arr(a) => {
                proof {
                    lemma_view_arr(*a);
                }
                Some(a)
            },
            _ => None,
        }
    }

    /// How many things a value stands for where one or many are allowed.
    pub fn ps_count(&self) -> (out: usize)
        ensures
            out == count_of(self.view()),
    {
        match self {
            Json::Arr(a) => {
                proof {
                    lemma_view_arr(*a);
                }
                a.len()
            },
            Json::Null => 0,
            _ => 1,
        }
    }
}

/// The length of an array, nothing for null, one for any other value.
pub open spec fn count_of(v: JsonV) -> nat {
    match v {
        JsonV::Arr(a) => a.len(),
        JsonV::Null => 0,
        _ => 1,
    }
}

/// The text of the member with the given key, where it is a string.
pub open spec fn text_member(v: JsonV, key: Seq<char>) -> Option<Seq<char>> {
    match member(v, key) {
        Some(JsonV::Str(t)) => Some(t),
        _ => None,
    }
}

/// The items of the member with the given key, where it is an array.
pub open spec fn array_member(v: JsonV, key: Seq<char>) -> Option<Seq<JsonV>> {
    match member(v, key) {
        Some(JsonV::Arr(a)) => Some(a),
        _ => None,
    }
}

/// How many things the member with the given key stands for.
pub open spec fn count_member(v: JsonV, key: Seq<char>) -> nat {
    match member(v, key) {
        Some(m) => count_of(m),
        None => 0,
    }
}

impl Json {
    /// The text of the member with the given key, where it is a string.
    pub fn text(&self, key: &str) -> (out: Option<&str>)
        ensures
            match out {
                Some(t) => text_member(self.view(), key@) == Some(t@),
                None => text_member(self.view(), key@) is None,
            },
    {
        match self.get(key) {
            Some(v) => v.as_str(),
            None => None,
        }
    }

    /// The items of the member with the given key, where it is an array.
    pub fn array(&self, key: &str) -> (out: Option<&Vec<Json>>)
        ensures
            match out {
                Some(a) => array_member(self.view(), key@) == Some(values(a@)),
                None => array_member(self.view(), key@) is None,
            },
    {
        match self.get(key) {
            Some(v) => v.as_arr(),
            None => None,
        }
    }

    /// How many things the member with the given key stands for.
    pub fn count(&self, key: &str) -> (out: usize)
        ensures
            out == count_member(self.view(), key@),
    {
        match self.get(key) {
            Some(v) => v.ps_count(),
            None => 0,
        }
    }

    /// Whether the member with the given key is the word `false`.
    pub fn is_false(&self, key: &str) -> (out: bool)
        ensures
            out == (member(self.view(), key@) == Some(JsonV::Bool(false))),
    {
        match self.get(key) {
            Some(Json::Bool(b)) => !*b,
            _ => false,
        }
    }
}

// -------------------------------------------------------------------- escaping

/// How a character is written inside a JSON string.
pub open spec fn escaped_char(c: char) -> Seq<char> {
    if c == '"' {
        seq!['\\', '"']
    } else if c == '\\' {
        seq!['\\', '\\']
    } else if c == '\n' {
        seq!['\\', 'n']
    } else if c == '\r' {
        seq!['\\', 'r']
    } else if c == '\t' {
        seq!['\\', 't']
    } else if (c as u32) < 0x20 {
        seq![
            '\\',
            'u',
            '0',
            '0',
            crate::text::hex_digit((c as u32 / 16) as nat),
            crate::text::hex_digit((c as u32 % 16) as nat),
        ]
    } else {
        seq![c]
    }
}

/// How a text is written inside a JSON string.
pub open spec fn escaped(s: Seq<char>) -> Seq<char>
    decreases s.len(),
{
    if s.len() == 0 {
        Seq::empty()
    } else {
        escaped(s.drop_last()) + escaped_char(s.last())
    }
}

/// Escapes a text for use inside a JSON string.
pub fn json_escape(s: &str) -> (out: String)
    ensures
        out@ == escaped(s@),
{
    let a: Vec<char> = chars_of(s);
    let mut out: String = String::new();
    let mut i: usize = 0;
    assert(out@ =~= escaped(a@.take(0)));
    while i < a.len()
        invariant
            i <= a@.len(),
            a@ == s@,
            out@ == escaped(a@.take(i as int)),
        decreases a@.len() - i,
    {
        let c: char = a[i];
        let ghost before = out@;
        if c == '"' {
            out.push('\\');
            out.push('"');
        } else if c == '\\' {
            out.push('\\');
            out.push('\\');
        } else if c == '\n' {
            out.push('\\');
            out.push('n');
        } else if c == '\r' {
            out.push('\\');
            out.push('r');
        } else if c == '\t' {
            out.push('\\');
            out.push('t');
        } else if (c as u32) < 0x20 {
            let n: u8 = (c as u32) as u8;
            out.push('\\');
            out.push('u');
            out.push('0');
            out.push('0');
            out.push(hex_char(n / 16));
            out.push(hex_char(n % 16));
        } else {
            out.push(c);
        }
        assert(out@ =~= before + escaped_char(c));
        i += 1;
        assert(a@.take(i as int).drop_last() =~= a@.take(i - 1));
    }
    assert(a@.take(a@.len() as int) =~= a@);
    out
}

/// A text as a JSON string with its quotes.
pub open spec fn quoted(s: Seq<char>) -> Seq<char> {
    seq!['"'] + escaped(s) + seq!['"']
}

/// A text as a JSON string with its quotes.
pub fn jstr(s: &str) -> (out: String)
    ensures
        out@ == quoted(s@),
{
    let mut out: String = String::new();
    out.push('"');
    let e: String = json_escape(s);
    out.append(e.as_str());
    out.push('"');
    assert(out@ =~= quoted(s@));
    out
}

/// A text as a JSON string; null where there is none.
pub fn jopt_str(s: Option<&str>) -> (out: String)
    ensures
        out@ == (match s {
            Some(t) => quoted(t@),
            None => "null"@,
        }),
{
    match s {
        Some(t) => jstr(t),
        None => "null".to_owned(),
    }
}

proof fn lemma_escaped_front(s: Seq<char>)
    requires
        s.len() > 0,
    ensures
        escaped(s) == escaped_char(s[0]) + escaped(s.skip(1)),
    decreases s.len(),
{
    if s.len() == 1 {
        assert(s.drop_last() =~= Seq::empty());
        assert(s.skip(1) =~= Seq::empty());
        assert(escaped(s) =~= escaped_char(s[0]) + escaped(s.skip(1)));
    } else {
        lemma_escaped_front(s.drop_last());
        assert(s.drop_last().skip(1) =~= s.skip(1).drop_last());
        assert(escaped(s) =~= escaped_char(s[0]) + escaped(s.skip(1)));
    }
}

/// One escaped character is read back as that character.
proof fn lemma_unit_of_escape(s: Seq<char>, i: int, c: char)
    requires
        0 <= i,
        crate::text::occurs_at(s, escaped_char(c), i),
    ensures
        string_unit(s, i) == Ok::<(Option<char>, int), Seq<char>>(
            (Some(c), i + escaped_char(c).len()),
        ),
{
    let e = escaped_char(c);
    assert forall|k: int| 0 <= k < e.len() implies s[i + k] == e[k] by {
        assert(s.subrange(i, i + e.len())[k] == s[i + k]);
    }
    assert(s[i] == e[0]);
    if e.len() > 1 {
        assert(s[i + 1] == e[1]);
    }
    if e.len() == 6 {
        assert(s[i + 2] == e[2] && s[i + 3] == e[3] && s[i + 4] == e[4] && s[i + 5] == e[5]);
        let n = c as u32;
        assert(n / 16 < 2 && n % 16 < 16);
        assert(hex_value(e[4]) == Some((n / 16) as nat));
        assert(hex_value(e[5]) == Some((n % 16) as nat));
        assert(hex4(s, i + 2) == Ok::<nat, Seq<char>>(n as nat));
    }
}

pub proof fn lemma_string_of_escape(s: Seq<char>, i: int, t: Seq<char>, before: Seq<char>)
    requires
        0 <= i,
        crate::text::occurs_at(s, escaped(t).push('"'), i),
    ensures
        string_rest(s, i, before) == Ok::<(Seq<char>, int), Seq<char>>(
            (before + t, i + escaped(t).len() + 1),
        ),
    decreases t.len(),
{
    let w = escaped(t).push('"');
    assert forall|k: int| 0 <= k < w.len() implies s[i + k] == w[k] by {
        assert(s.subrange(i, i + w.len())[k] == s[i + k]);
    }
    if t.len() == 0 {
        assert(s[i + 0] == w[0]);
        assert(before + t =~= before);
    } else {
        lemma_escaped_front(t);
        let e = escaped_char(t[0]);
        assert(s.subrange(i, i + e.len()) =~= e);
        lemma_unit_of_escape(s, i, t[0]);
        let j = i + e.len();
        let w2 = escaped(t.skip(1)).push('"');
        assert(s.subrange(j, j + w2.len()) =~= w2) by {
            assert forall|k: int| 0 <= k < w2.len() implies s[j + k] == w2[k] by {
                assert(s[i + (e.len() + k)] == w[e.len() + k]);
            }
        }
        lemma_string_of_escape(s, j, t.skip(1), before.push(t[0]));
        assert(before.push(t[0]) + t.skip(1) =~= before + t);
    }
}

/// Texts are escaped character by character: what is escaped of two texts one behind the
/// other is what is escaped of each, one behind the other.
pub proof fn law_escape_joins(a: Seq<char>, b: Seq<char>)
    ensures
        escaped(a + b) == escaped(a) + escaped(b),
    decreases b.len(),
{
    if b.len() == 0 {
        assert(a + b =~= a);
        assert(escaped(a) + escaped(b) =~= escaped(a));
    } else {
        law_escape_joins(a, b.drop_last());
        assert((a + b).drop_last() =~= a + b.drop_last());
        assert(escaped(a) + (escaped(b.drop_last()) + escaped_char(b.last())) =~= escaped(a)
            + escaped(b.drop_last()) + escaped_char(b.last()));
    }
}

/// What is escaped or quoted holds no control character, and so no line feed, whatever the
/// text holds.
pub proof fn law_escaped_is_printable(s: Seq<char>)
    ensures
        forall|i: int| 0 <= i < escaped(s).len() ==> (#[trigger] escaped(s)[i]) as u32 >= 0x20,
        forall|i: int| 0 <= i < quoted(s).len() ==> (#[trigger] quoted(s)[i]) as u32 >= 0x20,
        !escaped(s).contains('\n'),
        !quoted(s).contains('\n'),
    decreases s.len(),
{
    if s.len() > 0 {
        law_escaped_is_printable(s.drop_last());
        let front = escaped(s.drop_last());
        let e = escaped_char(s.last());
        assert forall|i: int| 0 <= i < escaped(s).len() implies (#[trigger] escaped(s)[i]) as u32
            >= 0x20 by {
            if i < front.len() {
                assert(escaped(s)[i] == front[i]);
            } else {
                assert(escaped(s)[i] == e[i - front.len()]);
            }
        }
    }
    assert forall|i: int| 0 <= i < quoted(s).len() implies (#[trigger] quoted(s)[i]) as u32
        >= 0x20 by {
        if 0 < i < quoted(s).len() - 1 {
            assert(quoted(s)[i] == escaped(s)[i - 1]);
        }
    }
}

/// A text that was quoted is read back as that text: nothing a path or a name
/// holds can break a line apart or change what the line says.
pub proof fn law_quoted_reads_back(t: Seq<char>)
    ensures
        json_text(quoted(t)) == Ok::<JsonV, Seq<char>>(JsonV::Str(t)),
{
    let s = quoted(t);
    assert(s[0] == '"');
    assert(s.subrange(1, s.len() as int) =~= escaped(t).push('"'));
    lemma_string_of_escape(s, 1, t, Seq::empty());
    assert(Seq::<char>::empty() + t =~= t);
    assert(skip_blanks(s, 0) == 0);
    assert(s.len() == escaped(t).len() + 2);
    assert(skip_blanks(s, s.len() as int) == s.len());
}

} // verus!
