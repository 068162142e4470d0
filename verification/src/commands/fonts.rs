//! Fonts: the ones that can be chosen, the one that was brought along, and what is set.

use crate::commands::finder::{as_text, js_string};
use crate::commands::reply::{grant, granted, refuse, refused};
use crate::json::{lemma_view_obj, member, members, values, Json, JsonV};
use crate::paths::{extension, extension_of, file_name, file_name_of};
use crate::text::{
    ascii_lowercase, cat, cat3, chars_of, dec, decimal, ends_with, replace_char, replaced, same,
    string_of, to_ascii_lower, trim, trim_trailing, trimmed, without_trailing,
};
use crate::value::{
    copy_json, copy_members, counts, jarray, js_truthy, jtext, key_at, lemma_values_push,
    number_of, put, read_number_of, set_member, truthy, whole_part, with_member, Fields,
};
use crate::version::{shown_size, size_text};
use vstd::prelude::*;
use vstd::utf8::encode_utf8;

verus! {

// ------------------------------------------------------------------------------ names

/// A name without quotes and backslashes.
pub open spec fn plain_family(s: Seq<char>) -> Seq<char>
    decreases s.len(),
{
    if s.len() == 0 {
        Seq::empty()
    } else if s.last() == '\'' || s.last() == '\\' {
        plain_family(s.drop_last())
    } else {
        plain_family(s.drop_last()).push(s.last())
    }
}

/// A name without quotes and backslashes, so that it can stand in a style.
pub fn sanitize_family(raw: &str) -> (out: String)
    ensures
        out@ == plain_family(raw@),
{
    let v: Vec<char> = chars_of(raw);
    let mut out: String = String::new();
    let mut i: usize = 0;
    assert(out@ =~= plain_family(v@.take(0)));
    while i < v.len()
        invariant
            i <= v@.len(),
            v@ == raw@,
            out@ == plain_family(v@.take(i as int)),
        decreases v@.len() - i,
    {
        assert(v@.take(i + 1).drop_last() =~= v@.take(i as int));
        assert(v@.take(i + 1).last() == v@[i as int]);
        if v[i] != '\'' && v[i] != '\\' {
            out.push(v[i]);
        }
        i += 1;
    }
    assert(v@.take(i as int) =~= raw@);
    out
}

/// The fonts that are tried in turn for a font that was brought along.
pub open spec fn stack_for(family: Seq<char>) -> Seq<char> {
    "'"@ + plain_family(family) + "', '微软雅黑', 'Microsoft YaHei', sans-serif"@
}

/// The fonts that are tried in turn for a font that was brought along.
pub fn font_css_stack_for(family: &str) -> (out: String)
    ensures
        out@ == stack_for(family@),
{
    cat3(
        "'",
        sanitize_family(family).as_str(),
        "', '微软雅黑', 'Microsoft YaHei', sans-serif",
    )
}

/// A digit in base sixteen, in upper case.
pub open spec fn upper_digit(d: nat) -> char {
    if d < 10 {
        (48 + d) as char
    } else {
        (55 + d) as char
    }
}

/// Whether a byte stands for itself in an address.
pub open spec fn plain_byte(b: u8) -> bool {
    (48 <= b && b <= 57) || (65 <= b && b <= 90) || (97 <= b && b <= 122) || b == 45 || b == 46
        || b == 95 || b == 126 || b == 47 || b == 58
}

/// A byte as it stands in an address.
pub open spec fn byte_text(b: u8) -> Seq<char> {
    if plain_byte(b) {
        seq![b as char]
    } else {
        seq!['%', upper_digit((b / 16) as nat), upper_digit((b % 16) as nat)]
    }
}

/// The first `n` bytes as they stand in an address.
pub open spec fn bytes_text(b: Seq<u8>, n: int) -> Seq<char>
    decreases n,
{
    if n <= 0 {
        Seq::empty()
    } else {
        bytes_text(b, n - 1) + byte_text(b[n - 1])
    }
}

/// The address of a file.
pub open spec fn file_url(path: Seq<char>) -> Seq<char> {
    let b = encode_utf8(replaced(path, '\\', '/'));
    "file:///"@ + bytes_text(b, b.len() as int)
}

fn push_upper(out: &mut String, d: u8)
    requires
        d < 16,
    ensures
        final(out)@ == old(out)@.push(upper_digit(d as nat)),
{
    if d < 10 {
        out.push((48 + d) as char);
    } else {
        out.push((55 + d) as char);
    }
}

/// The address of a file.
pub fn path_to_file_url(path: &str) -> (out: String)
    ensures
        out@ == file_url(path@),
{
    let p: String = replace_char(path, '\\', '/');
    let b: &[u8] = p.as_str().as_bytes();
    let mut text: String = String::new();
    let mut i: usize = 0;
    assert(text@ =~= Seq::empty());
    while i < b.len()
        invariant
            i <= b@.len(),
            text@ == bytes_text(b@, i as int),
        decreases b@.len() - i,
    {
        let x: u8 = b[i];
        let ghost before = text@;
        if (48 <= x && x <= 57) || (65 <= x && x <= 90) || (97 <= x && x <= 122) || x == 45 || x
            == 46 || x == 95 || x == 126 || x == 47 || x == 58 {
            text.push(x as char);
            assert(text@ =~= before + byte_text(x));
        } else {
            text.push('%');
            push_upper(&mut text, x / 16);
            push_upper(&mut text, x % 16);
            assert(text@ =~= before + byte_text(x));
        }
        i += 1;
    }
    cat("file:///", text.as_str())
}

/// The name of a file without the extension of a font.
pub open spec fn without_font_ext(name: Seq<char>) -> Seq<char> {
    let l = ascii_lowercase(name);
    if ".ttf"@.is_suffix_of(l) || ".otf"@.is_suffix_of(l) {
        name.take(name.len() - 4)
    } else if ".woff2"@.is_suffix_of(l) {
        name.take(name.len() - 6)
    } else if ".woff"@.is_suffix_of(l) {
        name.take(name.len() - 5)
    } else {
        name
    }
}

fn cut(name: &str, n: usize) -> (out: String)
    requires
        n <= name@.len(),
    ensures
        out@ == name@.take(name@.len() - n),
{
    let v: Vec<char> = chars_of(name);
    let head: String = string_of(&v, 0, v.len() - n);
    assert(head@ =~= name@.take(name@.len() - n));
    head
}

/// The name of a file without the extension of a font.
pub fn strip_font_ext(name: &str) -> (out: String)
    ensures
        out@ == without_font_ext(name@),
{
    let l: String = to_ascii_lower(name);
    proof {
        reveal_strlit(".ttf");
        reveal_strlit(".otf");
        reveal_strlit(".woff2");
        reveal_strlit(".woff");
    }
    assert(l@.len() == name@.len());
    if ends_with(l.as_str(), ".ttf") || ends_with(l.as_str(), ".otf") {
        cut(name, 4)
    } else if ends_with(l.as_str(), ".woff2") {
        cut(name, 6)
    } else if ends_with(l.as_str(), ".woff") {
        cut(name, 5)
    } else {
        name.to_owned()
    }
}

/// Whether the first bytes of a file are those of a font.
pub open spec fn font_head(b: Seq<u8>) -> bool {
    b.len() >= 4 && {
        ||| b[0] == 0 && b[1] == 1 && b[2] == 0 && b[3] == 0
        ||| b[0] == 0x4f && b[1] == 0x54 && b[2] == 0x54 && b[3] == 0x4f
        ||| b[0] == 0x74 && b[1] == 0x74 && b[2] == 0x63 && b[3] == 0x66
        ||| b[0] == 0x74 && b[1] == 0x72 && b[2] == 0x75 && b[3] == 0x65
        ||| b[0] == 0x77 && b[1] == 0x4f && b[2] == 0x46 && (b[3] == 0x46 || b[3] == 0x32)
    }
}

/// Whether the first bytes of a file are those of a font.
pub fn is_font_file_valid(head: &Vec<u8>) -> (out: bool)
    ensures
        out == font_head(head@),
{
    if head.len() < 4 {
        return false;
    }
    let (a, b, c, d): (u8, u8, u8, u8) = (head[0], head[1], head[2], head[3]);
    (a == 0 && b == 1 && c == 0 && d == 0) || (a == 0x4f && b == 0x54 && c == 0x54 && d == 0x4f)
        || (a == 0x74 && b == 0x74 && c == 0x63 && d == 0x66) || (a == 0x74 && b == 0x72 && c
        == 0x75 && d == 0x65) || (a == 0x77 && b == 0x4f && c == 0x46 && (d == 0x46 || d == 0x32))
}

// ----------------------------------------------------------------------------- what is set

/// The text of a value that counts as true.
pub open spec fn true_text(v: Option<JsonV>) -> Option<Seq<char>> {
    match v {
        Some(x) => if truthy(x) {
            Some(as_text(x))
        } else {
            None
        },
        None => None,
    }
}

/// The text of a value that counts as true, or nothing.
pub open spec fn true_text_or_empty(v: Option<JsonV>) -> Seq<char> {
    match true_text(v) {
        Some(t) => t,
        None => Seq::empty(),
    }
}

/// The text of a value that counts as true.
pub fn truthy_string(v: Option<&Json>) -> (out: Option<String>)
    ensures
        ({
            let t = true_text(
                match v {
                    Some(x) => Some(x.view()),
                    None => None,
                },
            );
            match out {
                Some(s) => t == Some(s@),
                None => t is None,
            }
        }),
{
    match v {
        Some(x) => if js_truthy(x) {
            Some(js_string(x))
        } else {
            None
        },
        None => None,
    }
}

fn text_or_empty(v: Option<&Json>) -> (out: String)
    ensures
        out@ == true_text_or_empty(
            match v {
                Some(x) => Some(x.view()),
                None => None,
            },
        ),
{
    match truthy_string(v) {
        Some(s) => s,
        None => {
            let none: String = String::new();
            assert(none@ =~= Seq::empty());
            none
        },
    }
}

/// The members with the first `n` of others put over them.
pub open spec fn overlaid(
    base: Seq<(Seq<char>, JsonV)>,
    over: Seq<(Seq<char>, JsonV)>,
    n: int,
) -> Seq<(Seq<char>, JsonV)>
    decreases n,
{
    if n <= 0 {
        base
    } else {
        put(overlaid(base, over, n - 1), over[n - 1].0, over[n - 1].1)
    }
}

/// What is set where nothing else is.
pub open spec fn default_font() -> Seq<(Seq<char>, JsonV)> {
    seq![
        ("family"@, JsonV::Str("MiSans"@)),
        ("weight"@, JsonV::Num(dec(400))),
        ("size"@, JsonV::Num(dec(16))),
    ]
}

/// What is set for the font.
pub open spec fn font_settings(s: JsonV) -> JsonV {
    match member(s, "font"@) {
        Some(JsonV::Obj(m)) => JsonV::Obj(overlaid(default_font(), m, m.len() as int)),
        _ => JsonV::Obj(default_font()),
    }
}

/// What is known of the font that was brought along.
pub open spec fn brought_font(s: JsonV) -> Option<JsonV> {
    match member(s, "fontImported"@) {
        Some(JsonV::Obj(m)) => Some(JsonV::Obj(m)),
        _ => None,
    }
}

/// What is set for the font, and what is known of the font that was brought along.
pub fn load_font_state(s: &Json) -> (out: (Json, Option<Json>))
    ensures
        out.0.view() == font_settings(s.view()),
        match out.1 {
            Some(r) => brought_font(s.view()) == Some(r.view()),
            None => brought_font(s.view()) is None,
        },
{
    let f: Fields = Fields::new().with("family", jtext("MiSans")).with(
        "weight",
        crate::value::jcount(400),
    ).with("size", crate::value::jcount(16));
    assert(f.view() =~= default_font());
    let mut font: Json = f.object();
    if let Some(Json::Obj(m)) = s.get("font") {
        proof {
            lemma_view_obj(*m);
        }
        let ghost mv = members(m@);
        assert(mv.len() == m@.len());
        let mut i: usize = 0;
        while i < m.len()
            invariant
                i <= m@.len(),
                mv == members(m@),
                mv.len() == m@.len(),
                font.view() == JsonV::Obj(overlaid(default_font(), mv, i as int)),
            decreases m@.len() - i,
        {
            assert(mv[i as int] == (m@[i as int].0@, m@[i as int].1.view()));
            font = set_member(font, m[i].0.as_str(), copy_json(&m[i].1));
            i += 1;
        }
    }
    (font, read_brought(s))
}

fn read_brought(s: &Json) -> (out: Option<Json>)
    ensures
        match out {
            Some(r) => brought_font(s.view()) == Some(r.view()),
            None => brought_font(s.view()) is None,
        },
{
    match s.get("fontImported") {
        Some(Json::Obj(m)) => {
            proof {
                lemma_view_obj(*m);
            }
            let c: Vec<(String, Json)> = copy_members(m);
            proof {
                lemma_view_obj(c);
            }
            Some(Json::Obj(c))
        },
        _ => None,
    }
}

// ------------------------------------------------------------------------------ the list

/// A font in the list.
pub open spec fn font_entry(
    family: Seq<char>,
    stack: Seq<char>,
    available: bool,
    builtin: bool,
) -> JsonV {
    JsonV::Obj(
        seq![
            ("family"@, JsonV::Str(family)),
            ("cssStack"@, JsonV::Str(stack)),
            ("available"@, JsonV::Bool(available)),
            ("builtin"@, JsonV::Bool(builtin)),
            ("imported"@, JsonV::Bool(false)),
        ],
    )
}

fn make_entry(family: &str, stack: &str, available: bool, builtin: bool) -> (out: Json)
    ensures
        out.view() == font_entry(family@, stack@, available, builtin),
{
    let f: Fields = Fields::new().with("family", jtext(family)).with(
        "cssStack",
        jtext(stack),
    ).with("available", Json::Bool(available)).with("builtin", Json::Bool(builtin)).with(
        "imported",
        Json::Bool(false),
    );
    assert(f.view() =~= font_entry(family@, stack@, available, builtin)->Obj_0);
    f.object()
}

/// Which of the fonts of the system are there.
#[derive(Debug, Clone, Copy, PartialEq, Eq, Structural)]
pub struct SystemFonts {
    pub yahei: bool,
    pub simhei: bool,
    pub simsun: bool,
    pub simkai: bool,
    pub times: bool,
}

/// The fonts that are always in the list.
pub open spec fn plain_list(a: SystemFonts) -> Seq<JsonV> {
    seq![
        font_entry("微软雅黑"@, "'微软雅黑', 'Microsoft YaHei', sans-serif"@, a.yahei, false),
        font_entry("黑体"@, "'黑体', SimHei, sans-serif"@, a.simhei, false),
        font_entry("宋体"@, "'宋体', SimSun, serif"@, a.simsun, false),
        font_entry("楷体"@, "'楷体', KaiTi, serif"@, a.simkai, false),
        font_entry("Times New Roman"@, "'Times New Roman', Times, serif"@, a.times, false),
        font_entry(
            "MiSans"@,
            "'MiSans', '微软雅黑', 'Microsoft YaHei', sans-serif"@,
            true,
            true,
        ),
    ]
}

/// The font that was brought along, in the list.
pub open spec fn brought_entry(r: JsonV, there: bool) -> JsonV {
    let family = true_text_or_empty(member(r, "family"@));
    let copy = true_text_or_empty(member(r, "copyPath"@));
    let available = copy.len() > 0 && there;
    JsonV::Obj(
        seq![
            ("family"@, JsonV::Str(family)),
            ("cssStack"@, JsonV::Str(stack_for(family))),
            ("available"@, JsonV::Bool(available)),
            ("builtin"@, JsonV::Bool(false)),
            ("imported"@, JsonV::Bool(true)),
            (
                "copyUrl"@,
                JsonV::Str(
                    if available {
                        file_url(copy)
                    } else {
                        Seq::empty()
                    },
                ),
            ),
            ("sourcePath"@, JsonV::Str(true_text_or_empty(member(r, "sourcePath"@)))),
        ],
    )
}

/// What is told of the font that was brought along.
pub open spec fn brought_summary(r: JsonV) -> JsonV {
    JsonV::Obj(
        seq![
            ("family"@, JsonV::Str(true_text_or_empty(member(r, "family"@)))),
            ("sourcePath"@, JsonV::Str(true_text_or_empty(member(r, "sourcePath"@)))),
            ("copyPath"@, JsonV::Str(true_text_or_empty(member(r, "copyPath"@)))),
        ],
    )
}

/// The reply with the fonts.
pub open spec fn fonts_reply(s: JsonV, a: SystemFonts, there: bool) -> JsonV {
    granted(
        JsonV::Obj(
            seq![
                (
                    "list"@,
                    JsonV::Arr(
                        match brought_font(s) {
                            Some(r) => plain_list(a).push(brought_entry(r, there)),
                            None => plain_list(a),
                        },
                    ),
                ),
                ("settings"@, font_settings(s)),
                (
                    "imported"@,
                    match brought_font(s) {
                        Some(r) => brought_summary(r),
                        None => JsonV::Null,
                    },
                ),
            ],
        ),
    )
}

fn make_brought(r: &Json, there: bool) -> (out: (Json, Json))
    ensures
        out.0.view() == brought_entry(r.view(), there),
        out.1.view() == brought_summary(r.view()),
{
    let family: String = text_or_empty(r.get("family"));
    let copy: String = text_or_empty(r.get("copyPath"));
    let source: String = text_or_empty(r.get("sourcePath"));
    let available: bool = copy.as_str().unicode_len() > 0 && there;
    let url: String = if available {
        path_to_file_url(copy.as_str())
    } else {
        let none: String = String::new();
        assert(none@ =~= Seq::empty());
        none
    };
    let f: Fields = Fields::new().with("family", jtext(family.as_str())).with(
        "cssStack",
        jtext(font_css_stack_for(family.as_str()).as_str()),
    ).with("available", Json::Bool(available)).with("builtin", Json::Bool(false)).with(
        "imported",
        Json::Bool(true),
    ).with("copyUrl", jtext(url.as_str())).with("sourcePath", jtext(source.as_str()));
    assert(f.view() =~= brought_entry(r.view(), there)->Obj_0);
    let g: Fields = Fields::new().with("family", jtext(family.as_str())).with(
        "sourcePath",
        jtext(source.as_str()),
    ).with("copyPath", jtext(copy.as_str()));
    assert(g.view() =~= brought_summary(r.view())->Obj_0);
    (f.object(), g.object())
}

/// The reply with the fonts: `there` says whether the copy of the font that was brought
/// along is there.
pub fn fonts_list(s: &Json, a: SystemFonts, there: bool) -> (out: Json)
    ensures
        out.view() == fonts_reply(s.view(), a, there),
{
    let (settings, brought) = load_font_state(s);
    let mut list: Vec<Json> = Vec::new();
    list.push(
        make_entry("微软雅黑", "'微软雅黑', 'Microsoft YaHei', sans-serif", a.yahei, false),
    );
    list.push(make_entry("黑体", "'黑体', SimHei, sans-serif", a.simhei, false));
    list.push(make_entry("宋体", "'宋体', SimSun, serif", a.simsun, false));
    list.push(make_entry("楷体", "'楷体', KaiTi, serif", a.simkai, false));
    list.push(
        make_entry("Times New Roman", "'Times New Roman', Times, serif", a.times, false),
    );
    list.push(
        make_entry("MiSans", "'MiSans', '微软雅黑', 'Microsoft YaHei', sans-serif", true, true),
    );
    assert(values(list@) =~= plain_list(a));
    let summary: Json = match &brought {
        Some(r) => {
            let (e, t) = make_brought(r, there);
            proof {
                lemma_values_push(list@, e);
            }
            list.push(e);
            t
        },
        None => Json::Null,
    };
    let ghost lv = values(list@);
    let ghost tv = summary.view();
    let d: Fields = Fields::new().with("list", jarray(list)).with("settings", settings).with(
        "imported",
        summary,
    );
    proof {
        match brought_font(s.view()) {
            Some(r) => {
                assert(lv == plain_list(a).push(brought_entry(r, there)));
                assert(tv == brought_summary(r));
            },
            None => {
                assert(lv == plain_list(a));
                assert(tv == JsonV::Null);
            },
        }
    }
    assert(d.view() =~= fonts_reply(s.view(), a, there)->Obj_0[1].1->Obj_0);
    grant(d.object())
}

// ---------------------------------------------------------------------- bringing one along

/// Why a file is not brought along: whether it is there, its size where it is a file, and
/// its first bytes.
pub open spec fn import_refusal(there: bool, size: Option<u64>, head: Seq<u8>) -> Option<Seq<char>> {
    if !there {
        Some("字体文件不存在或不可访问"@)
    } else if size is None || size == Some(0u64) {
        Some("字体文件为空或不可读取"@)
    } else if !font_head(head) {
        Some(
            "该文件不是有效的字体文件（支持 .ttf / .otf / .woff / .woff2），请检查文件是否损坏"@,
        )
    } else {
        None
    }
}

/// Whether a file is brought along; otherwise the reply.
pub fn import_gate(there: bool, size: Option<u64>, head: &Vec<u8>) -> (out: Result<(), Json>)
    ensures
        match out {
            Ok(_) => import_refusal(there, size, head@) is None,
            Err(r) => import_refusal(there, size, head@) matches Some(m) && r.view() == refused(m),
        },
{
    if !there {
        return Err(refuse("字体文件不存在或不可访问"));
    }
    match size {
        Some(n) => {
            if n == 0 {
                return Err(refuse("字体文件为空或不可读取"));
            }
        },
        None => {
            return Err(refuse("字体文件为空或不可读取"));
        },
    }
    if !is_font_file_valid(head) {
        return Err(
            refuse(
                "该文件不是有效的字体文件（支持 .ttf / .otf / .woff / .woff2），请检查文件是否损坏",
            ),
        );
    }
    Ok(())
}

/// The name of the font in a file.
pub open spec fn family_in(path: Seq<char>) -> Seq<char> {
    let base = match file_name_of(path) {
        Some(n) => n,
        None => Seq::empty(),
    };
    let clean = trimmed(plain_family(without_font_ext(base)));
    if clean.len() == 0 {
        "导入字体"@
    } else {
        clean
    }
}

/// The name of the font in a file.
pub fn family_of(path: &str) -> (out: String)
    ensures
        out@ == family_in(path@),
{
    let base: String = match file_name(path) {
        Some(n) => n,
        None => {
            let none: String = String::new();
            assert(none@ =~= Seq::empty());
            none
        },
    };
    let clean: String = trim(sanitize_family(strip_font_ext(base.as_str()).as_str()).as_str());
    if clean.as_str().unicode_len() == 0 {
        "导入字体".to_owned()
    } else {
        clean
    }
}

/// The name of the copy of a font.
pub open spec fn copy_name(path: Seq<char>) -> Seq<char> {
    "imported"@ + match extension_of(path) {
        Some(e) => "."@ + ascii_lowercase(e),
        None => ".ttf"@,
    }
}

/// The name of the copy of a font.
pub fn copy_file_name(path: &str) -> (out: String)
    ensures
        out@ == copy_name(path@),
{
    match extension(path) {
        Some(e) => cat3("imported", ".", to_ascii_lower(e.as_str()).as_str()),
        None => cat("imported", ".ttf"),
    }
}

/// What two texts for the same path have in common, given how the system writes it.
pub open spec fn path_form(p: Seq<char>) -> Seq<char> {
    ascii_lowercase(without_trailing(p, '\\', '/'))
}

/// The copy of an earlier font that is deleted when another takes its place: it is, unless
/// it is the same file. `shown` says how the system writes the two paths.
pub open spec fn old_copy(s: JsonV, old_shown: Seq<char>, new_shown: Seq<char>) -> Option<Seq<char>> {
    match brought_font(s) {
        Some(r) => {
            let c = true_text_or_empty(member(r, "copyPath"@));
            if c.len() > 0 && path_form(old_shown) != path_form(new_shown) {
                Some(c)
            } else {
                None
            }
        },
        None => None,
    }
}

/// The copy of an earlier font that is deleted when another takes its place.
pub fn outdated_copy(s: &Json, old_shown: &str, new_shown: &str) -> (out: Option<String>)
    ensures
        match out {
            Some(c) => old_copy(s.view(), old_shown@, new_shown@) == Some(c@),
            None => old_copy(s.view(), old_shown@, new_shown@) is None,
        },
{
    match read_brought(s) {
        Some(r) => {
            let c: String = text_or_empty(r.get("copyPath"));
            let a: String = to_ascii_lower(trim_trailing(old_shown, '\\', '/').as_str());
            let b: String = to_ascii_lower(trim_trailing(new_shown, '\\', '/').as_str());
            if c.as_str().unicode_len() > 0 && !same(a.as_str(), b.as_str()) {
                Some(c)
            } else {
                None
            }
        },
        None => None,
    }
}

/// What is known of a font that was just brought along.
pub open spec fn new_record(
    family: Seq<char>,
    source: Seq<char>,
    copy: Seq<char>,
    now: Seq<char>,
) -> JsonV {
    JsonV::Obj(
        seq![
            ("family"@, JsonV::Str(family)),
            ("sourcePath"@, JsonV::Str(source)),
            ("copyPath"@, JsonV::Str(copy)),
            ("importedAt"@, JsonV::Str(now)),
        ],
    )
}

/// The settings with a font that was brought along, and the reply. There is one such font
/// at a time.
pub fn finish_import(s: Json, source: &str, copy: &str, now: &str) -> (out: (Json, Json))
    ensures
        out.0.view() == with_member(
            s.view(),
            "fontImported"@,
            new_record(family_in(source@), source@, copy@, now@),
        ),
        out.1.view() == granted(
            JsonV::Obj(
                seq![
                    ("family"@, JsonV::Str(family_in(source@))),
                    ("copyUrl"@, JsonV::Str(file_url(copy@))),
                ],
            ),
        ),
{
    let family: String = family_of(source);
    let f: Fields = Fields::new().with("family", jtext(family.as_str())).with(
        "sourcePath",
        jtext(source),
    ).with("copyPath", jtext(copy)).with("importedAt", jtext(now));
    assert(f.view() =~= new_record(family_in(source@), source@, copy@, now@)->Obj_0);
    let d: Fields = Fields::new().with("family", jtext(family.as_str())).with(
        "copyUrl",
        jtext(path_to_file_url(copy).as_str()),
    );
    assert(d.view() =~= seq![
        ("family"@, JsonV::Str(family_in(source@))),
        ("copyUrl"@, JsonV::Str(file_url(copy@))),
    ]);
    (set_member(s, "fontImported", f.object()), grant(d.object()))
}

// ------------------------------------------------------------------------ taking it away

/// The members without the first one under a name.
pub open spec fn without_key(m: Seq<(Seq<char>, JsonV)>, key: Seq<char>) -> Seq<
    (Seq<char>, JsonV),
> {
    let i = key_at(m, key, 0);
    if i < m.len() {
        m.remove(i)
    } else {
        m
    }
}

/// The settings without the font that was brought along. Where that font was chosen, the
/// usual one is chosen instead.
pub open spec fn without_brought(s: JsonV, r: JsonV) -> JsonV {
    match s {
        JsonV::Obj(m) => {
            let n = JsonV::Obj(without_key(m, "fontImported"@));
            let current = match member(n, "font"@) {
                Some(f) => match member(f, "family"@) {
                    Some(x) => as_text(x),
                    None => Seq::empty(),
                },
                None => Seq::empty(),
            };
            if current == true_text_or_empty(member(r, "family"@)) {
                let font = match member(n, "font"@) {
                    Some(f) => f,
                    None => JsonV::Obj(Seq::empty()),
                };
                with_member(n, "font"@, with_member(font, "family"@, JsonV::Str("MiSans"@)))
            } else {
                n
            }
        },
        _ => s,
    }
}

/// The members without the first one under a name.
pub fn drop_key(m: &Vec<(String, Json)>, key: &str) -> (out: Vec<(String, Json)>)
    ensures
        members(out@) == without_key(members(m@), key@),
{
    let ghost mv = members(m@);
    let mut out: Vec<(String, Json)> = copy_members(m);
    assert(mv.len() == m@.len());
    assert(members(out@).len() == out@.len());
    let mut i: usize = 0;
    while i < m.len() && !same(m[i].0.as_str(), key)
        invariant
            i <= m@.len(),
            mv == members(m@),
            mv.len() == m@.len(),
            key_at(mv, key@, 0) == key_at(mv, key@, i as int),
        decreases m@.len() - i,
    {
        assert(mv[i as int].0 == m@[i as int].0@);
        i += 1;
    }
    if i < m.len() {
        assert(mv[i as int].0 == m@[i as int].0@);
        let ghost before = members(out@);
        out.remove(i);
        assert(members(out@) =~= before.remove(i as int));
    }
    out
}

/// The settings without the font that was brought along, and the copy of it that is
/// deleted, if there is such a font.
pub fn remove_imported(s: &Json) -> (out: Option<(Json, Option<String>)>)
    ensures
        match out {
            Some(r) => brought_font(s.view()) matches Some(b) && r.0.view() == without_brought(
                s.view(),
                b,
            ) && (match r.1 {
                Some(c) => true_text_or_empty(member(b, "copyPath"@)) == c@ && c@.len() > 0,
                None => true_text_or_empty(member(b, "copyPath"@)).len() == 0,
            }),
            None => brought_font(s.view()) is None,
        },
{
    let r: Json = match read_brought(s) {
        Some(r) => r,
        None => {
            return None;
        },
    };
    let c: String = text_or_empty(r.get("copyPath"));
    let copy: Option<String> = if c.as_str().unicode_len() > 0 {
        Some(c)
    } else {
        None
    };
    match s {
        Json::Obj(m) => {
            proof {
                lemma_view_obj(*m);
            }
            let kept: Vec<(String, Json)> = drop_key(m, "fontImported");
            proof {
                lemma_view_obj(kept);
            }
            let n: Json = Json::Obj(kept);
            let current: String = match n.get("font") {
                Some(f) => match f.get("family") {
                    Some(x) => js_string(x),
                    None => {
                        let none: String = String::new();
                        assert(none@ =~= Seq::empty());
                        none
                    },
                },
                None => {
                    let none: String = String::new();
                    assert(none@ =~= Seq::empty());
                    none
                },
            };
            let own: String = text_or_empty(r.get("family"));
            if same(current.as_str(), own.as_str()) {
                let font: Json = match n.get("font") {
                    Some(f) => copy_json(f),
                    None => {
                        let none: Vec<(String, Json)> = Vec::new();
                        proof {
                            lemma_view_obj(none);
                            assert(members(none@) =~= Seq::empty());
                        }
                        Json::Obj(none)
                    },
                };
                let font: Json = set_member(font, "family", jtext("MiSans"));
                Some((set_member(n, "font", font), copy))
            } else {
                Some((n, copy))
            }
        },
        _ => Some((copy_json(s), copy)),
    }
}

/// The reply to a font that was taken away: whether there was one, and whether its copy
/// was deleted.
pub open spec fn removed_reply(removed: bool, file_deleted: bool) -> JsonV {
    granted(
        JsonV::Obj(
            if removed {
                seq![
                    ("removed"@, JsonV::Bool(true)),
                    ("fileDeleted"@, JsonV::Bool(file_deleted)),
                ]
            } else {
                seq![("removed"@, JsonV::Bool(false))]
            },
        ),
    )
}

/// The reply to a font that was taken away.
pub fn remove_reply(removed: bool, file_deleted: bool) -> (out: Json)
    ensures
        out.view() == removed_reply(removed, file_deleted),
{
    if removed {
        let f: Fields = Fields::new().with("removed", Json::Bool(true)).with(
            "fileDeleted",
            Json::Bool(file_deleted),
        );
        assert(f.view() =~= seq![
            ("removed"@, JsonV::Bool(true)),
            ("fileDeleted"@, JsonV::Bool(file_deleted)),
        ]);
        grant(f.object())
    } else {
        let f: Fields = Fields::new().with("removed", Json::Bool(false));
        assert(f.view() =~= seq![("removed"@, JsonV::Bool(false))]);
        grant(f.object())
    }
}

// ---------------------------------------------------------------------------- choosing one

/// A number held between two whole ones: the usual one where none is given, or zero.
pub open spec fn held_number(v: Option<JsonV>, usual: nat, low: nat, high: nat) -> Seq<char> {
    match number_of(v) {
        Some(n) => if !counts(n) {
            dec(usual)
        } else if whole_part(n) < low || n.negative {
            dec(low)
        } else if whole_part(n) >= high {
            dec(high)
        } else {
            shown_size(n.size->0, false)
        },
        None => dec(usual),
    }
}

pub(crate) fn hold_number(v: Option<&Json>, usual: u64, low: u64, high: u64) -> (out: Json)
    requires
        0 < low <= high <= 10_000,
    ensures
        out.view() == JsonV::Num(
            held_number(
                match v {
                    Some(x) => Some(x.view()),
                    None => None,
                },
                usual as nat,
                low as nat,
                high as nat,
            ),
        ),
{
    match read_number_of(v) {
        Some(x) => {
            if !x.counts() {
                return Json::Num(decimal(usual));
            }
            let n: i64 = x.whole();
            if n < low as i64 || x.negative {
                return Json::Num(decimal(low));
            }
            if n >= high as i64 {
                return Json::Num(decimal(high));
            }
            Json::Num(size_text(x.size, false))
        },
        None => Json::Num(decimal(usual)),
    }
}

/// The font that is chosen: what is asked for, else what was chosen before, else the usual
/// one.
pub open spec fn chosen_family(cfg: JsonV, s: JsonV) -> Seq<char> {
    let before = match member(s, "font"@) {
        Some(JsonV::Obj(m)) => true_text(member(JsonV::Obj(m), "family"@)),
        _ => None,
    };
    plain_family(
        match true_text(member(cfg, "family"@)) {
            Some(t) => t,
            None => match before {
                Some(t) => t,
                None => "MiSans"@,
            },
        },
    )
}

/// What is set for the font: weight and size are held within their limits, and the name
/// can stand in a style.
pub open spec fn chosen_font(cfg: JsonV, s: JsonV) -> JsonV {
    JsonV::Obj(
        seq![
            ("family"@, JsonV::Str(chosen_family(cfg, s))),
            ("weight"@, JsonV::Num(held_number(member(cfg, "weight"@), 400, 100, 1000))),
            ("size"@, JsonV::Num(held_number(member(cfg, "size"@), 16, 12, 24))),
        ],
    )
}

/// The settings with what is set for the font, and the reply.
pub fn save_config(s: Json, cfg: &Json) -> (out: (Json, Json))
    ensures
        out.0.view() == with_member(s.view(), "font"@, chosen_font(cfg.view(), s.view())),
        out.1.view() == granted(chosen_font(cfg.view(), s.view())),
{
    let before: Option<String> = match s.get("font") {
        Some(f) => match f {
            Json::Obj(m) => {
                proof {
                    lemma_view_obj(*m);
                }
                truthy_string(f.get("family"))
            },
            _ => None,
        },
        None => None,
    };
    let family: String = match truthy_string(cfg.get("family")) {
        Some(t) => sanitize_family(t.as_str()),
        None => match before {
            Some(t) => sanitize_family(t.as_str()),
            None => sanitize_family("MiSans"),
        },
    };
    let f: Fields = Fields::new().with("family", jtext(family.as_str())).with(
        "weight",
        hold_number(cfg.get("weight"), 400, 100, 1000),
    ).with("size", hold_number(cfg.get("size"), 16, 12, 24));
    assert(f.view() =~= chosen_font(cfg.view(), s.view())->Obj_0);
    let font: Json = f.object();
    let c: Json = copy_json(&font);
    (set_member(s, "font", font), grant(c))
}

// ------------------------------------------------------------------------------------ laws

/// What is set as the name of a font holds no quote and no backslash, whatever was asked
/// for.
pub proof fn law_family_is_plain(s: Seq<char>)
    ensures
        !plain_family(s).contains('\''),
        !plain_family(s).contains('\\'),
    decreases s.len(),
{
    if s.len() > 0 {
        law_family_is_plain(s.drop_last());
        let before = plain_family(s.drop_last());
        let now = plain_family(s);
        assert forall|i: int| 0 <= i < now.len() implies now[i] != '\'' && now[i] != '\\' by {
            if i < before.len() {
                assert(before.contains(before[i]));
            }
        }
    }
}

/// An address of a file holds only characters that stand for themselves in an address,
/// and percent signs.
pub proof fn law_file_url_is_plain(b: Seq<u8>, n: int, i: int)
    requires
        0 <= n <= b.len(),
        0 <= i < bytes_text(b, n).len(),
    ensures
        ({
            let c = bytes_text(b, n)[i];
            c == '%' || ((c as u32) < 0x80 && plain_byte(c as u8))
        }),
    decreases n,
{
    if n > 0 {
        let before = bytes_text(b, n - 1);
        if i < before.len() {
            law_file_url_is_plain(b, n - 1, i);
        } else {
            assert(bytes_text(b, n)[i] == byte_text(b[n - 1])[i - before.len()]);
        }
    }
}

/// What stands under another name stays where one member is taken away.
pub proof fn lemma_other_key(m: Seq<(Seq<char>, JsonV)>, key: Seq<char>, other: Seq<char>)
    requires
        key != other,
    ensures
        crate::json::first_member(without_key(m, key), other) == crate::json::first_member(
            m,
            other,
        ),
{
    lemma_key_at(m, key, 0);
    let i = key_at(m, key, 0);
    if i < m.len() {
        lemma_removed(m, i, other);
    }
}

proof fn lemma_key_at(m: Seq<(Seq<char>, JsonV)>, key: Seq<char>, i: int)
    requires
        0 <= i <= m.len(),
    ensures
        i <= key_at(m, key, i) <= m.len(),
        key_at(m, key, i) < m.len() ==> m[key_at(m, key, i)].0 == key,
    decreases m.len() - i,
{
    if i < m.len() && m[i].0 != key {
        lemma_key_at(m, key, i + 1);
    }
}

proof fn lemma_removed(m: Seq<(Seq<char>, JsonV)>, i: int, other: Seq<char>)
    requires
        0 <= i < m.len(),
        m[i].0 != other,
    ensures
        crate::json::first_member(m.remove(i), other) == crate::json::first_member(m, other),
    decreases m.len(),
{
    if i == 0 {
        assert(m.remove(0) =~= m.skip(1));
    } else {
        assert(m.remove(i)[0] == m[0]);
        assert(m.remove(i).skip(1) =~= m.skip(1).remove(i - 1));
        if m[0].0 != other {
            lemma_removed(m.skip(1), i - 1, other);
        }
    }
}

/// Whatever is asked for, the number that is set lies between its limits: it is the usual
/// one, one of the limits, or a number between them as it is shown.
pub proof fn law_number_is_held(v: Option<JsonV>, usual: nat, low: nat, high: nat)
    requires
        low <= usual <= high <= i64::MAX,
    ensures
        ({
            let t = held_number(v, usual, low, high);
            ||| t == dec(usual)
            ||| t == dec(low)
            ||| t == dec(high)
            ||| exists|x: (nat, nat)|
                t == #[trigger] shown_size(x, false) && low <= x.0 / x.1 < high
        }),
{
    match number_of(v) {
        Some(n) => {
            if counts(n) && whole_part(n) >= low && !n.negative && whole_part(n) < high {
                let x = n.size->0;
                assert(held_number(v, usual, low, high) == shown_size(x, false));
                assert(low <= x.0 / x.1 < high);
            }
        },
        None => {},
    }
}

} // verus!
