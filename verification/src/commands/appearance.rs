//! The look of the windows: their material, how it follows the power supply, and the
//! images behind them.

use crate::commands::reply::{done, finish, grant, granted, refuse, refused};
use crate::deletable::{long_path, to_long_path};
use crate::json::{text_member, values, Json, JsonV};
use crate::paths::{extension, extension_of, stops};
use crate::protect::{
    is_protected_norm, lexically_normalize, normal_path, protected_norm, rooted, split_root,
    ProtectRoots, Roots,
};
use crate::text::{
    ascii_lowercase, cat, cat3, chars_of, dec, decimal, drop_empty, join, joined, lines, lines_in,
    lowercase, nonempty, pieces, same, string_of, texts, to_ascii_lower, trim, trimmed, white,
};
use crate::url::{digits_value, read_digits, TOO_LARGE};
use crate::value::{bool_member, jarray, jtext, set_member, with_member, Fields};
use vstd::prelude::*;

verus! {

// ---------------------------------------------------------------------------- material

/// Whether a text names a material.
pub open spec fn is_material(m: Seq<char>) -> bool {
    m == "mica"@ || m == "mica-alt"@ || m == "acrylic"@ || m == "thin-acrylic"@ || m == "none"@
}

/// Whether a text names a material.
pub fn known_material(m: &str) -> (out: bool)
    ensures
        out == is_material(m@),
{
    same(m, "mica") || same(m, "mica-alt") || same(m, "acrylic") || same(m, "thin-acrylic")
        || same(m, "none")
}

/// The material that is shown: none where materials are switched off.
pub open spec fn effective(material: Seq<char>, enabled: bool) -> Seq<char> {
    if enabled {
        material
    } else {
        "none"@
    }
}

/// The material that is shown.
pub fn effective_of(material: &str, enabled: bool) -> (out: String)
    ensures
        out@ == effective(material@, enabled),
{
    if enabled {
        material.to_owned()
    } else {
        "none".to_owned()
    }
}

/// Whether a material gives way to a plainer one.
pub open spec fn gives_way(material: Seq<char>, enabled: bool, on_battery: bool) -> bool {
    on_battery && enabled && (material == "acrylic"@ || material == "thin-acrylic"@)
}

/// Whether a material gives way to a plainer one, as the costly ones do on battery.
pub fn should_swap_to_mica(material: &str, material_enabled: bool, on_battery: bool) -> (out: bool)
    ensures
        out == gives_way(material@, material_enabled, on_battery),
{
    on_battery && material_enabled && (same(material, "acrylic") || same(material, "thin-acrylic"))
}

/// Whether materials are switched on by the settings.
pub open spec fn is_enabled(settings: JsonV) -> bool {
    bool_member(settings, "materialEnabled"@) != Some(false)
}

fn enabled_in(settings: &Json) -> (out: bool)
    ensures
        out == is_enabled(settings.view()),
{
    match settings.flag("materialEnabled") {
        Some(b) => b,
        None => true,
    }
}

/// The material that is set, else another; an empty text counts as none where `full`.
pub open spec fn set_material_or(settings: JsonV, other: Seq<char>, full: bool) -> Seq<char> {
    match text_member(settings, "material"@) {
        Some(m) => if full && m.len() == 0 {
            other
        } else {
            m
        },
        None => other,
    }
}

fn material_in(settings: &Json, other: &str, full: bool) -> (out: String)
    ensures
        out@ == set_material_or(settings.view(), other@, full),
{
    match settings.text("material") {
        Some(m) => if full && m.unicode_len() == 0 {
            other.to_owned()
        } else {
            m.to_owned()
        },
        None => other.to_owned(),
    }
}

/// What the settings say of the material.
pub open spec fn material_state(settings: JsonV) -> JsonV {
    JsonV::Obj(
        seq![
            ("material"@, JsonV::Str(set_material_or(settings, "mica-alt"@, true))),
            ("materialEnabled"@, JsonV::Bool(is_enabled(settings))),
        ],
    )
}

/// What the settings say of the material.
pub fn get_material(settings: &Json) -> (out: Json)
    ensures
        out.view() == material_state(settings.view()),
{
    let f: Fields = Fields::new().with(
        "material",
        jtext(material_in(settings, "mica-alt", true).as_str()),
    ).with("materialEnabled", Json::Bool(enabled_in(settings)));
    assert(f.view() =~= material_state(settings.view())->Obj_0);
    f.object()
}

/// The settings with another material, and the material that is shown from now on;
/// otherwise the reply.
pub fn set_material(settings: Json, material: Option<&str>) -> (out: Result<(Json, String), Json>)
    ensures
        match out {
            Ok(r) => material matches Some(m) && is_material(m@) && r.0.view() == with_member(
                settings.view(),
                "material"@,
                JsonV::Str(m@),
            ) && r.1@ == effective(m@, is_enabled(settings.view())),
            Err(r) => (material matches Some(m) ==> !is_material(m@)) && r.view() == refused(
                "未知的材质"@,
            ),
        },
{
    if let Some(m) = material {
        if known_material(m) {
            let enabled: bool = enabled_in(&settings);
            let s: Json = set_member(settings, "material", jtext(m));
            return Ok((s, effective_of(m, enabled)));
        }
    }
    Err(refuse("未知的材质"))
}

/// Whether the system shows a material, given for each window whether it took it: one
/// window at least has, and it is a material at all.
pub open spec fn shown_natively(material: Seq<char>, took: Seq<bool>) -> bool {
    material != "none"@ && took.contains(true)
}

/// Whether the system shows a material, given for each window whether it took it. A window
/// that did not take it leaves the others as they are.
pub fn apply_material_all(material: &str, took: &Vec<bool>) -> (out: bool)
    ensures
        out == shown_natively(material@, took@),
{
    if same(material, "none") {
        return false;
    }
    let mut i: usize = 0;
    while i < took.len()
        invariant
            i <= took@.len(),
            material@ != "none"@,
            forall|k: int| 0 <= k < i ==> !#[trigger] took@[k],
        decreases took@.len() - i,
    {
        if took[i] {
            assert(took@[i as int] == true);
            return true;
        }
        i += 1;
    }
    false
}

/// The reply to another material, given for each window whether it took it.
pub fn material_reply(material: &str, took: &Vec<bool>) -> (out: Json)
    ensures
        out.view() == JsonV::Obj(
            seq![
                ("success"@, JsonV::Bool(true)),
                ("nativeApplied"@, JsonV::Bool(shown_natively(material@, took@))),
            ],
        ),
{
    let native_applied: bool = apply_material_all(material, took);
    let f: Fields = Fields::new().with("success", Json::Bool(true)).with(
        "nativeApplied",
        Json::Bool(native_applied),
    );
    assert(f.view() =~= seq![
        ("success"@, JsonV::Bool(true)),
        ("nativeApplied"@, JsonV::Bool(native_applied)),
    ]);
    f.object()
}

/// The settings with materials switched on or off, and the material that is shown from
/// now on. The material that is set stays set.
pub fn set_material_enabled(settings: Json, enabled: Option<bool>) -> (out: (Json, String, bool))
    ensures
        out.2 == (enabled == Some(true)),
        out.0.view() == with_member(settings.view(), "materialEnabled"@, JsonV::Bool(out.2)),
        out.1@ == effective(set_material_or(settings.view(), "mica"@, true), out.2),
{
    let on: bool = match enabled {
        Some(b) => b,
        None => false,
    };
    let m: String = material_in(&settings, "mica", true);
    let s: Json = set_member(settings, "materialEnabled", Json::Bool(on));
    (s, effective_of(m.as_str(), on), on)
}

/// The reply to the switch.
pub open spec fn enabled_state(material: Seq<char>, on: bool, native: bool) -> JsonV {
    JsonV::Obj(
        seq![
            ("success"@, JsonV::Bool(true)),
            ("material"@, JsonV::Str(material)),
            ("materialEnabled"@, JsonV::Bool(on)),
            ("nativeApplied"@, JsonV::Bool(native)),
        ],
    )
}

/// The reply to the switch, given for each window whether it took the material.
pub fn enabled_reply(material: &str, on: bool, took: &Vec<bool>) -> (out: Json)
    ensures
        out.view() == enabled_state(material@, on, shown_natively(material@, took@)),
{
    let native_applied: bool = apply_material_all(material, took);
    let f: Fields = Fields::new().with("success", Json::Bool(true)).with(
        "material",
        jtext(material),
    ).with("materialEnabled", Json::Bool(on)).with("nativeApplied", Json::Bool(native_applied));
    assert(f.view() =~= enabled_state(material@, on, native_applied)->Obj_0);
    f.object()
}

// ------------------------------------------------------------------------ surroundings

/// Whether the machine runs on battery, by what the system says of the line: only a line
/// that is surely off counts.
pub fn query_on_battery(line: Option<u8>) -> (out: bool)
    ensures
        out == (line == Some(0u8)),
{
    match line {
        Some(s) => s == 0,
        None => false,
    }
}

/// What is known of the surroundings: whether the machine runs on battery, whether the
/// system shows transparency, and whether the material has given way because of that.
#[derive(Debug, Clone, Copy, PartialEq, Eq, Structural)]
pub struct Surroundings {
    pub on_battery: bool,
    pub transparency_on: bool,
    pub swapped: bool,
}

/// What is told of the surroundings.
pub open spec fn env_value(s: Surroundings) -> JsonV {
    JsonV::Obj(
        seq![
            ("onBattery"@, JsonV::Bool(s.on_battery)),
            ("transparencyOff"@, JsonV::Bool(!s.transparency_on)),
        ],
    )
}

/// What is told of the surroundings.
pub fn env_payload(s: &Surroundings) -> (out: Json)
    ensures
        out.view() == env_value(*s),
{
    let f: Fields = Fields::new().with("onBattery", Json::Bool(s.on_battery)).with(
        "transparencyOff",
        Json::Bool(!s.transparency_on),
    );
    assert(f.view() =~= env_value(*s)->Obj_0);
    f.object()
}

/// The material that is put on all windows when the power supply is as it is, and whether
/// it has given way from then on. A window that fills the screen is left alone; only what
/// has given way is put back.
pub open spec fn battery_change(
    s: Surroundings,
    settings: JsonV,
    maximized: bool,
) -> (Option<Seq<char>>, bool) {
    let material = set_material_or(settings, "mica"@, false);
    if gives_way(material, is_enabled(settings), s.on_battery) {
        if maximized {
            (None, s.swapped)
        } else {
            (Some("mica"@), true)
        }
    } else if !s.on_battery && s.swapped {
        if maximized {
            (None, true)
        } else {
            (Some(effective(material, is_enabled(settings))), false)
        }
    } else {
        (None, s.swapped)
    }
}

fn change_for_battery(s: &Surroundings, settings: &Json, maximized: bool) -> (out: (
    Option<String>,
    bool,
))
    ensures
        match out.0 {
            Some(m) => battery_change(*s, settings.view(), maximized).0 == Some(m@),
            None => battery_change(*s, settings.view(), maximized).0 is None,
        },
        out.1 == battery_change(*s, settings.view(), maximized).1,
{
    let enabled: bool = enabled_in(settings);
    let material: String = material_in(settings, "mica", false);
    if should_swap_to_mica(material.as_str(), enabled, s.on_battery) {
        if maximized {
            (None, s.swapped)
        } else {
            (Some("mica".to_owned()), true)
        }
    } else if !s.on_battery && s.swapped {
        if maximized {
            (None, true)
        } else {
            (Some(effective_of(material.as_str(), enabled)), false)
        }
    } else {
        (None, s.swapped)
    }
}

/// What is done when the surroundings change: whether it is told, and the material that
/// is put on all windows.
#[derive(Debug)]
pub struct Reaction {
    pub tell: bool,
    pub apply: Option<String>,
}

/// The surroundings after they were looked at, with what is put on all windows. The
/// material is only touched where the power supply has changed.
pub open spec fn after_look(
    s: Surroundings,
    battery: bool,
    transparency: bool,
    settings: JsonV,
    maximized: bool,
) -> (Surroundings, Option<Seq<char>>) {
    let now = Surroundings { on_battery: battery, transparency_on: transparency, swapped: s.swapped };
    if s.on_battery != battery {
        let c = battery_change(now, settings, maximized);
        (Surroundings { swapped: c.1, ..now }, c.0)
    } else {
        (now, None)
    }
}

impl Surroundings {
    /// The surroundings as they are found at the start, with what is put on all windows.
    pub fn init(battery: bool, transparency: bool, settings: &Json, maximized: bool) -> (out: (
        Self,
        Option<String>,
    ))
        ensures
            ({
                let start = Surroundings {
                    on_battery: battery,
                    transparency_on: transparency,
                    swapped: false,
                };
                let c = battery_change(start, settings.view(), maximized);
                &&& out.0 == Surroundings { swapped: c.1, ..start }
                &&& match out.1 {
                    Some(m) => c.0 == Some(m@),
                    None => c.0 is None,
                }
            }),
    {
        let start: Surroundings = Surroundings {
            on_battery: battery,
            transparency_on: transparency,
            swapped: false,
        };
        let (apply, swapped) = change_for_battery(&start, settings, maximized);
        (
            Surroundings { on_battery: battery, transparency_on: transparency, swapped },
            apply,
        )
    }

    /// Takes in the surroundings when the system says that they have changed.
    pub fn on_power_event(
        &mut self,
        battery: bool,
        transparency: bool,
        settings: &Json,
        maximized: bool,
    ) -> (out: Reaction)
        ensures
            ({
                let r = after_look(*old(self), battery, transparency, settings.view(), maximized);
                &&& *final(self) == r.0
                &&& out.tell == (old(self).on_battery != battery || old(self).transparency_on
                    != transparency)
                &&& match out.apply {
                    Some(m) => r.1 == Some(m@),
                    None => r.1 is None,
                }
            }),
    {
        let battery_changed: bool = self.on_battery != battery;
        let transparency_changed: bool = self.transparency_on != transparency;
        self.on_battery = battery;
        self.transparency_on = transparency;
        if !battery_changed {
            return Reaction { tell: transparency_changed, apply: None };
        }
        let now: Surroundings = Surroundings {
            on_battery: battery,
            transparency_on: transparency,
            swapped: self.swapped,
        };
        let (apply, swapped) = change_for_battery(&now, settings, maximized);
        self.swapped = swapped;
        Reaction { tell: true, apply }
    }
}

/// Where a word starts: the first character at or after `i` that is no white space.
pub open spec fn word_start(s: Seq<char>, i: int) -> int
    decreases s.len() - i,
{
    if i < 0 || i >= s.len() || !white(s[i]) {
        i
    } else {
        word_start(s, i + 1)
    }
}

/// Where a word ends: the first white space at or after `i`.
pub open spec fn word_end(s: Seq<char>, i: int) -> int
    decreases s.len() - i,
{
    if i < 0 || i >= s.len() || white(s[i]) {
        i
    } else {
        word_end(s, i + 1)
    }
}

/// Whether a word is a number in base sixteen.
pub open spec fn hex_word(w: Seq<char>) -> bool {
    w.len() >= 2 && w[0] == '0' && (w[1] == 'x' || w[1] == 'X')
}

/// The first word at or after `i` that is a number in base sixteen.
pub open spec fn hex_after(s: Seq<char>, i: int) -> Option<Seq<char>>
    decreases s.len() - i,
    when 0 <= i
    via hex_after_decreases
{
    let a = word_start(s, i);
    let b = word_end(s, a);
    if a >= s.len() {
        None
    } else if hex_word(s.subrange(a, b)) {
        Some(s.subrange(a, b))
    } else {
        hex_after(s, b)
    }
}

#[via_fn]
proof fn hex_after_decreases(s: Seq<char>, i: int) {
    lemma_word_start(s, i);
    let a = word_start(s, i);
    if a < s.len() {
        lemma_word_end(s, a);
        assert(word_end(s, a) == word_end(s, a + 1));
        lemma_word_end(s, a + 1);
    }
}

proof fn lemma_word_start(s: Seq<char>, i: int)
    requires
        0 <= i,
    ensures
        i <= word_start(s, i),
        i <= s.len() ==> word_start(s, i) <= s.len(),
        word_start(s, i) < s.len() ==> !white(s[word_start(s, i)]),
    decreases s.len() - i,
{
    if i < s.len() && white(s[i]) {
        lemma_word_start(s, i + 1);
    }
}

proof fn lemma_word_end(s: Seq<char>, i: int)
    requires
        0 <= i <= s.len(),
    ensures
        i <= word_end(s, i) <= s.len(),
    decreases s.len() - i,
{
    if i < s.len() && !white(s[i]) {
        lemma_word_end(s, i + 1);
    }
}

/// Whether a number in base sixteen is not zero; what is no number counts as not zero.
pub open spec fn hex_is_on(w: Seq<char>) -> bool {
    let d = w.skip(2);
    let t = if d.len() > 0 && d[0] == '+' {
        d.skip(1)
    } else {
        d
    };
    match digits_value(t, 16, t.len() as int) {
        Some(v) => t.len() == 0 || v >= TOO_LARGE || v != 0,
        None => true,
    }
}

/// What a line says of the setting, if it is about it.
pub open spec fn line_says(line: Seq<char>) -> Option<bool> {
    let a = word_start(line, 0);
    let b = word_end(line, a);
    if a < line.len() && line.subrange(a, b) == "EnableTransparency"@ {
        match hex_after(line, b) {
            Some(w) => Some(hex_is_on(w)),
            None => None,
        }
    } else {
        None
    }
}

/// What the lines from `i` on say of the setting; where they say nothing, it is on.
pub open spec fn lines_say(list: Seq<Seq<char>>, i: int) -> bool
    decreases list.len() - i,
{
    if i < 0 || i >= list.len() {
        true
    } else {
        match line_says(list[i]) {
            Some(b) => b,
            None => lines_say(list, i + 1),
        }
    }
}

fn find_start(v: &Vec<char>, from: usize) -> (out: usize)
    requires
        from <= v@.len(),
    ensures
        out == word_start(v@, from as int),
        from <= out <= v@.len(),
{
    let mut i: usize = from;
    while i < v.len() && v[i].is_whitespace()
        invariant
            from <= i <= v@.len(),
            word_start(v@, from as int) == word_start(v@, i as int),
        decreases v@.len() - i,
    {
        i += 1;
    }
    i
}

fn find_end(v: &Vec<char>, from: usize) -> (out: usize)
    requires
        from <= v@.len(),
    ensures
        out == word_end(v@, from as int),
        from <= out <= v@.len(),
{
    let mut i: usize = from;
    while i < v.len() && !v[i].is_whitespace()
        invariant
            from <= i <= v@.len(),
            word_end(v@, from as int) == word_end(v@, i as int),
        decreases v@.len() - i,
    {
        i += 1;
    }
    i
}

fn find_hex(v: &Vec<char>, from: usize) -> (out: Option<String>)
    requires
        from <= v@.len(),
    ensures
        match out {
            Some(w) => hex_after(v@, from as int) == Some(w@) && w@.len() >= 2,
            None => hex_after(v@, from as int) is None,
        },
{
    let mut i: usize = from;
    loop
        invariant
            from <= i <= v@.len(),
            hex_after(v@, from as int) == hex_after(v@, i as int),
        decreases v@.len() - i,
    {
        let a: usize = find_start(v, i);
        if a == v.len() {
            return None;
        }
        proof {
            lemma_word_start(v@, i as int);
            assert(word_end(v@, a as int) == word_end(v@, a + 1));
            lemma_word_end(v@, a + 1);
        }
        let b: usize = find_end(v, a);
        let w: String = string_of(v, a, b);
        if b - a >= 2 && v[a] == '0' && (v[a + 1] == 'x' || v[a + 1] == 'X') {
            assert(hex_word(w@));
            return Some(w);
        }
        assert(!hex_word(w@));
        i = b;
    }
}

fn read_on(w: &str) -> (out: bool)
    requires
        w@.len() >= 2,
    ensures
        out == hex_is_on(w@),
{
    let v: Vec<char> = chars_of(w);
    let from: usize = if v.len() > 2 && v[2] == '+' {
        3
    } else {
        2
    };
    let ghost d = w@.skip(2);
    let ghost t = if d.len() > 0 && d[0] == '+' {
        d.skip(1)
    } else {
        d
    };
    assert(v@.skip(from as int) =~= t);
    match read_digits(&v, from, 16) {
        Some(n) => from == v.len() || n >= TOO_LARGE || n != 0,
        None => true,
    }
}

fn read_line(line: &str) -> (out: Option<bool>)
    ensures
        out == line_says(line@),
{
    let v: Vec<char> = chars_of(line);
    let a: usize = find_start(&v, 0);
    let b: usize = find_end(&v, a);
    if a == v.len() {
        return None;
    }
    let w: String = string_of(&v, a, b);
    if !same(w.as_str(), "EnableTransparency") {
        return None;
    }
    match find_hex(&v, b) {
        Some(h) => Some(read_on(h.as_str())),
        None => None,
    }
}

/// Whether the system shows transparency, by what the registry tells; it does where
/// nothing is told.
pub fn query_sys_transparency(told: Option<&str>) -> (out: bool)
    ensures
        out == (match told {
            Some(t) => lines_say(lines_in(t@), 0),
            None => true,
        }),
{
    let t: &str = match told {
        Some(t) => t,
        None => {
            return true;
        },
    };
    let list: Vec<String> = lines(t);
    let ghost lv = texts(list@);
    assert(lv.len() == list@.len());
    let mut i: usize = 0;
    while i < list.len()
        invariant
            i <= list@.len(),
            lv == texts(list@),
            lv.len() == list@.len(),
            told == Some(t),
            lv == lines_in(t@),
            lines_say(lv, 0) == lines_say(lv, i as int),
        decreases list@.len() - i,
    {
        assert(lv[i as int] == list@[i as int]@);
        if let Some(b) = read_line(list[i].as_str()) {
            return b;
        }
        i += 1;
    }
    true
}

// -------------------------------------------------------------------------------- images

/// Whether an extension is that of an image that can stand behind a window.
pub open spec fn image_ext(e: Seq<char>) -> bool {
    e == "png"@ || e == "jpg"@ || e == "jpeg"@ || e == "webp"@ || e == "bmp"@ || e == "gif"@
}

/// Whether a name is that of an image that can stand behind a window.
pub open spec fn image_name(name: Seq<char>) -> bool {
    match extension_of(name) {
        Some(e) => image_ext(ascii_lowercase(e)),
        None => false,
    }
}

/// Whether a name is that of an image that can stand behind a window.
pub fn bg_ext_ok(name: &str) -> (out: bool)
    ensures
        out == image_name(name@),
{
    match extension(name) {
        Some(e) => {
            let e: String = to_ascii_lower(e.as_str());
            same(e.as_str(), "png") || same(e.as_str(), "jpg") || same(e.as_str(), "jpeg") || same(
                e.as_str(),
                "webp",
            ) || same(e.as_str(), "bmp") || same(e.as_str(), "gif")
        },
        None => false,
    }
}

/// How large an image may be.
pub const MAX_BG_BYTES: u64 = 52_428_800;

/// The name of the copy of an image that is taken in at a moment.
pub open spec fn copy_name(src: Seq<char>, now: nat) -> Seq<char> {
    "bg_"@ + dec(now) + match extension_of(src) {
        Some(e) => "."@ + ascii_lowercase(e),
        None => ".png"@,
    }
}

/// The name of the copy of an image that is taken in at a moment, given the size of the
/// image or why it cannot be told; otherwise the reply.
pub fn import_gate(file_name: &str, size: &Result<u64, String>, now: u64) -> (out: Result<
    String,
    Json,
>)
    ensures
        match out {
            Ok(n) => image_name(file_name@) && (size matches Ok(s) && *s <= MAX_BG_BYTES) && n@
                == copy_name(file_name@, now as nat),
            Err(r) => if !image_name(file_name@) {
                r.view() == refused("所选文件不是受支持的图片格式"@)
            } else {
                match size {
                    Err(m) => r.view() == refused(m@),
                    Ok(s) => *s > MAX_BG_BYTES && r.view() == refused(
                        "图片过大（"@ + dec((*s / 1024 / 1024) as nat) + " MB），背景图上限 50 MB"@,
                    ),
                }
            },
        },
{
    if !bg_ext_ok(file_name) {
        return Err(refuse("所选文件不是受支持的图片格式"));
    }
    let n: u64 = match size {
        Ok(n) => *n,
        Err(m) => {
            return Err(refuse(m.as_str()));
        },
    };
    if n > MAX_BG_BYTES {
        let mb: String = decimal(n / 1024 / 1024);
        return Err(
            refuse(cat3("图片过大（", mb.as_str(), " MB），背景图上限 50 MB").as_str()),
        );
    }
    let ext: String = match extension(file_name) {
        Some(e) => cat(".", to_ascii_lower(e.as_str()).as_str()),
        None => ".png".to_owned(),
    };
    let at: String = decimal(now);
    Ok(cat3("bg_", at.as_str(), ext.as_str()))
}

/// An image as it is listed.
pub open spec fn image_entry(path: Seq<char>, name: Seq<char>) -> JsonV {
    JsonV::Obj(seq![("path"@, JsonV::Str(path)), ("name"@, JsonV::Str(name))])
}

fn make_image(path: &str, name: &str) -> (out: Json)
    ensures
        out.view() == image_entry(path@, name@),
{
    let f: Fields = Fields::new().with("path", jtext(path)).with("name", jtext(name));
    assert(f.view() =~= image_entry(path@, name@)->Obj_0);
    f.object()
}

/// The reply to an image that was taken in, or why it could not be copied.
pub fn import_reply(path: &str, name: &str, failure: &Option<String>) -> (out: Json)
    ensures
        out.view() == (match failure {
            None => granted(image_entry(path@, name@)),
            Some(m) => refused(m@),
        }),
{
    match failure {
        None => grant(make_image(path, name)),
        Some(m) => refuse(m.as_str()),
    }
}

/// The directory that holds a path: its text without the last component.
pub open spec fn parent_of(p: Seq<char>) -> Option<Seq<char>> {
    let (root, all) = rooted(p);
    let named = nonempty(all);
    let list = stops(named, named.len() as int);
    if list.len() == 0 {
        None
    } else {
        let rest = joined(list.drop_last(), "\\"@);
        Some(
            if root.len() == 0 {
                rest
            } else {
                root + "\\"@ + rest
            },
        )
    }
}

/// What two absolute texts for the same path have in common.
pub fn path_key(absolute: &str) -> (out: String)
    ensures
        out@ == lowercase(absolute@),
{
    absolute.to_lowercase()
}

/// The directory that holds a path.
pub fn parent(p: &str) -> (out: Option<String>)
    ensures
        match out {
            Some(d) => parent_of(p@) == Some(d@),
            None => parent_of(p@) is None,
        },
{
    let (root, pieces) = split_root(p);
    let all: Vec<String> = drop_empty(pieces);
    let ghost av = texts(all@);
    assert(av.len() == all@.len());
    let mut list: Vec<String> = Vec::new();
    let mut i: usize = 0;
    assert(texts(list@) =~= Seq::empty());
    while i < all.len()
        invariant
            i <= all@.len(),
            av == texts(all@),
            av.len() == all@.len(),
            texts(list@) == stops(av, i as int),
        decreases all@.len() - i,
    {
        assert(av[i as int] == all@[i as int]@);
        if !same(all[i].as_str(), ".") {
            let s: String = all[i].clone();
            proof {
                crate::text::lemma_texts_push(list@, s);
            }
            list.push(s);
        }
        i += 1;
    }
    assert(texts(list@).len() == list@.len());
    let ghost whole = texts(list@);
    match list.pop() {
        None => None,
        Some(_) => {
            assert(texts(list@) =~= whole.drop_last());
            let rest: String = join(&list, "\\");
            if root.as_str().unicode_len() == 0 {
                Some(rest)
            } else {
                Some(cat3(root.as_str(), "\\", rest.as_str()))
            }
        },
    }
}

/// Whether a path is that of an image right in the directory of the images, given the
/// absolute texts of the directory that holds it and of that of the images.
pub open spec fn in_image_dir(p: Seq<char>, above: Option<Seq<char>>, dir: Seq<char>) -> bool {
    trimmed(p).len() > 0 && image_name(p) && (above matches Some(d) && lowercase(d) == lowercase(
        dir,
    ))
}

/// What stands at a path.
#[derive(Debug, Clone, Copy, PartialEq, Eq, Structural)]
pub enum Standing {
    Missing,
    Link,
    Plain,
}

/// What is done with an image that is to be deleted: nothing, with the reply, or it is
/// moved to the recycle bin.
pub open spec fn delete_choice(
    p: Seq<char>,
    above: Option<Seq<char>>,
    dir: Seq<char>,
    at: Standing,
    long: Option<String>,
    r: Roots,
) -> Option<JsonV> {
    if !in_image_dir(p, above, dir) {
        Some(refused("路径无效"@))
    } else if at == Standing::Link {
        Some(refused("拒绝删除符号链接目标"@))
    } else if at == Standing::Missing {
        Some(done())
    } else if protected_norm(normal_path(long_path(p, long)), r) {
        Some(refused("该路径受保护，已拒绝删除"@))
    } else {
        None
    }
}

/// Whether an image is moved to the recycle bin; otherwise the reply. Given are the
/// absolute texts of the directory that holds it, where there is one, and of that of the
/// images. Nothing may be moved before this was asked.
pub fn bg_delete_gate(
    p: &str,
    above: Option<&str>,
    dir: &str,
    at: Standing,
    long: &Option<String>,
    r: &ProtectRoots,
) -> (out: Result<(), Json>)
    ensures
        ({
            let c = delete_choice(
                p@,
                match above {
                    Some(d) => Some(d@),
                    None => None,
                },
                dir@,
                at,
                *long,
                r.view(),
            );
            match out {
                Ok(_) => c is None,
                Err(e) => c == Some(e.view()),
            }
        }),
{
    if trim(p).as_str().unicode_len() == 0 {
        return Err(refuse("路径无效"));
    }
    let a: String = match above {
        Some(d) => path_key(d),
        None => {
            return Err(refuse("路径无效"));
        },
    };
    let b: String = path_key(dir);
    if !same(a.as_str(), b.as_str()) || !bg_ext_ok(p) {
        return Err(refuse("路径无效"));
    }
    match at {
        Standing::Link => {
            return Err(refuse("拒绝删除符号链接目标"));
        },
        Standing::Missing => {
            return Err(finish());
        },
        Standing::Plain => {},
    }
    if is_protected_norm(lexically_normalize(to_long_path(p, long).as_str()).as_str(), r) {
        return Err(refuse("该路径受保护，已拒绝删除"));
    }
    Ok(())
}

/// The reply to an image that was moved to the recycle bin, or why it could not be.
pub fn bg_delete_reply(failure: &Option<String>) -> (out: Json)
    ensures
        out.view() == (match failure {
            None => done(),
            Some(m) => refused(m@),
        }),
{
    match failure {
        None => finish(),
        Some(m) => refuse(m.as_str()),
    }
}

/// Whether one text comes before another: at the first place where they differ.
pub open spec fn text_less(a: Seq<char>, b: Seq<char>) -> bool
    decreases a.len(),
{
    if b.len() == 0 {
        false
    } else if a.len() == 0 {
        true
    } else if a[0] != b[0] {
        a[0] < b[0]
    } else {
        text_less(a.skip(1), b.skip(1))
    }
}

fn is_less(a: &str, b: &str) -> (out: bool)
    ensures
        out == text_less(a@, b@),
{
    let x: Vec<char> = chars_of(a);
    let y: Vec<char> = chars_of(b);
    let mut i: usize = 0;
    assert(a@.skip(0) =~= a@ && b@.skip(0) =~= b@);
    while i < x.len() && i < y.len() && x[i] == y[i]
        invariant
            i <= x@.len(),
            i <= y@.len(),
            x@ == a@,
            y@ == b@,
            text_less(a@, b@) == text_less(a@.skip(i as int), b@.skip(i as int)),
        decreases x@.len() - i,
    {
        assert(a@.skip(i as int).skip(1) =~= a@.skip(i + 1));
        assert(b@.skip(i as int).skip(1) =~= b@.skip(i + 1));
        i += 1;
    }
    if i == y.len() {
        false
    } else if i == x.len() {
        true
    } else {
        x[i] < y[i]
    }
}

/// An image: where it is and what it is called.
#[derive(Debug)]
pub struct Image {
    pub path: String,
    pub name: String,
}

/// The values of images.
pub open spec fn image_views(v: Seq<Image>) -> Seq<(Seq<char>, Seq<char>)> {
    Seq::new(v.len(), |i: int| (v[i].path@, v[i].name@))
}

/// The position before which an image is put into a list: that of the first one with a
/// smaller name, at or after `i`.
pub open spec fn place_for(
    list: Seq<(Seq<char>, Seq<char>)>,
    name: Seq<char>,
    i: int,
) -> int
    decreases list.len() - i,
{
    if i < 0 || i >= list.len() || text_less(list[i].1, name) {
        i
    } else {
        place_for(list, name, i + 1)
    }
}

/// The images among the first `n` entries, the largest names first.
pub open spec fn images_sorted(
    all: Seq<(Seq<char>, Seq<char>)>,
    n: int,
) -> Seq<(Seq<char>, Seq<char>)>
    decreases n,
{
    if n <= 0 {
        Seq::empty()
    } else {
        let before = images_sorted(all, n - 1);
        if image_name(all[n - 1].1) {
            before.insert(place_for(before, all[n - 1].1, 0), all[n - 1])
        } else {
            before
        }
    }
}

/// The reply with the images.
pub open spec fn images_reply(list: Seq<(Seq<char>, Seq<char>)>) -> JsonV {
    granted(JsonV::Arr(Seq::new(list.len(), |i: int| image_entry(list[i].0, list[i].1))))
}

fn sort_images(files: Vec<Image>) -> (out: Vec<Image>)
    ensures
        image_views(out@) == images_sorted(image_views(files@), files@.len() as int),
{
    let ghost fv = image_views(files@);
    let mut out: Vec<Image> = Vec::new();
    let mut i: usize = 0;
    assert(image_views(out@) =~= Seq::empty());
    while i < files.len()
        invariant
            i <= files@.len(),
            fv == image_views(files@),
            image_views(out@) == images_sorted(fv, i as int),
        decreases files@.len() - i,
    {
        assert(fv[i as int] == (files@[i as int].path@, files@[i as int].name@));
        if bg_ext_ok(files[i].name.as_str()) {
            let ghost ov = image_views(out@);
            assert(ov.len() == out@.len());
            let mut k: usize = 0;
            while k < out.len() && !is_less(out[k].name.as_str(), files[i].name.as_str())
                invariant
                    k <= out@.len(),
                    i < files@.len(),
                    ov == image_views(out@),
                    ov.len() == out@.len(),
                    place_for(ov, files@[i as int].name@, 0) == place_for(
                        ov,
                        files@[i as int].name@,
                        k as int,
                    ),
                decreases out@.len() - k,
            {
                assert(ov[k as int].1 == out@[k as int].name@);
                k += 1;
            }
            proof {
                if k < out@.len() {
                    assert(ov[k as int].1 == out@[k as int].name@);
                }
            }
            let e: Image = Image { path: files[i].path.clone(), name: files[i].name.clone() };
            out.insert(k, e);
            assert(image_views(out@) =~= ov.insert(k as int, (e.path@, e.name@)));
        }
        i += 1;
    }
    out
}

/// The reply with the images among the files of the directory, the last ones first.
pub fn bg_list(files: Vec<Image>) -> (out: Json)
    ensures
        out.view() == images_reply(images_sorted(image_views(files@), files@.len() as int)),
{
    let list: Vec<Image> = sort_images(files);
    let ghost lv = image_views(list@);
    let mut v: Vec<Json> = Vec::new();
    let mut i: usize = 0;
    while i < list.len()
        invariant
            i <= list@.len(),
            lv == image_views(list@),
            v@.len() == i,
            forall|k: int|
                0 <= k < i ==> (#[trigger] v@[k]).view() == image_entry(lv[k].0, lv[k].1),
        decreases list@.len() - i,
    {
        v.push(make_image(list[i].path.as_str(), list[i].name.as_str()));
        i += 1;
    }
    assert(values(v@) =~= Seq::new(lv.len(), |i: int| image_entry(lv[i].0, lv[i].1)));
    grant(jarray(v))
}

// --------------------------------------------------------------------------------- laws

/// Going on battery and back leaves the windows with the material that is set, unless one
/// of them filled the screen meanwhile.
pub proof fn law_battery_and_back(s: Surroundings, transparency: bool, settings: JsonV)
    requires
        !s.on_battery,
        !s.swapped,
        gives_way(set_material_or(settings, "mica"@, false), is_enabled(settings), true),
    ensures
        ({
            let a = after_look(s, true, transparency, settings, false);
            let b = after_look(a.0, false, transparency, settings, false);
            &&& a.1 == Some("mica"@)
            &&& b.1 == Some(effective(set_material_or(settings, "mica"@, false), true))
            &&& !b.0.swapped
        }),
{
}

/// What was not changed because of the power supply is not put back because of it.
pub proof fn law_only_own_change_is_undone(
    s: Surroundings,
    transparency: bool,
    settings: JsonV,
    maximized: bool,
)
    requires
        !s.swapped,
    ensures
        after_look(s, false, transparency, settings, maximized).1 is None,
{
}

/// A window that fills the screen is left alone.
pub proof fn law_full_screen_is_left_alone(
    s: Surroundings,
    battery: bool,
    transparency: bool,
    settings: JsonV,
)
    ensures
        after_look(s, battery, transparency, settings, true).1 is None,
        after_look(s, battery, transparency, settings, true).0.swapped == s.swapped,
{
}

/// The images are listed with the largest names first.
pub proof fn law_images_in_order(all: Seq<(Seq<char>, Seq<char>)>, n: int, i: int, j: int)
    requires
        0 <= n <= all.len(),
        0 <= i < j < images_sorted(all, n).len(),
    ensures
        !text_less(images_sorted(all, n)[i].1, images_sorted(all, n)[j].1),
    decreases n,
{
    if n > 0 && image_name(all[n - 1].1) {
        let before = images_sorted(all, n - 1);
        let name = all[n - 1].1;
        let p = place_for(before, name, 0);
        lemma_place_for(before, name, 0);
        let now = images_sorted(all, n);
        assert(now == before.insert(p, all[n - 1]));
        let a = if i < p {
            i
        } else {
            i - 1
        };
        let b = if j < p {
            j
        } else {
            j - 1
        };
        if i != p && j != p {
            assert(now[i] == before[a] && now[j] == before[b]);
            law_images_in_order(all, n - 1, a, b);
        } else if i == p {
            assert(now[j] == before[b]);
            lemma_not_both(before[p].1, name);
            if b > p {
                law_images_in_order(all, n - 1, p, b);
                lemma_chain(before[b].1, before[p].1, name);
            } else {
                lemma_not_both(before[p].1, name);
            }
        } else {
            assert(now[i] == before[i]);
        }
    } else if n > 0 {
        law_images_in_order(all, n - 1, i, j);
    }
}

proof fn lemma_place_for(list: Seq<(Seq<char>, Seq<char>)>, name: Seq<char>, i: int)
    requires
        0 <= i <= list.len(),
    ensures
        i <= place_for(list, name, i) <= list.len(),
        forall|k: int| i <= k < place_for(list, name, i) ==> !text_less((#[trigger] list[k]).1, name),
        place_for(list, name, i) < list.len() ==> text_less(
            list[place_for(list, name, i)].1,
            name,
        ),
    decreases list.len() - i,
{
    if i < list.len() && !text_less(list[i].1, name) {
        lemma_place_for(list, name, i + 1);
    }
}

/// Of two texts at most one comes before the other.
proof fn lemma_not_both(a: Seq<char>, b: Seq<char>)
    ensures
        !(text_less(a, b) && text_less(b, a)),
    decreases a.len(),
{
    if a.len() > 0 && b.len() > 0 && a[0] == b[0] {
        lemma_not_both(a.skip(1), b.skip(1));
    }
}

/// Where `a` does not come behind `b`, and `b` comes before `c`, `c` does not come before
/// `a`.
proof fn lemma_chain(a: Seq<char>, b: Seq<char>, c: Seq<char>)
    requires
        !text_less(b, a),
        text_less(b, c),
    ensures
        !text_less(c, a),
    decreases a.len(),
{
    if a.len() > 0 && b.len() > 0 && c.len() > 0 {
        if a[0] == b[0] && b[0] == c[0] {
            lemma_chain(a.skip(1), b.skip(1), c.skip(1));
        }
    }
}

/// A path that leads out of the directory of the images is never deleted.
pub proof fn law_only_direct_children(
    p: Seq<char>,
    above: Option<Seq<char>>,
    dir: Seq<char>,
    at: Standing,
    long: Option<String>,
    r: Roots,
)
    requires
        delete_choice(p, above, dir, at, long, r) is None,
    ensures
        above matches Some(d) && lowercase(d) == lowercase(dir),
        !protected_norm(normal_path(long_path(p, long)), r),
{
}

} // verus!
