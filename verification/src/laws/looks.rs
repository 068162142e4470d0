//! Materials, images behind windows, and fonts.

use crate::commands::appearance::{
    after_look, copy_name as image_copy, delete_choice, effective, enabled_state, env_value,
    gives_way, image_entry, image_ext, image_name, images_sorted, is_enabled, is_material,
    line_says, lines_say, material_state, place_for, set_material_or, shown_natively, Standing,
    Surroundings,
};
use crate::commands::fonts::{
    brought_entry, brought_font, byte_text, bytes_text, chosen_family, chosen_font, default_font,
    file_url, font_head, font_settings, held_number, import_refusal, new_record, old_copy,
    path_form, plain_byte, plain_family, plain_list, removed_reply, true_text, true_text_or_empty,
    upper_digit, without_brought, without_key, SystemFonts,
};
use crate::json::{member, text_member, JsonV};
use crate::laws::object::lemma_member_at;
use crate::protect::{normal_path, protected_norm, Roots};
use crate::text::{ascii_lowercase, dec, lowercase, trimmed};
use crate::value::{bool_member, law_set_member, with_member};
use vstd::prelude::*;

verus! {

proof fn lemma_look_keys()
    ensures
        "success"@ != "material"@,
        "success"@ != "materialEnabled"@,
        "success"@ != "nativeApplied"@,
        "success"@ != "onBattery"@,
        "success"@ != "transparencyOff"@,
        "success"@ != "path"@,
        "success"@ != "name"@,
        "material"@ != "materialEnabled"@,
        "material"@ != "nativeApplied"@,
        "material"@ != "onBattery"@,
        "material"@ != "transparencyOff"@,
        "material"@ != "path"@,
        "material"@ != "name"@,
        "materialEnabled"@ != "nativeApplied"@,
        "materialEnabled"@ != "onBattery"@,
        "materialEnabled"@ != "transparencyOff"@,
        "materialEnabled"@ != "path"@,
        "materialEnabled"@ != "name"@,
        "nativeApplied"@ != "onBattery"@,
        "nativeApplied"@ != "transparencyOff"@,
        "nativeApplied"@ != "path"@,
        "nativeApplied"@ != "name"@,
        "onBattery"@ != "transparencyOff"@,
        "onBattery"@ != "path"@,
        "onBattery"@ != "name"@,
        "transparencyOff"@ != "path"@,
        "transparencyOff"@ != "name"@,
        "path"@ != "name"@,
{
    reveal_strlit("success");
    reveal_strlit("material");
    reveal_strlit("materialEnabled");
    reveal_strlit("nativeApplied");
    reveal_strlit("onBattery");
    reveal_strlit("transparencyOff");
    reveal_strlit("path");
    reveal_strlit("name");
    assert("success"@.len() == 7);
    assert("material"@.len() == 8);
    assert("materialEnabled"@.len() == 15);
    assert("nativeApplied"@.len() == 13);
    assert("onBattery"@.len() == 9);
    assert("transparencyOff"@.len() == 15);
    assert("path"@.len() == 4);
    assert("name"@.len() == 4);
    assert("materialEnabled"@[0] != "transparencyOff"@[0]);
    assert("path"@[0] != "name"@[0]);
}

proof fn lemma_font_keys()
    ensures
        "family"@ != "cssStack"@,
        "family"@ != "available"@,
        "family"@ != "builtin"@,
        "family"@ != "imported"@,
        "family"@ != "copyUrl"@,
        "family"@ != "sourcePath"@,
        "family"@ != "copyPath"@,
        "family"@ != "importedAt"@,
        "family"@ != "weight"@,
        "family"@ != "size"@,
        "family"@ != "removed"@,
        "family"@ != "fileDeleted"@,
        "family"@ != "success"@,
        "family"@ != "data"@,
        "family"@ != "font"@,
        "family"@ != "fontImported"@,
        "cssStack"@ != "available"@,
        "cssStack"@ != "builtin"@,
        "cssStack"@ != "imported"@,
        "cssStack"@ != "copyUrl"@,
        "cssStack"@ != "sourcePath"@,
        "cssStack"@ != "copyPath"@,
        "cssStack"@ != "importedAt"@,
        "cssStack"@ != "weight"@,
        "cssStack"@ != "size"@,
        "cssStack"@ != "removed"@,
        "cssStack"@ != "fileDeleted"@,
        "cssStack"@ != "success"@,
        "cssStack"@ != "data"@,
        "cssStack"@ != "font"@,
        "cssStack"@ != "fontImported"@,
        "available"@ != "builtin"@,
        "available"@ != "imported"@,
        "available"@ != "copyUrl"@,
        "available"@ != "sourcePath"@,
        "available"@ != "copyPath"@,
        "available"@ != "importedAt"@,
        "available"@ != "weight"@,
        "available"@ != "size"@,
        "available"@ != "removed"@,
        "available"@ != "fileDeleted"@,
        "available"@ != "success"@,
        "available"@ != "data"@,
        "available"@ != "font"@,
        "available"@ != "fontImported"@,
        "builtin"@ != "imported"@,
        "builtin"@ != "copyUrl"@,
        "builtin"@ != "sourcePath"@,
        "builtin"@ != "copyPath"@,
        "builtin"@ != "importedAt"@,
        "builtin"@ != "weight"@,
        "builtin"@ != "size"@,
        "builtin"@ != "removed"@,
        "builtin"@ != "fileDeleted"@,
        "builtin"@ != "success"@,
        "builtin"@ != "data"@,
        "builtin"@ != "font"@,
        "builtin"@ != "fontImported"@,
        "imported"@ != "copyUrl"@,
        "imported"@ != "sourcePath"@,
        "imported"@ != "copyPath"@,
        "imported"@ != "importedAt"@,
        "imported"@ != "weight"@,
        "imported"@ != "size"@,
        "imported"@ != "removed"@,
        "imported"@ != "fileDeleted"@,
        "imported"@ != "success"@,
        "imported"@ != "data"@,
        "imported"@ != "font"@,
        "imported"@ != "fontImported"@,
        "copyUrl"@ != "sourcePath"@,
        "copyUrl"@ != "copyPath"@,
        "copyUrl"@ != "importedAt"@,
        "copyUrl"@ != "weight"@,
        "copyUrl"@ != "size"@,
        "copyUrl"@ != "removed"@,
        "copyUrl"@ != "fileDeleted"@,
        "copyUrl"@ != "success"@,
        "copyUrl"@ != "data"@,
        "copyUrl"@ != "font"@,
        "copyUrl"@ != "fontImported"@,
        "sourcePath"@ != "copyPath"@,
        "sourcePath"@ != "importedAt"@,
        "sourcePath"@ != "weight"@,
        "sourcePath"@ != "size"@,
        "sourcePath"@ != "removed"@,
        "sourcePath"@ != "fileDeleted"@,
        "sourcePath"@ != "success"@,
        "sourcePath"@ != "data"@,
        "sourcePath"@ != "font"@,
        "sourcePath"@ != "fontImported"@,
        "copyPath"@ != "importedAt"@,
        "copyPath"@ != "weight"@,
        "copyPath"@ != "size"@,
        "copyPath"@ != "removed"@,
        "copyPath"@ != "fileDeleted"@,
        "copyPath"@ != "success"@,
        "copyPath"@ != "data"@,
        "copyPath"@ != "font"@,
        "copyPath"@ != "fontImported"@,
        "importedAt"@ != "weight"@,
        "importedAt"@ != "size"@,
        "importedAt"@ != "removed"@,
        "importedAt"@ != "fileDeleted"@,
        "importedAt"@ != "success"@,
        "importedAt"@ != "data"@,
        "importedAt"@ != "font"@,
        "importedAt"@ != "fontImported"@,
        "weight"@ != "size"@,
        "weight"@ != "removed"@,
        "weight"@ != "fileDeleted"@,
        "weight"@ != "success"@,
        "weight"@ != "data"@,
        "weight"@ != "font"@,
        "weight"@ != "fontImported"@,
        "size"@ != "removed"@,
        "size"@ != "fileDeleted"@,
        "size"@ != "success"@,
        "size"@ != "data"@,
        "size"@ != "font"@,
        "size"@ != "fontImported"@,
        "removed"@ != "fileDeleted"@,
        "removed"@ != "success"@,
        "removed"@ != "data"@,
        "removed"@ != "font"@,
        "removed"@ != "fontImported"@,
        "fileDeleted"@ != "success"@,
        "fileDeleted"@ != "data"@,
        "fileDeleted"@ != "font"@,
        "fileDeleted"@ != "fontImported"@,
        "success"@ != "data"@,
        "success"@ != "font"@,
        "success"@ != "fontImported"@,
        "data"@ != "font"@,
        "data"@ != "fontImported"@,
        "font"@ != "fontImported"@,
{
    reveal_strlit("family");
    reveal_strlit("cssStack");
    reveal_strlit("available");
    reveal_strlit("builtin");
    reveal_strlit("imported");
    reveal_strlit("copyUrl");
    reveal_strlit("sourcePath");
    reveal_strlit("copyPath");
    reveal_strlit("importedAt");
    reveal_strlit("weight");
    reveal_strlit("size");
    reveal_strlit("removed");
    reveal_strlit("fileDeleted");
    reveal_strlit("success");
    reveal_strlit("data");
    reveal_strlit("font");
    reveal_strlit("fontImported");
    assert("family"@.len() == 6);
    assert("cssStack"@.len() == 8);
    assert("available"@.len() == 9);
    assert("builtin"@.len() == 7);
    assert("imported"@.len() == 8);
    assert("copyUrl"@.len() == 7);
    assert("sourcePath"@.len() == 10);
    assert("copyPath"@.len() == 8);
    assert("importedAt"@.len() == 10);
    assert("weight"@.len() == 6);
    assert("size"@.len() == 4);
    assert("removed"@.len() == 7);
    assert("fileDeleted"@.len() == 11);
    assert("success"@.len() == 7);
    assert("data"@.len() == 4);
    assert("font"@.len() == 4);
    assert("fontImported"@.len() == 12);
    assert("family"@[0] != "weight"@[0]);
    assert("cssStack"@[0] != "imported"@[0]);
    assert("cssStack"@[1] != "copyPath"@[1]);
    assert("builtin"@[0] != "copyUrl"@[0]);
    assert("builtin"@[0] != "removed"@[0]);
    assert("builtin"@[0] != "success"@[0]);
    assert("imported"@[0] != "copyPath"@[0]);
    assert("copyUrl"@[0] != "removed"@[0]);
    assert("copyUrl"@[0] != "success"@[0]);
    assert("sourcePath"@[0] != "importedAt"@[0]);
    assert("size"@[0] != "data"@[0]);
    assert("size"@[0] != "font"@[0]);
    assert("removed"@[0] != "success"@[0]);
    assert("data"@[0] != "font"@[0]);
}

proof fn lemma_material_texts()
    ensures
        "mica"@ != "mica-alt"@,
        "mica"@ != "acrylic"@,
        "mica"@ != "thin-acrylic"@,
        "mica"@ != "none"@,
        "mica-alt"@ != "acrylic"@,
        "mica-alt"@ != "thin-acrylic"@,
        "mica-alt"@ != "none"@,
        "acrylic"@ != "thin-acrylic"@,
        "acrylic"@ != "none"@,
        "thin-acrylic"@ != "none"@,
{
    reveal_strlit("mica");
    reveal_strlit("mica-alt");
    reveal_strlit("acrylic");
    reveal_strlit("thin-acrylic");
    reveal_strlit("none");
    assert("mica"@.len() == 4);
    assert("mica-alt"@.len() == 8);
    assert("acrylic"@.len() == 7);
    assert("thin-acrylic"@.len() == 12);
    assert("none"@.len() == 4);
    assert("mica"@[0] != "none"@[0]);
}

proof fn lemma_image_texts()
    ensures
        "png"@ != "jpg"@,
        "png"@ != "jpeg"@,
        "png"@ != "webp"@,
        "png"@ != "bmp"@,
        "png"@ != "gif"@,
        "png"@ != "svg"@,
        "png"@ != "exe"@,
        "jpg"@ != "jpeg"@,
        "jpg"@ != "webp"@,
        "jpg"@ != "bmp"@,
        "jpg"@ != "gif"@,
        "jpg"@ != "svg"@,
        "jpg"@ != "exe"@,
        "jpeg"@ != "webp"@,
        "jpeg"@ != "bmp"@,
        "jpeg"@ != "gif"@,
        "jpeg"@ != "svg"@,
        "jpeg"@ != "exe"@,
        "webp"@ != "bmp"@,
        "webp"@ != "gif"@,
        "webp"@ != "svg"@,
        "webp"@ != "exe"@,
        "bmp"@ != "gif"@,
        "bmp"@ != "svg"@,
        "bmp"@ != "exe"@,
        "gif"@ != "svg"@,
        "gif"@ != "exe"@,
        "svg"@ != "exe"@,
{
    reveal_strlit("png");
    reveal_strlit("jpg");
    reveal_strlit("jpeg");
    reveal_strlit("webp");
    reveal_strlit("bmp");
    reveal_strlit("gif");
    reveal_strlit("svg");
    reveal_strlit("exe");
    assert("png"@.len() == 3);
    assert("jpg"@.len() == 3);
    assert("jpeg"@.len() == 4);
    assert("webp"@.len() == 4);
    assert("bmp"@.len() == 3);
    assert("gif"@.len() == 3);
    assert("svg"@.len() == 3);
    assert("exe"@.len() == 3);
    assert("png"@[0] != "jpg"@[0]);
    assert("png"@[0] != "bmp"@[0]);
    assert("png"@[0] != "gif"@[0]);
    assert("png"@[0] != "svg"@[0]);
    assert("png"@[0] != "exe"@[0]);
    assert("jpg"@[0] != "bmp"@[0]);
    assert("jpg"@[0] != "gif"@[0]);
    assert("jpg"@[0] != "svg"@[0]);
    assert("jpg"@[0] != "exe"@[0]);
    assert("jpeg"@[0] != "webp"@[0]);
    assert("bmp"@[0] != "gif"@[0]);
    assert("bmp"@[0] != "svg"@[0]);
    assert("bmp"@[0] != "exe"@[0]);
    assert("gif"@[0] != "svg"@[0]);
    assert("gif"@[0] != "exe"@[0]);
    assert("svg"@[0] != "exe"@[0]);
}


// ----------------------------------------------------------------------------- materials

/// The five materials are materials, and nothing else is.
pub proof fn law_materials(m: Seq<char>)
    ensures
        is_material("mica"@) && is_material("mica-alt"@) && is_material("acrylic"@) && is_material(
            "thin-acrylic"@,
        ) && is_material("none"@),
        is_material(m) ==> m == "mica"@ || m == "mica-alt"@ || m == "acrylic"@ || m
            == "thin-acrylic"@ || m == "none"@,
{
}

/// Only where materials are on and the machine runs on its battery, and only the two that cost
/// most, a material gives way.
pub proof fn law_gives_way(enabled: bool, on_battery: bool)
    ensures
        gives_way("acrylic"@, enabled, on_battery) == (enabled && on_battery),
        gives_way("thin-acrylic"@, enabled, on_battery) == (enabled && on_battery),
        !gives_way("mica"@, enabled, on_battery),
        !gives_way("mica-alt"@, enabled, on_battery),
        !gives_way("none"@, enabled, on_battery),
{
    lemma_material_texts();
}

/// Nothing is shown where materials are switched off; they are on unless the settings say
/// otherwise.
pub proof fn law_material_is_shown(material: Seq<char>, settings: JsonV)
    ensures
        effective(material, true) == material,
        effective(material, false) == "none"@,
        bool_member(settings, "materialEnabled"@) == Some(false) <==> !is_enabled(settings),
        text_member(settings, "material"@) matches Some(m) && m.len() > 0 ==> set_material_or(
            settings,
            "mica"@,
            true,
        ) == text_member(settings, "material"@)->0,
        text_member(settings, "material"@) is None ==> set_material_or(settings, "mica"@, true)
            == "mica"@,
{
}

/// What is told of the material: what is set, and whether materials are on.
pub proof fn law_material_is_told(settings: JsonV)
    ensures
        bool_member(material_state(settings), "materialEnabled"@) == Some(is_enabled(settings)),
        text_member(settings, "material"@) matches Some(m) && m.len() > 0 ==> text_member(
            material_state(settings),
            "material"@,
        ) == text_member(settings, "material"@),
        text_member(settings, "material"@) is None ==> text_member(
            material_state(settings),
            "material"@,
        ) == Some("mica-alt"@),
{
    lemma_look_keys();
    let m = material_state(settings)->Obj_0;
    lemma_member_at(m, 0);
    lemma_member_at(m, 1);
}

/// What is told of the switch.
pub proof fn law_switch_is_told(material: Seq<char>, on: bool, native: bool)
    ensures
        text_member(enabled_state(material, on, native), "material"@) == Some(material),
        bool_member(enabled_state(material, on, native), "materialEnabled"@) == Some(on),
        bool_member(enabled_state(material, on, native), "nativeApplied"@) == Some(native),
{
    lemma_look_keys();
    let m = enabled_state(material, on, native)->Obj_0;
    lemma_member_at(m, 1);
    lemma_member_at(m, 2);
    lemma_member_at(m, 3);
}

/// The system shows a material where it is one and a window has taken it.
pub proof fn law_shown_natively(material: Seq<char>, took: Seq<bool>, i: int)
    ensures
        !shown_natively("none"@, took),
        material != "none"@ && 0 <= i < took.len() && took[i] ==> shown_natively(material, took),
        (forall|k: int| 0 <= k < took.len() ==> !(#[trigger] took[k])) ==> !shown_natively(
            material,
            took,
        ),
{
    if 0 <= i < took.len() && took[i] {
        assert(took.contains(true));
    }
}

/// What is told of the surroundings.
pub proof fn law_surroundings_are_told(s: Surroundings)
    ensures
        bool_member(env_value(s), "onBattery"@) == Some(s.on_battery),
        bool_member(env_value(s), "transparencyOff"@) == Some(!s.transparency_on),
{
    lemma_look_keys();
    let m = env_value(s)->Obj_0;
    lemma_member_at(m, 0);
    lemma_member_at(m, 1);
}

/// The surroundings are what was last seen, and the material is touched only where the power
/// supply has changed.
pub proof fn law_after_look(
    s: Surroundings,
    battery: bool,
    transparency: bool,
    settings: JsonV,
    maximized: bool,
)
    ensures
        after_look(s, battery, transparency, settings, maximized).0.on_battery == battery,
        after_look(s, battery, transparency, settings, maximized).0.transparency_on == transparency,
        s.on_battery == battery ==> after_look(s, battery, transparency, settings, maximized).1 is None,
{
}

/// What the system says of transparency is what its line says, and on where there is none.
pub proof fn law_transparency(list: Seq<Seq<char>>, from: int, i: int)
    requires
        0 <= from <= i <= list.len(),
        forall|j: int| from <= j < i ==> line_says(#[trigger] list[j]) is None,
    ensures
        i < list.len() && line_says(list[i]) is Some ==> lines_say(list, from) == line_says(list[i])->0,
        i == list.len() ==> lines_say(list, from),
    decreases i - from,
{
    if from < i {
        law_transparency(list, from + 1, i);
    }
}

// -------------------------------------------------------------------------------- images

/// The images that can stand behind a window are known by their extension; nothing else can.
pub proof fn law_image_names(name: Seq<char>)
    ensures
        image_ext("png"@) && image_ext("jpg"@) && image_ext("jpeg"@) && image_ext("webp"@)
            && image_ext("bmp"@) && image_ext("gif"@),
        !image_ext("svg"@) && !image_ext("exe"@),
        crate::paths::extension_of(name) is None ==> !image_name(name),
        crate::paths::extension_of(name) matches Some(e) ==> image_name(name) == image_ext(
            ascii_lowercase(e),
        ),
{
    lemma_image_texts();
}

/// An image is deleted exactly where it lies right in the directory of the images, is one, is
/// there and no link, and is not protected.
pub proof fn law_image_is_deleted(
    p: Seq<char>,
    above: Option<Seq<char>>,
    dir: Seq<char>,
    at: Standing,
    long: Option<String>,
    r: Roots,
)
    ensures
        delete_choice(p, above, dir, at, long, r) is None <==> trimmed(p).len() > 0 && image_name(p)
            && above is Some && lowercase(above->0) == lowercase(dir) && at == Standing::Plain
            && !protected_norm(normal_path(crate::deletable::long_path(p, long)), r),
{
}

/// An image is listed with its path and its name.
pub proof fn law_image_is_listed(path: Seq<char>, name: Seq<char>)
    ensures
        text_member(image_entry(path, name), "path"@) == Some(path),
        text_member(image_entry(path, name), "name"@) == Some(name),
{
    lemma_look_keys();
    let m = image_entry(path, name)->Obj_0;
    lemma_member_at(m, 0);
    lemma_member_at(m, 1);
}

proof fn lemma_place_for(list: Seq<(Seq<char>, Seq<char>)>, name: Seq<char>, i: int)
    requires
        0 <= i <= list.len(),
    ensures
        i <= place_for(list, name, i) <= list.len(),
    decreases list.len() - i,
{
    if i < list.len() && !crate::commands::appearance::text_less(list[i].1, name) {
        lemma_place_for(list, name, i + 1);
    }
}

/// Every image is listed, and nothing else.
pub proof fn law_all_images_are_listed(all: Seq<(Seq<char>, Seq<char>)>, n: int, i: int)
    requires
        0 <= i < n <= all.len(),
    ensures
        image_name(all[i].1) ==> images_sorted(all, n).contains(all[i]),
        forall|k: int|
            0 <= k < images_sorted(all, n).len() ==> image_name((#[trigger] images_sorted(all, n)[k]).1),
    decreases n,
{
    let before = images_sorted(all, n - 1);
    let now = images_sorted(all, n);
    let x = all[n - 1];
    let at = place_for(before, x.1, 0);
    lemma_place_for(before, x.1, 0);
    if n > 1 {
        law_all_images_are_listed(
            all,
            n - 1,
            if i < n - 1 {
                i
            } else {
                0
            },
        );
    }
    if image_name(all[i].1) {
        if i == n - 1 {
            assert(now[at] == x);
        } else {
            let k = choose|k: int| 0 <= k < before.len() && before[k] == all[i];
            if image_name(x.1) && k >= at {
                assert(now[k + 1] == all[i]);
            } else {
                assert(now[k] == all[i]);
            }
        }
    }
    assert forall|k: int| 0 <= k < now.len() implies image_name((#[trigger] now[k]).1) by {
        if image_name(x.1) {
            if k < at {
                assert(now[k] == before[k]);
            } else if k > at {
                assert(now[k] == before[k - 1]);
            }
        } else {
            assert(now[k] == before[k]);
        }
    }
}

/// The copy of an image keeps its extension.
pub proof fn law_copy_of_an_image(src: Seq<char>, now: nat)
    ensures
        crate::paths::extension_of(src) matches Some(e) ==> image_copy(src, now) == "bg_"@ + dec(now)
            + ("."@ + ascii_lowercase(e)),
        crate::paths::extension_of(src) is None ==> image_copy(src, now) == "bg_"@ + dec(now) + ".png"@,
{
}

// --------------------------------------------------------------------------------- fonts

/// The name of a font keeps everything but quotes and backslashes.
pub proof fn law_plain_family(s: Seq<char>, c: char)
    ensures
        c != '\'' && c != '\\' ==> plain_family(s.push(c)) == plain_family(s).push(c),
        c == '\'' || c == '\\' ==> plain_family(s.push(c)) == plain_family(s),
{
    assert(s.push(c).drop_last() =~= s);
}

/// A byte of an address that does not stand for itself is written by its two digits in base
/// sixteen.
pub proof fn law_byte_of_an_address(b: u8)
    ensures
        b == 32 ==> byte_text(b) == seq!['%', '2', '0'],
        plain_byte(b) ==> byte_text(b).len() == 1,
        !plain_byte(b) ==> byte_text(b).len() == 3 && byte_text(b)[0] == '%' && byte_text(b)[1]
            == upper_digit((b / 16) as nat) && byte_text(b)[2] == upper_digit((b % 16) as nat),
        upper_digit(0) == '0' && upper_digit(9) == '9' && upper_digit(10) == 'A' && upper_digit(15)
            == 'F',
{
    if b == 32 {
        assert(byte_text(b) =~= seq!['%', '2', '0']);
    }
}

/// The bytes of an address follow each other.
pub proof fn law_bytes_of_an_address(b: Seq<u8>, n: int)
    requires
        0 < n <= b.len(),
    ensures
        bytes_text(b, n) == bytes_text(b, n - 1) + byte_text(b[n - 1]),
        bytes_text(b, 0).len() == 0,
{
}

/// A file is taken for a font exactly by its first four bytes: those of the four formats.
pub proof fn law_font_formats(rest: Seq<u8>)
    ensures
        font_head(seq![0u8, 1u8, 0u8, 0u8] + rest),
        font_head(seq![0x4fu8, 0x54u8, 0x54u8, 0x4fu8] + rest),
        font_head(seq![0x77u8, 0x4fu8, 0x46u8, 0x46u8] + rest),
        font_head(seq![0x77u8, 0x4fu8, 0x46u8, 0x32u8] + rest),
        !font_head(seq![0x4du8, 0x5au8, 0x90u8, 0u8] + rest),
        rest.len() < 4 ==> !font_head(rest),
{
}

/// A font is brought along exactly where its file is there, is not empty, and is a font.
pub proof fn law_font_is_brought(there: bool, size: Option<u64>, head: Seq<u8>)
    ensures
        import_refusal(there, size, head) is None <==> there && size is Some && size->0 > 0
            && font_head(head),
{
}

/// What is set for the font comes before what is usual.
pub proof fn law_font_settings(s: JsonV, m: Seq<(Seq<char>, JsonV)>)
    ensures
        member(s, "font"@) is None ==> text_member(font_settings(s), "family"@) == Some("MiSans"@)
            && member(font_settings(s), "weight"@) == Some(JsonV::Num(dec(400))) && member(
            font_settings(s),
            "size"@,
        ) == Some(JsonV::Num(dec(16))),
{
    lemma_font_keys();
    lemma_member_at(default_font(), 0);
    lemma_member_at(default_font(), 1);
    lemma_member_at(default_font(), 2);
}

/// A font of the system is told as available where it is there; the one that comes along always
/// is.
pub proof fn law_fonts_are_listed(a: SystemFonts)
    ensures
        plain_list(a).len() == 6,
        text_member(plain_list(a)[0], "family"@) == Some("微软雅黑"@) && bool_member(
            plain_list(a)[0],
            "available"@,
        ) == Some(a.yahei),
        text_member(plain_list(a)[1], "family"@) == Some("黑体"@) && bool_member(
            plain_list(a)[1],
            "available"@,
        ) == Some(a.simhei),
        text_member(plain_list(a)[2], "family"@) == Some("宋体"@) && bool_member(
            plain_list(a)[2],
            "available"@,
        ) == Some(a.simsun),
        text_member(plain_list(a)[3], "family"@) == Some("楷体"@) && bool_member(
            plain_list(a)[3],
            "available"@,
        ) == Some(a.simkai),
        text_member(plain_list(a)[4], "family"@) == Some("Times New Roman"@) && bool_member(
            plain_list(a)[4],
            "available"@,
        ) == Some(a.times),
        text_member(plain_list(a)[5], "family"@) == Some("MiSans"@) && bool_member(
            plain_list(a)[5],
            "available"@,
        ) == Some(true) && bool_member(plain_list(a)[5], "builtin"@) == Some(true),
{
    lemma_font_keys();
    assert forall|i: int| 0 <= i < 6 implies {
        let m = (#[trigger] plain_list(a)[i])->Obj_0;
        &&& member(plain_list(a)[i], "family"@) == Some(m[0].1)
        &&& member(plain_list(a)[i], "available"@) == Some(m[2].1)
        &&& member(plain_list(a)[i], "builtin"@) == Some(m[3].1)
    } by {
        let m = plain_list(a)[i]->Obj_0;
        lemma_member_at(m, 0);
        lemma_member_at(m, 2);
        lemma_member_at(m, 3);
    }
    assert(plain_list(a)[0] is Obj);
    assert(plain_list(a)[1] is Obj);
    assert(plain_list(a)[2] is Obj);
    assert(plain_list(a)[3] is Obj);
    assert(plain_list(a)[4] is Obj);
    assert(plain_list(a)[5] is Obj);
}

/// The font that was brought along is available where its copy is there, and its address is
/// told then alone.
pub proof fn law_brought_font_is_listed(r: JsonV, there: bool)
    ensures
        ({
            let e = brought_entry(r, there);
            let copy = true_text_or_empty(member(r, "copyPath"@));
            &&& text_member(e, "family"@) == Some(true_text_or_empty(member(r, "family"@)))
            &&& bool_member(e, "available"@) == Some(copy.len() > 0 && there)
            &&& bool_member(e, "imported"@) == Some(true)
            &&& copy.len() > 0 && there ==> text_member(e, "copyUrl"@) == Some(file_url(copy))
            &&& !(copy.len() > 0 && there) ==> text_member(e, "copyUrl"@) == Some(Seq::<char>::empty())
        }),
{
    lemma_font_keys();
    let m = brought_entry(r, there)->Obj_0;
    lemma_member_at(m, 0);
    lemma_member_at(m, 2);
    lemma_member_at(m, 4);
    lemma_member_at(m, 5);
}

/// What is known of a font that was brought along.
pub proof fn law_new_record(family: Seq<char>, source: Seq<char>, copy: Seq<char>, now: Seq<char>)
    ensures
        text_member(new_record(family, source, copy, now), "family"@) == Some(family),
        text_member(new_record(family, source, copy, now), "sourcePath"@) == Some(source),
        text_member(new_record(family, source, copy, now), "copyPath"@) == Some(copy),
        text_member(new_record(family, source, copy, now), "importedAt"@) == Some(now),
{
    lemma_font_keys();
    let m = new_record(family, source, copy, now)->Obj_0;
    lemma_member_at(m, 0);
    lemma_member_at(m, 1);
    lemma_member_at(m, 2);
    lemma_member_at(m, 3);
}

/// The copy of an earlier font is deleted exactly where there is one and the new copy is another
/// file.
pub proof fn law_old_copy(s: JsonV, old_shown: Seq<char>, new_shown: Seq<char>)
    ensures
        brought_font(s) is None ==> old_copy(s, old_shown, new_shown) is None,
        brought_font(s) matches Some(r) ==> (old_copy(s, old_shown, new_shown) is Some
            <==> true_text_or_empty(member(r, "copyPath"@)).len() > 0 && path_form(old_shown)
            != path_form(new_shown)),
{
}

/// After a font was taken away the usual one is chosen where that font was, and nothing else is
/// where it was not.
pub proof fn law_taken_away(m: Seq<(Seq<char>, JsonV)>, r: JsonV, other: Seq<char>)
    requires
        other != "fontImported"@,
        other != "font"@,
    ensures
        member(without_brought(JsonV::Obj(m), r), other) == member(JsonV::Obj(m), other),
        member(JsonV::Obj(m), "font"@) is Some && member(JsonV::Obj(m), "font"@)->0 is Obj
            && text_member(member(JsonV::Obj(m), "font"@)->0, "family"@) is Some && text_member(
            member(JsonV::Obj(m), "font"@)->0,
            "family"@,
        )->0 == true_text_or_empty(member(r, "family"@)) ==> member(
            without_brought(JsonV::Obj(m), r),
            "font"@,
        ) is Some && text_member(
            member(without_brought(JsonV::Obj(m), r), "font"@)->0,
            "family"@,
        ) == Some("MiSans"@),
        member(JsonV::Obj(m), "font"@) is Some && text_member(
            member(JsonV::Obj(m), "font"@)->0,
            "family"@,
        ) is Some && text_member(member(JsonV::Obj(m), "font"@)->0, "family"@)->0
            != true_text_or_empty(member(r, "family"@)) ==> member(
            without_brought(JsonV::Obj(m), r),
            "font"@,
        ) == member(JsonV::Obj(m), "font"@),
{
    lemma_font_keys();
    let n = JsonV::Obj(without_key(m, "fontImported"@));
    crate::commands::fonts::lemma_other_key(m, "fontImported"@, other);
    crate::commands::fonts::lemma_other_key(m, "fontImported"@, "font"@);
    let font = match member(n, "font"@) {
        Some(f) => f,
        None => JsonV::Obj(Seq::empty()),
    };
    let f2 = with_member(font, "family"@, JsonV::Str("MiSans"@));
    law_set_member(font, "family"@, JsonV::Str("MiSans"@), other);
    law_set_member(n, "font"@, f2, other);
}

/// What is told of a font that was taken away.
pub proof fn law_taking_away_is_told(removed: bool, file_deleted: bool)
    ensures
        ({
            let d = member(removed_reply(removed, file_deleted), "data"@)->0;
            &&& bool_member(d, "removed"@) == Some(removed)
            &&& removed ==> bool_member(d, "fileDeleted"@) == Some(file_deleted)
        }),
{
    lemma_font_keys();
    let m = removed_reply(removed, file_deleted)->Obj_0;
    lemma_member_at(m, 1);
    let d = m[1].1->Obj_0;
    lemma_member_at(d, 0);
    if removed {
        lemma_member_at(d, 1);
    }
}

/// The font that is asked for is chosen; else the one that was, else the usual one.
pub proof fn law_chosen_font(cfg: JsonV, s: JsonV)
    ensures
        true_text(member(cfg, "family"@)) matches Some(t) ==> chosen_family(cfg, s) == plain_family(t),
        true_text(member(cfg, "family"@)) is None && member(s, "font"@) is None ==> chosen_family(
            cfg,
            s,
        ) == plain_family("MiSans"@),
        text_member(chosen_font(cfg, s), "family"@) == Some(chosen_family(cfg, s)),
        member(chosen_font(cfg, s), "weight"@) == Some(
            JsonV::Num(held_number(member(cfg, "weight"@), 400, 100, 1000)),
        ),
        member(chosen_font(cfg, s), "size"@) == Some(
            JsonV::Num(held_number(member(cfg, "size"@), 16, 12, 24)),
        ),
{
    lemma_font_keys();
    let m = chosen_font(cfg, s)->Obj_0;
    lemma_member_at(m, 0);
    lemma_member_at(m, 1);
    lemma_member_at(m, 2);
}

} // verus!
