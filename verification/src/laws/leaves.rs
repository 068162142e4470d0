//! What holds of the small rules that larger ones are made of: which characters, names and
//! heads count as what.

use crate::commands::appearance::{hex_is_on, hex_word, word_end, word_start};
use crate::commands::benchhistory::field_name;
use crate::commands::cleanup_detail::{pid_of, tried, Retry};
use crate::commands::contextmenu::{class_char, class_name, renamed_root};
use crate::commands::fonts::{font_head, plain_byte};
use crate::commands::memory::{core_name, failed_sign, service_name, shell_name};
use crate::doc_groups::{is_lowest, largest, link_labels, lowest, FileV};
use crate::empty::{ignored, is_ignored};
use crate::events::EventV;
use crate::json::{member, JsonV};
use crate::laws::object::lemma_member_at;
use crate::numbers::signed_dec;
use crate::paths::{is_absolute, is_drive};
use crate::perf::{until_zero, utf16_from, utf16_text};
use crate::protect::{drive_only, protected_norm, short_name, Roots};
use crate::scan::{accepted, batch_events, limit_text, Collected};
use crate::similar::{alike_pairs, percent};
use crate::text::{ascii_uppercase, dec, lowercase, trimmed, white};
use crate::world::{hive_named, hive_path, names_of, program_name, Hive};
use vstd::prelude::*;

verus! {

// ---------------------------------------------------------------------------- characters

/// The name of a class stands in braces, has 38 characters, and between them only digits in
/// base sixteen and hyphens.
pub proof fn law_class_names(g: Seq<char>, c: char)
    ensures
        class_char(c) <==> "0123456789abcdefABCDEF-"@.contains(c),
        g.len() != 38 ==> !class_name(g),
        class_name(g) ==> g[0] == '{',
        class_name(g) ==> forall|i: int|
            1 <= i < 37 ==> "0123456789abcdefABCDEF-"@.contains(#[trigger] g[i]),
{
    lemma_class_chars(c);
    if class_name(g) {
        assert forall|i: int| 1 <= i < 37 implies "0123456789abcdefABCDEF-"@.contains(
            #[trigger] g[i],
        ) by {
            assert(class_char(g[i]));
            lemma_class_chars(g[i]);
        }
    }
}

proof fn lemma_class_chars(c: char)
    ensures
        class_char(c) <==> "0123456789abcdefABCDEF-"@.contains(c),
{
    reveal_strlit("0123456789abcdefABCDEF-");
    let all = "0123456789abcdefABCDEF-"@;
    assert(all.len() == 23);
    if '0' <= c && c <= '9' {
        assert(all[c as int - 48] == c);
    } else if 'a' <= c && c <= 'f' {
        assert(all[c as int - 87] == c);
    } else if 'A' <= c && c <= 'F' {
        assert(all[c as int - 49] == c);
    } else if c == '-' {
        assert(all[22] == c);
    } else if all.contains(c) {
        let i = choose|i: int| 0 <= i < all.len() && all[i] == c;
        assert(all[i] == c);
    }
}

/// In an address of a file letters, digits and these six signs stand for themselves: the
/// hyphen, the dot, the underscore, the tilde, the slash and the colon.
pub proof fn law_plain_bytes(b: u8)
    ensures
        plain_byte(b) <==> "0123456789abcdefghijklmnopqrstuvwxyzABCDEFGHIJKLMNOPQRSTUVWXYZ-._~/:"@.contains(
            b as char,
        ),
{
    reveal_strlit("0123456789abcdefghijklmnopqrstuvwxyzABCDEFGHIJKLMNOPQRSTUVWXYZ-._~/:");
    let all = "0123456789abcdefghijklmnopqrstuvwxyzABCDEFGHIJKLMNOPQRSTUVWXYZ-._~/:"@;
    let c = b as char;
    assert(all.len() == 68);
    if 48 <= b <= 57 {
        assert(all[b as int - 48] == c);
    } else if 97 <= b <= 122 {
        assert(all[b as int - 87] == c);
    } else if 65 <= b <= 90 {
        assert(all[b as int - 29] == c);
    } else if b == 45 {
        assert(all[62] == c);
    } else if b == 46 {
        assert(all[63] == c);
    } else if b == 95 {
        assert(all[64] == c);
    } else if b == 126 {
        assert(all[65] == c);
    } else if b == 47 {
        assert(all[66] == c);
    } else if b == 58 {
        assert(all[67] == c);
    } else if all.contains(c) {
        let i = choose|i: int| 0 <= i < all.len() && all[i] == c;
        assert(all[i] == c);
    }
}

/// A font is known by its first four bytes: those of a TrueType font in its two forms, of
/// an OpenType font, of a collection, and of the two forms of the web.
pub proof fn law_font_heads(b: Seq<u8>)
    ensures
        font_head(b) <==> b.len() >= 4 && (b.take(4) == seq![0u8, 1u8, 0u8, 0u8] || b.take(4)
            == seq![79u8, 84u8, 84u8, 79u8] || b.take(4) == seq![116u8, 116u8, 99u8, 102u8]
            || b.take(4) == seq![116u8, 114u8, 117u8, 101u8] || b.take(4) == seq![
            119u8,
            79u8,
            70u8,
            70u8,
        ] || b.take(4) == seq![119u8, 79u8, 70u8, 50u8]),
{
    if b.len() >= 4 {
        let t = b.take(4);
        assert(t.len() == 4);
        assert(t[0] == b[0] && t[1] == b[1] && t[2] == b[2] && t[3] == b[3]);
        if b[0] == 0 && b[1] == 1 && b[2] == 0 && b[3] == 0 {
            assert(t =~= seq![0u8, 1u8, 0u8, 0u8]);
        }
        if b[0] == 79 && b[1] == 84 && b[2] == 84 && b[3] == 79 {
            assert(t =~= seq![79u8, 84u8, 84u8, 79u8]);
        }
        if b[0] == 116 && b[1] == 116 && b[2] == 99 && b[3] == 102 {
            assert(t =~= seq![116u8, 116u8, 99u8, 102u8]);
        }
        if b[0] == 116 && b[1] == 114 && b[2] == 117 && b[3] == 101 {
            assert(t =~= seq![116u8, 114u8, 117u8, 101u8]);
        }
        if b[0] == 119 && b[1] == 79 && b[2] == 70 && b[3] == 70 {
            assert(t =~= seq![119u8, 79u8, 70u8, 70u8]);
        }
        if b[0] == 119 && b[1] == 79 && b[2] == 70 && b[3] == 50 {
            assert(t =~= seq![119u8, 79u8, 70u8, 50u8]);
        }
    }
}

proof fn lemma_units(units: Seq<u16>, i: int)
    requires
        0 <= i <= units.len(),
        forall|k: int| i <= k < units.len() ==> (#[trigger] units[k]) < 0xd800 || units[k] > 0xdfff,
    ensures
        utf16_from(units, i).len() == units.len() - i,
        forall|k: int|
            0 <= k < units.len() - i ==> (#[trigger] utf16_from(units, i)[k]) == units[i + k] as char,
    decreases units.len() - i,
{
    if i < units.len() {
        lemma_units(units, i + 1);
        assert(units[i] < 0xd800 || units[i] > 0xdfff);
        let rest = utf16_from(units, i + 1);
        assert(utf16_from(units, i) == seq![units[i] as char] + rest);
        assert forall|k: int| 0 <= k < units.len() - i implies (#[trigger] utf16_from(units, i)[k])
            == units[i + k] as char by {
            if k > 0 {
                assert(utf16_from(units, i)[k] == rest[k - 1]);
            }
        }
    }
}

/// Each unit that is no half of a pair is one character; the two halves of a pair are one
/// together, and a half by itself is the mark of what cannot be read.
pub proof fn law_units_of_text(units: Seq<u16>)
    ensures
        (forall|k: int| 0 <= k < units.len() ==> (#[trigger] units[k]) < 0xd800 || units[k] > 0xdfff)
            ==> utf16_text(units).len() == units.len() && forall|k: int|
            0 <= k < units.len() ==> (#[trigger] utf16_text(units)[k]) == units[k] as char,
        units.len() == 2 && 0xd800 <= units[0] <= 0xdbff && 0xdc00 <= units[1] <= 0xdfff
            ==> utf16_text(units) == seq![
            (0x10000 + (units[0] - 0xd800) * 0x400 + (units[1] - 0xdc00)) as char,
        ],
        units.len() == 1 && 0xd800 <= units[0] <= 0xdfff ==> utf16_text(units) == seq!['\u{fffd}'],
        units.len() == 2 && 0xd800 <= units[0] <= 0xdfff && units[1] < 0xd800 ==> utf16_text(units)
            == seq!['\u{fffd}', units[1] as char],
        units.len() == 2 && 0xdc00 <= units[0] <= 0xdfff && 0xdc00 <= units[1] <= 0xdfff
            ==> utf16_text(units) == seq!['\u{fffd}', '\u{fffd}'],
{
    reveal_with_fuel(utf16_from, 3);
    if forall|k: int| 0 <= k < units.len() ==> (#[trigger] units[k]) < 0xd800 || units[k] > 0xdfff {
        lemma_units(units, 0);
        assert forall|k: int| 0 <= k < units.len() implies (#[trigger] utf16_text(units)[k])
            == units[k] as char by {
            assert(utf16_from(units, 0)[k] == units[0 + k] as char);
        }
    }
    if units.len() == 2 && 0xd800 <= units[0] <= 0xdbff && 0xdc00 <= units[1] <= 0xdfff {
        assert(utf16_text(units) =~= seq![
            (0x10000 + (units[0] - 0xd800) * 0x400 + (units[1] - 0xdc00)) as char,
        ]);
    }
    if units.len() == 1 && 0xd800 <= units[0] <= 0xdfff {
        assert(utf16_text(units) =~= seq!['\u{fffd}']);
    }
    if units.len() == 2 && 0xd800 <= units[0] <= 0xdfff && units[1] < 0xd800 {
        assert(utf16_text(units) =~= seq!['\u{fffd}', units[1] as char]);
    }
    if units.len() == 2 && 0xdc00 <= units[0] <= 0xdfff && 0xdc00 <= units[1] <= 0xdfff {
        assert(utf16_text(units) =~= seq!['\u{fffd}', '\u{fffd}']);
    }
}

/// A name in a fixed buffer ends at its first zero.
pub proof fn law_until_zero(buf: Seq<u16>, i: int)
    requires
        0 <= i <= buf.len(),
    ensures
        i <= until_zero(buf, i) <= buf.len(),
        until_zero(buf, i) < buf.len() ==> buf[until_zero(buf, i)] == 0,
        forall|k: int| i <= k < until_zero(buf, i) ==> (#[trigger] buf[k]) != 0,
    decreases buf.len() - i,
{
    if i < buf.len() && buf[i] != 0 {
        law_until_zero(buf, i + 1);
    }
}

/// The next word begins at the next character that is not white and ends before the next
/// that is.
pub proof fn law_words(s: Seq<char>, i: int)
    requires
        0 <= i <= s.len(),
    ensures
        i <= word_start(s, i) <= s.len(),
        word_start(s, i) < s.len() ==> !white(s[word_start(s, i)]),
        forall|k: int| i <= k < word_start(s, i) ==> white(#[trigger] s[k]),
        i <= word_end(s, i) <= s.len(),
        word_end(s, i) < s.len() ==> white(s[word_end(s, i)]),
        forall|k: int| i <= k < word_end(s, i) ==> !white(#[trigger] s[k]),
    decreases s.len() - i,
{
    if i < s.len() {
        law_words(s, i + 1);
    }
}

/// A number in base sixteen is off where it is zero, however many zeros it is written with.
pub proof fn law_hex_words(w: Seq<char>)
    ensures
        hex_word(w) <==> w.len() >= 2 && w[0] == '0' && (w[1] == 'x' || w[1] == 'X'),
        w.len() == 3 && w[2] == '0' ==> !hex_is_on(w),
        w.len() == 3 && '1' <= w[2] && w[2] <= '9' ==> hex_is_on(w),
        w.len() == 2 ==> hex_is_on(w),
{
    let d = w.skip(2);
    reveal_with_fuel(crate::url::digits_value, 3);
    if w.len() == 3 {
        assert(d.len() == 1 && d[0] == w[2]);
    }
}

// --------------------------------------------------------------------------------- names

/// The five short names of the hives are known in whatever case, and no other.
pub proof fn law_hives(name: Seq<char>)
    ensures
        hive_named(name) == Some(Hive::CurrentUser) <==> ascii_uppercase(name) == "HKCU"@,
        hive_named(name) == Some(Hive::LocalMachine) <==> ascii_uppercase(name) == "HKLM"@,
        hive_named(name) == Some(Hive::ClassesRoot) <==> ascii_uppercase(name) == "HKCR"@,
        hive_named(name) == Some(Hive::Users) <==> ascii_uppercase(name) == "HKU"@,
        hive_named(name) == Some(Hive::CurrentConfig) <==> ascii_uppercase(name) == "HKCC"@,
{
    reveal_strlit("HKCU");
    reveal_strlit("HKLM");
    reveal_strlit("HKCR");
    reveal_strlit("HKU");
    reveal_strlit("HKCC");
    assert("HKU"@.len() == 3 && "HKCU"@.len() == 4 && "HKLM"@.len() == 4 && "HKCR"@.len() == 4
        && "HKCC"@.len() == 4);
    assert("HKCU"@[3] == 'U' && "HKLM"@[3] == 'M' && "HKCR"@[3] == 'R' && "HKCC"@[3] == 'C');
}

/// A key of the registry is the hive before its first backslash and the rest behind it.
pub proof fn law_hive_path(name: Seq<char>, key: Seq<char>)
    requires
        !name.contains('\\'),
    ensures
        hive_named(name) matches Some(h) ==> hive_path(name.push('\\') + key) == Some((h, key)),
        hive_named(name) is None ==> hive_path(name.push('\\') + key) is None,
        hive_path(name) is None,
{
    let p = name.push('\\') + key;
    assert forall|k: int| 0 <= k < name.len() implies name[k] != '\\' by {
        assert(name.contains(name[k]));
    }
    lemma_first_backslash(p, 0, name.len() as int);
    lemma_no_backslash(name, 0);
    assert(p.subrange(0, name.len() as int) =~= name);
    assert(p.subrange(name.len() as int + 1, p.len() as int) =~= key);
}

proof fn lemma_first_backslash(s: Seq<char>, i: int, e: int)
    requires
        0 <= i <= e < s.len(),
        s[e] == '\\',
        forall|k: int| i <= k < e ==> s[k] != '\\',
    ensures
        crate::world::first_backslash(s, i) == Some(e),
    decreases e - i,
{
    if i < e {
        assert(s[i] != '\\');
        lemma_first_backslash(s, i + 1, e);
    }
}

proof fn lemma_no_backslash(s: Seq<char>, i: int)
    requires
        0 <= i <= s.len(),
        forall|k: int| 0 <= k < s.len() ==> s[k] != '\\',
    ensures
        crate::world::first_backslash(s, i) is None,
    decreases s.len() - i,
{
    if i < s.len() {
        lemma_no_backslash(s, i + 1);
    }
}

/// Each program that runs is named once, in lower case and without its ending.
pub proof fn law_program_names(exes: Seq<String>, n: int, i: int)
    requires
        0 <= n <= exes.len(),
    ensures
        0 <= i < n && program_name(exes[i]@).len() > 0 ==> names_of(exes, n).contains(
            program_name(exes[i]@),
        ),
        forall|a: int, b: int|
            0 <= a < b < names_of(exes, n).len() ==> names_of(exes, n)[a] != names_of(exes, n)[b],
        forall|a: int| 0 <= a < names_of(exes, n).len() ==> (#[trigger] names_of(exes, n)[a]).len() > 0,
        forall|exe: Seq<char>|
            ".exe"@.is_suffix_of(lowercase(exe)) ==> #[trigger] program_name(exe) == lowercase(
                exe,
            ).take(lowercase(exe).len() - 4),
    decreases n,
{
    reveal_strlit(".exe");
    assert(".exe"@.len() == 4);
    if n > 0 {
        law_program_names(exes, n - 1, i);
        let before = names_of(exes, n - 1);
        let all = names_of(exes, n);
        let name = program_name(exes[n - 1]@);
        if 0 <= i < n - 1 && program_name(exes[i]@).len() > 0 {
            let j = choose|j: int| 0 <= j < before.len() && before[j] == program_name(exes[i]@);
            assert(all[j] == before[j]);
        }
        if name.len() > 0 && !before.contains(name) {
            assert(all.last() == name);
            assert forall|a: int, b: int| 0 <= a < b < all.len() implies all[a] != all[b] by {
                if b == all.len() - 1 {
                    assert(before[a] == all[a]);
                }
            }
        }
    }
}

/// The programs without which the system does not run are all known as such.
pub proof fn law_core_names()
    ensures
        core_name("system"@) && core_name("idle"@) && core_name("registry"@) && core_name("smss"@)
            && core_name("csrss"@) && core_name("wininit"@) && core_name("winlogon"@) && core_name(
            "services"@,
        ) && core_name("lsass"@) && core_name("lsaiso"@) && core_name("svchost"@) && core_name(
            "fontdrvhost"@,
        ) && core_name("dwm"@) && core_name("memory compression"@) && core_name("secure system"@),
        shell_name("sihost"@) && shell_name("ctfmon"@) && shell_name("explorer"@) && shell_name(
            "audiodg"@,
        ) && shell_name("wudfhost"@) && shell_name("spoolsv"@) && shell_name("searchindexer"@)
            && shell_name("shellexperiencehost"@) && shell_name("startmenuexperiencehost"@)
            && shell_name("taskhostw"@) && shell_name("runtimebroker"@) && shell_name("sppsvc"@)
            && shell_name("wmiprvse"@) && shell_name("dllhost"@) && shell_name(
            "securityhealthservice"@,
        ),
        service_name("securityhealthsystray"@) && service_name("msmpeng"@) && service_name("nissrv"@)
            && service_name("systemsettings"@) && service_name("applicationframehost"@)
            && service_name("conhost"@) && service_name("logonui"@) && service_name("userinit"@)
            && service_name("msiexec"@) && service_name("trustedinstaller"@) && service_name(
            "tiworker"@,
        ) && service_name("backgroundtaskhost"@) && service_name("textinputhost"@) && service_name(
            "useroobebroker"@,
        ),
{
}

/// A root that is written out is written short with all that stands behind it; a longer word
/// that only begins like it is left.
pub proof fn law_renamed_root(full: Seq<char>, short: Seq<char>, key: Seq<char>, c: char)
    ensures
        renamed_root(full, full, short) == Some(short),
        renamed_root(full.push('\\') + key, full, short) == Some(short.push('\\') + key),
        c != '\\' ==> renamed_root(full.push(c) + key, full, short) is None,
{
    reveal_strlit("\\");
    let s = full.push('\\') + key;
    assert(s.subrange(0, full.len() as int + 1) =~= full + "\\"@);
    assert((full + "\\"@).is_prefix_of(s));
    assert(short + s.skip(full.len() as int) =~= short.push('\\') + key);
    assert(short + full.skip(full.len() as int) =~= short);
    let t = full.push(c) + key;
    if c != '\\' {
        assert(t.len() > full.len());
        assert(t[full.len() as int] == c);
        if (full + "\\"@).is_prefix_of(t) {
            assert((full + "\\"@)[full.len() as int] == '\\');
            assert(t.subrange(0, full.len() as int + 1)[full.len() as int] == c);
        }
    }
}

/// The numbers of a record go under these ten names, in this order.
pub proof fn law_field_names()
    ensures
        field_name(0) == "blockSize"@,
        field_name(1) == "queueDepth"@,
        field_name(2) == "threads"@,
        field_name(3) == "duration"@,
        field_name(4) == "sequentialRead"@,
        field_name(5) == "sequentialWrite"@,
        field_name(6) == "randomRead"@,
        field_name(7) == "randomWrite"@,
        field_name(8) == "iops"@,
        field_name(9) == "latency"@,
{
}

/// A path is absolute behind a drive and a separator, and on a share of a server; a drive
/// alone or a name is not.
pub proof fn law_absolute(d: char, rest: Seq<char>)
    requires
        ('a' <= d && d <= 'z') || ('A' <= d && d <= 'Z'),
    ensures
        is_absolute(seq![d, ':', '\\'] + rest),
        is_absolute(seq![d, ':', '/'] + rest),
        !is_absolute(seq![d, ':']),
        !is_absolute(seq![d]),
        rest.len() >= 2 && rest[0] != '\\' && rest[0] != '/' && rest[1] != ':' ==> !is_absolute(rest),
        rest.len() >= 2 && rest[0] == '\\' && rest[1] != '\\' && rest[1] != '/' && rest[1] != ':'
            ==> !is_absolute(rest),
        is_absolute(seq!['\\', '\\', '?', '\\'] + rest),
{
    let a = seq![d, ':', '\\'] + rest;
    assert(a.take(2)[0] == d && a.take(2)[1] == ':');
    assert(is_drive(a.take(2)));
    let b = seq![d, ':', '/'] + rest;
    assert(b.take(2)[0] == d && b.take(2)[1] == ':');
    assert(is_drive(b.take(2)));
    if rest.len() >= 2 {
        assert(rest.take(2)[1] == rest[1]);
    }
    let c = seq!['\\', '\\', '?', '\\'] + rest;
    assert(c[0] == '\\' && c[1] == '\\' && c[2] == '?' && c[3] == '\\');
    assert(c.take(2)[1] == '\\');
}

/// A drive and the root of a drive are never removed, whatever the lists say.
pub proof fn law_drives_are_kept(d: char, r: Roots)
    requires
        ('a' <= d && d <= 'z') || ('A' <= d && d <= 'Z'),
    ensures
        protected_norm(seq![d, ':'], r),
        protected_norm(seq![d, ':', '\\'], r),
        protected_norm(Seq::empty(), r),
        !drive_only(seq![d]),
        drive_only(seq![d, ':']) && drive_only(seq![d, ':', '\\']),
{
}

/// A name that was shortened by the system has a tilde before a digit somewhere.
pub proof fn law_short_names(a: Seq<char>, d: char, b: Seq<char>)
    ensures
        '0' <= d && d <= '9' ==> short_name(a.push('~').push(d) + b),
        !a.contains('~') ==> !short_name(a),
{
    let s = a.push('~').push(d) + b;
    assert(s[a.len() as int] == '~');
    assert(s[a.len() as int + 1] == d);
    if !a.contains('~') && short_name(a) {
        let i = choose|i: int|
            0 <= i && i + 1 < a.len() && #[trigger] a[i] == '~' && crate::protect::ascii_digit(a[i + 1]);
        assert(a.contains(a[i]));
    }
}

// --------------------------------------------------------------------------------- lists

/// What is left alone is exactly what the lines name that are not blank.
pub proof fn law_only_named_is_left(lines: Seq<Seq<char>>, n: int, p: Seq<char>)
    requires
        0 <= n <= lines.len(),
    ensures
        ignored(lines, n).contains(p) <==> exists|i: int|
            0 <= i < n && trimmed(#[trigger] lines[i]).len() > 0 && p == lowercase(trimmed(lines[i])),
    decreases n,
{
    if n > 0 {
        law_only_named_is_left(lines, n - 1, p);
        if ignored(lines, n).contains(p) {
            if ignored(lines, n - 1).contains(p) {
                let i = choose|i: int|
                    0 <= i < n - 1 && trimmed(#[trigger] lines[i]).len() > 0 && p == lowercase(
                        trimmed(lines[i]),
                    );
                assert(trimmed(lines[i]).len() > 0);
            } else {
                assert(trimmed(lines[n - 1]).len() > 0);
            }
        }
        if exists|i: int|
            0 <= i < n && trimmed(#[trigger] lines[i]).len() > 0 && p == lowercase(trimmed(lines[i])) {
            let i = choose|i: int|
                0 <= i < n && trimmed(#[trigger] lines[i]).len() > 0 && p == lowercase(
                    trimmed(lines[i]),
                );
            if i < n - 1 {
                assert(ignored(lines, n - 1).contains(p));
            }
        }
    }
}

/// A directory is left alone by either spelling of its path, with the mark of a long path
/// or without, in whatever case.
pub proof fn law_left_by_either_spelling(path: Seq<char>, other: Seq<char>, ignore: Set<Seq<char>>)
    ensures
        ignore.contains(lowercase(path)) ==> is_ignored(path, ignore),
        ignore.contains(lowercase(crate::protect::bare(path))) ==> is_ignored(path, ignore),
        !ignore.contains(lowercase(path)) && !ignore.contains(lowercase(crate::protect::bare(path)))
            ==> !is_ignored(path, ignore),
        lowercase(path) == lowercase(other) && lowercase(crate::protect::bare(path)) == lowercase(
            crate::protect::bare(other),
        ) ==> is_ignored(path, ignore) == is_ignored(other, ignore),
{
}

/// The limit of a search is told once: where a batch does not fit any more and that was not
/// told before.
pub proof fn law_limit_is_told(c: Collected, n: nat)
    ensures
        !c.truncated && n > 0 && c.files.len() + n > c.cap ==> batch_events(c, n).contains(
            EventV::Warn(limit_text(c.cap)),
        ),
        c.truncated || c.files.len() + n <= c.cap ==> !batch_events(c, n).contains(
            EventV::Warn(limit_text(c.cap)),
        ),
        c.files.len() <= c.cap ==> c.files.len() + accepted(c, n) <= c.cap,
        limit_text(c.cap) == "扫描条目已达上限 "@ + dec(c.cap) + "，结果被截断"@,
{
    if !c.truncated && accepted(c, n) < n {
        assert(batch_events(c, n)[0] == EventV::Warn(limit_text(c.cap)));
    }
}

/// The likeness that is told of a group is the lowest of any two of its documents that were
/// held against each other and found alike.
pub proof fn law_lowest_likeness(sk: Seq<Seq<u64>>, h: usize, p: nat)
    requires
        is_lowest(sk, h, p),
    ensures
        is_lowest(sk, h, lowest(sk, h)),
        p == lowest(sk, h) || lowest(sk, h) == 100 || p == 100,
        p <= 100,
        forall|a: int, b: int| #[trigger]
            alike_pairs(sk).contains((a, b)) && link_labels(sk)[a] == Some(h) ==> p <= percent(
                sk[a],
                sk[b],
            ),
{
    let q = lowest(sk, h);
    assert(is_lowest(sk, h, q));
}

/// The size that a group of documents is placed by is that of its largest one.
pub proof fn law_largest(files: Seq<FileV>, g: Seq<usize>, n: int, i: int)
    requires
        0 <= n <= g.len(),
    ensures
        0 <= i < n ==> largest(files, g, n) >= files[g[i] as int].size,
        largest(files, g, n) == 0 || exists|k: int|
            0 <= k < n && largest(files, g, n) == files[#[trigger] g[k] as int].size,
        largest(files, g, 0) == 0,
    decreases n,
{
    if n > 0 {
        law_largest(files, g, n - 1, i);
        if files[g[n - 1] as int].size > largest(files, g, n - 1) {
            assert(largest(files, g, n) == files[g[n - 1] as int].size);
        } else if largest(files, g, n - 1) != 0 {
            let k = choose|k: int|
                0 <= k < n - 1 && largest(files, g, n - 1) == files[#[trigger] g[k] as int].size;
            assert(largest(files, g, n) == files[g[k] as int].size);
        }
    }
}

// --------------------------------------------------------------------------------- tries

/// Only what was removed is told as freed, with its own size; all else frees nothing.
pub proof fn law_freed_by_try(targets: Seq<JsonV>, facts: Seq<Retry>, r: Roots, n: int)
    requires
        0 < n <= targets.len(),
        n <= facts.len(),
    ensures
        member(tried(targets, facts, r, n).details.last(), "freed"@) == Some(
            JsonV::Num(
                signed_dec(
                    if facts[n - 1].exists && facts[n - 1].removal is Done
                        && crate::commands::cleanup_detail::may_remove(
                        targets[n - 1],
                        facts[n - 1],
                        r,
                    ) {
                        facts[n - 1].size as int
                    } else {
                        0
                    },
                ),
            ),
        ),
        tried(targets, facts, r, n).details.len() == tried(targets, facts, r, n - 1).details.len() + 1,
{
    reveal_strlit("path");
    reveal_strlit("status");
    reveal_strlit("freed");
    assert("path"@.len() == 4 && "status"@.len() == 6 && "freed"@.len() == 5);
    let d = tried(targets, facts, r, n).details.last();
    lemma_member_at(d->Obj_0, 2);
}

/// A process without a number is none that could be ended, and the sign of failures is that
/// of their number.
pub proof fn law_no_pid(p: JsonV, d: JsonV)
    ensures
        crate::value::integer_of(member(p, "pid"@)) is None ==> pid_of(p) == -1,
        crate::value::integer_of(member(p, "pid"@)) matches Some(n) ==> pid_of(p) == n,
        !(member(d, "failedCount"@) matches Some(v) && v is Num) ==> failed_sign(d) == 0,
        -1 <= failed_sign(d) <= 1,
        member(d, "failedCount"@) matches Some(v) ==> (v is Num ==> (crate::value::number_of(
            Some(v),
        ) matches Some(n) ==> (failed_sign(d) == 0 <==> crate::value::is_zero(n)) && (
        failed_sign(d) < 0 ==> n.negative))),
{
}

} // verus!
