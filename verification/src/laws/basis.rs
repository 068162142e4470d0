//! What holds of texts, dates, paths, addresses and reported lines.

use crate::clock::{day_number, days_before, is_date, leap, month_days};
use crate::events::{
    extra_text, extras_text, heartbeat, item_text, shown, EventV, HEARTBEAT_EVERY,
};
use crate::json::escaped;
use crate::laws::text::{lemma_stands, lemma_stands_in, stands};
use crate::paths::{behind_path, extension_of, file_name_of, is_drive, is_slash, last_dot, stops};
use crate::text::{
    ascii_lower, ascii_lowercase, ascii_uppercase, dec, joined, lemma_pieces_nonempty, nonempty,
    pieces, trimmed, trimmed_end, trimmed_start, white,
};
use crate::url::{
    authority_end, char_at, last_char, parts_of, port_of, private_host, private_v4,
    private_v6, url_parts, v4_in, v4_of, v6_of, without_dot, V4,
};
use vstd::prelude::*;

verus! {

proof fn lemma_start(s: Seq<char>) -> (k: int)
    ensures
        0 <= k <= s.len(),
        trimmed_start(s) == s.skip(k),
        forall|i: int| 0 <= i < k ==> white(#[trigger] s[i]),
        k < s.len() ==> !white(s[k]),
    decreases s.len(),
{
    if s.len() > 0 && white(s[0]) {
        let j: int = lemma_start(s.skip(1));
        assert(s.skip(1).skip(j) =~= s.skip(j + 1));
        assert forall|i: int| 0 <= i < j + 1 implies white(#[trigger] s[i]) by {
            if i > 0 {
                assert(s.skip(1)[i - 1] == s[i]);
            }
        }
        j + 1
    } else {
        assert(s.skip(0) =~= s);
        0
    }
}

proof fn lemma_end(s: Seq<char>) -> (k: int)
    ensures
        0 <= k <= s.len(),
        trimmed_end(s) == s.take(k),
        forall|i: int| k <= i < s.len() ==> white(#[trigger] s[i]),
        k > 0 ==> !white(s[k - 1]),
    decreases s.len(),
{
    if s.len() > 0 && white(s.last()) {
        let j: int = lemma_end(s.drop_last());
        assert(s.drop_last().take(j) =~= s.take(j));
        assert forall|i: int| j <= i < s.len() implies white(#[trigger] s[i]) by {
            if i < s.len() - 1 {
                assert(s.drop_last()[i] == s[i]);
            }
        }
        j
    } else {
        assert(s.take(s.len() as int) =~= s);
        s.len() as int
    }
}

/// Trimming takes white space away at both ends and nothing else: what is left is a run of
/// the text, all before it and behind it is white, and it neither starts nor ends so.
pub proof fn law_trimmed(s: Seq<char>)
    ensures
        exists|a: int, b: int|
            0 <= a <= b <= s.len() && trimmed(s) == #[trigger] s.subrange(a, b) && (forall|i: int|
                0 <= i < a || b <= i < s.len() ==> white(#[trigger] s[i])),
        trimmed(s).len() > 0 ==> !white(trimmed(s)[0]) && !white(trimmed(s).last()),
{
    let a: int = lemma_start(s);
    let m = s.skip(a);
    let k: int = lemma_end(m);
    assert(m.take(k) =~= s.subrange(a, a + k));
    assert forall|i: int| 0 <= i < a || a + k <= i < s.len() implies white(#[trigger] s[i]) by {
        if i >= a + k {
            assert(m[i - a] == s[i]);
        }
    }
    if k > 0 {
        assert(trimmed(s)[0] == s[a]);
        assert(trimmed(s).last() == m[k - 1]);
    }
}

/// The pieces between a separator, put together with it, are the text again, and none of
/// them holds it.
pub proof fn law_pieces_join(s: Seq<char>, c: char)
    ensures
        pieces(s, c, c).len() > 0,
        joined(pieces(s, c, c), seq![c]) == s,
        forall|k: int|
            0 <= k < pieces(s, c, c).len() ==> !(#[trigger] pieces(s, c, c)[k]).contains(c),
    decreases s.len(),
{
    let p = pieces(s, c, c);
    lemma_pieces_nonempty(s, c, c);
    if s.len() == 0 {
        assert(p[0] =~= s);
        assert(joined(p, seq![c]) =~= s);
    } else {
        let front = s.drop_last();
        let r = pieces(front, c, c);
        law_pieces_join(front, c);
        if s.last() == c {
            assert(p.drop_last() =~= r);
            assert(joined(p, seq![c]) =~= joined(r, seq![c]) + seq![c] + p.last());
            assert(joined(p, seq![c]) =~= front.push(c));
            assert(s =~= front.push(c));
            assert forall|k: int| 0 <= k < p.len() implies !(#[trigger] p[k]).contains(c) by {
                if k < r.len() {
                    assert(p[k] == r[k]);
                }
            }
        } else {
            assert(p.drop_last() =~= r.drop_last());
            if r.len() == 1 {
                assert(joined(r, seq![c]) == r[0]);
                assert(p.len() == 1);
                assert(joined(p, seq![c]) == p[0]);
            } else {
                assert(joined(r, seq![c]) == joined(r.drop_last(), seq![c]) + seq![c] + r.last());
                assert(joined(p, seq![c]) == joined(p.drop_last(), seq![c]) + seq![c] + p.last());
            }
            assert(joined(p, seq![c]) =~= joined(r, seq![c]).push(s.last()));
            assert(s =~= front.push(s.last()));
            assert forall|k: int| 0 <= k < p.len() implies !(#[trigger] p[k]).contains(c) by {
                if k < r.len() - 1 {
                    assert(p[k] == r[k]);
                } else {
                    let l = r.last();
                    assert(r[r.len() - 1] == l);
                    assert forall|i: int| 0 <= i < p[k].len() implies p[k][i] != c by {
                        if i < l.len() {
                            assert(l.contains(l[i]));
                        }
                    }
                }
            }
        }
    }
}

/// The lower and the upper case of a text tell the same letters: what differs between two
/// texts in one of them differs in the other, and each undoes the other.
pub proof fn law_cases(s: Seq<char>)
    ensures
        ascii_lowercase(s).len() == s.len(),
        ascii_lowercase(ascii_uppercase(s)) == ascii_lowercase(s),
        ascii_uppercase(ascii_lowercase(s)) == ascii_uppercase(s),
        forall|i: int|
            0 <= i < s.len() ==> !('A' <= #[trigger] ascii_lowercase(s)[i]
                && ascii_lowercase(s)[i] <= 'Z'),
{
    assert(ascii_lowercase(ascii_uppercase(s)) =~= ascii_lowercase(s));
    assert(ascii_uppercase(ascii_lowercase(s)) =~= ascii_uppercase(s));
    assert(ascii_lower('A') == 'a');
}

/// A year has 366 days where its number is divisible by four, but not by a hundred unless
/// also by four hundred, and else 365; the next year begins behind its last day.
pub proof fn law_years(y: int)
    requires
        1 <= y,
    ensures
        day_number(y + 1, 1, 1) - day_number(y, 1, 1) == (if y % 400 == 0 || (y % 4 == 0 && y % 100
            != 0) {
            366int
        } else {
            365
        }),
        day_number(y + 1, 1, 1) == day_number(y, 12, 31) + 1,
        day_number(1970, 1, 1) == 719_162,
        day_number(1, 1, 1) == 0,
{
    reveal_with_fuel(days_before, 13);
}

/// Each day of a month follows the day before, and the first of a month the last of the
/// month before; only February depends on the year.
pub proof fn law_months(y: int, m: int, d: int)
    requires
        1 <= y,
        1 <= m <= 12,
    ensures
        day_number(y, m, d + 1) == day_number(y, m, d) + 1,
        m < 12 ==> day_number(y, m + 1, 1) == day_number(y, m, month_days(y, m)) + 1,
        is_date(y, m, d) ==> 1 <= d <= 31,
        m == 2 ==> month_days(y, m) == (if leap(y) {
            29int
        } else {
            28
        }),
        m != 2 ==> (month_days(y, m) == 30 || month_days(y, m) == 31),
        (m == 4 || m == 6 || m == 9 || m == 11) <==> month_days(y, m) == 30,
{
    reveal_with_fuel(days_before, 2);
}

proof fn lemma_pieces_name(front: Seq<char>, name: Seq<char>)
    requires
        forall|i: int| 0 <= i < name.len() ==> !is_slash(#[trigger] name[i]),
    ensures
        pieces(front.push('\\') + name, '\\', '/') == pieces(front, '\\', '/').push(name),
    decreases name.len(),
{
    let s = front.push('\\') + name;
    if name.len() == 0 {
        assert(s =~= front.push('\\'));
        assert(s.drop_last() =~= front);
        assert(Seq::<char>::empty() =~= name);
    } else {
        let less = name.drop_last();
        assert forall|i: int| 0 <= i < less.len() implies !is_slash(#[trigger] less[i]) by {
            assert(less[i] == name[i]);
        }
        lemma_pieces_name(front, less);
        assert(s.drop_last() =~= front.push('\\') + less);
        assert(s.last() == name.last());
        assert(!is_slash(name[name.len() - 1]));
        let r = pieces(front, '\\', '/').push(less);
        assert(r.drop_last() =~= pieces(front, '\\', '/'));
        assert(less.push(name.last()) =~= name);
    }
}

/// The name of what lies in a directory is the name behind the last separator: whatever
/// the directory, `dir\name` has the name `name`.
pub proof fn law_file_name(dir: Seq<char>, name: Seq<char>)
    requires
        name.len() > 0,
        forall|i: int| 0 <= i < name.len() ==> !is_slash(#[trigger] name[i]),
        name != "."@,
        name != ".."@,
        !is_drive(name),
    ensures
        file_name_of(dir.push('\\') + name) == Some(name),
{
    lemma_pieces_name(dir, name);
    let before = pieces(dir, '\\', '/');
    let all = before.push(name);
    assert(all.drop_last() =~= before);
    let n = nonempty(all);
    assert(n == nonempty(before).push(name));
    assert(n[n.len() - 1] == name);
    assert(stops(n, n.len() as int) == stops(n, n.len() - 1).push(name));
}

/// A path put together of a directory and a name has that name.
pub proof fn law_behind_path(dir: Seq<char>, name: Seq<char>)
    requires
        name.len() > 0,
        forall|i: int| 0 <= i < name.len() ==> !is_slash(#[trigger] name[i]),
        name != "."@,
        name != ".."@,
        !is_drive(name),
        dir.len() > 0,
        dir.last() != '/',
    ensures
        file_name_of(behind_path(dir, name)) == Some(name),
{
    reveal_strlit("\\");
    if dir.last() == '\\' {
        assert(behind_path(dir, name) =~= dir.drop_last().push('\\') + name);
        law_file_name(dir.drop_last(), name);
    } else {
        assert(behind_path(dir, name) =~= dir.push('\\') + name);
        law_file_name(dir, name);
    }
}

proof fn lemma_last_dot(f: Seq<char>, k: int, n: int)
    requires
        0 <= k < n <= f.len(),
        f[k] == '.',
        forall|i: int| k < i < n ==> f[i] != '.',
    ensures
        last_dot(f, n) == Some(k),
    decreases n,
{
    if n - 1 > k {
        assert(f[n - 1] != '.');
        lemma_last_dot(f, k, n - 1);
    }
}

/// The extension of a file is what stands behind the last dot of its name; a name whose
/// only dot is its first character has none.
pub proof fn law_extension(dir: Seq<char>, stem: Seq<char>, ext: Seq<char>)
    requires
        forall|i: int| 0 <= i < stem.len() ==> !is_slash(#[trigger] stem[i]),
        forall|i: int| 0 <= i < ext.len() ==> !is_slash(#[trigger] ext[i]) && ext[i] != '.',
        stem.push('.') + ext != "."@,
        stem.push('.') + ext != ".."@,
        !is_drive(stem.push('.') + ext),
    ensures
        stem.len() > 0 ==> extension_of(dir.push('\\') + (stem.push('.') + ext)) == Some(ext),
        stem.len() == 0 ==> extension_of(dir.push('\\') + (stem.push('.') + ext)) is None,
{
    let name = stem.push('.') + ext;
    assert forall|i: int| 0 <= i < name.len() implies !is_slash(#[trigger] name[i]) by {
        if i < stem.len() {
            assert(name[i] == stem[i]);
        } else if i > stem.len() {
            assert(name[i] == ext[i - stem.len() - 1]);
        }
    }
    law_file_name(dir, name);
    assert forall|i: int| stem.len() < i < name.len() implies name[i] != '.' by {
        assert(name[i] == ext[i - stem.len() - 1]);
    }
    lemma_last_dot(name, stem.len() as int, name.len() as int);
    assert(name.skip(stem.len() as int + 1) =~= ext);
}

/// An address of four bytes is public unless its first bytes are those of this network, of
/// a private network, of shared space, of this machine, of this link, of a test network or
/// of more than one machine.
pub proof fn law_private_bytes(b0: u8, b1: u8, b2: u8, b3: u8)
    ensures
        ({
            let a = (b0 * 0x100_0000 + b1 * 0x1_0000 + b2 * 0x100 + b3) as u32;
            private_v4(a) == (b0 == 0 || b0 == 10 || b0 == 127 || b0 >= 224 || (b0 == 100 && 64 <= b1
                <= 127) || (b0 == 169 && b1 == 254) || (b0 == 172 && 16 <= b1 <= 31) || (b0 == 192
                && b1 == 168) || (b0 == 198 && 18 <= b1 <= 19))
        }),
{
    let n: int = b0 * 0x100_0000 + b1 * 0x1_0000 + b2 * 0x100 + b3;
    assert(0 <= n <= u32::MAX);
    let a = n as u32;
    assert(a as int == n);
    assert(a / 0x100_0000 == b0);
    assert(a / 0x1_0000 == b0 * 0x100 + b1);
    assert(a / 0x1_0000 % 0x100 == b1);
}

/// A host that is written as an address is public where that address is, and one that is
/// no right address never is; a name is public unless it is that of this machine.
pub proof fn law_private_host(host: Seq<char>)
    ensures
        v4_of(host) is Wrong ==> private_host(host, false),
        v4_of(host) matches V4::Addr(a) ==> (private_host(host, false) <==> without_dot(host).len()
            == 0 || without_dot(host) == "localhost"@ || ".localhost"@.is_suffix_of(
            without_dot(host),
        ) || private_v4(a)),
        v4_of(host) is Name ==> (private_host(host, false) <==> without_dot(host).len() == 0
            || without_dot(host) == "localhost"@ || ".localhost"@.is_suffix_of(without_dot(host))),
        v6_of(host) is None ==> private_host(host, true),
        v6_of(host) matches Some(g) ==> private_host(host, true) == private_v6(g),
{
}

/// An address of eight groups that holds one of four bytes is public only where that one
/// is; those of this machine, of this link and of local networks never are.
pub proof fn law_private_groups(g: Seq<u16>)
    requires
        g.len() == 8,
    ensures
        0xfe80 <= g[0] <= 0xfebf || 0xfc00 <= g[0] <= 0xfdff || 0xff00 <= g[0] ==> private_v6(g),
        (forall|i: int| 0 <= i < 7 ==> (#[trigger] g[i]) == 0) && g[7] <= 1 ==> private_v6(g),
        (forall|i: int| 0 <= i < 5 ==> (#[trigger] g[i]) == 0) && g[5] == 0xffff ==> private_v6(g)
            == private_v4(v4_in(g[6], g[7])),
        g[0] == 0x2002 ==> private_v6(g) == private_v4(v4_in(g[1], g[2])),
        0x2003 <= g[0] < 0xfc00 ==> !private_v6(g),
{
    if (forall|i: int| 0 <= i < 7 ==> (#[trigger] g[i]) == 0) && g[7] <= 1 {
        assert(g[0] == 0 && g[1] == 0 && g[2] == 0 && g[3] == 0 && g[4] == 0 && g[5] == 0 && g[6]
            == 0);
        assert(v4_in(g[6], g[7]) <= 1);
    }
    if (forall|i: int| 0 <= i < 5 ==> (#[trigger] g[i]) == 0) && g[5] == 0xffff {
        assert(g[0] == 0 && g[1] == 0 && g[2] == 0 && g[3] == 0 && g[4] == 0);
    }
}

/// Without a number the port is the usual one of the scheme, with one it is that number;
/// there is none above 65535.
pub proof fn law_port(t: Seq<char>)
    ensures
        t.len() == 0 ==> port_of(t, true) == Some(443u16) && port_of(t, false) == Some(80u16),
        t.len() > 0 ==> port_of(t, true) == port_of(t, false),
        t.len() > 0 ==> (port_of(t, true) is Some <==> crate::numbers::all_figures(t)
            && crate::numbers::figures(t, t.len() as int) <= 65535),
        t.len() > 0 && port_of(t, true) is Some ==> port_of(t, true)->0
            == crate::numbers::figures(t, t.len() as int),
{
    if t.len() > 0 && crate::numbers::all_figures(t) {
        assert(crate::numbers::is_figure(t[0]));
    }
}

proof fn lemma_no_char(s: Seq<char>, c: char, i: int, b: int)
    requires
        0 <= i <= b <= s.len(),
        forall|k: int| i <= k < b ==> s[k] != c,
    ensures
        char_at(s, c, i, b) == b,
    decreases b - i,
{
    if i < b {
        assert(s[i] != c);
        lemma_no_char(s, c, i + 1, b);
    }
}

proof fn lemma_no_last(s: Seq<char>, c: char, a: int, n: int)
    requires
        0 <= a <= n <= s.len(),
        forall|k: int| a <= k < n ==> s[k] != c,
    ensures
        last_char(s, c, a, n) is None,
    decreases n - a,
{
    if a < n {
        assert(s[n - 1] != c);
        lemma_no_last(s, c, a, n - 1);
    }
}

proof fn lemma_authority(s: Seq<char>, i: int, e: int)
    requires
        0 <= i <= e < s.len(),
        forall|k: int|
            i <= k < e ==> s[k] != '/' && s[k] != '\\' && s[k] != '?' && s[k] != '#',
        s[e] == '/',
    ensures
        authority_end(s, i) == e,
    decreases e - i,
{
    if i < e {
        assert(s[i] != '/');
        lemma_authority(s, i + 1, e);
    }
}

/// The host of an address is what stands between the scheme and the next slash, in lower
/// case; what stands from that slash on is asked for there.
pub proof fn law_host_and_path(head: Seq<char>, host: Seq<char>, path: Seq<char>, secure: bool)
    requires
        forall|i: int|
            0 <= i < host.len() ==> (#[trigger] host[i]) != '/' && host[i] != '\\' && host[i] != '?'
                && host[i] != '#' && host[i] != '@' && host[i] != ':' && host[i] != '[',
        path.len() > 0,
        path[0] == '/',
        !path.contains('#'),
    ensures
        parts_of(head + host + path, head.len() as int, secure) matches Some(u) && u.host
            == ascii_lowercase(host) && u.path == path && u.secure == secure && !u.bracketed
            && u.port == (if secure {
            443u16
        } else {
            80u16
        }) && u.scheme == (if secure {
            "https"@
        } else {
            "http"@
        }),
{
    let t = head + host + path;
    let n = head.len() as int;
    let e = n + host.len();
    assert forall|k: int| n <= k < e implies t[k] == host[k - n] by {}
    assert(t[e] == path[0]);
    assert forall|k: int| n <= k < e implies t[k] != '/' && t[k] != '\\' && t[k] != '?' && t[k]
        != '#' && t[k] != '@' && t[k] != ':' && t[k] != '[' by {
        assert(t[k] == host[k - n]);
    }
    lemma_authority(t, n, e);
    lemma_no_last(t, '@', n, e);
    lemma_no_char(t, ':', n, e);
    assert(t.subrange(n, e) =~= host);
    assert(t.skip(e) =~= path);
    assert forall|k: int| 0 <= k < path.len() implies path[k] != '#' by {
        assert(path.contains(path[k]));
    }
    lemma_no_char(path, '#', 0, path.len() as int);
    assert(path.take(path.len() as int) =~= path);
}

/// Only addresses of the two schemes of the web have parts, and of those behind `https` the
/// connection is secured.
pub proof fn law_schemes(url: Seq<char>)
    ensures
        url_parts(url) is Some ==> "https://"@.is_prefix_of(ascii_lowercase(trimmed(url)))
            || "http://"@.is_prefix_of(ascii_lowercase(trimmed(url))),
        url_parts(url) matches Some(u) ==> u.secure == "https://"@.is_prefix_of(
            ascii_lowercase(trimmed(url)),
        ),
{
}

proof fn lemma_extra_stands(extra: Seq<(Seq<char>, Seq<char>)>, n: int, k: int)
    requires
        0 <= k < n <= extra.len(),
    ensures
        stands(extras_text(extra, n), ",\""@ + extra[k].0 + "\":\""@ + escaped(extra[k].1) + "\""@),
    decreases n,
{
    let piece = extra_text(extra[k].0, extra[k].1);
    let all = extras_text(extra, n);
    if k == n - 1 {
        lemma_stands(all, extras_text(extra, n - 1), piece, Seq::empty());
    } else {
        lemma_extra_stands(extra, n - 1, k);
        lemma_stands(
            all,
            Seq::empty(),
            extras_text(extra, n - 1),
            extra_text(extra[n - 1].0, extra[n - 1].1),
        );
        lemma_stands_in(all, extras_text(extra, n - 1), piece);
    }
}

/// The line of an item tells its kind, its path as it is shown, its size and each further
/// value under its name.
pub proof fn law_item_tells(
    kind: Seq<char>,
    path: Seq<char>,
    size: nat,
    extra: Seq<(Seq<char>, Seq<char>)>,
    k: int,
)
    requires
        0 <= k < extra.len(),
    ensures
        "@@ITEM@@{"@.is_prefix_of(item_text(kind, path, size, extra)),
        stands(item_text(kind, path, size, extra), "\"type\":\""@ + kind + "\","@),
        stands(
            item_text(kind, path, size, extra),
            "\"path\":\""@ + escaped(shown(path)) + "\""@,
        ),
        stands(item_text(kind, path, size, extra), "\"size\":"@ + dec(size)),
        stands(
            item_text(kind, path, size, extra),
            ",\""@ + extra[k].0 + "\":\""@ + escaped(extra[k].1) + "\""@,
        ),
{
    let whole = item_text(kind, path, size, extra);
    let more = extras_text(extra, extra.len() as int);
    let a = "@@ITEM@@{\"type\":\""@;
    let b = "\",\"path\":\""@;
    let c = "\",\"size\":"@;
    let p = escaped(shown(path));
    let z = "}\n"@;
    reveal_strlit("@@ITEM@@{\"type\":\"");
    reveal_strlit("\",\"path\":\"");
    reveal_strlit("\",\"size\":");
    reveal_strlit("@@ITEM@@{");
    reveal_strlit("\"type\":\"");
    reveal_strlit("\",");
    reveal_strlit("\"path\":\"");
    reveal_strlit("\"");
    reveal_strlit("\"size\":");
    assert(a =~= "@@ITEM@@{"@ + "\"type\":\""@);
    assert(b =~= "\","@ + "\"path\":\""@);
    assert(c =~= "\""@ + seq![','] + "\"size\":"@);
    assert(whole == a + kind + b + p + c + dec(size) + more + z);
    assert(whole =~= "@@ITEM@@{"@ + ("\"type\":\""@ + kind + b + p + c + dec(size) + more + z));
    lemma_stands(
        whole,
        "@@ITEM@@{"@,
        "\"type\":\""@ + kind + "\","@,
        "\"path\":\""@ + p + c + dec(size) + more + z,
    );
    lemma_stands(
        whole,
        a + kind + "\","@,
        "\"path\":\""@ + p + "\""@,
        seq![','] + "\"size\":"@ + dec(size) + more + z,
    );
    lemma_stands(
        whole,
        a + kind + b + p + "\""@ + seq![','],
        "\"size\":"@ + dec(size),
        more + z,
    );
    lemma_extra_stands(extra, extra.len() as int, k);
    lemma_stands(whole, a + kind + b + p + c + dec(size), more, z);
    lemma_stands_in(whole, more, ",\""@ + extra[k].0 + "\":\""@ + escaped(extra[k].1) + "\""@);
}

/// A path is shown with forward slashes, as long as it is but for the mark of a long path,
/// and two spellings of a separator are shown alike.
pub proof fn law_shown(p: Seq<char>)
    ensures
        !shown(p).contains('\\'),
        shown("\\\\?\\"@ + p) == crate::text::replaced(p, '\\', '/'),
        !"\\\\?\\"@.is_prefix_of(p) ==> shown(p).len() == p.len(),
        forall|i: int|
            !"\\\\?\\"@.is_prefix_of(p) && 0 <= i < p.len() && p[i] != '\\' ==> #[trigger] shown(
                p,
            )[i] == p[i],
{
    reveal_strlit("\\\\?\\");
    let q = "\\\\?\\"@ + p;
    assert("\\\\?\\"@.is_prefix_of(q)) by {
        assert(q.subrange(0, 4) =~= "\\\\?\\"@);
    }
    assert(q.skip(4) =~= p);
}

/// A sign of life is given where the count of files passes a multiple of 8192, and it tells
/// the new count; nothing is told while it stays below the next one.
pub proof fn law_heartbeat(count: u64, n: u64)
    requires
        count + n <= u64::MAX,
    ensures
        HEARTBEAT_EVERY == 8192,
        heartbeat(count, n).len() <= 1,
        (exists|k: int| count < #[trigger] (8192 * k) <= count + n) <==> heartbeat(count, n)
            == seq![EventV::Scanned((count + n) as u64)],
{
    let next: int = count + n;
    let a: int = count as int / 8192;
    let b: int = next / 8192;
    assert(8192 * b <= next < 8192 * b + 8192);
    assert(8192 * a <= count < 8192 * a + 8192);
    if a != b {
        assert(count < 8192 * b <= next);
    } else {
        assert forall|k: int| !(count < #[trigger] (8192 * k) <= next) by {
            if count < 8192 * k {
                assert(k > a);
            }
        }
        assert(heartbeat(count, n).len() == 0);
    }
}

} // verus!
