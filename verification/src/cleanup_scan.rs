//! The cleanup scan: which rules apply to this machine, what each of them could
//! free, and the lines that report it.

use crate::deletable::{
    array_or_empty, get_file_key_deletable, get_path_deletable_stats, rule_found, stats_at,
    FkResult, PathStats, PLAN_CAP_TOTAL,
};
use crate::glob::{expand_glob_dirs, glob_dirs};
use crate::json::{
    array_member, count_member, jopt_str, json_text, jstr, parse_json, quoted, text_member, values,
    Json, JsonV,
};
use crate::rulepath::{expand_env_path, expanded, resolve_rule_path, rule_path};
use crate::text::{
    cap64, dec, decimal, has_char, join, joined, listed, lowercase, rows, same, texts, trim, trimmed,
};
use crate::world::{process_names, reg_key_counts, reg_key_exists, Holder, Kind, World};
use vstd::prelude::*;

verus! {

// ---------------------------------------------------------- is the rule for here

/// Whether a path, which may be a pattern, is there.
pub open spec fn path_hit(p: Seq<char>, w: World) -> bool {
    let full = expanded(p, w.env);
    if full.contains('*') {
        glob_dirs(full, true, w).len() > 0
    } else {
        w.has(full)
    }
}

/// Whether one detection entry finds what it names.
pub open spec fn detect_hit(c: JsonV, w: World) -> bool {
    match text_member(c, "path"@) {
        None => false,
        Some(p) => if p.len() == 0 {
            false
        } else if text_member(c, "type"@) == Some("reg"@) {
            w.key_at(expanded(p, w.env)) is Some
        } else {
            path_hit(p, w)
        },
    }
}

/// The path of the first entry of a member that is an array.
pub open spec fn first_path(rule: JsonV, key: Seq<char>) -> Option<Seq<char>> {
    let a = array_or_empty(rule, key);
    if a.len() > 0 {
        text_member(a[0], "path"@)
    } else {
        None
    }
}

/// Whether what a rule cleans is installed. With detection entries, one of them
/// must be found; without, the main path of the rule must be there, and a rule
/// that names none always applies.
pub open spec fn detected(rule: JsonV, w: World) -> bool {
    let d = array_or_empty(rule, "detect"@);
    if count_member(rule, "detect"@) > 0 {
        exists|k: int| 0 <= k < d.len() && detect_hit(#[trigger] d[k], w)
    } else if first_path(rule, "fileKeys"@) is Some {
        path_hit(first_path(rule, "fileKeys"@)->0, w)
    } else if text_member(rule, "pathPs"@) is Some {
        match rule_path(text_member(rule, "pathPs"@)->0, w.env) {
            Some(p) => w.has(p),
            None => true,
        }
    } else if first_path(rule, "regKeys"@) is Some {
        w.key_at(expanded(first_path(rule, "regKeys"@)->0, w.env)) is Some
    } else {
        true
    }
}

fn is_path_hit(p: &str, world: &World) -> (out: bool)
    ensures
        out == path_hit(p@, *world),
{
    let full: String = expand_env_path(p, &world.env);
    if has_char(full.as_str(), '*') {
        let dirs: Vec<String> = expand_glob_dirs(full.as_str(), true, world);
        assert(texts(dirs@).len() == dirs@.len());
        dirs.len() > 0
    } else {
        world.path_exists(full.as_str())
    }
}

fn is_detect_hit(c: &Json, world: &World) -> (out: bool)
    ensures
        out == detect_hit(c.view(), *world),
{
    match c.text("path") {
        None => false,
        Some(p) => {
            if p.unicode_len() == 0 {
                return false;
            }
            let is_reg: bool = match c.text("type") {
                Some(t) => same(t, "reg"),
                None => false,
            };
            if is_reg {
                reg_key_exists(expand_env_path(p, &world.env).as_str(), world)
            } else {
                is_path_hit(p, world)
            }
        },
    }
}

fn read_first_path<'a>(rule: &'a Json, key: &str) -> (out: Option<&'a str>)
    ensures
        match out {
            Some(p) => first_path(rule.view(), key@) == Some(p@),
            None => first_path(rule.view(), key@) is None,
        },
{
    match rule.array(key) {
        None => None,
        Some(a) => {
            if a.len() > 0 {
                assert(values(a@)[0] == a@[0].view());
                a[0].text("path")
            } else {
                None
            }
        },
    }
}

/// Whether what a rule cleans is installed.
pub fn test_rule_detect(rule: &Json, world: &World) -> (out: bool)
    ensures
        out == detected(rule.view(), *world),
{
    if rule.count("detect") > 0 {
        match rule.array("detect") {
            None => false,
            Some(d) => {
                let mut i: usize = 0;
                while i < d.len()
                    invariant
                        i <= d@.len(),
                        array_member(rule.view(), "detect"@) == Some(values(d@)),
                        count_member(rule.view(), "detect"@) > 0,
                        forall|k: int| 0 <= k < i ==> !detect_hit(#[trigger] values(d@)[k], *world),
                    decreases d@.len() - i,
                {
                    assert(values(d@)[i as int] == d@[i as int].view());
                    if is_detect_hit(&d[i], world) {
                        assert(array_or_empty(rule.view(), "detect"@) == values(d@));
                        assert(detect_hit(
                            array_or_empty(rule.view(), "detect"@)[i as int],
                            *world,
                        ));
                        return true;
                    }
                    i += 1;
                }
                false
            },
        }
    } else {
        match read_first_path(rule, "fileKeys") {
            Some(p) => is_path_hit(p, world),
            None => match rule.text("pathPs") {
                Some(expr) => match resolve_rule_path(expr, &world.env) {
                    Some(p) => world.path_exists(p.as_str()),
                    None => true,
                },
                None => match read_first_path(rule, "regKeys") {
                    Some(p) => reg_key_exists(expand_env_path(p, &world.env).as_str(), world),
                    None => true,
                },
            },
        }
    }
}

// ------------------------------------------------------------- programs to close

/// Those of the first `n` names that are texts, not empty, and of a program that
/// runs.
pub open spec fn blocking(names: Seq<JsonV>, n: int, running: Seq<Seq<char>>) -> Seq<Seq<char>>
    decreases n,
{
    if n <= 0 {
        Seq::empty()
    } else {
        let before = blocking(names, n - 1, running);
        match names[n - 1] {
            JsonV::Str(t) => if t.len() > 0 && running.contains(lowercase(t)) {
                before.push(t)
            } else {
                before
            },
            _ => before,
        }
    }
}

/// The programs that a rule wants closed and that run.
pub open spec fn blocked_by(rule: JsonV, running: Seq<Seq<char>>) -> Seq<Seq<char>> {
    let names = array_or_empty(rule, "requiredStoppedProcesses"@);
    blocking(names, names.len() as int, running)
}

/// The programs that a rule wants closed and that run.
pub fn get_blocked(rule: &Json, running: &Vec<String>) -> (out: Vec<String>)
    ensures
        texts(out@) == blocked_by(rule.view(), texts(running@)),
{
    let mut out: Vec<String> = Vec::new();
    assert(texts(out@) =~= Seq::empty());
    match rule.array("requiredStoppedProcesses") {
        None => {},
        Some(arr) => {
            let mut i: usize = 0;
            while i < arr.len()
                invariant
                    i <= arr@.len(),
                    texts(out@) == blocking(values(arr@), i as int, texts(running@)),
                decreases arr@.len() - i,
            {
                assert(values(arr@)[i as int] == arr@[i as int].view());
                match arr[i].as_str() {
                    Some(t) => {
                        if t.unicode_len() > 0 && listed(running, t.to_lowercase().as_str()) {
                            let s: String = t.to_owned();
                            proof {
                                crate::text::lemma_texts_push(out@, s);
                            }
                            out.push(s);
                        }
                    },
                    None => {},
                }
                i += 1;
            }
        },
    }
    out
}

// ---------------------------------------------------------------- registry rules

/// Whether one of the first `n` registry keys exists, and how many keys, values
/// and subkeys would go. A key that names a value counts once.
pub open spec fn reg_measure(keys: Seq<JsonV>, n: int, w: World) -> (bool, nat)
    decreases n,
{
    if n <= 0 {
        (false, 0)
    } else {
        let before = reg_measure(keys, n - 1, w);
        match text_member(keys[n - 1], "path"@) {
            None => before,
            Some(p) => match w.key_at(expanded(p, w.env)) {
                None => before,
                Some(k) => {
                    let named = text_member(keys[n - 1], "value"@) matches Some(v) && v.len() > 0;
                    let inner = if named {
                        0
                    } else {
                        match k.counts {
                            Some((a, b)) => (a + b) as nat,
                            None => 0,
                        }
                    };
                    (true, before.1 + 1 + inner)
                },
            },
        }
    }
}

/// Whether a rule's registry keys exist, and how much they hold.
pub fn measure_reg_rule(rule: &Json, world: &World) -> (out: (bool, u64))
    ensures
        ({
            let keys = array_or_empty(rule.view(), "regKeys"@);
            let m = reg_measure(keys, keys.len() as int, *world);
            out.0 == m.0 && out.1 == cap64(m.1)
        }),
{
    let mut exists_any: bool = false;
    let mut count: u64 = 0;
    match rule.array("regKeys") {
        None => {},
        Some(arr) => {
            let mut i: usize = 0;
            while i < arr.len()
                invariant
                    i <= arr@.len(),
                    exists_any == reg_measure(values(arr@), i as int, *world).0,
                    count == cap64(reg_measure(values(arr@), i as int, *world).1),
                decreases arr@.len() - i,
            {
                let rk: &Json = &arr[i];
                assert(values(arr@)[i as int] == rk.view());
                match rk.text("path") {
                    None => {},
                    Some(p0) => {
                        let p: String = expand_env_path(p0, &world.env);
                        if reg_key_exists(p.as_str(), world) {
                            exists_any = true;
                            let named: bool = match rk.text("value") {
                                Some(v) => v.unicode_len() > 0,
                                None => false,
                            };
                            count = count.saturating_add(1);
                            if !named {
                                match reg_key_counts(p.as_str(), world) {
                                    Some((a, b)) => {
                                        count = count.saturating_add(a as u64 + b as u64);
                                    },
                                    None => {},
                                }
                            }
                        }
                    },
                }
                i += 1;
            }
        },
    }
    (exists_any, count)
}

// ------------------------------------------------------------------------- lines

/// One member of a reported item.
pub open spec fn field(k: Seq<char>, v: Seq<char>) -> Seq<char> {
    quoted(k) + ":"@ + v
}

/// The members of a reported item.
pub open spec fn fields(list: Seq<(Seq<char>, Seq<char>)>) -> Seq<Seq<char>> {
    Seq::new(list.len(), |i: int| field(list[i].0, list[i].1))
}

/// The line that reports an item.
pub open spec fn item_line(list: Seq<(Seq<char>, Seq<char>)>) -> Seq<char> {
    "@@ITEM@@{"@ + joined(fields(list), ","@) + "}"@
}

/// The names and values of a list of members.
pub open spec fn pairs(v: Seq<(&str, String)>) -> Seq<(Seq<char>, Seq<char>)> {
    Seq::new(v.len(), |i: int| (v[i].0@, v[i].1@))
}

/// The line that reports an item.
pub fn emit_item(list: &Vec<(&str, String)>) -> (out: String)
    ensures
        out@ == item_line(pairs(list@)),
{
    let mut body: Vec<String> = Vec::new();
    let mut i: usize = 0;
    while i < list.len()
        invariant
            i <= list@.len(),
            texts(body@) == fields(pairs(list@)).take(i as int),
        decreases list@.len() - i,
    {
        let mut f: String = jstr(list[i].0);
        f.append(":");
        f.append(list[i].1.as_str());
        proof {
            crate::text::lemma_texts_push(body@, f);
            assert(fields(pairs(list@)).take(i + 1) =~= fields(pairs(list@)).take(i as int).push(f@));
        }
        body.push(f);
        i += 1;
    }
    assert(fields(pairs(list@)).take(list@.len() as int) =~= fields(pairs(list@)));
    let mut out: String = "@@ITEM@@{".to_owned();
    out.append(join(&body, ",").as_str());
    out.append("}");
    out
}

/// A text as a JSON string; null where there is none.
pub open spec fn quoted_or_null(t: Option<Seq<char>>) -> Seq<char> {
    match t {
        Some(s) => quoted(s),
        None => "null"@,
    }
}

/// The word for a truth value.
pub open spec fn word(b: bool) -> Seq<char> {
    if b {
        "true"@
    } else {
        "false"@
    }
}

fn bool_word(b: bool) -> (out: String)
    ensures
        out@ == word(b),
{
    if b {
        "true".to_owned()
    } else {
        "false".to_owned()
    }
}

/// The texts as JSON strings.
pub open spec fn all_quoted(list: Seq<Seq<char>>) -> Seq<Seq<char>> {
    Seq::new(list.len(), |i: int| quoted(list[i]))
}

/// The texts as a JSON array.
pub open spec fn string_array(list: Seq<Seq<char>>) -> Seq<char> {
    "["@ + joined(all_quoted(list), ","@) + "]"@
}

fn write_array(list: &Vec<String>) -> (out: String)
    ensures
        out@ == string_array(texts(list@)),
{
    let mut body: Vec<String> = Vec::new();
    let mut i: usize = 0;
    while i < list.len()
        invariant
            i <= list@.len(),
            texts(body@) == all_quoted(texts(list@)).take(i as int),
        decreases list@.len() - i,
    {
        let f: String = jstr(list[i].as_str());
        proof {
            crate::text::lemma_texts_push(body@, f);
            assert(all_quoted(texts(list@)).take(i + 1) =~= all_quoted(texts(list@)).take(
                i as int,
            ).push(f@));
        }
        body.push(f);
        i += 1;
    }
    assert(all_quoted(texts(list@)).take(list@.len() as int) =~= all_quoted(texts(list@)));
    let mut out: String = "[".to_owned();
    out.append(join(&body, ",").as_str());
    out.append("]");
    out
}

/// The line for the component store, which has no path of its own to measure.
pub open spec fn dism_line(id: Seq<char>, rule: JsonV) -> Seq<char> {
    let name = match text_member(rule, "name"@) {
        Some(n) => n,
        None => id,
    };
    item_line(
        seq![
            ("id"@, quoted(id)),
            ("name"@, quoted(name)),
            ("configuredPath"@, quoted("C:\\Windows\\WinSxS"@)),
            ("path"@, quoted("C:\\Windows\\WinSxS"@)),
            ("pathSource"@, quoted("configured"@)),
            ("pathCandidates"@, "[]"@),
            ("autoPath"@, quoted(""@)),
            ("autoSize"@, "0"@),
            ("size"@, "0"@),
            ("risk"@, quoted_or_null(text_member(rule, "risk"@))),
            ("exists"@, "true"@),
            ("blockedBy"@, "[]"@),
        ],
    )
}

/// The line for the component store.
pub fn emit_dism(id: &str, rule: &Json) -> (out: String)
    ensures
        out@ == dism_line(id@, rule.view()),
{
    let name: &str = match rule.text("name") {
        Some(n) => n,
        None => id,
    };
    let mut f: Vec<(&str, String)> = Vec::new();
    f.push(("id", jstr(id)));
    f.push(("name", jstr(name)));
    f.push(("configuredPath", jstr("C:\\Windows\\WinSxS")));
    f.push(("path", jstr("C:\\Windows\\WinSxS")));
    f.push(("pathSource", jstr("configured")));
    f.push(("pathCandidates", "[]".to_owned()));
    f.push(("autoPath", jstr("")));
    f.push(("autoSize", "0".to_owned()));
    f.push(("size", "0".to_owned()));
    f.push(("risk", jopt_str(rule.text("risk"))));
    f.push(("exists", "true".to_owned()));
    f.push(("blockedBy", "[]".to_owned()));
    assert(item_line(pairs(f@)) == dism_line(id@, rule.view())) by {
        assert(pairs(f@) =~= seq![
            ("id"@, quoted(id@)),
            ("name"@, quoted(name@)),
            ("configuredPath"@, quoted("C:\\Windows\\WinSxS"@)),
            ("path"@, quoted("C:\\Windows\\WinSxS"@)),
            ("pathSource"@, quoted("configured"@)),
            ("pathCandidates"@, "[]"@),
            ("autoPath"@, quoted(""@)),
            ("autoSize"@, "0"@),
            ("size"@, "0"@),
            ("risk"@, quoted_or_null(text_member(rule.view(), "risk"@))),
            ("exists"@, "true"@),
            ("blockedBy"@, "[]"@),
        ]);
    }
    emit_item(&f)
}

// ------------------------------------------------------------------ kinds of rule

/// What one item adds to the scan.
pub ghost struct Report {
    pub out: Seq<Seq<char>>,
    pub err: Seq<Seq<char>>,
    /// The files planned by the whole scan after this item.
    pub rows: nat,
}

/// The path shown for a rule with several keys: the first, and how many.
pub open spec fn shown_path(rule: JsonV, key: Seq<char>) -> Seq<char> {
    let keys = array_or_empty(rule, key);
    let first = match first_path(rule, key) {
        Some(p) => p,
        None => ""@,
    };
    if keys.len() > 1 {
        first + " 等 "@ + dec(keys.len()) + " 处"@
    } else {
        first
    }
}

fn show_path(rule: &Json, key: &str) -> (out: String)
    ensures
        out@ == shown_path(rule.view(), key@),
{
    let n: usize = match rule.array(key) {
        Some(a) => a.len(),
        None => 0,
    };
    let first: &str = match read_first_path(rule, key) {
        Some(p) => p,
        None => "",
    };
    let mut out: String = first.to_owned();
    if n > 1 {
        out.append(" 等 ");
        out.append(decimal(n as u64).as_str());
        out.append(" 处");
    }
    out
}

/// The line of one planned file.
pub open spec fn plan_line(id: Seq<char>, path: Seq<char>, size: u64) -> Seq<char> {
    "@@PLANFILE@@{\"id\":"@ + quoted(id) + ",\"path\":"@ + quoted(path) + ",\"size\":"@ + dec(
        size as nat,
    ) + "}"@
}

/// The lines of the planned files.
pub open spec fn plan_lines(id: Seq<char>, files: Seq<(Seq<char>, u64)>) -> Seq<Seq<char>> {
    Seq::new(files.len(), |i: int| plan_line(id, files[i].0, files[i].1))
}

/// The line of an item that is cleaned file by file.
pub open spec fn files_line(
    id: Seq<char>,
    rule: JsonV,
    blocked: Seq<Seq<char>>,
    size: nat,
    count: nat,
    locked: nat,
    truncated: bool,
) -> Seq<char> {
    let shown = shown_path(rule, "fileKeys"@);
    let head = seq![
        ("id"@, quoted(id)),
        ("name"@, quoted_or_null(text_member(rule, "name"@))),
        ("configuredPath"@, quoted(shown)),
        ("path"@, quoted(shown)),
        ("pathSource"@, quoted("rules"@)),
        ("pathCandidates"@, "[]"@),
        ("autoPath"@, quoted(""@)),
        ("autoSize"@, "0"@),
        ("size"@, dec(cap64(size))),
        ("fileCount"@, dec(count)),
        ("lockedCount"@, dec(cap64(locked))),
        ("risk"@, quoted_or_null(text_member(rule, "risk"@))),
        ("exists"@, word(count > 0)),
        ("blockedBy"@, string_array(blocked)),
    ];
    item_line(
        if truncated {
            head.push(("filesTruncated"@, "true"@))
        } else {
            head
        },
    )
}

/// An item that is cleaned file by file: its line, then one line per file.
pub open spec fn files_report(
    id: Seq<char>,
    rule: JsonV,
    running: Seq<Seq<char>>,
    rows: nat,
    w: World,
) -> Report {
    let f = rule_found(rule, rows, w);
    let line = files_line(
        id,
        rule,
        blocked_by(rule, running),
        f.size,
        f.files.len(),
        f.locked,
        f.truncated,
    );
    Report { out: seq![line] + plan_lines(id, f.files), err: Seq::empty(), rows: f.rows }
}

fn write_plan(id: &str, files: &Vec<(String, u64)>, out: &mut Vec<String>)
    ensures
        texts(final(out)@) == texts(old(out)@) + plan_lines(id@, rows(files@)),
{
    let mut i: usize = 0;
    let ghost all = plan_lines(id@, rows(files@));
    assert(texts(out@) =~= texts(old(out)@) + all.take(0));
    while i < files.len()
        invariant
            i <= files@.len(),
            all == plan_lines(id@, rows(files@)),
            texts(out@) == texts(old(out)@) + all.take(i as int),
        decreases files@.len() - i,
    {
        let mut l: String = "@@PLANFILE@@{\"id\":".to_owned();
        l.append(jstr(id).as_str());
        l.append(",\"path\":");
        l.append(jstr(files[i].0.as_str()).as_str());
        l.append(",\"size\":");
        l.append(decimal(files[i].1).as_str());
        l.append("}");
        proof {
            crate::text::lemma_texts_push(out@, l);
            assert(l@ == all[i as int]);
            assert(texts(old(out)@) + all.take(i + 1) =~= (texts(old(out)@) + all.take(
                i as int,
            )).push(l@));
        }
        out.push(l);
        i += 1;
    }
    assert(all.take(files@.len() as int) =~= all);
}

fn report_files(
    id: &str,
    rule: &Json,
    running: &Vec<String>,
    rows_before: &mut usize,
    world: &World,
    out: &mut Vec<String>,
)
    requires
        *old(rows_before) <= PLAN_CAP_TOTAL,
    ensures
        ({
            let r = files_report(
                id@,
                rule.view(),
                texts(running@),
                *old(rows_before) as nat,
                *world,
            );
            &&& texts(final(out)@) == texts(old(out)@) + r.out
            &&& *final(rows_before) == r.rows
            &&& *final(rows_before) <= PLAN_CAP_TOTAL
        }),
{
    let ghost f = rule_found(rule.view(), *rows_before as nat, *world);
    let blocked: Vec<String> = get_blocked(rule, running);
    let st: FkResult = get_file_key_deletable(rule, rows_before, world);
    assert(rows(st.files@).len() == st.files@.len());
    let count: usize = st.files.len();
    let mut l: Vec<(&str, String)> = Vec::new();
    let shown: String = show_path(rule, "fileKeys");
    l.push(("id", jstr(id)));
    l.push(("name", jopt_str(rule.text("name"))));
    l.push(("configuredPath", jstr(shown.as_str())));
    l.push(("path", jstr(shown.as_str())));
    l.push(("pathSource", jstr("rules")));
    l.push(("pathCandidates", "[]".to_owned()));
    l.push(("autoPath", jstr("")));
    l.push(("autoSize", "0".to_owned()));
    l.push(("size", decimal(st.total_size)));
    l.push(("fileCount", decimal(count as u64)));
    l.push(("lockedCount", decimal(st.locked)));
    l.push(("risk", jopt_str(rule.text("risk"))));
    l.push(("exists", bool_word(count > 0)));
    l.push(("blockedBy", write_array(&blocked)));
    let ghost head = seq![
        ("id"@, quoted(id@)),
        ("name"@, quoted_or_null(text_member(rule.view(), "name"@))),
        ("configuredPath"@, quoted(shown@)),
        ("path"@, quoted(shown@)),
        ("pathSource"@, quoted("rules"@)),
        ("pathCandidates"@, "[]"@),
        ("autoPath"@, quoted(""@)),
        ("autoSize"@, "0"@),
        ("size"@, dec(cap64(f.size))),
        ("fileCount"@, dec(count as nat)),
        ("lockedCount"@, dec(cap64(f.locked))),
        ("risk"@, quoted_or_null(text_member(rule.view(), "risk"@))),
        ("exists"@, word(count > 0)),
        ("blockedBy"@, string_array(texts(blocked@))),
    ];
    assert(pairs(l@) =~= head);
    if st.truncated {
        l.push(("filesTruncated", "true".to_owned()));
        assert(pairs(l@) =~= head.push(("filesTruncated"@, "true"@)));
    }
    let line: String = emit_item(&l);
    let ghost before = texts(out@);
    proof {
        crate::text::lemma_texts_push(out@, line);
    }
    out.push(line);
    write_plan(id, &st.files, out);
    assert(texts(out@) =~= before + (seq![line@] + plan_lines(id@, f.files)));
}

/// The line of an item that is cleaned in the registry.
pub open spec fn reg_line(id: Seq<char>, rule: JsonV, blocked: Seq<Seq<char>>, w: World) -> Seq<
    char,
> {
    let keys = array_or_empty(rule, "regKeys"@);
    let m = reg_measure(keys, keys.len() as int, w);
    let shown = shown_path(rule, "regKeys"@);
    item_line(
        seq![
            ("id"@, quoted(id)),
            ("name"@, quoted_or_null(text_member(rule, "name"@))),
            ("configuredPath"@, quoted(shown)),
            ("path"@, quoted(shown)),
            ("pathSource"@, quoted("rules"@)),
            ("pathCandidates"@, "[]"@),
            ("autoPath"@, quoted(""@)),
            ("autoSize"@, "0"@),
            ("size"@, "null"@),
            ("fileCount"@, "0"@),
            ("regCount"@, dec(cap64(m.1))),
            ("risk"@, quoted_or_null(text_member(rule, "risk"@))),
            ("exists"@, word(m.0)),
            ("blockedBy"@, string_array(blocked)),
        ],
    )
}

fn write_reg(id: &str, rule: &Json, running: &Vec<String>, world: &World) -> (out: String)
    ensures
        out@ == reg_line(id@, rule.view(), blocked_by(rule.view(), texts(running@)), *world),
{
    let blocked: Vec<String> = get_blocked(rule, running);
    let (exists_any, count): (bool, u64) = measure_reg_rule(rule, world);
    let shown: String = show_path(rule, "regKeys");
    let mut l: Vec<(&str, String)> = Vec::new();
    l.push(("id", jstr(id)));
    l.push(("name", jopt_str(rule.text("name"))));
    l.push(("configuredPath", jstr(shown.as_str())));
    l.push(("path", jstr(shown.as_str())));
    l.push(("pathSource", jstr("rules")));
    l.push(("pathCandidates", "[]".to_owned()));
    l.push(("autoPath", jstr("")));
    l.push(("autoSize", "0".to_owned()));
    l.push(("size", "null".to_owned()));
    l.push(("fileCount", "0".to_owned()));
    l.push(("regCount", decimal(count)));
    l.push(("risk", jopt_str(rule.text("risk"))));
    l.push(("exists", bool_word(exists_any)));
    l.push(("blockedBy", write_array(&blocked)));
    assert(pairs(l@) =~= seq![
        ("id"@, quoted(id@)),
        ("name"@, quoted_or_null(text_member(rule.view(), "name"@))),
        ("configuredPath"@, quoted(shown@)),
        ("path"@, quoted(shown@)),
        ("pathSource"@, quoted("rules"@)),
        ("pathCandidates"@, "[]"@),
        ("autoPath"@, quoted(""@)),
        ("autoSize"@, "0"@),
        ("size"@, "null"@),
        ("fileCount"@, "0"@),
        ("regCount"@, dec(count as nat)),
        ("risk"@, quoted_or_null(text_member(rule.view(), "risk"@))),
        ("exists"@, word(exists_any)),
        ("blockedBy"@, string_array(texts(blocked@))),
    ]);
    emit_item(&l)
}

// ------------------------------------------------------------- directory rules

/// The setting that holds the confirmed directory of an item.
pub open spec fn setting_of(id: Seq<char>) -> Seq<char> {
    if id == "neteaseMusicCache"@ {
        "neteaseCacheDir"@
    } else if id == "wechatCache"@ {
        "wechatCacheDir"@
    } else if id == "douyinCache"@ {
        "douyinCacheDir"@
    } else if id == "qqCache"@ {
        "qqCacheDir"@
    } else {
        id
    }
}

fn setting_for(id: &str) -> (out: String)
    ensures
        out@ == setting_of(id@),
{
    if same(id, "neteaseMusicCache") {
        "neteaseCacheDir".to_owned()
    } else if same(id, "wechatCache") {
        "wechatCacheDir".to_owned()
    } else if same(id, "douyinCache") {
        "douyinCacheDir".to_owned()
    } else if same(id, "qqCache") {
        "qqCacheDir".to_owned()
    } else {
        id.to_owned()
    }
}

/// The paths of the first `n` candidate expressions that can be evaluated.
pub open spec fn candidate_paths(exprs: Seq<JsonV>, n: int, w: World) -> Seq<Seq<char>>
    decreases n,
{
    if n <= 0 {
        Seq::empty()
    } else {
        let before = candidate_paths(exprs, n - 1, w);
        match exprs[n - 1] {
            JsonV::Str(e) => match rule_path(e, w.env) {
                Some(p) => before.push(p),
                None => before,
            },
            _ => before,
        }
    }
}

/// The first path of a list, from `i` on, that exists.
pub open spec fn first_existing(list: Seq<Seq<char>>, i: int, w: World) -> Option<Seq<char>>
    decreases list.len() - i,
{
    if i < 0 || i >= list.len() {
        None
    } else if w.has(list[i]) {
        Some(list[i])
    } else {
        first_existing(list, i + 1, w)
    }
}

/// The first directory that one of the pattern expressions, from `i` on, finds.
pub open spec fn first_glob(exprs: Seq<JsonV>, i: int, w: World) -> Option<Seq<char>>
    decreases exprs.len() - i,
{
    if i < 0 || i >= exprs.len() {
        None
    } else {
        let hit = match exprs[i] {
            JsonV::Str(e) => match rule_path(e, w.env) {
                Some(p) => if glob_dirs(p, false, w).len() > 0 {
                    Some(glob_dirs(p, false, w)[0])
                } else {
                    None
                },
                None => None,
            },
            _ => None,
        };
        match hit {
            Some(p) => Some(p),
            None => first_glob(exprs, i + 1, w),
        }
    }
}

/// Where a directory rule looks: the path, the candidates considered, and the
/// path that was found by itself, empty where the configured one is used.
pub ghost struct Target {
    pub path: Seq<char>,
    pub candidates: Seq<Seq<char>>,
    pub auto: Seq<char>,
    pub found: bool,
}

/// The target with the rule's candidates considered, where the path is missing.
pub open spec fn with_candidates(t: Target, rule: JsonV, w: World) -> Target {
    let exprs = array_or_empty(rule, "candidates"@);
    let list = candidate_paths(exprs, exprs.len() as int, w);
    let hit = if w.has(t.path) {
        None
    } else {
        first_existing(list, 0, w)
    };
    if count_member(rule, "candidates"@) == 0 {
        t
    } else {
        match hit {
            Some(p) => Target { path: p, candidates: list, auto: p, found: true },
            None => Target { candidates: list, ..t },
        }
    }
}

/// The target with the rule's patterns considered, where the path is missing.
pub open spec fn with_globs(t: Target, rule: JsonV, w: World) -> Target {
    let exprs = array_or_empty(rule, "globCandidates"@);
    if w.has(t.path) {
        t
    } else {
        match first_glob(exprs, 0, w) {
            Some(p) => Target {
                path: p,
                candidates: t.candidates.push(p),
                auto: p,
                found: true,
            },
            None => t,
        }
    }
}

/// Where a directory rule looks, from the path that its expression gave.
pub open spec fn target(
    id: Seq<char>,
    rule: JsonV,
    configured: JsonV,
    evaluated: Seq<char>,
    w: World,
) -> Target {
    let path = match text_member(configured, setting_of(id)) {
        Some(p) => if p.len() > 0 {
            p
        } else {
            evaluated
        },
        None => evaluated,
    };
    let start = Target { path, candidates: Seq::empty(), auto: Seq::empty(), found: false };
    with_globs(with_candidates(start, rule, w), rule, w)
}

/// The line of an item that is one directory.
pub open spec fn dir_line(
    id: Seq<char>,
    rule: JsonV,
    blocked: Seq<Seq<char>>,
    evaluated: Seq<char>,
    t: Target,
    w: World,
) -> Seq<char> {
    let st = stats_at(w, t.path);
    let size = if st.ok {
        dec(st.size as nat)
    } else {
        "null"@
    };
    item_line(
        seq![
            ("id"@, quoted(id)),
            ("name"@, quoted_or_null(text_member(rule, "name"@))),
            ("configuredPath"@, quoted(evaluated)),
            ("path"@, quoted(t.path)),
            (
                "pathSource"@,
                quoted(
                    if t.found {
                        "auto"@
                    } else {
                        "configured"@
                    },
                ),
            ),
            ("pathCandidates"@, string_array(t.candidates)),
            ("autoPath"@, quoted(t.auto)),
            (
                "autoSize"@,
                if t.auto.len() > 0 {
                    size
                } else {
                    "0"@
                },
            ),
            ("size"@, size),
            ("lockedCount"@, dec(st.locked as nat)),
            ("risk"@, quoted_or_null(text_member(rule, "risk"@))),
            ("exists"@, word(w.has(t.path))),
            ("blockedBy"@, string_array(blocked)),
        ],
    )
}

/// Where a directory rule looks.
#[derive(Debug)]
pub struct Aim {
    pub path: String,
    pub candidates: Vec<String>,
    pub auto: String,
    pub found: bool,
}

impl Aim {
    pub open spec fn view(self) -> Target {
        Target {
            path: self.path@,
            candidates: texts(self.candidates@),
            auto: self.auto@,
            found: self.found,
        }
    }
}

fn read_candidates(exprs: &Vec<Json>, world: &World) -> (out: Vec<String>)
    ensures
        texts(out@) == candidate_paths(values(exprs@), exprs@.len() as int, *world),
{
    let mut out: Vec<String> = Vec::new();
    let mut i: usize = 0;
    assert(texts(out@) =~= Seq::empty());
    while i < exprs.len()
        invariant
            i <= exprs@.len(),
            texts(out@) == candidate_paths(values(exprs@), i as int, *world),
        decreases exprs@.len() - i,
    {
        assert(values(exprs@)[i as int] == exprs@[i as int].view());
        match exprs[i].as_str() {
            Some(e) => match resolve_rule_path(e, &world.env) {
                Some(p) => {
                    proof {
                        crate::text::lemma_texts_push(out@, p);
                    }
                    out.push(p);
                },
                None => {},
            },
            None => {},
        }
        i += 1;
    }
    out
}

fn find_existing(list: &Vec<String>, world: &World) -> (out: Option<String>)
    ensures
        match out {
            Some(p) => first_existing(texts(list@), 0, *world) == Some(p@),
            None => first_existing(texts(list@), 0, *world) is None,
        },
{
    let mut i: usize = 0;
    while i < list.len()
        invariant
            i <= list@.len(),
            first_existing(texts(list@), 0, *world) == first_existing(
                texts(list@),
                i as int,
                *world,
            ),
        decreases list@.len() - i,
    {
        if world.path_exists(list[i].as_str()) {
            return Some(list[i].clone());
        }
        i += 1;
    }
    None
}

fn find_glob(exprs: &Vec<Json>, world: &World) -> (out: Option<String>)
    ensures
        match out {
            Some(p) => first_glob(values(exprs@), 0, *world) == Some(p@),
            None => first_glob(values(exprs@), 0, *world) is None,
        },
{
    let mut i: usize = 0;
    while i < exprs.len()
        invariant
            i <= exprs@.len(),
            first_glob(values(exprs@), 0, *world) == first_glob(
                values(exprs@),
                i as int,
                *world,
            ),
        decreases exprs@.len() - i,
    {
        assert(values(exprs@)[i as int] == exprs@[i as int].view());
        match exprs[i].as_str() {
            Some(e) => match resolve_rule_path(e, &world.env) {
                Some(p) => {
                    let dirs: Vec<String> = expand_glob_dirs(p.as_str(), false, world);
                    assert(texts(dirs@).len() == dirs@.len());
                    if dirs.len() > 0 {
                        assert(texts(dirs@)[0] == dirs@[0]@);
                        return Some(dirs[0].clone());
                    }
                },
                None => {},
            },
            None => {},
        }
        i += 1;
    }
    None
}

/// Where a directory rule looks: the confirmed path, else the one that its
/// expression gave; and where that is missing, the first candidate or the first
/// directory of a pattern that exists.
pub fn aim(id: &str, rule: &Json, configured: &Json, evaluated: &str, world: &World) -> (out: Aim)
    ensures
        out.view() == target(id@, rule.view(), configured.view(), evaluated@, *world),
{
    let setting: String = setting_for(id);
    let mut path: String = match configured.text(setting.as_str()) {
        Some(p) => {
            if p.unicode_len() > 0 {
                p.to_owned()
            } else {
                evaluated.to_owned()
            }
        },
        None => evaluated.to_owned(),
    };
    let mut auto: String = String::new();
    let mut found: bool = false;
    let mut candidates: Vec<String> = Vec::new();
    let ghost start = Target {
        path: path@,
        candidates: Seq::empty(),
        auto: Seq::empty(),
        found: false,
    };
    assert(texts(candidates@) =~= Seq::empty());
    assert(auto@ =~= Seq::empty());
    if rule.count("candidates") > 0 {
        match rule.array("candidates") {
            Some(exprs) => {
                candidates = read_candidates(exprs, world);
            },
            None => {},
        }
        if !world.path_exists(path.as_str()) {
            match find_existing(&candidates, world) {
                Some(p) => {
                    auto = p.clone();
                    path = p;
                    found = true;
                },
                None => {},
            }
        }
    }
    let ghost mid = with_candidates(start, rule.view(), *world);
    assert(mid.path == path@ && mid.auto == auto@ && mid.candidates == texts(candidates@));
    if !world.path_exists(path.as_str()) {
        match rule.array("globCandidates") {
            Some(exprs) => match find_glob(exprs, world) {
                Some(p) => {
                    auto = p.clone();
                    path = p.clone();
                    found = true;
                    proof {
                        crate::text::lemma_texts_push(candidates@, p);
                    }
                    candidates.push(p);
                },
                None => {},
            },
            None => {},
        }
    }
    Aim { path, candidates, auto, found }
}

fn write_dir(
    id: &str,
    rule: &Json,
    running: &Vec<String>,
    evaluated: &str,
    t: &Aim,
    world: &World,
) -> (out: String)
    ensures
        out@ == dir_line(
            id@,
            rule.view(),
            blocked_by(rule.view(), texts(running@)),
            evaluated@,
            t.view(),
            *world,
        ),
{
    let blocked: Vec<String> = get_blocked(rule, running);
    let st: PathStats = get_path_deletable_stats(t.path.as_str(), world);
    let size: String = if st.ok {
        decimal(st.size)
    } else {
        "null".to_owned()
    };
    let auto_size: String = if t.auto.as_str().unicode_len() > 0 {
        size.clone()
    } else {
        "0".to_owned()
    };
    let source: &str = if t.found {
        "auto"
    } else {
        "configured"
    };
    let there: bool = world.path_exists(t.path.as_str());
    let mut l: Vec<(&str, String)> = Vec::new();
    l.push(("id", jstr(id)));
    l.push(("name", jopt_str(rule.text("name"))));
    l.push(("configuredPath", jstr(evaluated)));
    l.push(("path", jstr(t.path.as_str())));
    l.push(("pathSource", jstr(source)));
    l.push(("pathCandidates", write_array(&t.candidates)));
    l.push(("autoPath", jstr(t.auto.as_str())));
    l.push(("autoSize", auto_size));
    l.push(("size", size.clone()));
    l.push(("lockedCount", decimal(st.locked)));
    l.push(("risk", jopt_str(rule.text("risk"))));
    l.push(("exists", bool_word(there)));
    l.push(("blockedBy", write_array(&blocked)));
    assert(pairs(l@) =~= seq![
        ("id"@, quoted(id@)),
        ("name"@, quoted_or_null(text_member(rule.view(), "name"@))),
        ("configuredPath"@, quoted(evaluated@)),
        ("path"@, quoted(t.path@)),
        ("pathSource"@, quoted(source@)),
        ("pathCandidates"@, string_array(texts(t.candidates@))),
        ("autoPath"@, quoted(t.auto@)),
        ("autoSize"@, auto_size@),
        ("size"@, size@),
        ("lockedCount"@, dec(st.locked as nat)),
        ("risk"@, quoted_or_null(text_member(rule.view(), "risk"@))),
        ("exists"@, word(there)),
        ("blockedBy"@, string_array(texts(blocked@))),
    ]);
    emit_item(&l)
}

// -------------------------------------------------------------------- one item

/// The message for a rule whose path expression is not one.
pub open spec fn bad_path_line(id: Seq<char>) -> Seq<char> {
    "[cleanup-scan] [DIAG] stage=scan.pathPs mutation=skip detail="@ + id
        + " pathPs 表达式不符合受限语法，已拒绝求值"@
}

/// What one rule adds to the scan. A rule whose application is not installed
/// adds nothing, nor does one without anything to clean.
pub open spec fn rule_report(
    id: Seq<char>,
    rule: JsonV,
    configured: JsonV,
    running: Seq<Seq<char>>,
    rows: nat,
    w: World,
) -> Report {
    let nothing = Report { out: Seq::empty(), err: Seq::empty(), rows };
    let blocked = blocked_by(rule, running);
    if text_member(rule, "special"@) == Some("dism"@) {
        Report { out: seq![dism_line(id, rule)], ..nothing }
    } else if !detected(rule, w) {
        nothing
    } else if count_member(rule, "fileKeys"@) > 0 {
        files_report(id, rule, running, rows, w)
    } else if count_member(rule, "regKeys"@) > 0 {
        Report { out: seq![reg_line(id, rule, blocked, w)], ..nothing }
    } else {
        match text_member(rule, "pathPs"@) {
            None => nothing,
            Some(expr) => if expr.len() == 0 {
                nothing
            } else {
                match rule_path(expr, w.env) {
                    None => Report { err: seq![bad_path_line(id)], ..nothing },
                    Some(p) => Report {
                        out: seq![
                            dir_line(id, rule, blocked, p, target(id, rule, configured, p, w), w),
                        ],
                        ..nothing
                    },
                }
            },
        }
    }
}

proof fn lemma_texts_one(v: Seq<String>, s: String)
    ensures
        texts(v.push(s)) == texts(v) + seq![s@],
{
    assert(texts(v.push(s)) =~= texts(v) + seq![s@]);
}

/// What a scan has written so far.
#[derive(Debug)]
pub struct Lines {
    pub out: Vec<String>,
    pub err: Vec<String>,
    pub rows: usize,
}

fn report_rule(
    id: &str,
    rule: &Json,
    configured: &Json,
    running: &Vec<String>,
    world: &World,
    lines: &mut Lines,
)
    requires
        old(lines).rows <= PLAN_CAP_TOTAL,
    ensures
        ({
            let r = rule_report(
                id@,
                rule.view(),
                configured.view(),
                texts(running@),
                old(lines).rows as nat,
                *world,
            );
            &&& texts(final(lines).out@) == texts(old(lines).out@) + r.out
            &&& texts(final(lines).err@) == texts(old(lines).err@) + r.err
            &&& final(lines).rows == r.rows
            &&& final(lines).rows <= PLAN_CAP_TOTAL
        }),
{
    assert(texts(lines.out@) + Seq::<Seq<char>>::empty() =~= texts(lines.out@));
    assert(texts(lines.err@) + Seq::<Seq<char>>::empty() =~= texts(lines.err@));
    let special: bool = match rule.text("special") {
        Some(t) => same(t, "dism"),
        None => false,
    };
    if special {
        let l: String = emit_dism(id, rule);
        proof {
            lemma_texts_one(lines.out@, l);
        }
        lines.out.push(l);
        return ;
    }
    if !test_rule_detect(rule, world) {
        return ;
    }
    if rule.count("fileKeys") > 0 {
        report_files(id, rule, running, &mut lines.rows, world, &mut lines.out);
        return ;
    }
    if rule.count("regKeys") > 0 {
        let l: String = write_reg(id, rule, running, world);
        proof {
            lemma_texts_one(lines.out@, l);
        }
        lines.out.push(l);
        return ;
    }
    match rule.text("pathPs") {
        None => {},
        Some(expr) => {
            if expr.unicode_len() > 0 {
                match resolve_rule_path(expr, &world.env) {
                    None => {
                        let mut l: String =
                            "[cleanup-scan] [DIAG] stage=scan.pathPs mutation=skip detail=".to_owned();
                        l.append(id);
                        l.append(" pathPs 表达式不符合受限语法，已拒绝求值");
                        proof {
                            lemma_texts_one(lines.err@, l);
                        }
                        lines.err.push(l);
                    },
                    Some(p) => {
                        let t: Aim = aim(id, rule, configured, p.as_str(), world);
                        let l: String = write_dir(id, rule, running, p.as_str(), &t, world);
                        proof {
                            lemma_texts_one(lines.out@, l);
                        }
                        lines.out.push(l);
                    },
                }
            }
        },
    }
}

// -------------------------------------------------------------------- the rules

/// The items of the first `n` subgroups.
pub open spec fn subgroup_items(sgs: Seq<JsonV>, n: int) -> Seq<JsonV>
    decreases n,
{
    if n <= 0 {
        Seq::empty()
    } else {
        subgroup_items(sgs, n - 1) + array_or_empty(sgs[n - 1], "items"@)
    }
}

/// The items of a group: those of its subgroups where it has any, else its own.
pub open spec fn group_items(g: JsonV) -> Seq<JsonV> {
    match array_member(g, "subGroups"@) {
        Some(sgs) => subgroup_items(sgs, sgs.len() as int),
        None => array_or_empty(g, "items"@),
    }
}

/// The items of the first `n` groups.
pub open spec fn groups_items(groups: Seq<JsonV>, n: int) -> Seq<JsonV>
    decreases n,
{
    if n <= 0 {
        Seq::empty()
    } else {
        groups_items(groups, n - 1) + group_items(groups[n - 1])
    }
}

/// The last of the first `n` items with the given id: a later rule replaces an
/// earlier one.
pub open spec fn last_with_id(items: Seq<JsonV>, n: int, id: Seq<char>) -> Option<JsonV>
    decreases n,
{
    if n <= 0 {
        None
    } else if text_member(items[n - 1], "id"@) == Some(id) {
        Some(items[n - 1])
    } else {
        last_with_id(items, n - 1, id)
    }
}

/// The values that a list of references leads to.
pub open spec fn referents(v: Seq<&Json>) -> Seq<JsonV> {
    Seq::new(v.len(), |i: int| v[i].view())
}

fn add_items<'a>(holder: &'a Json, out: &mut Vec<&'a Json>)
    ensures
        referents(final(out)@) == referents(old(out)@) + array_or_empty(holder.view(), "items"@),
{
    let ghost before = referents(out@);
    assert(before + Seq::<JsonV>::empty() =~= before);
    match holder.array("items") {
        None => {},
        Some(items) => {
            let mut i: usize = 0;
            assert(before + values(items@).take(0) =~= before);
            while i < items.len()
                invariant
                    i <= items@.len(),
                    referents(out@) == before + values(items@).take(i as int),
                decreases items@.len() - i,
            {
                let ghost held = referents(out@);
                out.push(&items[i]);
                assert(referents(out@) =~= held.push(items@[i as int].view()));
                i += 1;
                assert(before + values(items@).take(i as int) =~= (before + values(items@).take(
                    i - 1,
                )).push(values(items@)[i - 1]));
            }
            assert(values(items@).take(items@.len() as int) =~= values(items@));
        },
    }
}

fn add_group<'a>(g: &'a Json, out: &mut Vec<&'a Json>)
    ensures
        referents(final(out)@) == referents(old(out)@) + group_items(g.view()),
{
    let ghost before = referents(out@);
    match g.array("subGroups") {
        None => {
            add_items(g, out);
        },
        Some(sgs) => {
            let mut i: usize = 0;
            assert(before + subgroup_items(values(sgs@), 0) =~= before);
            while i < sgs.len()
                invariant
                    i <= sgs@.len(),
                    referents(out@) == before + subgroup_items(values(sgs@), i as int),
                decreases sgs@.len() - i,
            {
                assert(values(sgs@)[i as int] == sgs@[i as int].view());
                add_items(&sgs[i], out);
                i += 1;
                assert(referents(out@) =~= before + subgroup_items(values(sgs@), i as int));
            }
        },
    }
}

fn collect_items<'a>(groups: &'a Vec<Json>) -> (out: Vec<&'a Json>)
    ensures
        referents(out@) == groups_items(values(groups@), groups@.len() as int),
{
    let mut out: Vec<&'a Json> = Vec::new();
    let mut i: usize = 0;
    assert(referents(out@) =~= Seq::empty());
    while i < groups.len()
        invariant
            i <= groups@.len(),
            referents(out@) == groups_items(values(groups@), i as int),
        decreases groups@.len() - i,
    {
        assert(values(groups@)[i as int] == groups@[i as int].view());
        add_group(&groups[i], &mut out);
        i += 1;
    }
    out
}

fn find_rule<'a>(items: &Vec<&'a Json>, id: &str) -> (out: Option<&'a Json>)
    ensures
        match out {
            Some(r) => last_with_id(referents(items@), items@.len() as int, id@) == Some(r.view()),
            None => last_with_id(referents(items@), items@.len() as int, id@) is None,
        },
{
    let mut n: usize = items.len();
    while n > 0
        invariant
            n <= items@.len(),
            last_with_id(referents(items@), items@.len() as int, id@) == last_with_id(
                referents(items@),
                n as int,
                id@,
            ),
        decreases n,
    {
        let hit: bool = match items[n - 1].text("id") {
            Some(t) => same(t, id),
            None => false,
        };
        assert(referents(items@)[n - 1] == items@[n - 1].view());
        if hit {
            return Some(items[n - 1]);
        }
        n -= 1;
    }
    None
}

// --------------------------------------------------------------------- the scan

/// What the first `n` requested categories report. A category that is no text,
/// or has no rule, is passed over.
pub open spec fn reports(
    cats: Seq<JsonV>,
    n: int,
    items: Seq<JsonV>,
    configured: JsonV,
    running: Seq<Seq<char>>,
    w: World,
) -> Report
    decreases n,
{
    if n <= 0 {
        Report { out: Seq::empty(), err: Seq::empty(), rows: 0 }
    } else {
        let before = reports(cats, n - 1, items, configured, running, w);
        match cats[n - 1] {
            JsonV::Str(id) => match last_with_id(items, items.len() as int, id) {
                Some(rule) => {
                    let r = rule_report(id, rule, configured, running, before.rows, w);
                    Report { out: before.out + r.out, err: before.err + r.err, rows: r.rows }
                },
                None => before,
            },
            _ => before,
        }
    }
}

/// The outcome of a scan: what it reports, or the message with which it stops,
/// which is missing where an argument is.
pub open spec fn scan_outcome(argv: Seq<Seq<char>>, input: Seq<char>, w: World) -> Result<
    Report,
    Option<Seq<char>>,
> {
    if trimmed(input).len() == 0 {
        Err(Some("规则库解析失败：stdin 规则 JSON 为空"@))
    } else {
        match json_text(input) {
            Err(e) => Err(Some("规则库解析失败: "@ + e)),
            Ok(rules) => match array_member(rules, "groups"@) {
                None => Err(Some("规则库解析失败：缺少 groups 结构"@)),
                Some(groups) => if argv.len() < 1 {
                    Err(None)
                } else {
                    match json_text(argv[0]) {
                        Ok(JsonV::Arr(cats)) => if cats.len() == 0 {
                            Err(Some("扫描分类参数解析失败：categories 为空"@))
                        } else if argv.len() < 2 {
                            Err(None)
                        } else {
                            match json_text(argv[1]) {
                                Ok(JsonV::Obj(m)) => Ok(
                                    reports(
                                        cats,
                                        cats.len() as int,
                                        groups_items(groups, groups.len() as int),
                                        JsonV::Obj(m),
                                        crate::world::names_of(
                                            w.programs@,
                                            w.programs@.len() as int,
                                        ),
                                        w,
                                    ),
                                ),
                                _ => Err(Some("路径绑定配置解析失败"@)),
                            }
                        },
                        _ => Err(Some("扫描分类参数解析失败"@)),
                    }
                },
            },
        }
    }
}

fn scan_categories(
    cats: &Vec<Json>,
    items: &Vec<&Json>,
    configured: &Json,
    world: &World,
) -> (out: Lines)
    ensures
        ({
            let r = reports(
                values(cats@),
                cats@.len() as int,
                referents(items@),
                configured.view(),
                crate::world::names_of(world.programs@, world.programs@.len() as int),
                *world,
            );
            texts(out.out@) == r.out && texts(out.err@) == r.err && out.rows == r.rows
        }),
{
    let running: Vec<String> = process_names(world);
    let mut lines: Lines = Lines { out: Vec::new(), err: Vec::new(), rows: 0 };
    let mut i: usize = 0;
    assert(texts(lines.out@) =~= Seq::empty());
    assert(texts(lines.err@) =~= Seq::empty());
    let ghost all = referents(items@);
    while i < cats.len()
        invariant
            i <= cats@.len(),
            all == referents(items@),
            lines.rows <= PLAN_CAP_TOTAL,
            ({
                let r = reports(
                    values(cats@),
                    i as int,
                    all,
                    configured.view(),
                    texts(running@),
                    *world,
                );
                texts(lines.out@) == r.out && texts(lines.err@) == r.err && lines.rows == r.rows
            }),
        decreases cats@.len() - i,
    {
        assert(values(cats@)[i as int] == cats@[i as int].view());
        match cats[i].as_str() {
            Some(id) => match find_rule(items, id) {
                Some(rule) => {
                    report_rule(id, rule, configured, &running, world, &mut lines);
                },
                None => {},
            },
            None => {},
        }
        i += 1;
    }
    lines
}

/// Runs a scan: the rules come as JSON text, the requested categories and the
/// confirmed paths as two JSON arguments.
pub fn scan_body(argv: &Vec<String>, input: &str, world: &World) -> (out: Result<
    Lines,
    Option<String>,
>)
    ensures
        match out {
            Ok(l) => scan_outcome(texts(argv@), input@, *world) matches Ok(r) && texts(l.out@)
                == r.out && texts(l.err@) == r.err && l.rows == r.rows,
            Err(Some(m)) => scan_outcome(texts(argv@), input@, *world) == Err::<
                Report,
                Option<Seq<char>>,
            >(Some(m@)),
            Err(None) => scan_outcome(texts(argv@), input@, *world) == Err::<
                Report,
                Option<Seq<char>>,
            >(None),
        },
{
    if trim(input).as_str().unicode_len() == 0 {
        return Err(Some("规则库解析失败：stdin 规则 JSON 为空".to_owned()));
    }
    let rules: Json = match parse_json(input) {
        Ok(r) => r,
        Err(e) => {
            let mut m: String = "规则库解析失败: ".to_owned();
            m.append(e.as_str());
            return Err(Some(m));
        },
    };
    let groups: &Vec<Json> = match rules.array("groups") {
        Some(g) => g,
        None => return Err(Some("规则库解析失败：缺少 groups 结构".to_owned())),
    };
    if argv.len() < 1 {
        return Err(None);
    }
    assert(texts(argv@)[0] == argv@[0]@);
    let cats_value: Json = match parse_json(argv[0].as_str()) {
        Ok(v) => v,
        Err(_) => return Err(Some("扫描分类参数解析失败".to_owned())),
    };
    let cats: &Vec<Json> = match cats_value.as_arr() {
        Some(a) => a,
        None => return Err(Some("扫描分类参数解析失败".to_owned())),
    };
    assert(values(cats@).len() == cats@.len());
    if cats.len() == 0 {
        return Err(Some("扫描分类参数解析失败：categories 为空".to_owned()));
    }
    if argv.len() < 2 {
        return Err(None);
    }
    assert(texts(argv@)[1] == argv@[1]@);
    let configured: Json = match parse_json(argv[1].as_str()) {
        Ok(v) => v,
        Err(_) => return Err(Some("路径绑定配置解析失败".to_owned())),
    };
    let is_object: bool = match &configured {
        Json::Obj(_) => true,
        _ => false,
    };
    if !is_object {
        return Err(Some("路径绑定配置解析失败".to_owned()));
    }
    let items: Vec<&Json> = collect_items(groups);
    assert(values(groups@).len() == groups@.len());
    assert(referents(items@).len() == items@.len());
    Ok(scan_categories(cats, &items, &configured, world))
}

/// Lines as one text, each with its line feed.
pub open spec fn lines_text(list: Seq<Seq<char>>, n: int) -> Seq<char>
    decreases n,
{
    if n <= 0 {
        Seq::empty()
    } else {
        lines_text(list, n - 1) + list[n - 1] + "\n"@
    }
}

fn write_lines(list: &Vec<String>) -> (out: String)
    ensures
        out@ == lines_text(texts(list@), list@.len() as int),
{
    let mut out: String = String::new();
    let mut i: usize = 0;
    assert(out@ =~= Seq::empty());
    while i < list.len()
        invariant
            i <= list@.len(),
            out@ == lines_text(texts(list@), i as int),
        decreases list@.len() - i,
    {
        out.append(list[i].as_str());
        out.append("\n");
        i += 1;
    }
    out
}

/// The message with which a command stops, as it is written.
pub open spec fn fatal_text(m: Seq<char>) -> Seq<char> {
    "[cleanup-scan] 致命: "@ + m + "\n"@
}

/// The message with which a command stops, as it is written.
pub fn fatal(msg: &str) -> (out: String)
    ensures
        out@ == fatal_text(msg@),
{
    let mut out: String = "[cleanup-scan] 致命: ".to_owned();
    out.append(msg);
    out.append("\n");
    out
}

/// The exit code and the two output texts of a scan.
pub open spec fn scan_run(argv: Seq<Seq<char>>, input: Seq<char>, w: World) -> (
    int,
    Seq<char>,
    Seq<char>,
) {
    match scan_outcome(argv, input, w) {
        Ok(r) => (0, lines_text(r.out, r.out.len() as int), lines_text(r.err, r.err.len() as int)),
        Err(Some(m)) => (2, Seq::empty(), fatal_text(m)),
        Err(None) => (2, Seq::empty(), Seq::empty()),
    }
}

/// Runs a scan and returns its exit code and its two output texts.
pub fn run_json(argv: &Vec<String>, stdin_text: &str, world: &World) -> (out: (i32, String, String))
    ensures
        (out.0 as int, out.1@, out.2@) == scan_run(texts(argv@), stdin_text@, *world),
{
    match scan_body(argv, stdin_text, world) {
        Ok(l) => {
            assert(texts(l.out@).len() == l.out@.len());
            assert(texts(l.err@).len() == l.err@.len());
            (0, write_lines(&l.out), write_lines(&l.err))
        },
        Err(Some(m)) => {
            let none: String = String::new();
            assert(none@ =~= Seq::empty());
            (2, none, fatal(m.as_str()))
        },
        Err(None) => {
            let none: String = String::new();
            assert(none@ =~= Seq::empty());
            (2, none.clone(), none)
        },
    }
}

/// The `cleanup` command: two arguments, and the rules from the input, which is
/// `None` where it could not be read.
pub fn run(argv: &Vec<String>, stdin_text: Option<&str>, world: &World) -> (out: (
    i32,
    String,
    String,
))
    ensures
        (out.0 as int, out.1@, out.2@) == (if argv@.len() < 2 {
            (
                2,
                Seq::empty(),
                fatal_text(
                    "cleanup 子命令参数不足：需要 categories JSON 与 configuredPaths JSON"@,
                ),
            )
        } else {
            match stdin_text {
                None => (2, Seq::empty(), fatal_text("stdin 读取失败"@)),
                Some(t) => scan_run(texts(argv@), t@, *world),
            }
        }),
{
    if argv.len() < 2 {
        let none: String = String::new();
        assert(none@ =~= Seq::empty());
        return (
            2,
            none,
            fatal("cleanup 子命令参数不足：需要 categories JSON 与 configuredPaths JSON"),
        );
    }
    match stdin_text {
        None => {
            let none: String = String::new();
            assert(none@ =~= Seq::empty());
            (2, none, fatal("stdin 读取失败"))
        },
        Some(t) => run_json(argv, t, world),
    }
}

// ------------------------------------------------------------------ files in use

/// A program that holds a file open. A critical one must not be ended.
#[derive(Debug)]
pub struct RmProc {
    pub pid: u32,
    pub app: String,
    pub critical: bool,
}

/// The kind of application that the system reports for its own vital parts.
pub const RM_CRITICAL: u32 = 1000;

/// The first list of holders with the given path.
pub open spec fn holders_in(list: Seq<(String, Vec<Holder>)>, path: Seq<char>) -> Seq<Holder>
    decreases list.len(),
{
    if list.len() == 0 {
        Seq::empty()
    } else if list[0].0@ == path {
        list[0].1@
    } else {
        holders_in(list.skip(1), path)
    }
}

/// The named programs among the first `n` holders of a file.
pub open spec fn lockers(list: Seq<Holder>, n: int) -> Seq<(u32, Seq<char>, bool)>
    decreases n,
{
    if n <= 0 {
        Seq::empty()
    } else {
        let before = lockers(list, n - 1);
        let h = list[n - 1];
        if h.app@.len() == 0 {
            before
        } else {
            before.push((h.pid, h.app@, h.kind == RM_CRITICAL))
        }
    }
}

/// The programs that hold a file open.
pub open spec fn lockers_of(w: World, path: Seq<char>) -> Seq<(u32, Seq<char>, bool)> {
    let list = holders_in(w.holders@, path);
    lockers(list, list.len() as int)
}

/// The values of a list of programs.
pub open spec fn procs(v: Seq<RmProc>) -> Seq<(u32, Seq<char>, bool)> {
    Seq::new(v.len(), |i: int| (v[i].pid, v[i].app@, v[i].critical))
}

fn name_holders(list: &Vec<Holder>) -> (out: Vec<RmProc>)
    ensures
        procs(out@) == lockers(list@, list@.len() as int),
{
    let mut out: Vec<RmProc> = Vec::new();
    let mut i: usize = 0;
    assert(procs(out@) =~= Seq::empty());
    while i < list.len()
        invariant
            i <= list@.len(),
            procs(out@) == lockers(list@, i as int),
        decreases list@.len() - i,
    {
        let h: &Holder = &list[i];
        if h.app.as_str().unicode_len() > 0 {
            let ghost before = procs(out@);
            out.push(RmProc { pid: h.pid, app: h.app.clone(), critical: h.kind == RM_CRITICAL });
            assert(procs(out@) =~= before.push((h.pid, h.app@, h.kind == RM_CRITICAL)));
        }
        i += 1;
    }
    out
}

/// The programs that hold a file open; one without a name is left out.
pub fn query_lockers(path: &str, world: &World) -> (out: Vec<RmProc>)
    ensures
        procs(out@) == lockers_of(*world, path@),
{
    let mut i: usize = 0;
    assert(world.holders@.skip(0) =~= world.holders@);
    while i < world.holders.len()
        invariant
            i <= world.holders@.len(),
            holders_in(world.holders@, path@) == holders_in(
                world.holders@.skip(i as int),
                path@,
            ),
        decreases world.holders@.len() - i,
    {
        assert(world.holders@.skip(i as int).skip(1) =~= world.holders@.skip(i + 1));
        if same(world.holders[i].0.as_str(), path) {
            return name_holders(&world.holders[i].1);
        }
        i += 1;
    }
    let none: Vec<RmProc> = Vec::new();
    assert(procs(none@) =~= Seq::empty());
    none
}

/// Whether a file is in use: it is there, is no directory, and cannot be opened
/// alone.
pub open spec fn in_use(w: World, path: Seq<char>) -> bool {
    w.at(path) matches Some(e) && e.kind != Kind::Dir && !e.openable
}

/// How a program is written in the line of a file in use.
pub open spec fn proc_text(p: (u32, Seq<char>, bool)) -> Seq<char> {
    "{\"pid\":"@ + dec(p.0 as nat) + ",\"app\":"@ + quoted(p.1) + ",\"critical\":"@ + word(p.2)
        + "}"@
}

/// How the programs are written.
pub open spec fn proc_texts(list: Seq<(u32, Seq<char>, bool)>) -> Seq<Seq<char>> {
    Seq::new(list.len(), |i: int| proc_text(list[i]))
}

/// The line of a file in use.
pub open spec fn locked_line(
    path: Seq<char>,
    id: Seq<char>,
    list: Seq<(u32, Seq<char>, bool)>,
) -> Seq<char> {
    "@@LOCKED@@{\"path\":"@ + quoted(path) + ",\"id\":"@ + quoted(id) + ",\"procs\":["@ + joined(
        proc_texts(list),
        ","@,
    ) + "]}"@
}

/// The lines of the first `n` files that are in use, and how many of them have
/// a path.
pub open spec fn locked_lines(files: Seq<JsonV>, n: int, w: World) -> (Seq<Seq<char>>, nat)
    decreases n,
{
    if n <= 0 {
        (Seq::empty(), 0)
    } else {
        let before = locked_lines(files, n - 1, w);
        let f = files[n - 1];
        match text_member(f, "path"@) {
            None => before,
            Some(p) => if p.len() == 0 {
                before
            } else if !in_use(w, p) {
                (before.0, before.1 + 1)
            } else {
                let id = match text_member(f, "id"@) {
                    Some(t) => t,
                    None => ""@,
                };
                (before.0.push(locked_line(p, id, lockers_of(w, p))), before.1 + 1)
            },
        }
    }
}

/// The line that ends the report.
pub open spec fn locked_end(scanned: nat, locked: nat) -> Seq<char> {
    "@@LOCKED_DONE@@{\"scanned\":"@ + dec(scanned) + ",\"locked\":"@ + dec(locked) + "}"@
}

/// The report on the files of a plan that are in use, or the message with which
/// it stops.
pub open spec fn locked_outcome(input: Seq<char>, w: World) -> Result<Seq<Seq<char>>, Seq<char>> {
    if trimmed(input).len() == 0 {
        Err("占用检测输入为空"@)
    } else {
        match json_text(input) {
            Err(e) => Err("占用检测输入解析失败: "@ + e),
            Ok(v) => match array_member(v, "files"@) {
                None => Err("占用检测输入缺少 files 结构"@),
                Some(files) => {
                    let r = locked_lines(files, files.len() as int, w);
                    Ok(r.0.push(locked_end(r.1, r.0.len())))
                },
            },
        }
    }
}

fn write_proc(p: &RmProc) -> (out: String)
    ensures
        out@ == proc_text((p.pid, p.app@, p.critical)),
{
    let mut out: String = "{\"pid\":".to_owned();
    out.append(decimal(p.pid as u64).as_str());
    out.append(",\"app\":");
    out.append(jstr(p.app.as_str()).as_str());
    out.append(",\"critical\":");
    out.append(bool_word(p.critical).as_str());
    out.append("}");
    out
}

fn write_locked(path: &str, id: &str, list: &Vec<RmProc>) -> (out: String)
    ensures
        out@ == locked_line(path@, id@, procs(list@)),
{
    let mut body: Vec<String> = Vec::new();
    let mut i: usize = 0;
    while i < list.len()
        invariant
            i <= list@.len(),
            texts(body@) == proc_texts(procs(list@)).take(i as int),
        decreases list@.len() - i,
    {
        let t: String = write_proc(&list[i]);
        proof {
            crate::text::lemma_texts_push(body@, t);
            assert(proc_texts(procs(list@)).take(i + 1) =~= proc_texts(procs(list@)).take(
                i as int,
            ).push(t@));
        }
        body.push(t);
        i += 1;
    }
    assert(proc_texts(procs(list@)).take(list@.len() as int) =~= proc_texts(procs(list@)));
    let mut out: String = "@@LOCKED@@{\"path\":".to_owned();
    out.append(jstr(path).as_str());
    out.append(",\"id\":");
    out.append(jstr(id).as_str());
    out.append(",\"procs\":[");
    out.append(join(&body, ",").as_str());
    out.append("]}");
    out
}

/// Reports which files of a plan are in use, and by which programs.
pub fn checklocked_body(input: &str, world: &World) -> (out: Result<Vec<String>, String>)
    ensures
        match out {
            Ok(l) => locked_outcome(input@, *world) == Ok::<Seq<Seq<char>>, Seq<char>>(texts(l@)),
            Err(m) => locked_outcome(input@, *world) == Err::<Seq<Seq<char>>, Seq<char>>(m@),
        },
{
    if trim(input).as_str().unicode_len() == 0 {
        return Err("占用检测输入为空".to_owned());
    }
    let parsed: Json = match parse_json(input) {
        Ok(v) => v,
        Err(e) => {
            let mut m: String = "占用检测输入解析失败: ".to_owned();
            m.append(e.as_str());
            return Err(m);
        },
    };
    let files: &Vec<Json> = match parsed.array("files") {
        Some(f) => f,
        None => return Err("占用检测输入缺少 files 结构".to_owned()),
    };
    let mut out: Vec<String> = Vec::new();
    let mut scanned: usize = 0;
    let mut i: usize = 0;
    assert(texts(out@) =~= Seq::empty());
    while i < files.len()
        invariant
            i <= files@.len(),
            scanned <= i,
            texts(out@) == locked_lines(values(files@), i as int, *world).0,
            scanned == locked_lines(values(files@), i as int, *world).1,
        decreases files@.len() - i,
    {
        let f: &Json = &files[i];
        assert(values(files@)[i as int] == f.view());
        match f.text("path") {
            None => {},
            Some(p) => {
                if p.unicode_len() > 0 {
                    scanned += 1;
                    let used: bool = match world.find(p) {
                        Some(e) => e.kind != Kind::Dir && !e.openable,
                        None => false,
                    };
                    if used {
                        let id: &str = match f.text("id") {
                            Some(t) => t,
                            None => "",
                        };
                        let list: Vec<RmProc> = query_lockers(p, world);
                        let l: String = write_locked(p, id, &list);
                        proof {
                            crate::text::lemma_texts_push(out@, l);
                        }
                        out.push(l);
                    }
                }
            },
        }
        i += 1;
    }
    assert(values(files@).len() == files@.len());
    assert(texts(out@).len() == out@.len());
    let mut end: String = "@@LOCKED_DONE@@{\"scanned\":".to_owned();
    end.append(decimal(scanned as u64).as_str());
    end.append(",\"locked\":");
    end.append(decimal(out.len() as u64).as_str());
    end.append("}");
    proof {
        crate::text::lemma_texts_push(out@, end);
    }
    out.push(end);
    Ok(out)
}

/// The exit code and the two output texts of the report on files in use.
pub fn checklocked_json(stdin_text: &str, world: &World) -> (out: (i32, String, String))
    ensures
        (out.0 as int, out.1@, out.2@) == (match locked_outcome(stdin_text@, *world) {
            Ok(l) => (0int, lines_text(l, l.len() as int), Seq::empty()),
            Err(m) => (2int, Seq::empty(), fatal_text(m)),
        }),
{
    let none: String = String::new();
    assert(none@ =~= Seq::empty());
    match checklocked_body(stdin_text, world) {
        Ok(l) => {
            assert(texts(l@).len() == l@.len());
            (0, write_lines(&l), none)
        },
        Err(m) => (2, none, fatal(m.as_str())),
    }
}

// ------------------------------------------------------------------------ laws

/// Every refused scan says nothing on its output and ends with code two.
pub proof fn law_refused_scan_is_silent(argv: Seq<Seq<char>>, input: Seq<char>, w: World)
    requires
        scan_outcome(argv, input, w) is Err,
    ensures
        scan_run(argv, input, w).0 == 2,
        scan_run(argv, input, w).1.len() == 0,
{
}

/// An item whose application is not installed is not reported, unless it is the
/// component store.
pub proof fn law_absent_application_is_hidden(
    id: Seq<char>,
    rule: JsonV,
    configured: JsonV,
    running: Seq<Seq<char>>,
    rows: nat,
    w: World,
)
    requires
        !detected(rule, w),
        text_member(rule, "special"@) != Some("dism"@),
    ensures
        rule_report(id, rule, configured, running, rows, w) == (Report {
            out: Seq::empty(),
            err: Seq::empty(),
            rows,
        }),
{
}

/// An expression that is not one never becomes a path: the item is not reported
/// on the output.
pub proof fn law_bad_expression_is_no_path(
    id: Seq<char>,
    rule: JsonV,
    configured: JsonV,
    running: Seq<Seq<char>>,
    rows: nat,
    w: World,
)
    requires
        text_member(rule, "special"@) != Some("dism"@),
        count_member(rule, "fileKeys"@) == 0,
        count_member(rule, "regKeys"@) == 0,
        text_member(rule, "pathPs"@) matches Some(e) && rule_path(e, w.env) is None,
    ensures
        rule_report(id, rule, configured, running, rows, w).out.len() == 0,
        rule_report(id, rule, configured, running, rows, w).rows == rows,
{
}

} // verus!
