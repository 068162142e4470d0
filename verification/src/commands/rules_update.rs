//! Newer rules: where they are looked for, what they must be like, and what a
//! search for them is answered.

use crate::commands::reply::{refuse, refused};
use crate::commands::rules::{collect_items, groups_in, refs, rule_items};
use crate::json::{array_member, lemma_view_obj, member, members, values, Json, JsonV};
use crate::text::{cat, cat3, has, lemma_texts_push, listed, occurs, starts_with, texts};
use crate::value::{copy_json, json_in, jtext, read_json, Fields, NumberV};
use crate::version::{
    below, later, law_later, nothing, shown_version, version_of, version_value, Version,
};
use vstd::prelude::*;

verus! {

/// The shortest text that is taken for rules, in characters.
pub const RULES_MIN_SIZE: usize = 4096;

/// The longest text that is taken for rules, in characters.
pub const RULES_MAX_SIZE: usize = 2_097_152;

/// The version of rules.
pub open spec fn rules_version(rules: JsonV) -> NumberV {
    version_of(member(rules, "rulesVersion"@))
}

/// The version that rules must at least have to be taken: that of those in use, or what
/// was put down before, whichever is later.
pub fn version_in_use(rules: &Json, mark: Version) -> (out: Version)
    ensures
        out.view() == later(rules_version(rules.view()), mark.view()),
{
    Version::read(rules.get("rulesVersion")).later(mark)
}

/// Whether a version is put down as the one below which no rules are taken again: it only
/// ever rises.
pub fn raises_mark(version: &Version, mark: &Version) -> (out: bool)
    ensures
        out == (below(nothing(), version.view()) && below(mark.view(), version.view())),
{
    Version::none().is_below(version) && mark.is_below(version)
}

/// Whether a member is a text.
pub open spec fn is_text(v: JsonV, key: Seq<char>) -> bool {
    member(v, key) matches Some(JsonV::Str(_))
}

/// Whether the first `n` items have an id and a name.
pub open spec fn all_named(list: Seq<JsonV>, n: int) -> bool
    decreases n,
{
    n <= 0 || (all_named(list, n - 1) && is_text(list[n - 1], "id"@) && is_text(
        list[n - 1],
        "name"@,
    ))
}

/// Why a text is not taken for rules, given what the check of its signature says and the
/// version that it must at least have.
pub open spec fn rules_refusal(
    text: Seq<char>,
    signature: Result<(), String>,
    current: NumberV,
) -> Option<Seq<char>> {
    if text.len() < RULES_MIN_SIZE {
        Some("内容过小，疑似异常响应"@)
    } else if text.len() > RULES_MAX_SIZE {
        Some("内容过大，疑似异常响应"@)
    } else {
        match signature {
            Err(e) => Some(e@),
            Ok(_) => match json_in(text) {
                None => Some("JSON 解析失败"@),
                Some(j) => {
                    let items = rule_items(j);
                    if groups_in(j).len() == 0 {
                        Some("缺少 groups 结构"@)
                    } else if items.len() == 0 || !all_named(items, items.len() as int) {
                        Some("条目缺少 id/name 字段"@)
                    } else if below(rules_version(j), current) {
                        Some(
                            "下载版本("@ + shown_version(rules_version(j)) + ")低于当前版本("@
                                + shown_version(current) + ")，已拒绝（防降级）"@,
                        )
                    } else {
                        None
                    }
                },
            },
        }
    }
}

/// The version of a text that may be taken for rules; otherwise why it may not.
pub fn validate_remote_rules(text: &str, signature: &Result<(), String>, current: &Version) -> (out:
    Result<Version, String>)
    ensures
        match out {
            Ok(v) => rules_refusal(text@, *signature, current.view()) is None && (json_in(
                text@,
            ) matches Some(j) && v.view() == rules_version(j)),
            Err(e) => rules_refusal(text@, *signature, current.view()) == Some(e@),
        },
{
    let n: usize = text.unicode_len();
    if n < RULES_MIN_SIZE {
        return Err("内容过小，疑似异常响应".to_owned());
    }
    if n > RULES_MAX_SIZE {
        return Err("内容过大，疑似异常响应".to_owned());
    }
    if let Err(e) = signature {
        return Err(e.clone());
    }
    let parsed: Json = match read_json(text) {
        Some(j) => j,
        None => {
            return Err("JSON 解析失败".to_owned());
        },
    };
    let some: bool = match parsed.array("groups") {
        Some(a) => {
            assert(values(a@).len() == a@.len());
            a.len() > 0
        },
        None => false,
    };
    if !some {
        return Err("缺少 groups 结构".to_owned());
    }
    let items: Vec<&Json> = collect_items(&parsed);
    let ghost list = refs(items@);
    let mut named: bool = true;
    let mut i: usize = 0;
    while i < items.len()
        invariant
            i <= items@.len(),
            list == refs(items@),
            named == all_named(list, i as int),
        decreases items@.len() - i,
    {
        assert(list[i as int] == items@[i as int].view());
        named = named && items[i].text("id").is_some() && items[i].text("name").is_some();
        i += 1;
    }
    assert(list.len() == items@.len());
    if items.len() == 0 || !named {
        return Err("条目缺少 id/name 字段".to_owned());
    }
    let version: Version = Version::read(parsed.get("rulesVersion"));
    if version.is_below(current) {
        let mut m: String = cat3("下载版本(", version.text().as_str(), ")低于当前版本(");
        m.append(current.text().as_str());
        m.append(")，已拒绝（防降级）");
        return Err(m);
    }
    Ok(version)
}

// --------------------------------------------------------------------------- sources

/// How many sources of their own a user may name.
pub const OVERRIDE_CAP: usize = 10;

/// How many built-in sources there are.
pub const BUILTIN_SOURCES: usize = 3;

/// The built-in sources, in the order in which they are tried.
pub open spec fn builtin_sources() -> Seq<Seq<char>> {
    seq![
        "https://raw.githubusercontent.com/xiaoxu1642/Trim/main/src/data/cleanup-rules.json"@,
        "https://cdn.jsdelivr.net/gh/xiaoxu1642/Trim@main/src/data/cleanup-rules.json"@,
        "https://gh-proxy.com/https://raw.githubusercontent.com/xiaoxu1642/Trim/main/src/data/cleanup-rules.json"@,
    ]
}

fn builtin_source(k: usize) -> (out: &'static str)
    requires
        k < BUILTIN_SOURCES,
    ensures
        out@ == builtin_sources()[k as int],
{
    if k == 0 {
        "https://raw.githubusercontent.com/xiaoxu1642/Trim/main/src/data/cleanup-rules.json"
    } else if k == 1 {
        "https://cdn.jsdelivr.net/gh/xiaoxu1642/Trim@main/src/data/cleanup-rules.json"
    } else {
        "https://gh-proxy.com/https://raw.githubusercontent.com/xiaoxu1642/Trim/main/src/data/cleanup-rules.json"
    }
}

/// Whether a text is an address that can be asked.
pub open spec fn web_address(u: Seq<char>) -> bool {
    "http://"@.is_prefix_of(u) || "https://"@.is_prefix_of(u)
}

/// The addresses among the first `n` values, as many as a user may name.
pub open spec fn user_sources(list: Seq<JsonV>, n: int) -> Seq<Seq<char>>
    decreases n,
{
    if n <= 0 {
        Seq::empty()
    } else {
        let before = user_sources(list, n - 1);
        match list[n - 1] {
            JsonV::Str(u) => if web_address(u) && before.len() < OVERRIDE_CAP {
                before.push(u)
            } else {
                before
            },
            _ => before,
        }
    }
}

/// The headers among the first `n` members: texts, neither they nor their names too
/// long.
pub open spec fn user_headers(m: Seq<(Seq<char>, JsonV)>, n: int) -> Seq<(Seq<char>, Seq<char>)>
    decreases n,
{
    if n <= 0 {
        Seq::empty()
    } else {
        let before = user_headers(m, n - 1);
        match m[n - 1].1 {
            JsonV::Str(t) => if m[n - 1].0.len() <= 128 && t.len() <= 1024 {
                before.push((m[n - 1].0, t))
            } else {
                before
            },
            _ => before,
        }
    }
}

/// The sources that a user names, with the headers that go with every request. Only
/// an object names any.
pub open spec fn override_of(cfg: JsonV) -> (Seq<Seq<char>>, Seq<(Seq<char>, Seq<char>)>) {
    (
        match array_member(cfg, "urls"@) {
            Some(a) => user_sources(a, a.len() as int),
            None => Seq::empty(),
        },
        match member(cfg, "headers"@) {
            Some(JsonV::Obj(m)) => user_headers(m, m.len() as int),
            _ => Seq::empty(),
        },
    )
}

/// The sources in the order in which they are tried, and the headers: those a user
/// names come first.
pub open spec fn sources_of(cfg: Option<JsonV>) -> (Seq<Seq<char>>, Seq<(Seq<char>, Seq<char>)>) {
    match cfg {
        Some(c) => (override_of(c).0 + builtin_sources(), override_of(c).1),
        None => (builtin_sources(), Seq::empty()),
    }
}

/// The names and values of headers.
pub open spec fn header_views(v: Seq<(String, String)>) -> Seq<(Seq<char>, Seq<char>)> {
    Seq::new(v.len(), |i: int| (v[i].0@, v[i].1@))
}

fn read_headers(cfg: &Json) -> (out: Vec<(String, String)>)
    ensures
        header_views(out@) == override_of(cfg.view()).1,
{
    let mut out: Vec<(String, String)> = Vec::new();
    assert(header_views(out@) =~= Seq::empty());
    if let Some(Json::Obj(m)) = cfg.get("headers") {
        proof {
            lemma_view_obj(*m);
        }
        let ghost mv = members(m@);
        let mut i: usize = 0;
        while i < m.len()
            invariant
                i <= m@.len(),
                mv == members(m@),
                header_views(out@) == user_headers(mv, i as int),
            decreases m@.len() - i,
        {
            assert(mv[i as int] == (m@[i as int].0@, m@[i as int].1.view()));
            if let Some(t) = m[i].1.as_str() {
                if m[i].0.as_str().unicode_len() <= 128 && t.unicode_len() <= 1024 {
                    let ghost before = out@;
                    out.push((m[i].0.clone(), t.to_owned()));
                    assert(header_views(out@) =~= header_views(before).push((m@[i as int].0@, t@)));
                }
            }
            i += 1;
        }
    }
    out
}

fn read_sources(cfg: &Json) -> (out: Vec<String>)
    ensures
        texts(out@) == override_of(cfg.view()).0,
{
    let mut out: Vec<String> = Vec::new();
    assert(texts(out@) =~= Seq::empty());
    if let Some(a) = cfg.array("urls") {
        let ghost list = values(a@);
        let mut i: usize = 0;
        while i < a.len()
            invariant
                i <= a@.len(),
                list == values(a@),
                texts(out@) == user_sources(list, i as int),
            decreases a@.len() - i,
        {
            assert(list[i as int] == a@[i as int].view());
            if let Some(u) = a[i].as_str() {
                assert(texts(out@).len() == out@.len());
                if (starts_with(u, "http://") || starts_with(u, "https://")) && out.len()
                    < OVERRIDE_CAP {
                    let ghost before = texts(out@);
                    let t: String = u.to_owned();
                    proof {
                        lemma_texts_push(out@, t);
                    }
                    out.push(t);
                    assert(texts(out@) =~= before.push(u@));
                }
            }
            i += 1;
        }
    }
    out
}

/// The sources in the order in which they are tried, and the headers.
pub fn build_rules_sources(cfg: &Option<Json>) -> (out: (Vec<String>, Vec<(String, String)>))
    ensures
        (texts(out.0@), header_views(out.1@)) == sources_of(
            match cfg {
                Some(c) => Some(c.view()),
                None => None,
            },
        ),
{
    let mut list: Vec<String> = Vec::new();
    let mut headers: Vec<(String, String)> = Vec::new();
    assert(texts(list@) =~= Seq::empty());
    assert(header_views(headers@) =~= Seq::empty());
    if let Some(c) = cfg {
        list = read_sources(c);
        headers = read_headers(c);
    }
    let ghost start = texts(list@);
    let mut k: usize = 0;
    assert(start + builtin_sources().take(0) =~= start);
    while k < BUILTIN_SOURCES
        invariant
            k <= BUILTIN_SOURCES,
            texts(list@) == start + builtin_sources().take(k as int),
        decreases BUILTIN_SOURCES - k,
    {
        let t: String = builtin_source(k).to_owned();
        proof {
            lemma_texts_push(list@, t);
        }
        let ghost before = texts(list@);
        list.push(t);
        assert(texts(list@) =~= before.push(t@));
        k += 1;
        assert(builtin_sources().take(k as int) =~= builtin_sources().take(k - 1).push(
            builtin_sources()[k - 1],
        ));
        assert(texts(list@) =~= start + builtin_sources().take(k as int));
    }
    assert(builtin_sources().take(BUILTIN_SOURCES as int) =~= builtin_sources());
    assert(Seq::<Seq<char>>::empty() + builtin_sources() =~= builtin_sources());
    (list, headers)
}

/// Those of the first `n` sources that are asked: no empty one, and none twice.
pub open spec fn asked(list: Seq<Seq<char>>, n: int) -> Seq<Seq<char>>
    decreases n,
{
    if n <= 0 {
        Seq::empty()
    } else {
        let before = asked(list, n - 1);
        if list[n - 1].len() == 0 || before.contains(list[n - 1]) {
            before
        } else {
            before.push(list[n - 1])
        }
    }
}

/// The sources that are asked: no empty one, and none twice.
pub fn distinct_sources(list: &Vec<String>) -> (out: Vec<String>)
    ensures
        texts(out@) == asked(texts(list@), list@.len() as int),
{
    let mut out: Vec<String> = Vec::new();
    let mut i: usize = 0;
    assert(texts(out@) =~= Seq::empty());
    while i < list.len()
        invariant
            i <= list@.len(),
            texts(out@) == asked(texts(list@), i as int),
        decreases list@.len() - i,
    {
        assert(texts(list@)[i as int] == list@[i as int]@);
        if list[i].as_str().unicode_len() > 0 && !listed(&out, list[i].as_str()) {
            let ghost before = texts(out@);
            let t: String = list[i].clone();
            proof {
                lemma_texts_push(out@, t);
            }
            out.push(t);
            assert(texts(out@) =~= before.push(t@));
        }
        i += 1;
    }
    out
}

// ---------------------------------------------------------------------- the outcome

/// What came of a search for newer rules: the source that had them, or why there are
/// none.
#[derive(Debug)]
pub enum Fetched {
    Source(usize),
    Git,
    Nothing(String),
}

/// The first of the attempts from `i` on that was a success.
pub open spec fn first_success(list: Seq<Result<(), String>>, i: int) -> Option<int>
    decreases list.len() - i,
{
    if i < 0 || i >= list.len() {
        None
    } else if list[i] is Ok {
        Some(i)
    } else {
        first_success(list, i + 1)
    }
}

/// Why the last of the attempts failed.
pub open spec fn last_failure(list: Seq<Result<(), String>>) -> Seq<char> {
    if list.len() == 0 {
        Seq::empty()
    } else {
        match list.last() {
            Err(e) => e@,
            Ok(_) => Seq::empty(),
        }
    }
}

/// What came of a search, given what came of each source in turn and, where it could
/// be asked, of the repository.
pub open spec fn fetch_outcome(
    list: Seq<Result<(), String>>,
    git: Option<Result<(), String>>,
    out: Fetched,
) -> bool {
    match first_success(list, 0) {
        Some(i) => out matches Fetched::Source(k) && k == i,
        None => match git {
            Some(Ok(_)) => out is Git,
            Some(Err(e)) => out matches Fetched::Nothing(m) && m@ == e@
                + "（本机 git 已取到远程规则）"@,
            None => out matches Fetched::Nothing(m) && m@ == last_failure(list),
        },
    }
}

/// What came of a search for newer rules.
pub fn fetch_decide(list: &Vec<Result<(), String>>, git: &Option<Result<(), String>>) -> (out:
    Fetched)
    ensures
        fetch_outcome(list@, *git, out),
{
    let mut i: usize = 0;
    let mut last: String = String::new();
    assert(last@ =~= Seq::empty());
    while i < list.len()
        invariant
            i <= list@.len(),
            first_success(list@, 0) == first_success(list@, i as int),
            i == 0 ==> last@ == Seq::<char>::empty(),
            i > 0 ==> (list@[i - 1] matches Err(e) && last@ == e@),
        decreases list@.len() - i,
    {
        match &list[i] {
            Ok(_) => {
                return Fetched::Source(i);
            },
            Err(e) => {
                last = e.clone();
            },
        }
        i += 1;
    }
    match git {
        Some(Ok(_)) => Fetched::Git,
        Some(Err(e)) => Fetched::Nothing(cat(e.as_str(), "（本机 git 已取到远程规则）")),
        None => Fetched::Nothing(last),
    }
}

/// What a user is advised to do where no newer rules were found.
pub open spec fn advice(error: Seq<char>, repository: bool) -> Seq<char> {
    if repository {
        if occurs(error, "版本"@) || occurs(error, "防降级"@) {
            "（远程规则版本未更新或低于本地，请先在源仓库发布新规则）"@
        } else {
            "（已尝试本机 git 回退仍失败，请检查网络或远程分支）"@
        }
    } else {
        "（HTTP 发布源不可达；私有仓库请先公开仓库，或在数据目录 update-source.json 配置可访问源）"@
    }
}

/// The reply where no newer rules were found.
pub fn update_failed(error: &str, repository: bool) -> (out: Json)
    ensures
        out.view() == refused(
            "所有发布源均不可用或校验未通过："@ + error@ + advice(error@, repository),
        ),
{
    let hint: &str = if repository {
        if has(error, "版本") || has(error, "防降级") {
            "（远程规则版本未更新或低于本地，请先在源仓库发布新规则）"
        } else {
            "（已尝试本机 git 回退仍失败，请检查网络或远程分支）"
        }
    } else {
        "（HTTP 发布源不可达；私有仓库请先公开仓库，或在数据目录 update-source.json 配置可访问源）"
    };
    refuse(cat3("所有发布源均不可用或校验未通过：", error, hint).as_str())
}

/// A member as it is, null where there is none.
pub open spec fn member_or_null(v: Option<JsonV>, key: Seq<char>) -> JsonV {
    match v {
        Some(j) => match member(j, key) {
            Some(m) => m,
            None => JsonV::Null,
        },
        None => JsonV::Null,
    }
}

fn take_member(v: &Option<Json>, key: &str) -> (out: Json)
    ensures
        out.view() == member_or_null(
            match v {
                Some(j) => Some(j.view()),
                None => None,
            },
            key@,
        ),
{
    match v {
        Some(j) => match j.get(key) {
            Some(m) => copy_json(m),
            None => Json::Null,
        },
        None => Json::Null,
    }
}

/// What is put down of a version below which no rules are taken again, where it rises.
pub open spec fn new_mark(version: NumberV, mark: NumberV, at: Seq<char>) -> Option<JsonV> {
    if below(nothing(), version) && below(mark, version) {
        Some(
            JsonV::Obj(
                seq![("rulesVersion"@, version_value(version)), ("at"@, JsonV::Str(at))],
            ),
        )
    } else {
        None
    }
}

/// What is put down of a version below which no rules are taken again, where it rises.
pub fn raise_mark(version: &Version, mark: &Version, at: &str) -> (out: Option<Json>)
    ensures
        new_mark(version.view(), mark.view(), at@) == (match out {
            Some(j) => Some(j.view()),
            None => None,
        }),
{
    if raises_mark(version, mark) {
        let f: Fields = Fields::new().with("rulesVersion", version.value()).with("at", jtext(at));
        assert(f.view() =~= seq![
            ("rulesVersion"@, version_value(version.view())),
            ("at"@, JsonV::Str(at@)),
        ]);
        Some(f.object())
    } else {
        None
    }
}

/// The reply where newer rules were put in place.
pub fn update_done(text: &str, version: &Version, source: &str) -> (out: Json)
    ensures
        out.view() == JsonV::Obj(
            seq![
                ("success"@, JsonV::Bool(true)),
                ("rulesVersion"@, version_value(version.view())),
                ("winapp2Version"@, member_or_null(json_in(text@), "winapp2Version"@)),
                ("source"@, JsonV::Str(source@)),
            ],
        ),
{
    let parsed: Option<Json> = read_json(text);
    let f: Fields = Fields::new().with("success", Json::Bool(true)).with(
        "rulesVersion",
        version.value(),
    ).with("winapp2Version", take_member(&parsed, "winapp2Version")).with("source", jtext(source));
    assert(f.view() =~= seq![
        ("success"@, JsonV::Bool(true)),
        ("rulesVersion"@, version_value(version.view())),
        ("winapp2Version"@, member_or_null(json_in(text@), "winapp2Version"@)),
        ("source"@, JsonV::Str(source@)),
    ]);
    f.object()
}

/// The reply to the question for newer rules where none could be found.
pub fn check_failed(rules: &Json, current: &Version, error: &str) -> (out: Json)
    ensures
        out.view() == JsonV::Obj(
            seq![
                ("success"@, JsonV::Bool(false)),
                ("currentVersion"@, version_value(current.view())),
                ("currentWinapp2Version"@, member_or_null(Some(rules.view()), "winapp2Version"@)),
                (
                    "message"@,
                    JsonV::Str(
                        if error@.len() == 0 {
                            "检测失败"@
                        } else {
                            error@
                        },
                    ),
                ),
            ],
        ),
{
    let held: Json = match rules.get("winapp2Version") {
        Some(m) => copy_json(m),
        None => Json::Null,
    };
    let message: &str = if error.unicode_len() == 0 {
        "检测失败"
    } else {
        error
    };
    let f: Fields = Fields::new().with("success", Json::Bool(false)).with(
        "currentVersion",
        current.value(),
    ).with("currentWinapp2Version", held).with("message", jtext(message));
    assert(f.view() =~= seq![
        ("success"@, JsonV::Bool(false)),
        ("currentVersion"@, version_value(current.view())),
        ("currentWinapp2Version"@, member_or_null(Some(rules.view()), "winapp2Version"@)),
        ("message"@, JsonV::Str(message@)),
    ]);
    f.object()
}

/// The reply to the question for newer rules, given the versions in use and found: there
/// are newer ones where what was found is later than what is in use.
pub fn check_done(
    rules: &Json,
    current: &Version,
    found: &Version,
    text: &str,
    source: &str,
) -> (out: Json)
    ensures
        out.view() == JsonV::Obj(
            seq![
                ("success"@, JsonV::Bool(true)),
                ("currentVersion"@, version_value(current.view())),
                ("currentWinapp2Version"@, member_or_null(Some(rules.view()), "winapp2Version"@)),
                ("remoteVersion"@, version_value(found.view())),
                ("remoteWinapp2Version"@, member_or_null(json_in(text@), "winapp2Version"@)),
                (
                    "hasUpdate"@,
                    JsonV::Bool(below(current.view(), found.view())),
                ),
                ("source"@, JsonV::Str(source@)),
            ],
        ),
{
    let held: Json = match rules.get("winapp2Version") {
        Some(m) => copy_json(m),
        None => Json::Null,
    };
    let parsed: Option<Json> = read_json(text);
    let newer: bool = current.is_below(found);
    let f: Fields = Fields::new().with("success", Json::Bool(true)).with(
        "currentVersion",
        current.value(),
    ).with("currentWinapp2Version", held).with("remoteVersion", found.value()).with(
        "remoteWinapp2Version",
        take_member(&parsed, "winapp2Version"),
    ).with("hasUpdate", Json::Bool(newer)).with("source", jtext(source));
    assert(f.view() =~= seq![
        ("success"@, JsonV::Bool(true)),
        ("currentVersion"@, version_value(current.view())),
        ("currentWinapp2Version"@, member_or_null(Some(rules.view()), "winapp2Version"@)),
        ("remoteVersion"@, version_value(found.view())),
        ("remoteWinapp2Version"@, member_or_null(json_in(text@), "winapp2Version"@)),
        ("hasUpdate"@, JsonV::Bool(newer)),
        ("source"@, JsonV::Str(source@)),
    ]);
    f.object()
}

// ------------------------------------------------------------------------------ laws

/// Rules whose version is below what they must at least have are never taken, whatever
/// else they are like.
pub proof fn law_no_older_rules(text: Seq<char>, signature: Result<(), String>, current: NumberV)
    requires
        json_in(text) matches Some(j) && below(rules_version(j), current),
    ensures
        rules_refusal(text, signature, current) is Some,
{
}

/// What is taken once forbids everything before it: rules below the later of the version
/// in use and of what was put down are refused, and so are those below either.
pub proof fn law_taken_forbids_older(
    text: Seq<char>,
    signature: Result<(), String>,
    used: NumberV,
    mark: NumberV,
)
    requires
        rules_refusal(text, signature, later(used, mark)) is None,
    ensures
        json_in(text) matches Some(j) && !below(rules_version(j), later(used, mark)),
        !below(later(used, mark), used),
        !below(later(used, mark), mark),
{
    law_later(used, mark);
}

/// Rules whose signature does not hold are never taken.
pub proof fn law_no_unsigned_rules(text: Seq<char>, signature: Result<(), String>, current: NumberV)
    requires
        signature is Err,
    ensures
        rules_refusal(text, signature, current) is Some,
{
}

} // verus!
