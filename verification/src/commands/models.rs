//! The language models: what is set for them, which one is used, and whether they answer.

use crate::commands::finder::{as_text, js_string};
use crate::commands::fonts::{true_text, true_text_or_empty, truthy_string};
use crate::commands::reply::{refuse, refused};
use crate::json::{lemma_view_obj, member, Json, JsonV};
use crate::text::{
    ascii_lowercase, first_chars, listed, same, starts_with, take_chars, texts, to_ascii_lower,
    trim, trimmed,
};
use crate::url::{is_private_api_url, private_url};
use crate::value::{copy_json, jcount, jint, js_truthy, jtext, set_member, truthy, with_member, Fields};
use vstd::prelude::*;

verus! {

/// A member as a text without the white space around it; none where there is nothing.
pub open spec fn member_text(cfg: JsonV, key: Seq<char>) -> Option<Seq<char>> {
    match member(cfg, key) {
        None => None,
        Some(JsonV::Null) => None,
        Some(v) => Some(trimmed(as_text(v))),
    }
}

/// A member as a text without the white space around it.
pub fn cfg_str(cfg: &Json, key: &str) -> (out: Option<String>)
    ensures
        match out {
            Some(t) => member_text(cfg.view(), key@) == Some(t@),
            None => member_text(cfg.view(), key@) is None,
        },
{
    match cfg.get(key) {
        None => None,
        Some(Json::Null) => None,
        Some(v) => Some(trim(js_string(v).as_str())),
    }
}

/// The key that is set for a model: what is given, unless that is the mask that stands for
/// the key that was set before.
pub open spec fn secret_of(cfg: JsonV, cur: JsonV, mask: Seq<char>) -> Seq<char> {
    match member_text(cfg, "apiKey"@) {
        Some(v) => if v != mask {
            v
        } else {
            true_text_or_empty(member(cur, "apiKey"@))
        },
        None => true_text_or_empty(member(cur, "apiKey"@)),
    }
}

fn empty_text() -> (out: String)
    ensures
        out@ == Seq::<char>::empty(),
{
    let none: String = String::new();
    assert(none@ =~= Seq::empty());
    none
}

fn own_text(v: Option<&Json>) -> (out: String)
    ensures
        out@ == true_text_or_empty(
            match v {
                Some(x) => Some(x.view()),
                None => None,
            },
        ),
{
    match truthy_string(v) {
        Some(t) => t,
        None => empty_text(),
    }
}

fn read_secret(cfg: &Json, cur: &Json, mask: &str) -> (out: String)
    ensures
        out@ == secret_of(cfg.view(), cur.view(), mask@),
{
    if let Some(v) = cfg_str(cfg, "apiKey") {
        if !same(v.as_str(), mask) {
            return v;
        }
    }
    own_text(cur.get("apiKey"))
}

/// A text that is set for a model: what is given, also where that is nothing, else what
/// was set before.
pub open spec fn set_text(cfg: JsonV, cur: JsonV, key: Seq<char>) -> Seq<char> {
    match member(cfg, key) {
        Some(_) => match member_text(cfg, key) {
            Some(t) => t,
            None => Seq::empty(),
        },
        None => true_text_or_empty(member(cur, key)),
    }
}

fn read_text(cfg: &Json, cur: &Json, key: &str) -> (out: String)
    ensures
        out@ == set_text(cfg.view(), cur.view(), key@),
{
    match cfg.get(key) {
        Some(_) => match cfg_str(cfg, key) {
            Some(t) => t,
            None => empty_text(),
        },
        None => own_text(cur.get(key)),
    }
}

/// Whether a member counts as true.
pub open spec fn is_on(v: JsonV, key: Seq<char>) -> bool {
    match member(v, key) {
        Some(x) => truthy(x),
        None => false,
    }
}

fn on(v: &Json, key: &str) -> (out: bool)
    ensures
        out == is_on(v.view(), key@),
{
    match v.get(key) {
        Some(x) => js_truthy(x),
        None => false,
    }
}

/// Whether an address starts like one of the web.
pub open spec fn http_start(url: Seq<char>) -> bool {
    let l = ascii_lowercase(url);
    "http://"@.is_prefix_of(l) || "https://"@.is_prefix_of(l)
}

/// Whether an address starts like one of the web.
pub fn is_http_url(url: &str) -> (out: bool)
    ensures
        out == http_start(url@),
{
    let l: String = to_ascii_lower(url);
    starts_with(l.as_str(), "http://") || starts_with(l.as_str(), "https://")
}

/// The address that is given for a model, else the usual one.
pub open spec fn given_url(cfg: JsonV, usual: Seq<char>) -> Seq<char> {
    let t = trimmed(true_text_or_empty(member(cfg, "apiUrl"@)));
    if t.len() == 0 {
        usual
    } else {
        t
    }
}

/// The address that is given for a model; otherwise the reply.
pub fn save_url(keys: &Vec<String>, key: &str, cfg: &Json, usual: &str) -> (out: Result<
    String,
    Json,
>)
    ensures
        match out {
            Ok(u) => texts(keys@).contains(key@) && u@ == given_url(cfg.view(), usual@)
                && http_start(u@),
            Err(r) => if !texts(keys@).contains(key@) {
                r.view() == refused("未知的模型项"@)
            } else {
                !http_start(given_url(cfg.view(), usual@)) && r.view() == refused(
                    "API 接口地址格式无效，请以 http(s):// 开头"@,
                )
            },
        },
{
    if !listed(keys, key) {
        return Err(refuse("未知的模型项"));
    }
    let t: String = trim(own_text(cfg.get("apiUrl")).as_str());
    let u: String = if t.as_str().unicode_len() == 0 {
        usual.to_owned()
    } else {
        t
    };
    if is_http_url(u.as_str()) {
        Ok(u)
    } else {
        Err(refuse("API 接口地址格式无效，请以 http(s):// 开头"))
    }
}

/// What is set anew for a model.
pub open spec fn model_patch(
    cfg: JsonV,
    cur: JsonV,
    url: Seq<char>,
    mask: Seq<char>,
    timeout: nat,
) -> Seq<(Seq<char>, JsonV)> {
    seq![
        ("apiUrl"@, JsonV::Str(url)),
        ("apiKey"@, JsonV::Str(secret_of(cfg, cur, mask))),
        ("model"@, JsonV::Str(set_text(cfg, cur, "model"@))),
        ("prompt"@, JsonV::Str(set_text(cfg, cur, "prompt"@))),
        ("customName"@, JsonV::Str(set_text(cfg, cur, "customName"@))),
        ("timeout"@, JsonV::Num(crate::text::dec(timeout))),
        (
            "enabled"@,
            JsonV::Bool(
                if member(cfg, "enabled"@) is Some {
                    is_on(cfg, "enabled"@)
                } else {
                    is_on(cur, "enabled"@)
                },
            ),
        ),
    ]
}

/// An object with some members set, one after the other.
pub open spec fn with_all(o: JsonV, m: Seq<(Seq<char>, JsonV)>, n: int) -> JsonV
    decreases n,
{
    if n <= 0 {
        o
    } else {
        with_member(with_all(o, m, n - 1), m[n - 1].0, m[n - 1].1)
    }
}

/// What is set for a model from now on.
pub open spec fn merged_model(
    cfg: JsonV,
    cur: JsonV,
    url: Seq<char>,
    mask: Seq<char>,
    timeout: nat,
) -> JsonV {
    let p = model_patch(cfg, cur, url, mask, timeout);
    with_all(cur, p, 7)
}

/// What is set for a model from now on; otherwise the reply. The address must be public,
/// and a model of one's own needs a name.
pub fn save_entry(
    key: &str,
    cfg: &Json,
    cur: &Json,
    url: &str,
    mask: &str,
    timeout: u64,
) -> (out: Result<Json, Json>)
    ensures
        ({
            let e = merged_model(cfg.view(), cur.view(), url@, mask@, timeout as nat);
            match out {
                Ok(m) => !private_url(url@) && !(key@ == "custom"@ && !is_on(e, "model"@))
                    && m.view() == e,
                Err(r) => if private_url(url@) {
                    r.view() == refused("API 接口地址不允许指向本机或内网网段"@)
                } else {
                    key@ == "custom"@ && !is_on(e, "model"@) && r.view() == refused(
                        "自定义模型需要填写模型名称"@,
                    )
                },
            }
        }),
{
    if is_private_api_url(url) {
        return Err(refuse("API 接口地址不允许指向本机或内网网段"));
    }
    let secret: String = read_secret(cfg, cur, mask);
    let enabled: bool = match cfg.get("enabled") {
        Some(_) => on(cfg, "enabled"),
        None => on(cur, "enabled"),
    };
    let a: Json = set_member(copy_json(cur), "apiUrl", jtext(url));
    let a: Json = set_member(a, "apiKey", jtext(secret.as_str()));
    let a: Json = set_member(a, "model", jtext(read_text(cfg, cur, "model").as_str()));
    let a: Json = set_member(a, "prompt", jtext(read_text(cfg, cur, "prompt").as_str()));
    let a: Json = set_member(
        a,
        "customName",
        jtext(read_text(cfg, cur, "customName").as_str()),
    );
    let a: Json = set_member(a, "timeout", jcount(timeout));
    let a: Json = set_member(a, "enabled", Json::Bool(enabled));
    proof {
        reveal_with_fuel(with_all, 8);
    }
    assert(a.view() == merged_model(cfg.view(), cur.view(), url@, mask@, timeout as nat));
    if same(key, "custom") && !on(&a, "model") {
        return Err(refuse("自定义模型需要填写模型名称"));
    }
    Ok(a)
}

/// Whether a model has no key.
pub open spec fn keyless(entry: JsonV) -> bool {
    trimmed(true_text_or_empty(member(entry, "apiKey"@))).len() == 0
}

/// Whether a model has no key, so that it is not asked.
pub fn has_no_key(entry: &Json) -> (out: bool)
    ensures
        out == keyless(entry.view()),
{
    trim(own_text(entry.get("apiKey")).as_str()).as_str().unicode_len() == 0
}

/// A model after it was asked at a moment: it is only confirmed, and only stays switched
/// on, where it has answered.
pub open spec fn confirmed(entry: JsonV, ok: bool, now: Seq<char>) -> JsonV {
    let a = with_member(entry, "verified"@, JsonV::Bool(ok));
    let b = with_member(a, "enabled"@, JsonV::Bool(ok && is_on(entry, "enabled"@)));
    if ok {
        with_member(b, "verifiedAt"@, JsonV::Str(now))
    } else {
        without_member(b, "verifiedAt"@)
    }
}

/// An object without a member.
pub open spec fn without_member(o: JsonV, key: Seq<char>) -> JsonV {
    match o {
        JsonV::Obj(m) => JsonV::Obj(crate::commands::fonts::without_key(m, key)),
        _ => o,
    }
}

fn drop_member(o: Json, key: &str) -> (out: Json)
    ensures
        out.view() == without_member(o.view(), key@),
{
    match o {
        Json::Obj(m) => {
            proof {
                lemma_view_obj(m);
            }
            let kept: Vec<(String, Json)> = crate::commands::fonts::drop_key(&m, key);
            proof {
                lemma_view_obj(kept);
            }
            Json::Obj(kept)
        },
        other => other,
    }
}

/// A model after it was asked at a moment.
pub fn confirm(entry: Json, ok: bool, now: &str) -> (out: Json)
    ensures
        out.view() == confirmed(entry.view(), ok, now@),
{
    let enabled: bool = ok && on(&entry, "enabled");
    let a: Json = set_member(entry, "verified", Json::Bool(ok));
    let b: Json = set_member(a, "enabled", Json::Bool(enabled));
    if ok {
        set_member(b, "verifiedAt", jtext(now))
    } else {
        drop_member(b, "verifiedAt")
    }
}

/// What is done with a model that is to be saved.
#[derive(Debug)]
pub enum Saving {
    /// It is saved as it stands here, switched off, and is not asked.
    SwitchedOff(Json),
    /// It is asked before it is saved.
    AskFirst(Json),
}

/// The mathematical value of what is done with a model that is to be saved.
pub enum SavingV {
    SwitchedOff(JsonV),
    AskFirst(JsonV),
}

impl Saving {
    pub open spec fn view(self) -> SavingV {
        match self {
            Saving::SwitchedOff(e) => SavingV::SwitchedOff(e.view()),
            Saving::AskFirst(e) => SavingV::AskFirst(e.view()),
        }
    }
}

/// What is done with a model that is to be saved at a moment: without a key it is switched
/// off, and it is not asked.
pub open spec fn first_step(entry: JsonV, now: Seq<char>) -> SavingV {
    if keyless(entry) {
        SavingV::SwitchedOff(confirmed(entry, false, now))
    } else {
        SavingV::AskFirst(entry)
    }
}

/// What is done with a model that is to be saved at a moment.
pub fn begin_save(entry: Json, now: &str) -> (out: Saving)
    ensures
        out.view() == first_step(entry.view(), now@),
{
    if has_no_key(&entry) {
        Saving::SwitchedOff(confirm(entry, false, now))
    } else {
        Saving::AskFirst(entry)
    }
}

/// The settings with the models and with the model that a part of the program uses, where
/// that part is known.
pub open spec fn settings_with(
    current: JsonV,
    models: JsonV,
    engines: JsonV,
    scopes: Seq<Seq<char>>,
    scope: Seq<char>,
    key: Seq<char>,
) -> JsonV {
    let e = if scopes.contains(scope) {
        with_member(engines, scope, JsonV::Str(key))
    } else {
        engines
    };
    with_member(with_member(current, "models"@, models), "aiScopes"@, e)
}

/// The settings with the models and with the model that a part of the program uses.
pub fn build_next(
    current: Json,
    models: Json,
    engines: Json,
    scopes: &Vec<String>,
    scope: &str,
    key: &str,
) -> (out: Json)
    ensures
        out.view() == settings_with(
            current.view(),
            models.view(),
            engines.view(),
            texts(scopes@),
            scope@,
            key@,
        ),
{
    let e: Json = if listed(scopes, scope) {
        set_member(engines, scope, jtext(key))
    } else {
        engines
    };
    set_member(set_member(current, "models", models), "aiScopes", e)
}

/// What is said of whether the settings could be written.
pub open spec fn saved_message(saved: bool) -> Seq<char> {
    if saved {
        Seq::empty()
    } else {
        "写入配置文件失败"@
    }
}

fn say_saved(saved: bool) -> (out: String)
    ensures
        out@ == saved_message(saved),
{
    if saved {
        empty_text()
    } else {
        "写入配置文件失败".to_owned()
    }
}

/// The reply to settings of a model without a key.
pub open spec fn keyless_reply(saved: bool) -> JsonV {
    JsonV::Obj(
        seq![
            ("success"@, JsonV::Bool(saved)),
            ("message"@, JsonV::Str(saved_message(saved))),
            (
                "data"@,
                JsonV::Obj(
                    seq![
                        ("verified"@, JsonV::Bool(false)),
                        ("reply"@, JsonV::Str(Seq::empty())),
                        ("emptyKey"@, JsonV::Bool(true)),
                    ],
                ),
            ),
        ],
    )
}

/// The reply to settings of a model without a key.
pub fn reply_keyless(saved: bool) -> (out: Json)
    ensures
        out.view() == keyless_reply(saved),
{
    let d: Fields = Fields::new().with("verified", Json::Bool(false)).with(
        "reply",
        jtext(empty_text().as_str()),
    ).with("emptyKey", Json::Bool(true));
    assert(d.view() =~= seq![
        ("verified"@, JsonV::Bool(false)),
        ("reply"@, JsonV::Str(Seq::empty())),
        ("emptyKey"@, JsonV::Bool(true)),
    ]);
    let f: Fields = Fields::new().with("success", Json::Bool(saved)).with(
        "message",
        jtext(say_saved(saved).as_str()),
    ).with("data", d.object());
    assert(f.view() =~= keyless_reply(saved)->Obj_0);
    f.object()
}

/// What a model has answered, without the white space around it.
pub open spec fn answer_text(answer: Option<Seq<char>>) -> Seq<char> {
    match answer {
        Some(t) => trimmed(t),
        None => Seq::empty(),
    }
}

fn read_answer(answer: &Option<String>) -> (out: String)
    ensures
        out@ == answer_text(
            match answer {
                Some(t) => Some(t@),
                None => None,
            },
        ),
{
    match answer {
        Some(t) => trim(t.as_str()),
        None => empty_text(),
    }
}

/// Whether a model has answered.
pub fn has_answered(answer: &Option<String>) -> (out: bool)
    ensures
        out == (answer_text(
            match answer {
                Some(t) => Some(t@),
                None => None,
            },
        ).len() > 0),
{
    read_answer(answer).as_str().unicode_len() > 0
}

/// The reply to settings of a model that was asked.
pub open spec fn verified_reply(saved: bool, answer: Option<Seq<char>>) -> JsonV {
    let t = answer_text(answer);
    JsonV::Obj(
        seq![
            ("success"@, JsonV::Bool(saved)),
            ("message"@, JsonV::Str(saved_message(saved))),
            (
                "data"@,
                JsonV::Obj(
                    seq![
                        ("verified"@, JsonV::Bool(t.len() > 0)),
                        ("reply"@, JsonV::Str(first_chars(t, 200))),
                    ],
                ),
            ),
        ],
    )
}

/// The reply to settings of a model that was asked.
pub fn reply_verified(saved: bool, answer: &Option<String>) -> (out: Json)
    ensures
        out.view() == verified_reply(
            saved,
            match answer {
                Some(t) => Some(t@),
                None => None,
            },
        ),
{
    let t: String = read_answer(answer);
    let ok: bool = t.as_str().unicode_len() > 0;
    let d: Fields = Fields::new().with("verified", Json::Bool(ok)).with(
        "reply",
        jtext(take_chars(t.as_str(), 200).as_str()),
    );
    assert(d.view() =~= seq![
        ("verified"@, JsonV::Bool(ok)),
        ("reply"@, JsonV::Str(first_chars(t@, 200))),
    ]);
    let f: Fields = Fields::new().with("success", Json::Bool(saved)).with(
        "message",
        jtext(say_saved(saved).as_str()),
    ).with("data", d.object());
    assert(f.view() =~= verified_reply(
        saved,
        match answer {
            Some(t) => Some(t@),
            None => None,
        },
    )->Obj_0);
    f.object()
}

/// The settings with the model that all parts of the program use; otherwise the reply.
/// Only a model that is confirmed and switched on can be used.
pub fn set_scope(
    keys: &Vec<String>,
    key: &str,
    models: &Json,
    current: Json,
    engines: Json,
    global: &str,
) -> (out: Result<Json, Json>)
    ensures
        ({
            let chosen = member(models.view(), key@);
            let usable = chosen matches Some(m) && is_on(m, "enabled"@) && is_on(m, "verified"@);
            match out {
                Ok(s) => texts(keys@).contains(key@) && usable && s.view() == with_member(
                    current.view(),
                    "aiScopes"@,
                    with_member(engines.view(), global@, JsonV::Str(key@)),
                ),
                Err(r) => if !texts(keys@).contains(key@) {
                    r.view() == refused("未知的模型项"@)
                } else {
                    !usable && r.view() == refused("只能选择已验证且已启用的模型"@)
                },
            }
        }),
{
    if !listed(keys, key) {
        return Err(refuse("未知的模型项"));
    }
    let usable: bool = match models.get(key) {
        Some(m) => on(m, "enabled") && on(m, "verified"),
        None => false,
    };
    if !usable {
        return Err(refuse("只能选择已验证且已启用的模型"));
    }
    let e: Json = set_member(engines, global, jtext(key));
    Ok(set_member(current, "aiScopes", e))
}

/// The reply to the choice of a model.
pub fn scope_reply(saved: bool) -> (out: Json)
    ensures
        out.view() == JsonV::Obj(
            seq![
                ("success"@, JsonV::Bool(saved)),
                ("message"@, JsonV::Str(saved_message(saved))),
            ],
        ),
{
    let f: Fields = Fields::new().with("success", Json::Bool(saved)).with(
        "message",
        jtext(say_saved(saved).as_str()),
    );
    assert(f.view() =~= seq![
        ("success"@, JsonV::Bool(saved)),
        ("message"@, JsonV::Str(saved_message(saved))),
    ]);
    f.object()
}

/// The address under which a model is tried: what is given, else what is set.
pub open spec fn trial_url(cfg: JsonV, base: JsonV) -> Seq<char> {
    trimmed(
        match true_text(member(cfg, "apiUrl"@)) {
            Some(t) => t,
            None => true_text_or_empty(member(base, "apiUrl"@)),
        },
    )
}

/// The address under which a model is tried.
pub fn test_url(cfg: &Json, base: &Json) -> (out: String)
    ensures
        out@ == trial_url(cfg.view(), base.view()),
{
    match truthy_string(cfg.get("apiUrl")) {
        Some(t) => trim(t.as_str()),
        None => trim(own_text(base.get("apiUrl")).as_str()),
    }
}

/// What a model is tried with.
pub open spec fn trial_config(
    cfg: JsonV,
    base: JsonV,
    url: Seq<char>,
    mask: Seq<char>,
    timeout: nat,
) -> JsonV {
    JsonV::Obj(
        seq![
            ("apiUrl"@, JsonV::Str(url)),
            ("apiKey"@, JsonV::Str(secret_of(cfg, base, mask))),
            ("model"@, JsonV::Str(set_text(cfg, base, "model"@))),
            ("timeout"@, JsonV::Num(crate::text::dec(timeout))),
        ],
    )
}

/// What a model is tried with; otherwise the reply.
pub fn test_config(
    keys: &Vec<String>,
    key: &str,
    cfg: &Json,
    base: &Json,
    url: &str,
    mask: &str,
    timeout: u64,
) -> (out: Result<Json, Json>)
    ensures
        match out {
            Ok(c) => texts(keys@).contains(key@) && http_start(url@) && !private_url(url@)
                && c.view() == trial_config(cfg.view(), base.view(), url@, mask@, timeout as nat),
            Err(r) => if !texts(keys@).contains(key@) {
                r.view() == refused("未知的模型项"@)
            } else if !http_start(url@) {
                r.view() == refused("API 接口地址格式无效，请以 http(s):// 开头"@)
            } else {
                private_url(url@) && r.view() == refused(
                    "API 接口地址不允许指向本机或内网网段"@,
                )
            },
        },
{
    if !listed(keys, key) {
        return Err(refuse("未知的模型项"));
    }
    if !is_http_url(url) {
        return Err(refuse("API 接口地址格式无效，请以 http(s):// 开头"));
    }
    if is_private_api_url(url) {
        return Err(refuse("API 接口地址不允许指向本机或内网网段"));
    }
    let secret: String = read_secret(cfg, base, mask);
    let model: String = read_text(cfg, base, "model");
    let f: Fields = Fields::new().with("apiUrl", jtext(url)).with(
        "apiKey",
        jtext(secret.as_str()),
    ).with("model", jtext(model.as_str())).with("timeout", jcount(timeout));
    assert(f.view() =~= trial_config(
        cfg.view(),
        base.view(),
        url@,
        mask@,
        timeout as nat,
    )->Obj_0);
    Ok(f.object())
}

/// The reply to a trial.
pub open spec fn trial_reply(answer: Option<Seq<char>>, latency: int) -> JsonV {
    let t = answer_text(answer);
    JsonV::Obj(
        if t.len() > 0 {
            seq![
                ("success"@, JsonV::Bool(true)),
                ("message"@, JsonV::Str("连接成功"@)),
                ("latencyMs"@, JsonV::Num(crate::numbers::signed_dec(latency))),
                ("data"@, JsonV::Obj(seq![("reply"@, JsonV::Str(first_chars(t, 200)))])),
            ]
        } else {
            seq![
                ("success"@, JsonV::Bool(false)),
                (
                    "message"@,
                    JsonV::Str("连接失败：未获得有效响应（请检查地址、密钥与模型名称）"@),
                ),
                ("latencyMs"@, JsonV::Num(crate::numbers::signed_dec(latency))),
            ]
        },
    )
}

/// The reply to a trial.
pub fn test_reply(answer: &Option<String>, latency: i64) -> (out: Json)
    ensures
        out.view() == trial_reply(
            match answer {
                Some(t) => Some(t@),
                None => None,
            },
            latency as int,
        ),
{
    let t: String = read_answer(answer);
    if t.as_str().unicode_len() > 0 {
        let d: Fields = Fields::new().with("reply", jtext(take_chars(t.as_str(), 200).as_str()));
        assert(d.view() =~= seq![("reply"@, JsonV::Str(first_chars(t@, 200)))]);
        let f: Fields = Fields::new().with("success", Json::Bool(true)).with(
            "message",
            jtext("连接成功"),
        ).with("latencyMs", jint(latency)).with("data", d.object());
        assert(f.view() =~= seq![
            ("success"@, JsonV::Bool(true)),
            ("message"@, JsonV::Str("连接成功"@)),
            ("latencyMs"@, JsonV::Num(crate::numbers::signed_dec(latency as int))),
            ("data"@, JsonV::Obj(seq![("reply"@, JsonV::Str(first_chars(t@, 200)))])),
        ]);
        f.object()
    } else {
        let f: Fields = Fields::new().with("success", Json::Bool(false)).with(
            "message",
            jtext("连接失败：未获得有效响应（请检查地址、密钥与模型名称）"),
        ).with("latencyMs", jint(latency));
        assert(f.view() =~= seq![
            ("success"@, JsonV::Bool(false)),
            (
                "message"@,
                JsonV::Str("连接失败：未获得有效响应（请检查地址、密钥与模型名称）"@),
            ),
            ("latencyMs"@, JsonV::Num(crate::numbers::signed_dec(latency as int))),
        ]);
        f.object()
    }
}

// ------------------------------------------------------------------------------------ laws

/// The mask stands for the key that is set: sending it back changes nothing.
pub proof fn law_mask_keeps_secret(cfg: JsonV, cur: JsonV, mask: Seq<char>)
    requires
        member_text(cfg, "apiKey"@) == Some(mask),
    ensures
        secret_of(cfg, cur, mask) == true_text_or_empty(member(cur, "apiKey"@)),
{
}

/// A model that has not answered is neither confirmed nor switched on.
pub proof fn law_silent_model_is_off(m: Seq<(Seq<char>, JsonV)>, now: Seq<char>)
    ensures
        !is_on(confirmed(JsonV::Obj(m), false, now), "enabled"@),
        !is_on(confirmed(JsonV::Obj(m), false, now), "verified"@),
{
    let o = JsonV::Obj(m);
    let a = with_member(o, "verified"@, JsonV::Bool(false));
    let b = with_member(a, "enabled"@, JsonV::Bool(false));
    reveal_strlit("verified");
    reveal_strlit("enabled");
    reveal_strlit("verifiedAt");
    assert("verified"@.len() == 8 && "enabled"@.len() == 7 && "verifiedAt"@.len() == 10);
    crate::value::law_set_member(o, "verified"@, JsonV::Bool(false), "verified"@);
    crate::value::law_set_member(a, "enabled"@, JsonV::Bool(false), "verified"@);
    crate::value::law_set_member(a, "enabled"@, JsonV::Bool(false), "enabled"@);
    let bm = b->Obj_0;
    crate::commands::fonts::lemma_other_key(bm, "verifiedAt"@, "enabled"@);
    crate::commands::fonts::lemma_other_key(bm, "verifiedAt"@, "verified"@);
}

/// A model without a key is saved switched off and unconfirmed, and it is never asked.
pub proof fn law_keyless_is_never_asked(m: Seq<(Seq<char>, JsonV)>, now: Seq<char>)
    requires
        keyless(JsonV::Obj(m)),
    ensures
        !(first_step(JsonV::Obj(m), now) is AskFirst),
        first_step(JsonV::Obj(m), now) matches SavingV::SwitchedOff(e) ==> !is_on(e, "enabled"@)
            && !is_on(e, "verified"@),
{
    law_silent_model_is_off(m, now);
}

} // verus!
