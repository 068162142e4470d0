//! Descriptions from a language model: where a request may go, what is sent, what the
//! answer is, and what is kept of it.

use crate::commands::finder::{as_text, js_string};
use crate::commands::reply::{refuse, refused};
use crate::json::{is_digit, lemma_view_obj, member, members, text_member, values, Json, JsonV};
use crate::md5::{all_hex, law_digest_shape, md5_hex, md5_of};
use crate::numbers::{clamp64, signed_dec};
use crate::protect::ascii_letter;
use crate::text::{
    cat, cat3, chars_of, dec, decimal, has, occurs, occurs_at, occurs_here, replace_all, replaced_from,
    same, starts_with, string_of, trim, trimmed,
};
use crate::url::{
    is_private_api_url, last_char, parse_http_url, private_url, url_parts, ParsedUrl, UrlV,
};
use crate::value::{
    copy_json, finite_number, finite_of, jarray, jint, js_truthy, json_in, json_out, jtext, law_set_member,
    law_whole_number_is_kept,
    read_json, set_member, truthy, with_member, write_json, Fields,
};
use vstd::prelude::*;
use vstd::utf8::encode_utf8;

verus! {

// ----------------------------------------------------------------------------- the key

/// The key under which a description is kept.
pub open spec fn cache_key(name: Seq<char>, company: Seq<char>, engine: Seq<char>) -> Seq<char> {
    md5_of(encode_utf8(name + "|"@ + company + "|"@ + engine))
}

/// The key under which a description is kept.
pub fn ai_cache_key(name: &str, company: &str, engine: &str) -> (out: String)
    ensures
        out@ == cache_key(name@, company@, engine@),
{
    let head: String = cat3(name, "|", company);
    md5_hex(cat3(head.as_str(), "|", engine).as_str())
}

// ------------------------------------------------------------------------- redirections

/// The scheme, the host and the port of an address; the usual port is left out.
pub open spec fn origin_text(u: UrlV) -> Seq<char> {
    let host = if u.bracketed {
        "["@ + u.host + "]"@
    } else {
        u.host
    };
    let usual: u16 = if u.secure {
        443
    } else {
        80
    };
    if u.port == usual {
        u.scheme + "://"@ + host
    } else {
        u.scheme + "://"@ + host + ":"@ + dec(u.port as nat)
    }
}

/// The scheme, the host and the port of an address.
pub fn origin_of(base: &ParsedUrl) -> (out: String)
    ensures
        out@ == origin_text(base.view()),
{
    let host: String = if base.bracketed {
        cat3("[", base.host.as_str(), "]")
    } else {
        base.host.clone()
    };
    let usual: u16 = if base.secure {
        443
    } else {
        80
    };
    let head: String = cat3(base.scheme.as_str(), "://", host.as_str());
    if base.port == usual {
        head
    } else {
        let port: String = decimal(base.port as u64);
        cat3(head.as_str(), ":", port.as_str())
    }
}

/// The path up to its last slash.
pub open spec fn folder_of(path: Seq<char>) -> Seq<char> {
    match last_char(path, '/', 0, path.len() as int) {
        Some(i) => path.take(i + 1),
        None => "/"@,
    }
}

/// Whether a character may stand in the scheme of an address.
pub open spec fn scheme_char(c: char) -> bool {
    ascii_letter(c) || is_digit(c) || c == '+' || c == '-' || c == '.'
}

/// The first position at or after `i` that holds no character of a scheme.
pub open spec fn scheme_end(s: Seq<char>, i: int) -> int
    decreases s.len() - i,
{
    if 0 <= i < s.len() && scheme_char(s[i]) {
        scheme_end(s, i + 1)
    } else {
        i
    }
}

/// Whether an address starts with a scheme, `:` and two slashes.
pub open spec fn scheme_first(s: Seq<char>) -> bool {
    occurs_at(s, "://"@, scheme_end(s, 0))
}

/// The address that a redirection leads to: `//host/path` keeps the scheme, `/path` the
/// scheme and the host, `scheme://` stands for itself, and anything else lies in the
/// folder of the address before.
pub open spec fn redirect_url(base: UrlV, loc: Seq<char>) -> Seq<char> {
    if "//"@.is_prefix_of(loc) {
        base.scheme + ":"@ + loc
    } else if scheme_first(loc) {
        loc
    } else if loc.len() > 0 && loc[0] == '/' {
        origin_text(base) + loc
    } else {
        origin_text(base) + (folder_of(base.path) + loc)
    }
}

fn find_folder(path: &str) -> (out: String)
    ensures
        out@ == folder_of(path@),
{
    let v: Vec<char> = chars_of(path);
    let mut n: usize = v.len();
    while n > 0
        invariant
            n <= v@.len(),
            v@ == path@,
            last_char(path@, '/', 0, path@.len() as int) == last_char(path@, '/', 0, n as int),
        decreases n,
    {
        if v[n - 1] == '/' {
            let head: String = string_of(&v, 0, n);
            assert(head@ =~= path@.take(n as int));
            return head;
        }
        n -= 1;
    }
    "/".to_owned()
}

fn has_scheme(s: &str) -> (out: bool)
    ensures
        out == scheme_first(s@),
{
    let v: Vec<char> = chars_of(s);
    let mut i: usize = 0;
    while i < v.len() && (('a' <= v[i] && v[i] <= 'z') || ('A' <= v[i] && v[i] <= 'Z') || ('0'
        <= v[i] && v[i] <= '9') || v[i] == '+' || v[i] == '-' || v[i] == '.')
        invariant
            i <= v@.len(),
            scheme_end(v@, 0) == scheme_end(v@, i as int),
        decreases v@.len() - i,
    {
        i += 1;
    }
    occurs_here(&v, &chars_of("://"), i)
}

/// The address that a redirection leads to.
pub fn absolute_url(base: &ParsedUrl, loc: &str) -> (out: String)
    ensures
        out@ == redirect_url(base.view(), loc@),
{
    if starts_with(loc, "//") {
        return cat3(base.scheme.as_str(), ":", loc);
    }
    if has_scheme(loc) {
        return loc.to_owned();
    }
    let origin: String = origin_of(base);
    if loc.unicode_len() > 0 && loc.get_char(0) == '/' {
        cat(origin.as_str(), loc)
    } else {
        let folder: String = find_folder(base.path.as_str());
        let rest: String = cat(folder.as_str(), loc);
        cat(origin.as_str(), rest.as_str())
    }
}

/// Where a redirection leads to; otherwise why it is not followed. It must lead to the
/// host of the first request, not to this machine or a network that is not public, and
/// not from a secure connection to another.
pub open spec fn redirected(base: UrlV, origin: Seq<char>, location: Seq<char>) -> Result<
    UrlV,
    Seq<char>,
> {
    let loc = trimmed(location);
    let joined = redirect_url(base, loc);
    if loc.len() == 0 {
        Err("接口重定向缺少 Location，已拒绝"@)
    } else if private_url(joined) {
        Err("接口重定向终点不合规（本机/内网/协议非法），已拒绝: "@ + joined)
    } else {
        match url_parts(joined) {
            None => Err("接口重定向终点无法解析: "@ + joined),
            Some(next) => if next.host.len() == 0 {
                Err("接口重定向终点缺少主机名: "@ + joined)
            } else if next.host != origin {
                Err("接口重定向跨主机（"@ + origin + " → "@ + next.host + "），已拒绝"@)
            } else if base.secure && !next.secure {
                Err("接口重定向把 https 降级为 http，携带的密钥会明文上网，已拒绝"@)
            } else {
                Ok(next)
            },
        }
    }
}

/// Where a redirection leads to; otherwise why it is not followed.
pub fn resolve_redirect(base: &ParsedUrl, origin_host: &str, location: &str) -> (out: Result<
    ParsedUrl,
    String,
>)
    ensures
        match out {
            Ok(u) => redirected(base.view(), origin_host@, location@) == Ok::<UrlV, Seq<char>>(
                u.view(),
            ),
            Err(m) => redirected(base.view(), origin_host@, location@) == Err::<UrlV, Seq<char>>(
                m@,
            ),
        },
{
    let loc: String = trim(location);
    if loc.as_str().unicode_len() == 0 {
        return Err("接口重定向缺少 Location，已拒绝".to_owned());
    }
    let joined: String = absolute_url(base, loc.as_str());
    if is_private_api_url(joined.as_str()) {
        return Err(
            cat("接口重定向终点不合规（本机/内网/协议非法），已拒绝: ", joined.as_str()),
        );
    }
    let next: ParsedUrl = match parse_http_url(joined.as_str()) {
        Some(u) => u,
        None => {
            return Err(cat("接口重定向终点无法解析: ", joined.as_str()));
        },
    };
    if next.host.as_str().unicode_len() == 0 {
        return Err(cat("接口重定向终点缺少主机名: ", joined.as_str()));
    }
    if !same(next.host.as_str(), origin_host) {
        let a: String = cat3("接口重定向跨主机（", origin_host, " → ");
        return Err(cat3(a.as_str(), next.host.as_str(), "），已拒绝"));
    }
    if base.secure && !next.secure {
        return Err("接口重定向把 https 降级为 http，携带的密钥会明文上网，已拒绝".to_owned());
    }
    Ok(next)
}

// --------------------------------------------------------------------------- the request

/// How many redirections are followed.
pub const MAX_REDIRECT_HOPS: usize = 3;

/// Why a request is not sent.
pub open spec fn send_refusal(url: Seq<char>) -> Option<Seq<char>> {
    match url_parts(url) {
        None => Some("接口地址无效: "@ + url),
        Some(u) => if u.host.len() == 0 {
            Some("接口地址缺少主机名: "@ + url)
        } else if private_url(url) {
            Some("接口地址指向本机或内网，已按安全策略拒绝"@)
        } else {
            None
        },
    }
}

/// A request under way: where it goes next, which host it went to first, and how many
/// redirections it has followed.
#[derive(Debug)]
pub struct Post {
    current: ParsedUrl,
    origin: String,
    hop: usize,
}

/// The mathematical value of a request under way.
pub struct PostV {
    pub current: UrlV,
    pub origin: Seq<char>,
    pub hop: nat,
}

/// What comes next: the answer has come, the request goes on to where it leads, or it
/// ends without an answer.
#[derive(Debug)]
pub enum Step {
    Done,
    Follow,
    Fail(String),
}

/// What comes next, after an answer.
pub enum StepV {
    Done,
    Follow(UrlV),
    Fail(Seq<char>),
}

/// What comes next: only an answer that is a redirection is followed, and only so often.
/// A redirection that does not say where it leads is not followed.
pub open spec fn next_step(p: PostV, status: int, location: Option<Seq<char>>) -> StepV {
    if 300 <= status < 400 {
        match location {
            None => StepV::Fail("接口返回重定向但无法读取 Location，已拒绝"@),
            Some(l) => if p.hop >= MAX_REDIRECT_HOPS {
                StepV::Fail("接口重定向超过 3 跳，已拒绝"@)
            } else {
                match redirected(p.current, p.origin, l) {
                    Ok(u) => StepV::Follow(u),
                    Err(m) => StepV::Fail(m),
                }
            },
        }
    } else {
        StepV::Done
    }
}

impl Post {
    pub closed spec fn view(self) -> PostV {
        PostV { current: self.current.view(), origin: self.origin@, hop: self.hop as nat }
    }

    /// Whether no more redirections were followed than may be.
    pub closed spec fn wf(self) -> bool {
        self.hop <= MAX_REDIRECT_HOPS
    }

    /// The start of a request; otherwise why it is not sent.
    pub fn start(url: &str) -> (out: Result<Self, String>)
        ensures
            match out {
                Ok(p) => send_refusal(url@) is None && p.wf() && (url_parts(url@) matches Some(u)
                    && p.view() == (PostV { current: u, origin: u.host, hop: 0 })),
                Err(m) => send_refusal(url@) == Some(m@),
            },
    {
        let current: ParsedUrl = match parse_http_url(url) {
            Some(u) => u,
            None => {
                return Err(cat("接口地址无效: ", url));
            },
        };
        if current.host.as_str().unicode_len() == 0 {
            return Err(cat("接口地址缺少主机名: ", url));
        }
        if is_private_api_url(url) {
            return Err("接口地址指向本机或内网，已按安全策略拒绝".to_owned());
        }
        let origin: String = current.host.clone();
        Ok(Post { current, origin, hop: 0 })
    }

    /// Where the request goes next.
    pub fn target(&self) -> (out: &ParsedUrl)
        ensures
            out.view() == self.view().current,
    {
        &self.current
    }

    /// Takes in an answer.
    pub fn step(&mut self, status: u32, location: Option<&str>) -> (out: Step)
        requires
            old(self).wf(),
        ensures
            final(self).wf(),
            ({
                let s = next_step(
                    old(self).view(),
                    status as int,
                    match location {
                        Some(l) => Some(l@),
                        None => None,
                    },
                );
                match out {
                    Step::Done => s is Done && final(self).view() == old(self).view(),
                    Step::Follow => s matches StepV::Follow(u) && final(self).view() == (PostV {
                        current: u,
                        origin: old(self).view().origin,
                        hop: old(self).view().hop + 1,
                    }),
                    Step::Fail(m) => s == StepV::Fail(m@) && final(self).view() == old(
                        self,
                    ).view(),
                }
            }),
    {
        if !(300 <= status && status < 400) {
            return Step::Done;
        }
        let l: &str = match location {
            Some(l) => l,
            None => {
                return Step::Fail("接口返回重定向但无法读取 Location，已拒绝".to_owned());
            },
        };
        if self.hop >= MAX_REDIRECT_HOPS {
            return Step::Fail("接口重定向超过 3 跳，已拒绝".to_owned());
        }
        match resolve_redirect(&self.current, self.origin.as_str(), l) {
            Ok(u) => {
                self.current = u;
                self.hop += 1;
                Step::Follow
            },
            Err(m) => Step::Fail(m),
        }
    }
}

/// The lines of the first `n` headers.
pub open spec fn header_lines(h: Seq<(Seq<char>, Seq<char>)>, n: int) -> Seq<char>
    decreases n,
{
    if n <= 0 {
        Seq::empty()
    } else {
        header_lines(h, n - 1) + h[n - 1].0 + ": "@ + h[n - 1].1 + "\r\n"@
    }
}

/// The values of headers.
pub open spec fn header_views(v: Seq<(String, String)>) -> Seq<(Seq<char>, Seq<char>)> {
    Seq::new(v.len(), |i: int| (v[i].0@, v[i].1@))
}

/// The headers as they are sent.
pub fn header_text(headers: &Vec<(String, String)>) -> (out: String)
    ensures
        out@ == header_lines(header_views(headers@), headers@.len() as int),
{
    let ghost hv = header_views(headers@);
    let mut out: String = String::new();
    let mut i: usize = 0;
    assert(out@ =~= Seq::empty());
    while i < headers.len()
        invariant
            i <= headers@.len(),
            hv == header_views(headers@),
            out@ == header_lines(hv, i as int),
        decreases headers@.len() - i,
    {
        assert(hv[i as int] == (headers@[i as int].0@, headers@[i as int].1@));
        out.append(headers[i].0.as_str());
        out.append(": ");
        out.append(headers[i].1.as_str());
        out.append("\r\n");
        i += 1;
    }
    out
}

/// How long an answer is waited for at most, in milliseconds.
pub fn wait_ms(timeout_ms: u64) -> (out: i32)
    ensures
        out == (if timeout_ms < 120_000 {
            timeout_ms
        } else {
            120_000
        }),
{
    if timeout_ms < 120_000 {
        timeout_ms as i32
    } else {
        120_000
    }
}

/// Whether a status says that all went well.
pub fn is_ok_status(status: u16) -> (out: bool)
    ensures
        out == (200 <= status < 300),
{
    200 <= status && status < 300
}

/// A call to a model: the address, the headers and what is sent.
#[derive(Debug)]
pub struct Call {
    pub url: String,
    pub headers: Vec<(String, String)>,
    pub body: String,
}

/// The mathematical value of a call to a model.
#[verifier::ext_equal]
pub struct CallV {
    pub url: Seq<char>,
    pub headers: Seq<(Seq<char>, Seq<char>)>,
    pub body: Seq<char>,
}

impl Call {
    pub open spec fn view(self) -> CallV {
        CallV { url: self.url@, headers: header_views(self.headers@), body: self.body@ }
    }
}

/// The headers of a call with a key; without one where it is empty.
pub open spec fn call_headers(key: Seq<char>) -> Seq<(Seq<char>, Seq<char>)> {
    let first = ("Content-Type"@, "application/json"@);
    if key.len() > 0 {
        seq![first, ("Authorization"@, "Bearer "@ + key)]
    } else {
        seq![first]
    }
}

fn make_headers(key: &str) -> (out: Vec<(String, String)>)
    ensures
        header_views(out@) == call_headers(key@),
{
    let mut out: Vec<(String, String)> = Vec::new();
    out.push(("Content-Type".to_owned(), "application/json".to_owned()));
    if key.unicode_len() > 0 {
        out.push(("Authorization".to_owned(), cat("Bearer ", key)));
    }
    assert(header_views(out@) =~= call_headers(key@));
    out
}

/// What a user says, as a list of messages.
pub open spec fn user_message(text: Seq<char>) -> JsonV {
    JsonV::Arr(
        seq![
            JsonV::Obj(
                seq![("role"@, JsonV::Str("user"@)), ("content"@, JsonV::Str(text))],
            ),
        ],
    )
}

fn make_message(text: &str) -> (out: Json)
    ensures
        out.view() == user_message(text@),
{
    let f: Fields = Fields::new().with("role", jtext("user")).with("content", jtext(text));
    assert(f.view() =~= seq![("role"@, JsonV::Str("user"@)), ("content"@, JsonV::Str(text@))]);
    let mut v: Vec<Json> = Vec::new();
    v.push(f.object());
    assert(values(v@) =~= user_message(text@)->Arr_0);
    jarray(v)
}

/// A call in the form that most models take.
pub open spec fn chat_call(
    url: Seq<char>,
    key: Seq<char>,
    model: Seq<char>,
    prompt: Seq<char>,
) -> CallV {
    CallV {
        url,
        headers: call_headers(key),
        body: json_out(
            JsonV::Obj(
                seq![
                    ("model"@, JsonV::Str(model)),
                    ("stream"@, JsonV::Bool(false)),
                    ("messages"@, user_message(prompt)),
                ],
            ),
        ),
    }
}

fn make_chat(url: &str, key: &str, model: &str, prompt: &str) -> (out: Call)
    ensures
        out.view() == chat_call(url@, key@, model@, prompt@),
{
    let f: Fields = Fields::new().with("model", jtext(model)).with(
        "stream",
        Json::Bool(false),
    ).with("messages", make_message(prompt));
    assert(f.view() =~= seq![
        ("model"@, JsonV::Str(model@)),
        ("stream"@, JsonV::Bool(false)),
        ("messages"@, user_message(prompt@)),
    ]);
    let o: Json = f.object();
    Call { url: url.to_owned(), headers: make_headers(key), body: write_json(&o) }
}

/// A call in the form of the search summary. An empty address stands for the usual one;
/// instruction and model are left out where they are empty.
pub open spec fn summary_call(
    url: Seq<char>,
    usual: Seq<char>,
    key: Seq<char>,
    model: Seq<char>,
    instruction: Seq<char>,
    query: Seq<char>,
) -> CallV {
    let a = JsonV::Obj(
        seq![("messages"@, user_message(query)), ("stream"@, JsonV::Bool(false))],
    );
    let b = if instruction.len() > 0 {
        with_member(a, "instruction"@, JsonV::Str(instruction))
    } else {
        a
    };
    let c = if trimmed(model).len() > 0 {
        with_member(b, "model"@, JsonV::Str(trimmed(model)))
    } else {
        b
    };
    CallV {
        url: if trimmed(url).len() == 0 {
            usual
        } else {
            trimmed(url)
        },
        headers: call_headers(key),
        body: json_out(c),
    }
}

fn make_summary(
    url: &str,
    usual: &str,
    key: &str,
    model: &str,
    instruction: &str,
    query: &str,
) -> (out: Call)
    ensures
        out.view() == summary_call(url@, usual@, key@, model@, instruction@, query@),
{
    let f: Fields = Fields::new().with("messages", make_message(query)).with(
        "stream",
        Json::Bool(false),
    );
    assert(f.view() =~= seq![
        ("messages"@, user_message(query@)),
        ("stream"@, JsonV::Bool(false)),
    ]);
    let a: Json = f.object();
    let b: Json = if instruction.unicode_len() > 0 {
        set_member(a, "instruction", jtext(instruction))
    } else {
        a
    };
    let m: String = trim(model);
    let c: Json = if m.as_str().unicode_len() > 0 {
        set_member(b, "model", jtext(m.as_str()))
    } else {
        b
    };
    let u: String = trim(url);
    Call {
        url: if u.as_str().unicode_len() == 0 {
            usual.to_owned()
        } else {
            u
        },
        headers: make_headers(key),
        body: write_json(&c),
    }
}

// ---------------------------------------------------------------------------- the answer

/// The first item of a list.
pub open spec fn first_of(v: JsonV) -> Option<JsonV> {
    match v {
        JsonV::Arr(a) => if a.len() > 0 {
            Some(a[0])
        } else {
            None
        },
        _ => None,
    }
}

/// What a model says in the form that most models have.
pub open spec fn choice_text(d: JsonV) -> Option<Seq<char>> {
    match member(d, "choices"@) {
        Some(c) => match first_of(c) {
            Some(f) => match member(f, "message"@) {
                Some(m) => match member(m, "content"@) {
                    Some(x) => Some(trimmed(as_text(x))),
                    None => None,
                },
                None => None,
            },
            None => None,
        },
        None => None,
    }
}

fn read_choice(d: &Json) -> (out: Option<String>)
    ensures
        match out {
            Some(t) => choice_text(d.view()) == Some(t@),
            None => choice_text(d.view()) is None,
        },
{
    let a: &Vec<Json> = match d.array("choices") {
        Some(a) => a,
        None => {
            return None;
        },
    };
    assert(values(a@).len() == a@.len());
    if a.len() == 0 {
        return None;
    }
    assert(values(a@)[0] == a@[0].view());
    match a[0].get("message") {
        Some(m) => match m.get("content") {
            Some(x) => Some(trim(js_string(x).as_str())),
            None => None,
        },
        None => None,
    }
}

/// The answer in the form that most models have; none where it is empty.
pub open spec fn chat_answer(status: u16, body: Seq<char>) -> Option<Seq<char>> {
    if !(200 <= status < 300) {
        None
    } else {
        match json_in(trimmed(body)) {
            Some(d) => match choice_text(d) {
                Some(t) => if t.len() > 0 {
                    Some(t)
                } else {
                    None
                },
                None => None,
            },
            None => None,
        }
    }
}

/// The answer of a model.
pub fn openai_answer(status: u16, body: &str) -> (out: Option<String>)
    ensures
        match out {
            Some(t) => chat_answer(status, body@) == Some(t@),
            None => chat_answer(status, body@) is None,
        },
{
    if !is_ok_status(status) {
        return None;
    }
    match read_json(trim(body).as_str()) {
        Some(d) => match read_choice(&d) {
            Some(t) => if t.as_str().unicode_len() > 0 {
                Some(t)
            } else {
                None
            },
            None => None,
        },
        None => None,
    }
}

/// A text member without the white space around it, unless it is empty.
pub open spec fn full_text(d: JsonV, key: Seq<char>) -> Option<Seq<char>> {
    match text_member(d, key) {
        Some(t) => if trimmed(t).len() > 0 {
            Some(trimmed(t))
        } else {
            None
        },
        None => None,
    }
}

/// The first of two, where there is one.
pub open spec fn or_else(a: Option<Seq<char>>, b: Option<Seq<char>>) -> Option<Seq<char>> {
    match a {
        Some(t) => Some(t),
        None => b,
    }
}

/// The answer among the members that may hold it.
pub open spec fn named_answer(d: JsonV) -> Option<Seq<char>> {
    or_else(
        full_text(d, "result"@),
        or_else(
            full_text(d, "answer"@),
            or_else(
                full_text(d, "content"@),
                or_else(
                    full_text(d, "text"@),
                    or_else(
                        full_text(d, "summary"@),
                        or_else(full_text(d, "reply"@), full_text(d, "output"@)),
                    ),
                ),
            ),
        ),
    )
}

/// The answer of the search summary: in the form that most models have, else under one
/// of some names.
pub open spec fn summary_answer(status: u16, body: Seq<char>) -> Option<Seq<char>> {
    if !(200 <= status < 300) {
        None
    } else {
        match json_in(trimmed(body)) {
            Some(d) => match choice_text(d) {
                Some(t) => if t.len() > 0 {
                    Some(t)
                } else {
                    named_answer(d)
                },
                None => named_answer(d),
            },
            None => None,
        }
    }
}

fn read_full(d: &Json, key: &str) -> (out: Option<String>)
    ensures
        match out {
            Some(t) => full_text(d.view(), key@) == Some(t@),
            None => full_text(d.view(), key@) is None,
        },
{
    match d.text(key) {
        Some(t) => {
            let t: String = trim(t);
            if t.as_str().unicode_len() > 0 {
                Some(t)
            } else {
                None
            }
        },
        None => None,
    }
}

fn read_named(d: &Json) -> (out: Option<String>)
    ensures
        match out {
            Some(t) => named_answer(d.view()) == Some(t@),
            None => named_answer(d.view()) is None,
        },
{
    if let Some(t) = read_full(d, "result") {
        return Some(t);
    }
    if let Some(t) = read_full(d, "answer") {
        return Some(t);
    }
    if let Some(t) = read_full(d, "content") {
        return Some(t);
    }
    if let Some(t) = read_full(d, "text") {
        return Some(t);
    }
    if let Some(t) = read_full(d, "summary") {
        return Some(t);
    }
    if let Some(t) = read_full(d, "reply") {
        return Some(t);
    }
    read_full(d, "output")
}

/// The answer of the search summary.
pub fn baidu_answer(status: u16, body: &str) -> (out: Option<String>)
    ensures
        match out {
            Some(t) => summary_answer(status, body@) == Some(t@),
            None => summary_answer(status, body@) is None,
        },
{
    if !is_ok_status(status) {
        return None;
    }
    match read_json(trim(body).as_str()) {
        Some(d) => {
            if let Some(t) = read_choice(&d) {
                if t.as_str().unicode_len() > 0 {
                    return Some(t);
                }
            }
            read_named(&d)
        },
        None => None,
    }
}

/// The answer of the model with a name.
pub open spec fn answer_of(key: Seq<char>, status: u16, body: Seq<char>) -> Option<Seq<char>> {
    if key == "baidu_pro"@ {
        summary_answer(status, body)
    } else {
        chat_answer(status, body)
    }
}

/// The answer of the model with a name.
pub fn model_answer(key: &str, status: u16, body: &str) -> (out: Option<String>)
    ensures
        match out {
            Some(t) => answer_of(key@, status, body@) == Some(t@),
            None => answer_of(key@, status, body@) is None,
        },
{
    if same(key, "baidu_pro") {
        baidu_answer(status, body)
    } else {
        openai_answer(status, body)
    }
}

// --------------------------------------------------------------------------- the prompts

/// What a model is asked: the template with the names in their places, else with the
/// names behind it.
pub open spec fn prompt_text(
    template: Seq<char>,
    usual: Seq<char>,
    name: Seq<char>,
    company: Seq<char>,
) -> Seq<char> {
    let p = if template.len() == 0 {
        usual
    } else {
        template
    };
    if occurs(p, "{menu}"@) || occurs(p, "{company}"@) {
        replaced_from(replaced_from(p, "{menu}"@, name, 0), "{company}"@, company, 0)
    } else {
        p + "\n菜单名称："@ + name + "，所属软件："@ + company
    }
}

/// What a model is asked.
pub fn build_prompt(template: &str, usual: &str, name: &str, company: &str) -> (out: String)
    ensures
        out@ == prompt_text(template@, usual@, name@, company@),
{
    let p: &str = if template.unicode_len() == 0 {
        usual
    } else {
        template
    };
    if has(p, "{menu}") || has(p, "{company}") {
        let a: String = replace_all(p, "{menu}", name);
        replace_all(a.as_str(), "{company}", company)
    } else {
        let a: String = cat3(p, "\n菜单名称：", name);
        cat3(a.as_str(), "，所属软件：", company)
    }
}

/// A text member, or nothing.
pub open spec fn text_or_empty(v: JsonV, key: Seq<char>) -> Seq<char> {
    match text_member(v, key) {
        Some(t) => t,
        None => Seq::empty(),
    }
}

fn own_text(v: &Json, key: &str) -> (out: String)
    ensures
        out@ == text_or_empty(v.view(), key@),
{
    match v.text(key) {
        Some(t) => t.to_owned(),
        None => empty_text(),
    }
}

fn empty_text() -> (out: String)
    ensures
        out@ == Seq::<char>::empty(),
{
    let none: String = String::new();
    assert(none@ =~= Seq::empty());
    none
}

/// The call that says something to the model with a name.
pub open spec fn text_call(
    key: Seq<char>,
    cfg: JsonV,
    message: Seq<char>,
    usual: Seq<char>,
) -> CallV {
    let url = text_or_empty(cfg, "apiUrl"@);
    let secret = text_or_empty(cfg, "apiKey"@);
    let model = text_or_empty(cfg, "model"@);
    if key == "baidu_pro"@ {
        summary_call(
            url,
            usual,
            secret,
            model,
            "请严格按用户要求回答，不要输出思考过程。"@,
            message,
        )
    } else {
        chat_call(url, secret, model, message)
    }
}

/// The call that says something to the model with a name.
pub fn model_text_call(key: &str, cfg: &Json, message: &str, usual: &str) -> (out: Call)
    ensures
        out.view() == text_call(key@, cfg.view(), message@, usual@),
{
    let url: String = own_text(cfg, "apiUrl");
    let secret: String = own_text(cfg, "apiKey");
    let model: String = own_text(cfg, "model");
    if same(key, "baidu_pro") {
        make_summary(
            url.as_str(),
            usual,
            secret.as_str(),
            model.as_str(),
            "请严格按用户要求回答，不要输出思考过程。",
            message,
        )
    } else {
        make_chat(url.as_str(), secret.as_str(), model.as_str(), message)
    }
}

/// The prompt that is set for a model.
pub open spec fn own_prompt(cfg: JsonV) -> Seq<char> {
    match member(cfg, "prompt"@) {
        Some(p) => trimmed(as_text(p)),
        None => trimmed(Seq::empty()),
    }
}

/// The call that asks the model with a name for a description. The prompt that is set for
/// the model comes before that of the part of the program that asks.
pub open spec fn description_call(
    key: Seq<char>,
    cfg: JsonV,
    name: Seq<char>,
    company: Seq<char>,
    scope_prompt: Seq<char>,
    usual_prompt: Seq<char>,
    usual_url: Seq<char>,
) -> CallV {
    let own = own_prompt(cfg);
    let prompt = prompt_text(
        if own.len() == 0 {
            scope_prompt
        } else {
            own
        },
        usual_prompt,
        name,
        company,
    );
    let url = text_or_empty(cfg, "apiUrl"@);
    let secret = text_or_empty(cfg, "apiKey"@);
    if key == "baidu_pro"@ {
        summary_call(
            url,
            usual_url,
            secret,
            Seq::empty(),
            prompt,
            "名称："@ + name + "，所属："@ + company,
        )
    } else {
        chat_call(url, secret, text_or_empty(cfg, "model"@), prompt)
    }
}

/// The texts that stand for what is not set: a prompt, and the address of the search
/// summary.
#[derive(Debug)]
pub struct Usual {
    pub prompt: String,
    pub url: String,
}

/// The call that asks the model with a name for a description.
pub fn model_description_call(
    key: &str,
    cfg: &Json,
    name: &str,
    company: &str,
    scope_prompt: &str,
    usual: &Usual,
) -> (out: Call)
    ensures
        out.view() == description_call(
            key@,
            cfg.view(),
            name@,
            company@,
            scope_prompt@,
            usual.prompt@,
            usual.url@,
        ),
{
    let own: String = match cfg.get("prompt") {
        Some(p) => trim(js_string(p).as_str()),
        None => trim(empty_text().as_str()),
    };
    let prompt: String = if own.as_str().unicode_len() == 0 {
        build_prompt(scope_prompt, usual.prompt.as_str(), name, company)
    } else {
        build_prompt(own.as_str(), usual.prompt.as_str(), name, company)
    };
    let url: String = own_text(cfg, "apiUrl");
    let secret: String = own_text(cfg, "apiKey");
    if same(key, "baidu_pro") {
        let a: String = cat3("名称：", name, "，所属：");
        let query: String = cat(a.as_str(), company);
        make_summary(
            url.as_str(),
            usual.url.as_str(),
            secret.as_str(),
            empty_text().as_str(),
            prompt.as_str(),
            query.as_str(),
        )
    } else {
        let model: String = own_text(cfg, "model");
        make_chat(url.as_str(), secret.as_str(), model.as_str(), prompt.as_str())
    }
}

// ------------------------------------------------------------------------ what is kept

/// How long a description is kept, in milliseconds.
pub const AI_CACHE_TTL_MS: i64 = 604_800_000;

/// Whether something that was kept is not too old at a moment.
pub open spec fn is_fresh(entry: JsonV, now: int, ttl: int) -> bool {
    match member(entry, "timestamp"@) {
        Some(t) => match finite_of(Some(t)) {
            Some(n) => now - n < ttl,
            None => false,
        },
        None => false,
    }
}

/// Those of the first `n` members that are not too old.
pub open spec fn fresh_members(
    m: Seq<(Seq<char>, JsonV)>,
    now: int,
    ttl: int,
    n: int,
) -> Seq<(Seq<char>, JsonV)>
    decreases n,
{
    if n <= 0 {
        Seq::empty()
    } else if is_fresh(m[n - 1].1, now, ttl) {
        fresh_members(m, now, ttl, n - 1).push(m[n - 1])
    } else {
        fresh_members(m, now, ttl, n - 1)
    }
}

/// What is kept without what is too old or malformed.
pub open spec fn pruned(cache: JsonV, now: int, ttl: int) -> JsonV {
    match cache {
        JsonV::Obj(m) => JsonV::Obj(fresh_members(m, now, ttl, m.len() as int)),
        _ => JsonV::Obj(Seq::empty()),
    }
}

/// How many entries are dropped.
pub open spec fn dropped(cache: JsonV, now: int, ttl: int) -> nat {
    match cache {
        JsonV::Obj(m) => (m.len() - fresh_members(m, now, ttl, m.len() as int).len()) as nat,
        _ => 0,
    }
}

fn fresh(entry: &Json, now: i64, ttl: i64) -> (out: bool)
    ensures
        out == is_fresh(entry.view(), now as int, ttl as int),
{
    match entry.get("timestamp") {
        Some(t) => match finite_number(Some(t)) {
            Some(n) => (now as i128) - (n as i128) < (ttl as i128),
            None => false,
        },
        None => false,
    }
}

/// What is kept without what is too old or malformed, and how many entries that drops.
pub fn prune_ai_cache(cache: &Json, now_ms: i64, ttl_ms: i64) -> (out: (Json, usize))
    ensures
        out.0.view() == pruned(cache.view(), now_ms as int, ttl_ms as int),
        out.1 == dropped(cache.view(), now_ms as int, ttl_ms as int),
{
    let mut kept: Vec<(String, Json)> = Vec::new();
    let mut gone: usize = 0;
    assert(members(kept@) =~= Seq::empty());
    if let Json::Obj(m) = cache {
        proof {
            lemma_view_obj(*m);
        }
        let ghost mv = members(m@);
        assert(mv.len() == m@.len());
        let mut i: usize = 0;
        while i < m.len()
            invariant
                i <= m@.len(),
                mv == members(m@),
                mv.len() == m@.len(),
                members(kept@) == fresh_members(mv, now_ms as int, ttl_ms as int, i as int),
                gone + kept@.len() == i,
            decreases m@.len() - i,
        {
            assert(mv[i as int] == (m@[i as int].0@, m@[i as int].1.view()));
            if fresh(&m[i].1, now_ms, ttl_ms) {
                let e: (String, Json) = (m[i].0.clone(), copy_json(&m[i].1));
                let ghost before = members(kept@);
                kept.push(e);
                assert(members(kept@) =~= before.push((e.0@, e.1.view())));
            } else {
                gone += 1;
            }
            i += 1;
        }
        assert(members(kept@).len() == kept@.len());
    }
    proof {
        lemma_view_obj(kept);
    }
    (Json::Obj(kept), gone)
}

/// How often the search summary may be called on a day.
pub const BAIDU_DAILY_LIMIT: i64 = 100;

/// How often the search summary was called on a day. What was counted on another day
/// does not count.
pub open spec fn calls_on(usage: JsonV, today: Seq<char>) -> int {
    if text_member(usage, "date"@) == Some(today) {
        match finite_of(member(usage, "count"@)) {
            Some(n) => n,
            None => 0,
        }
    } else {
        0
    }
}

/// How often the search summary was called on a day.
pub fn get_baidu_daily_count(usage: &Json, today: &str) -> (out: i64)
    ensures
        out == calls_on(usage.view(), today@),
{
    match usage.text("date") {
        Some(d) => if same(d, today) {
            match finite_number(usage.get("count")) {
                Some(n) => n,
                None => 0,
            }
        } else {
            0
        },
        None => 0,
    }
}

/// The count with one more call on a day.
pub open spec fn one_more_call(usage: JsonV, today: Seq<char>) -> JsonV {
    with_member(
        with_member(usage, "date"@, JsonV::Str(today)),
        "count"@,
        JsonV::Num(
            signed_dec(clamp64(calls_on(usage, today) + 1)),
        ),
    )
}

/// The count with one more call on a day.
pub fn increment_baidu_daily_count(usage: Json, today: &str) -> (out: Json)
    ensures
        out.view() == one_more_call(usage.view(), today@),
{
    let n: i64 = crate::commands::cleanup_execute::add64(
        get_baidu_daily_count(&usage, today),
        1,
    );
    let u: Json = set_member(usage, "date", jtext(today));
    set_member(u, "count", jint(n))
}

/// What was read of the counts: nothing counts where there is no object.
pub open spec fn usable_usage(read: Option<JsonV>, today: Seq<char>) -> JsonV {
    match read {
        Some(JsonV::Obj(m)) => JsonV::Obj(m),
        _ => JsonV::Obj(
            seq![("date"@, JsonV::Str(today)), ("count"@, JsonV::Num(dec(0)))],
        ),
    }
}

/// What was read of the counts.
pub fn load_baidu_usage(text: Option<&str>, today: &str) -> (out: Json)
    ensures
        out.view() == usable_usage(
            match text {
                Some(t) => json_in(t@),
                None => None,
            },
            today@,
        ),
{
    if let Some(t) = text {
        if let Some(Json::Obj(m)) = read_json(t) {
            proof {
                lemma_view_obj(m);
            }
            return Json::Obj(m);
        }
    }
    let f: Fields = Fields::new().with("date", jtext(today)).with("count", jint(0));
    assert(f.view() =~= seq![("date"@, JsonV::Str(today@)), ("count"@, JsonV::Num(dec(0)))]);
    f.object()
}

/// What was read of the descriptions: nothing is kept where there is no object.
pub fn load_ai_cache(text: Option<&str>) -> (out: Json)
    ensures
        out.view() == (match text {
            Some(t) => match json_in(t@) {
                Some(JsonV::Obj(m)) => JsonV::Obj(m),
                _ => JsonV::Obj(Seq::empty()),
            },
            None => JsonV::Obj(Seq::empty()),
        }),
{
    if let Some(t) = text {
        if let Some(Json::Obj(m)) = read_json(t) {
            proof {
                lemma_view_obj(m);
            }
            return Json::Obj(m);
        }
    }
    let none: Vec<(String, Json)> = Vec::new();
    proof {
        lemma_view_obj(none);
        assert(members(none@) =~= Seq::empty());
    }
    Json::Obj(none)
}

// -------------------------------------------------------------------------- the command

/// The name that is asked about; otherwise the reply.
pub fn asked_name(name: Option<&str>) -> (out: Result<String, Json>)
    ensures
        ({
            let t = match name {
                Some(n) => trimmed(n@),
                None => trimmed(Seq::empty()),
            };
            match out {
                Ok(n) => t.len() > 0 && n@ == t,
                Err(r) => t.len() == 0 && r.view() == refused("缺少名称"@),
            }
        }),
{
    let t: String = match name {
        Some(n) => trim(n),
        None => trim(empty_text().as_str()),
    };
    if t.as_str().unicode_len() == 0 {
        Err(refuse("缺少名称"))
    } else {
        Ok(t)
    }
}

/// The reply with a description.
pub open spec fn description(desc: Seq<char>, source: Seq<char>, cached: bool) -> JsonV {
    JsonV::Obj(
        seq![
            ("success"@, JsonV::Bool(true)),
            (
                "data"@,
                JsonV::Obj(
                    seq![
                        ("desc"@, JsonV::Str(desc)),
                        ("source"@, JsonV::Str(source)),
                        ("cached"@, JsonV::Bool(cached)),
                    ],
                ),
            ),
        ],
    )
}

fn describe(desc: &str, source: &str, cached: bool) -> (out: Json)
    ensures
        out.view() == description(desc@, source@, cached),
{
    let d: Fields = Fields::new().with("desc", jtext(desc)).with("source", jtext(source)).with(
        "cached",
        Json::Bool(cached),
    );
    assert(d.view() =~= seq![
        ("desc"@, JsonV::Str(desc@)),
        ("source"@, JsonV::Str(source@)),
        ("cached"@, JsonV::Bool(cached)),
    ]);
    let f: Fields = Fields::new().with("success", Json::Bool(true)).with("data", d.object());
    assert(f.view() =~= description(desc@, source@, cached)->Obj_0);
    f.object()
}

/// The reply with a description that was kept under a key, if it is not too old. Where it
/// does not say which model it is from, `shown` is told.
pub open spec fn kept_description(cache: JsonV, key: Seq<char>, now: int, shown: Seq<char>) -> Option<
    JsonV,
> {
    match member(cache, key) {
        Some(hit) => {
            let desc = text_or_empty(hit, "desc"@);
            let at = match finite_of(member(hit, "timestamp"@)) {
                Some(n) => n,
                None => 0,
            };
            let source = text_or_empty(hit, "source"@);
            if desc.len() > 0 && now - at < AI_CACHE_TTL_MS {
                Some(
                    description(
                        desc,
                        if source.len() > 0 {
                            source
                        } else {
                            shown
                        },
                        true,
                    ),
                )
            } else {
                None
            }
        },
        None => None,
    }
}

/// The reply with a description that was kept, unless a new one is asked for.
pub fn cached_description(cache: &Json, key: &str, force: bool, now: i64, shown: &str) -> (out:
    Option<Json>)
    ensures
        match out {
            Some(r) => !force && kept_description(cache.view(), key@, now as int, shown@) == Some(
                r.view(),
            ),
            None => force || kept_description(cache.view(), key@, now as int, shown@) is None,
        },
{
    if force {
        return None;
    }
    match cache.get(key) {
        Some(hit) => {
            let desc: String = own_text(hit, "desc");
            let at: i64 = match finite_number(hit.get("timestamp")) {
                Some(n) => n,
                None => 0,
            };
            if desc.as_str().unicode_len() > 0 && (now as i128) - (at as i128)
                < AI_CACHE_TTL_MS as i128 {
                let source: String = own_text(hit, "source");
                if source.as_str().unicode_len() > 0 {
                    Some(describe(desc.as_str(), source.as_str(), true))
                } else {
                    Some(describe(desc.as_str(), shown, true))
                }
            } else {
                None
            }
        },
        None => None,
    }
}

/// The reply where a model is switched off.
pub open spec fn disabled_reply(shown: Seq<char>) -> JsonV {
    JsonV::Obj(
        seq![
            ("success"@, JsonV::Bool(false)),
            ("message"@, JsonV::Str("disabled"@)),
            ("data"@, JsonV::Obj(seq![("model"@, JsonV::Str(shown))])),
        ],
    )
}

/// Why no model is asked. A model that is switched off, or that was called as often as it
/// may be, is not replaced by another.
pub open spec fn ask_refusal(key: Seq<char>, cfg: JsonV, calls: int, shown: Seq<char>) -> Option<
    JsonV,
> {
    if !(member(cfg, "enabled"@) matches Some(e) && truthy(e)) {
        Some(disabled_reply(shown))
    } else if key != "baidu_pro"@ && trimmed(text_or_empty(cfg, "apiUrl"@)).len() == 0 {
        Some(refused("该模型尚未填写 API 接口地址，请在「设置 - 大模型管理」中补全"@))
    } else if key == "baidu_pro"@ && calls >= BAIDU_DAILY_LIMIT {
        Some(refused("百度千帆今日调用已达上限，请更换模型或明日再试"@))
    } else {
        None
    }
}

/// Whether a model is asked; otherwise the reply.
pub fn ask_gate(key: &str, cfg: &Json, calls: i64, shown: &str) -> (out: Result<(), Json>)
    ensures
        match out {
            Ok(_) => ask_refusal(key@, cfg.view(), calls as int, shown@) is None,
            Err(r) => ask_refusal(key@, cfg.view(), calls as int, shown@) == Some(r.view()),
        },
{
    let on: bool = match cfg.get("enabled") {
        Some(e) => js_truthy(e),
        None => false,
    };
    if !on {
        let d: Fields = Fields::new().with("model", jtext(shown));
        assert(d.view() =~= seq![("model"@, JsonV::Str(shown@))]);
        let f: Fields = Fields::new().with("success", Json::Bool(false)).with(
            "message",
            jtext("disabled"),
        ).with("data", d.object());
        assert(f.view() =~= disabled_reply(shown@)->Obj_0);
        return Err(f.object());
    }
    let url: String = own_text(cfg, "apiUrl");
    if !same(key, "baidu_pro") {
        if trim(url.as_str()).as_str().unicode_len() == 0 {
            return Err(
                refuse("该模型尚未填写 API 接口地址，请在「设置 - 大模型管理」中补全"),
            );
        }
    } else if calls >= BAIDU_DAILY_LIMIT {
        return Err(refuse("百度千帆今日调用已达上限，请更换模型或明日再试"));
    }
    Ok(())
}

/// The model that all parts of the program use.
pub open spec fn engine_of(engines: JsonV) -> Seq<char> {
    match text_member(engines, "global"@) {
        Some(k) => k,
        None => "metaso"@,
    }
}

/// The model that all parts of the program use.
pub fn chosen_engine(engines: &Json) -> (out: String)
    ensures
        out@ == engine_of(engines.view()),
{
    match engines.text("global") {
        Some(k) => k.to_owned(),
        None => "metaso".to_owned(),
    }
}

/// What is set for the model that all parts of the program use; nothing where it is not
/// set up.
pub open spec fn engine_settings(engines: JsonV, models: JsonV) -> JsonV {
    match member(models, engine_of(engines)) {
        Some(c) => c,
        None => JsonV::Obj(Seq::empty()),
    }
}

/// What is set for the model that all parts of the program use.
pub fn chosen_settings(engines: &Json, models: &Json) -> (out: Json)
    ensures
        out.view() == engine_settings(engines.view(), models.view()),
{
    match models.get(chosen_engine(engines).as_str()) {
        Some(c) => copy_json(c),
        None => {
            let f: Fields = Fields::new();
            assert(f.view() =~= Seq::empty());
            f.object()
        },
    }
}

/// A question for a description: what it is about, what the part of the program that asks
/// wants to know, whether a description that was kept will not do, and when it is asked.
#[derive(Debug)]
pub struct Question {
    pub name: String,
    pub company: String,
    pub prompt: String,
    pub force: bool,
    pub today: String,
    pub now: i64,
}

/// The key under which the answer to a question is kept: another model, or another version
/// of it, has its own.
pub open spec fn question_key(q: Question, engines: JsonV, models: JsonV) -> Seq<char> {
    cache_key(
        q.name@,
        q.company@,
        "global:"@ + engine_of(engines) + ":"@ + text_or_empty(
            engine_settings(engines, models),
            "model"@,
        ),
    )
}

/// What is done with a question.
#[derive(Debug)]
pub enum Next {
    /// It is answered at once.
    Reply(Json),
    /// A model is called. The answer is kept under the key; the count is put down first,
    /// where there is one.
    Ask { key: String, call: Call, count: Option<Json> },
}

/// The mathematical value of what is done with a question.
pub enum NextV {
    Reply(JsonV),
    Ask { key: Seq<char>, call: CallV, count: Option<JsonV> },
}

impl Next {
    pub open spec fn view(self) -> NextV {
        match self {
            Next::Reply(r) => NextV::Reply(r.view()),
            Next::Ask { key, call, count } => NextV::Ask {
                key: key@,
                call: call.view(),
                count: match count {
                    Some(c) => Some(c.view()),
                    None => None,
                },
            },
        }
    }
}

/// What is done with a question: a description that was kept is the answer, unless a new
/// one is wanted; else the model is called, where it may be, and each call of the search
/// summary counts.
pub open spec fn next_for(
    q: Question,
    engines: JsonV,
    models: JsonV,
    cache: JsonV,
    usage: JsonV,
    shown: Seq<char>,
    usual: Usual,
) -> NextV {
    let engine = engine_of(engines);
    let cfg = engine_settings(engines, models);
    let key = question_key(q, engines, models);
    let kept = if q.force {
        None
    } else {
        kept_description(cache, key, q.now as int, shown)
    };
    match kept {
        Some(r) => NextV::Reply(r),
        None => match ask_refusal(engine, cfg, calls_on(usage, q.today@), shown) {
            Some(r) => NextV::Reply(r),
            None => NextV::Ask {
                key,
                call: description_call(
                    engine,
                    cfg,
                    q.name@,
                    q.company@,
                    q.prompt@,
                    usual.prompt@,
                    usual.url@,
                ),
                count: if engine == "baidu_pro"@ {
                    Some(one_more_call(usage, q.today@))
                } else {
                    None
                },
            },
        },
    }
}

/// What is done with a question.
pub fn answer_or_ask(
    q: &Question,
    engines: &Json,
    models: &Json,
    cache: &Json,
    usage: Json,
    shown: &str,
    usual: &Usual,
) -> (out: Next)
    ensures
        out.view() == next_for(
            *q,
            engines.view(),
            models.view(),
            cache.view(),
            usage.view(),
            shown@,
            *usual,
        ),
{
    let engine: String = chosen_engine(engines);
    let cfg: Json = chosen_settings(engines, models);
    let head: String = cat3("global:", engine.as_str(), ":");
    let of: String = cat(head.as_str(), own_text(&cfg, "model").as_str());
    let key: String = ai_cache_key(q.name.as_str(), q.company.as_str(), of.as_str());
    if let Some(r) = cached_description(cache, key.as_str(), q.force, q.now, shown) {
        return Next::Reply(r);
    }
    let calls: i64 = get_baidu_daily_count(&usage, q.today.as_str());
    if let Err(r) = ask_gate(engine.as_str(), &cfg, calls, shown) {
        return Next::Reply(r);
    }
    let call: Call = model_description_call(
        engine.as_str(),
        &cfg,
        q.name.as_str(),
        q.company.as_str(),
        q.prompt.as_str(),
        usual,
    );
    let count: Option<Json> = if same(engine.as_str(), "baidu_pro") {
        Some(increment_baidu_daily_count(usage, q.today.as_str()))
    } else {
        None
    };
    Next::Ask { key, call, count }
}

/// What is kept of a description.
pub open spec fn kept_entry(desc: Seq<char>, source: Seq<char>, now: int) -> JsonV {
    JsonV::Obj(
        seq![
            ("desc"@, JsonV::Str(desc)),
            ("source"@, JsonV::Str(source)),
            ("timestamp"@, JsonV::Num(signed_dec(now))),
        ],
    )
}

/// The end of a request: the reply, and what is kept from now on where there is a
/// description.
pub fn finish_description(
    cache: Json,
    key: &str,
    desc: &Option<String>,
    source: &str,
    now: i64,
) -> (out: (Json, Option<Json>))
    ensures
        match desc {
            None => out.0.view() == refused(
                "该条目暂时无法获取简介，请检查模型配置或稍后重试"@,
            ) && out.1 is None,
            Some(d) => out.0.view() == description(d@, source@, false) && (out.1 matches Some(c)
                && c.view() == pruned(
                with_member(cache.view(), key@, kept_entry(d@, source@, now as int)),
                now as int,
                AI_CACHE_TTL_MS as int,
            )),
        },
{
    let d: &str = match desc {
        Some(d) => d.as_str(),
        None => {
            return (refuse("该条目暂时无法获取简介，请检查模型配置或稍后重试"), None);
        },
    };
    let f: Fields = Fields::new().with("desc", jtext(d)).with("source", jtext(source)).with(
        "timestamp",
        jint(now),
    );
    assert(f.view() =~= kept_entry(d@, source@, now as int)->Obj_0);
    let c: Json = set_member(cache, key, f.object());
    let (p, _) = prune_ai_cache(&c, now, AI_CACHE_TTL_MS);
    (describe(d, source, false), Some(p))
}

// --------------------------------------------------------------------------------- laws

/// A redirection that is followed stays at the host that was asked first, never leads to
/// this machine or to a network that is not public, and never leaves a secure connection.
pub proof fn law_redirect_stays(base: UrlV, origin: Seq<char>, location: Seq<char>)
    requires
        redirected(base, origin, location) is Ok,
    ensures
        redirected(base, origin, location)->Ok_0.host == origin,
        base.secure ==> redirected(base, origin, location)->Ok_0.secure,
        !private_url(redirect_url(base, trimmed(location))),
{
}

/// However the answers look, no more redirections are followed than may be: after the
/// last one the request ends.
pub proof fn law_hops_end(p: PostV, status: int, location: Option<Seq<char>>)
    requires
        p.hop >= MAX_REDIRECT_HOPS,
    ensures
        !(next_step(p, status, location) is Follow),
{
}

/// The keys of descriptions are thirty-two digits in base sixteen.
pub proof fn law_cache_key_shape(name: Seq<char>, company: Seq<char>, engine: Seq<char>)
    ensures
        cache_key(name, company, engine).len() == 32,
        all_hex(cache_key(name, company, engine)),
{
    law_digest_shape(encode_utf8(name + "|"@ + company + "|"@ + engine));
}

/// Whatever is kept after pruning is not too old.
pub proof fn law_pruned_is_fresh(cache: JsonV, now: int, ttl: int, i: int)
    requires
        pruned(cache, now, ttl) matches JsonV::Obj(m) && 0 <= i < m.len(),
    ensures
        is_fresh(pruned(cache, now, ttl)->Obj_0[i].1, now, ttl),
{
    if let JsonV::Obj(m) = cache {
        lemma_fresh(m, now, ttl, m.len() as int, i);
    }
}

proof fn lemma_fresh(m: Seq<(Seq<char>, JsonV)>, now: int, ttl: int, n: int, i: int)
    requires
        0 <= i < fresh_members(m, now, ttl, n).len(),
    ensures
        is_fresh(fresh_members(m, now, ttl, n)[i].1, now, ttl),
    decreases n,
{
    if n > 0 {
        if i < fresh_members(m, now, ttl, n - 1).len() {
            lemma_fresh(m, now, ttl, n - 1, i);
        }
    }
}

/// What is not too old survives pruning.
pub proof fn law_fresh_survives(m: Seq<(Seq<char>, JsonV)>, now: int, ttl: int, i: int)
    requires
        0 <= i < m.len(),
        is_fresh(m[i].1, now, ttl),
    ensures
        fresh_members(m, now, ttl, m.len() as int).contains(m[i]),
{
    lemma_survives(m, now, ttl, m.len() as int, i);
}

proof fn lemma_survives(m: Seq<(Seq<char>, JsonV)>, now: int, ttl: int, n: int, i: int)
    requires
        0 <= i < n,
        is_fresh(m[i].1, now, ttl),
    ensures
        fresh_members(m, now, ttl, n).contains(m[i]),
    decreases n,
{
    let now_kept = fresh_members(m, now, ttl, n);
    if i < n - 1 {
        lemma_survives(m, now, ttl, n - 1, i);
        let before = fresh_members(m, now, ttl, n - 1);
        let k = choose|k: int| 0 <= k < before.len() && before[k] == m[i];
        assert(now_kept[k] == m[i]);
    } else {
        assert(now_kept[now_kept.len() - 1] == m[i]);
    }
}

/// What was counted on one day does not count on another.
pub proof fn law_new_day_starts_at_zero(usage: JsonV, today: Seq<char>)
    requires
        text_member(usage, "date"@) != Some(today),
    ensures
        calls_on(usage, today) == 0,
{
}

/// On a day on which the search summary was called as often as it may be, it is not called
/// again, whatever is asked.
pub proof fn law_no_call_past_the_limit(
    q: Question,
    engines: JsonV,
    models: JsonV,
    cache: JsonV,
    usage: JsonV,
    shown: Seq<char>,
    usual: Usual,
)
    requires
        engine_of(engines) == "baidu_pro"@,
        calls_on(usage, q.today@) >= BAIDU_DAILY_LIMIT,
    ensures
        next_for(q, engines, models, cache, usage, shown, usual) is Reply,
{
}

/// Every call of the search summary is counted on its day.
pub proof fn law_calls_are_counted(usage: JsonV, today: Seq<char>)
    requires
        usage is Obj,
        -0x20_0000_0000_0000 <= calls_on(usage, today) < 0x20_0000_0000_0000,
    ensures
        calls_on(one_more_call(usage, today), today) == calls_on(usage, today) + 1,
{
    let n = calls_on(usage, today) + 1;
    let dated = with_member(usage, "date"@, JsonV::Str(today));
    let counted = with_member(dated, "count"@, JsonV::Num(signed_dec(n)));
    reveal_strlit("date");
    reveal_strlit("count");
    assert("date"@.len() != "count"@.len());
    law_set_member(usage, "date"@, JsonV::Str(today), "count"@);
    law_set_member(dated, "count"@, JsonV::Num(signed_dec(n)), "date"@);
    law_whole_number_is_kept(n);
    assert(one_more_call(usage, today) == counted);
}

/// A model that is switched off is not called, whatever is asked.
pub proof fn law_switched_off_is_not_called(
    q: Question,
    engines: JsonV,
    models: JsonV,
    cache: JsonV,
    usage: JsonV,
    shown: Seq<char>,
    usual: Usual,
)
    requires
        !(member(engine_settings(engines, models), "enabled"@) matches Some(e) && truthy(e)),
    ensures
        next_for(q, engines, models, cache, usage, shown, usual) is Reply,
{
}

} // verus!
