//! What the commands for processes, memory, the network and descriptions answer.

use crate::commands::aidesc::{
    answer_of, ask_refusal, call_headers, chat_answer, chat_call, choice_text, description,
    description_call, engine_of, engine_settings, is_fresh, kept_description, kept_entry, next_for,
    next_step, origin_text, own_prompt, prompt_text, question_key, redirect_url, redirected,
    send_refusal, text_or_empty, NextV, PostV, Question, StepV, Usual,
};
use crate::commands::memory::{
    any_ok, block_reply, clean_reply, failed_sign, is_critical, kill_target, listed_procs,
    listed_reply, loose_text, proc_entry, proc_with, whole_in, without_exe, ProcV,
};
use crate::commands::netcheck::{
    allowed_repair, check_found, interface_of, is_fixed, listed_repair, main_repair, marked,
    native_fix, needs_admin, not_fixed, other_repair, repair_in, repair_reply, repair_script,
    Scripts,
};
use crate::json::{array_member, member, text_member, JsonV};
use crate::laws::cleanup::law_replies;
use crate::laws::object::lemma_member_at;
use crate::numbers::signed_dec;
use crate::text::{dec, lowercase, trimmed};
use crate::url::{private_url, url_parts, UrlV};
use crate::value::{bool_member, finite_of, json_in, truthy};
use vstd::prelude::*;

verus! {

proof fn lemma_proc_keys()
    ensures
        "Id"@ != "ProcessName"@,
        "Id"@ != "mem"@,
        "Id"@ != "Path"@,
        "Id"@ != "success"@,
        "Id"@ != "processes"@,
        "Id"@ != "engine"@,
        "Id"@ != "data"@,
        "Id"@ != "partial"@,
        "Id"@ != "needAdmin"@,
        "Id"@ != "message"@,
        "ProcessName"@ != "mem"@,
        "ProcessName"@ != "Path"@,
        "ProcessName"@ != "success"@,
        "ProcessName"@ != "processes"@,
        "ProcessName"@ != "engine"@,
        "ProcessName"@ != "data"@,
        "ProcessName"@ != "partial"@,
        "ProcessName"@ != "needAdmin"@,
        "ProcessName"@ != "message"@,
        "mem"@ != "Path"@,
        "mem"@ != "success"@,
        "mem"@ != "processes"@,
        "mem"@ != "engine"@,
        "mem"@ != "data"@,
        "mem"@ != "partial"@,
        "mem"@ != "needAdmin"@,
        "mem"@ != "message"@,
        "Path"@ != "success"@,
        "Path"@ != "processes"@,
        "Path"@ != "engine"@,
        "Path"@ != "data"@,
        "Path"@ != "partial"@,
        "Path"@ != "needAdmin"@,
        "Path"@ != "message"@,
        "success"@ != "processes"@,
        "success"@ != "engine"@,
        "success"@ != "data"@,
        "success"@ != "partial"@,
        "success"@ != "needAdmin"@,
        "success"@ != "message"@,
        "processes"@ != "engine"@,
        "processes"@ != "data"@,
        "processes"@ != "partial"@,
        "processes"@ != "needAdmin"@,
        "processes"@ != "message"@,
        "engine"@ != "data"@,
        "engine"@ != "partial"@,
        "engine"@ != "needAdmin"@,
        "engine"@ != "message"@,
        "data"@ != "partial"@,
        "data"@ != "needAdmin"@,
        "data"@ != "message"@,
        "partial"@ != "needAdmin"@,
        "partial"@ != "message"@,
        "needAdmin"@ != "message"@,
{
    reveal_strlit("Id");
    reveal_strlit("ProcessName");
    reveal_strlit("mem");
    reveal_strlit("Path");
    reveal_strlit("success");
    reveal_strlit("processes");
    reveal_strlit("engine");
    reveal_strlit("data");
    reveal_strlit("partial");
    reveal_strlit("needAdmin");
    reveal_strlit("message");
    assert("Id"@.len() == 2);
    assert("ProcessName"@.len() == 11);
    assert("mem"@.len() == 3);
    assert("Path"@.len() == 4);
    assert("success"@.len() == 7);
    assert("processes"@.len() == 9);
    assert("engine"@.len() == 6);
    assert("data"@.len() == 4);
    assert("partial"@.len() == 7);
    assert("needAdmin"@.len() == 9);
    assert("message"@.len() == 7);
    assert("Path"@[0] != "data"@[0]);
    assert("success"@[0] != "partial"@[0]);
    assert("success"@[0] != "message"@[0]);
    assert("processes"@[0] != "needAdmin"@[0]);
    assert("partial"@[0] != "message"@[0]);
}

proof fn lemma_fix_keys()
    ensures
        "success"@ != "fix"@,
        "success"@ != "items"@,
        "success"@ != "message"@,
        "success"@ != "ok"@,
        "fix"@ != "items"@,
        "fix"@ != "message"@,
        "fix"@ != "ok"@,
        "items"@ != "message"@,
        "items"@ != "ok"@,
        "message"@ != "ok"@,
{
    reveal_strlit("success");
    reveal_strlit("fix");
    reveal_strlit("items");
    reveal_strlit("message");
    reveal_strlit("ok");
    assert("success"@.len() == 7);
    assert("fix"@.len() == 3);
    assert("items"@.len() == 5);
    assert("message"@.len() == 7);
    assert("ok"@.len() == 2);
    assert("success"@[0] != "message"@[0]);
}

proof fn lemma_repair_texts()
    ensures
        "enable-adapter"@ != "reset-dns"@,
        "enable-adapter"@ != "start-dhcp"@,
        "enable-adapter"@ != "start-dnscache"@,
        "enable-adapter"@ != "disable-user-proxy"@,
        "enable-adapter"@ != "reset-winhttp"@,
        "reset-dns"@ != "start-dhcp"@,
        "reset-dns"@ != "start-dnscache"@,
        "reset-dns"@ != "disable-user-proxy"@,
        "reset-dns"@ != "reset-winhttp"@,
        "start-dhcp"@ != "start-dnscache"@,
        "start-dhcp"@ != "disable-user-proxy"@,
        "start-dhcp"@ != "reset-winhttp"@,
        "start-dnscache"@ != "disable-user-proxy"@,
        "start-dnscache"@ != "reset-winhttp"@,
        "disable-user-proxy"@ != "reset-winhttp"@,
{
    reveal_strlit("enable-adapter");
    reveal_strlit("reset-dns");
    reveal_strlit("start-dhcp");
    reveal_strlit("start-dnscache");
    reveal_strlit("disable-user-proxy");
    reveal_strlit("reset-winhttp");
    assert("enable-adapter"@.len() == 14);
    assert("reset-dns"@.len() == 9);
    assert("start-dhcp"@.len() == 10);
    assert("start-dnscache"@.len() == 14);
    assert("disable-user-proxy"@.len() == 18);
    assert("reset-winhttp"@.len() == 13);
    assert("enable-adapter"@[0] != "start-dnscache"@[0]);
}

proof fn lemma_desc_keys()
    ensures
        "desc"@ != "source"@,
        "desc"@ != "cached"@,
        "desc"@ != "timestamp"@,
        "desc"@ != "success"@,
        "desc"@ != "data"@,
        "desc"@ != "message"@,
        "source"@ != "cached"@,
        "source"@ != "timestamp"@,
        "source"@ != "success"@,
        "source"@ != "data"@,
        "source"@ != "message"@,
        "cached"@ != "timestamp"@,
        "cached"@ != "success"@,
        "cached"@ != "data"@,
        "cached"@ != "message"@,
        "timestamp"@ != "success"@,
        "timestamp"@ != "data"@,
        "timestamp"@ != "message"@,
        "success"@ != "data"@,
        "success"@ != "message"@,
        "data"@ != "message"@,
{
    reveal_strlit("desc");
    reveal_strlit("source");
    reveal_strlit("cached");
    reveal_strlit("timestamp");
    reveal_strlit("success");
    reveal_strlit("data");
    reveal_strlit("message");
    assert("desc"@.len() == 4);
    assert("source"@.len() == 6);
    assert("cached"@.len() == 6);
    assert("timestamp"@.len() == 9);
    assert("success"@.len() == 7);
    assert("data"@.len() == 4);
    assert("message"@.len() == 7);
    assert("desc"@[1] != "data"@[1]);
    assert("source"@[0] != "cached"@[0]);
    assert("success"@[0] != "message"@[0]);
}


// ----------------------------------------------------------------------------- processes

/// The processes that Windows cannot do without are critical, with or without their ending and
/// in whatever case.
pub proof fn law_vital_processes(name: Seq<char>)
    ensures
        trimmed(without_exe(lowercase(name))) == "csrss"@ ==> is_critical(name),
        trimmed(without_exe(lowercase(name))) == "lsass"@ ==> is_critical(name),
        trimmed(without_exe(lowercase(name))) == "winlogon"@ ==> is_critical(name),
        trimmed(without_exe(lowercase(name))) == "wininit"@ ==> is_critical(name),
        trimmed(without_exe(lowercase(name))) == "services"@ ==> is_critical(name),
        trimmed(without_exe(lowercase(name))) == "smss"@ ==> is_critical(name),
        trimmed(without_exe(lowercase(name))) == "svchost"@ ==> is_critical(name),
        trimmed(without_exe(lowercase(name))) == "dwm"@ ==> is_critical(name),
        trimmed(without_exe(lowercase(name))) == "system"@ ==> is_critical(name),
        trimmed(without_exe(lowercase(name))) == "registry"@ ==> is_critical(name),
        trimmed(without_exe(lowercase(name))) == "explorer"@ ==> is_critical(name),
        trimmed(without_exe(lowercase(name))) == "sihost"@ ==> is_critical(name),
        trimmed(without_exe(lowercase(name))) == "msmpeng"@ ==> is_critical(name),
        trimmed(without_exe(lowercase(name))) == "trustedinstaller"@ ==> is_critical(name),
{
}

/// A program is named without its ending.
pub proof fn law_ending_of_a_program(n: Seq<char>)
    ensures
        without_exe(n + ".exe"@) == n,
{
    reveal_strlit(".exe");
    let s = n + ".exe"@;
    assert(s.subrange(s.len() - 4, s.len() as int) =~= ".exe"@);
    assert(s.take(s.len() - 4) =~= n);
}

/// A process that was listed under the number that is asked for is ended, where it is neither
/// this program nor critical; and what is ended has that number.
pub proof fn law_ended_process(
    pid: JsonV,
    own: u32,
    own_exe: Seq<char>,
    list: Seq<ProcV>,
    i: int,
    n: int,
)
    requires
        whole_in(pid) == Some(n),
    ensures
        kill_target(Some(pid), own, own_exe, list) matches Ok(p) ==> p.id == n && n > 0 && n != own
            && !(lowercase(own_exe).len() > 0 && lowercase(p.path) == lowercase(own_exe)),
        n > 0 && n != own && 0 <= i < list.len() && list[i].id == n && !is_critical(list[i].name)
            && lowercase(list[i].path) != lowercase(own_exe) && (forall|j: int|
            i < j < list.len() ==> (#[trigger] list[j]).id != n) ==> kill_target(
            Some(pid),
            own,
            own_exe,
            list,
        ) == Ok::<ProcV, Seq<char>>(list[i]),
        n <= 0 ==> kill_target(Some(pid), own, own_exe, list) is Err,
        kill_target(None, own, own_exe, list) is Err,
{
    lemma_proc_with(list, n, list.len() as int);
    if 0 <= i < list.len() && list[i].id == n && (forall|j: int|
        i < j < list.len() ==> (#[trigger] list[j]).id != n) {
        lemma_last_proc(list, n, list.len() as int, i);
    }
}

proof fn lemma_proc_with(list: Seq<ProcV>, id: int, n: int)
    requires
        0 <= n <= list.len(),
    ensures
        proc_with(list, id, n) matches Some(p) ==> p.id == id,
    decreases n,
{
    if n > 0 {
        lemma_proc_with(list, id, n - 1);
    }
}

proof fn lemma_last_proc(list: Seq<ProcV>, id: int, n: int, i: int)
    requires
        0 <= i < n <= list.len(),
        list[i].id == id,
        forall|j: int| i < j < n ==> (#[trigger] list[j]).id != id,
    ensures
        proc_with(list, id, n) == Some(list[i]),
    decreases n,
{
    if i < n - 1 {
        lemma_last_proc(list, id, n - 1, i);
    }
}

/// Every process with a number above zero is listed, with its name and its path.
pub proof fn law_listed_processes(list: Seq<JsonV>, n: int, i: int, id: int)
    requires
        0 <= i < n <= list.len(),
        member(list[i], "Id"@) is Some,
        whole_in(member(list[i], "Id"@)->0) == Some(id),
        id > 0,
    ensures
        listed_procs(list, n).contains(
            ProcV {
                id: id as i64,
                name: loose_text(member(list[i], "ProcessName"@)),
                path: loose_text(member(list[i], "Path"@)),
            },
        ),
    decreases n,
{
    let x = ProcV {
        id: id as i64,
        name: loose_text(member(list[i], "ProcessName"@)),
        path: loose_text(member(list[i], "Path"@)),
    };
    let now = listed_procs(list, n);
    let before = listed_procs(list, n - 1);
    if i == n - 1 {
        assert(now[before.len() as int] == x);
    } else {
        law_listed_processes(list, n - 1, i, id);
        let k = choose|k: int| 0 <= k < before.len() && before[k] == x;
        assert(now[k] == x);
    }
}

/// A process is told with its number, its name, its memory and its path.
pub proof fn law_process_is_told(id: int, name: Seq<char>, mem: int, path: Seq<char>, list: Seq<JsonV>)
    ensures
        member(proc_entry(id, name, mem, path), "Id"@) == Some(JsonV::Num(signed_dec(id))),
        text_member(proc_entry(id, name, mem, path), "ProcessName"@) == Some(name),
        member(proc_entry(id, name, mem, path), "mem"@) == Some(JsonV::Num(signed_dec(mem))),
        text_member(proc_entry(id, name, mem, path), "Path"@) == Some(path),
        array_member(listed_reply(list), "processes"@) == Some(list),
        bool_member(listed_reply(list), "success"@) == Some(true),
{
    lemma_proc_keys();
    let m = proc_entry(id, name, mem, path)->Obj_0;
    lemma_member_at(m, 0);
    lemma_member_at(m, 1);
    lemma_member_at(m, 2);
    lemma_member_at(m, 3);
    lemma_member_at(listed_reply(list)->Obj_0, 0);
    lemma_member_at(listed_reply(list)->Obj_0, 1);
}

/// A freeing of memory has succeeded exactly where one of its parts has.
pub proof fn law_freeing_is_told(d: JsonV, l: Seq<JsonV>, i: int)
    requires
        array_member(d, "results"@) == Some(l),
    ensures
        0 <= i < l.len() && bool_member(l[i], "ok"@) == Some(true) ==> bool_member(
            clean_reply(Some(d)),
            "success"@,
        ) == Some(true),
        (forall|k: int| 0 <= k < l.len() ==> bool_member(#[trigger] l[k], "ok"@) != Some(true))
            ==> bool_member(clean_reply(Some(d)), "success"@) == Some(false),
        member(clean_reply(Some(d)), "data"@) == Some(d),
        bool_member(clean_reply(None), "success"@) == Some(false),
{
    lemma_proc_keys();
    law_replies("解析清理结果失败"@, JsonV::Null);
    let m = clean_reply(Some(d))->Obj_0;
    lemma_member_at(m, 0);
    lemma_member_at(m, 1);
    if 0 <= i < l.len() && bool_member(l[i], "ok"@) == Some(true) {
        assert(any_ok(l));
    }
}

/// A blocking has succeeded exactly where no part of it failed, and in part where some did.
pub proof fn law_blocking_is_told(d: JsonV)
    ensures
        bool_member(block_reply(d), "success"@) == Some(failed_sign(d) == 0),
        bool_member(block_reply(d), "partial"@) == Some(failed_sign(d) > 0),
        member(block_reply(d), "data"@) == Some(d),
{
    lemma_proc_keys();
    let m = block_reply(d)->Obj_0;
    lemma_member_at(m, 0);
    lemma_member_at(m, 1);
    lemma_member_at(m, 2);
}

// -------------------------------------------------------------------------------- repairs

/// A repair that a check has found is the one with the name, and every main repair of an item
/// is found.
pub proof fn law_found_repair(items: Seq<JsonV>, id: Seq<char>, i: int)
    ensures
        repair_in(items, id) matches Some(r) ==> text_member(r, "id"@) == Some(id),
        0 <= i < items.len() && member(items[i], "repair"@) is Some && text_member(
            member(items[i], "repair"@)->0,
            "id"@,
        ) == Some(id) ==> repair_in(items, id) is Some,
{
    lemma_main(items, id, 0, i);
    lemma_other(items, id, 0);
}

proof fn lemma_main(items: Seq<JsonV>, id: Seq<char>, at: int, i: int)
    requires
        0 <= at <= items.len(),
    ensures
        main_repair(items, id, at) matches Some(r) ==> text_member(r, "id"@) == Some(id),
        at <= i < items.len() && member(items[i], "repair"@) is Some && text_member(
            member(items[i], "repair"@)->0,
            "id"@,
        ) == Some(id) ==> main_repair(items, id, at) is Some,
    decreases items.len() - at,
{
    if at < items.len() {
        lemma_main(items, id, at + 1, i);
    }
}

proof fn lemma_listed(list: Seq<JsonV>, id: Seq<char>, at: int)
    requires
        0 <= at <= list.len(),
    ensures
        listed_repair(list, id, at) matches Some(r) ==> text_member(r, "id"@) == Some(id),
    decreases list.len() - at,
{
    if at < list.len() {
        lemma_listed(list, id, at + 1);
    }
}

proof fn lemma_other(items: Seq<JsonV>, id: Seq<char>, at: int)
    requires
        0 <= at <= items.len(),
    ensures
        other_repair(items, id, at) matches Some(r) ==> text_member(r, "id"@) == Some(id),
    decreases items.len() - at,
{
    if at < items.len() {
        if array_member(items[at], "repairs"@) is Some {
            lemma_listed(array_member(items[at], "repairs"@)->0, id, 0);
        }
        lemma_other(items, id, at + 1);
    }
}

/// A repair is made exactly where its name is sound, the last check has found it and, where it
/// changes the machine, an administrator asks for it.
pub proof fn law_allowed_repair(id: Seq<char>, items: Seq<JsonV>, admin: bool)
    ensures
        allowed_repair(id, Some(items), admin) is Ok <==> id.len() > 0 && crate::text::byte_length(
            id,
        ) <= 40 && repair_in(items, id) is Some && (needs_admin(id) ==> admin),
        allowed_repair(id, Some(items), admin) matches Ok(r) ==> repair_in(items, id) == Some(r),
        allowed_repair(id, None, admin) is Err,
        needs_admin("enable-adapter"@) && needs_admin("start-dhcp"@) && needs_admin("start-dnscache"@)
            && needs_admin("reset-dns"@) && needs_admin("reset-winhttp"@),
        !needs_admin("disable-user-proxy"@),
{
    lemma_repair_texts();
}

/// Each repair has its own script.
pub proof fn law_repair_scripts(r: JsonV, s: Scripts)
    ensures
        repair_script("start-dhcp"@, r, s) == Ok::<Seq<char>, Seq<char>>(s.start_dhcp@),
        repair_script("start-dnscache"@, r, s) == Ok::<Seq<char>, Seq<char>>(s.start_dnscache@),
        repair_script("disable-user-proxy"@, r, s) == Ok::<Seq<char>, Seq<char>>(s.disable_user_proxy@),
        repair_script("reset-winhttp"@, r, s) == Ok::<Seq<char>, Seq<char>>(s.reset_winhttp@),
        text_member(r, "name"@) matches Some(n) && trimmed(n).len() > 0 ==> repair_script(
            "enable-adapter"@,
            r,
            s,
        ) == marked(
            s.enable_adapter@,
            "__TRIM_ADAPTER_NAME__"@,
            crate::commands::rules::doubled(text_member(r, "name"@)->0),
        ),
        text_member(r, "name"@) is None ==> repair_script("enable-adapter"@, r, s) is Err,
        interface_of(r) matches Some(n) ==> repair_script("reset-dns"@, r, s) == marked(
            s.reset_dns@,
            "987654321"@,
            signed_dec(n),
        ),
        interface_of(r) is None ==> repair_script("reset-dns"@, r, s) is Err,
        interface_of(r) matches Some(n) ==> n > 0,
{
    lemma_repair_texts();
    if text_member(r, "name"@) is None {
        assert(trimmed(Seq::<char>::empty()).len() == 0);
    }
}

/// What a check has found has a list of items.
pub proof fn law_check_by_script(o: crate::commands::contextmenu::PsOutput)
    ensures
        check_found(o) matches Ok(d) ==> array_member(d, "items"@) is Some,
        trimmed(o.stdout@).len() == 0 ==> check_found(o) is Err,
{
}

/// A repair is told as a success exactly where it says so itself.
pub proof fn law_repair_is_told(fix: JsonV, check: JsonV, message: Seq<char>)
    ensures
        bool_member(repair_reply(fix, Some(check)), "success"@) == Some(
            bool_member(fix, "ok"@) == Some(true),
        ),
        member(repair_reply(fix, Some(check)), "fix"@) == Some(fix),
        member(check, "items"@) is Some ==> member(repair_reply(fix, Some(check)), "items"@) == member(
            check,
            "items"@,
        ),
        bool_member(not_fixed(message), "ok"@) == Some(false),
        text_member(not_fixed(message), "message"@) == Some(message),
        !is_fixed(not_fixed(message)),
        is_fixed(fix) ==> native_fix(Ok(fix)) == fix,
        !is_fixed(fix) ==> !is_fixed(native_fix(Ok(fix))),
        !is_fixed(native_fix(Err(message))),
{
    lemma_fix_keys();
    let m = repair_reply(fix, Some(check))->Obj_0;
    lemma_member_at(m, 0);
    lemma_member_at(m, 1);
    lemma_member_at(m, 2);
    lemma_member_at(not_fixed(message)->Obj_0, 0);
    lemma_member_at(not_fixed(message)->Obj_0, 1);
    let a = native_fix(Ok(fix));
    if !is_fixed(fix) {
        lemma_member_at(a->Obj_0, 0);
    }
    lemma_member_at(native_fix(Err(message))->Obj_0, 0);
}

// --------------------------------------------------------------------------- descriptions

/// A request is sent exactly to an address that can be read, has a host, and leads neither to
/// this machine nor to a network that is not public.
pub proof fn law_sent(url: Seq<char>)
    ensures
        send_refusal(url) is None <==> url_parts(url) is Some && url_parts(url)->0.host.len() > 0
            && !private_url(url),
{
}

/// A redirection is followed exactly where it leads to a public address of the first host, and
/// not from a secure connection to another.
pub proof fn law_followed(base: UrlV, origin: Seq<char>, location: Seq<char>)
    ensures
        ({
            let loc = trimmed(location);
            let to = redirect_url(base, loc);
            redirected(base, origin, location) is Ok <==> loc.len() > 0 && !private_url(to)
                && url_parts(to) is Some && url_parts(to)->0.host.len() > 0 && url_parts(to)->0.host
                == origin && (base.secure ==> url_parts(to)->0.secure)
        }),
{
}

/// Where a redirection leads: a path from the root keeps the host, two slashes keep the scheme.
pub proof fn law_redirect_url(base: UrlV, rest: Seq<char>)
    requires
        rest.len() > 0,
        rest[0] != '/',
        !crate::commands::aidesc::scheme_first("/"@ + rest),
    ensures
        redirect_url(base, "//"@ + rest) == base.scheme + ":"@ + ("//"@ + rest),
        redirect_url(base, "/"@ + rest) == origin_text(base) + ("/"@ + rest),
{
    reveal_strlit("//");
    reveal_strlit("/");
    assert("//"@.is_prefix_of("//"@ + rest));
    let t = "/"@ + rest;
    if "//"@.is_prefix_of(t) {
        assert(t.subrange(0, 2)[1] == "//"@[1]);
        assert(t[1] == rest[0]);
    }
    assert(t[0] == '/');
}

/// The usual port of a scheme is left out.
pub proof fn law_origin(u: UrlV)
    requires
        !u.bracketed,
    ensures
        u.secure && u.port == 443 ==> origin_text(u) == u.scheme + "://"@ + u.host,
        !u.secure && u.port == 80 ==> origin_text(u) == u.scheme + "://"@ + u.host,
        u.secure && u.port != 443 ==> origin_text(u) == u.scheme + "://"@ + u.host + ":"@ + dec(
            u.port as nat,
        ),
{
}

/// An answer that is no redirection ends a request; a redirection without a place fails.
pub proof fn law_next_step(p: PostV, status: int, location: Option<Seq<char>>)
    ensures
        !(300 <= status < 400) ==> next_step(p, status, location) is Done,
        300 <= status < 400 && location is None ==> next_step(p, status, location) is Fail,
        300 <= status < 400 && p.hop < 3 && location is Some && redirected(
            p.current,
            p.origin,
            location->0,
        ) is Ok ==> next_step(p, status, location) == StepV::Follow(
            redirected(p.current, p.origin, location->0)->Ok_0,
        ),
        300 <= status < 400 && p.hop < 3 && location is Some && redirected(
            p.current,
            p.origin,
            location->0,
        ) is Err ==> next_step(p, status, location) is Fail,
{
}

/// A call carries its key where it has one, and nothing in its place where it has none.
pub proof fn law_headers(key: Seq<char>)
    ensures
        call_headers(key).contains(("Content-Type"@, "application/json"@)),
        key.len() > 0 ==> call_headers(key).contains(("Authorization"@, "Bearer "@ + key))
            && call_headers(key).len() == 2,
        key.len() == 0 ==> call_headers(key).len() == 1,
{
    assert(call_headers(key)[0] == ("Content-Type"@, "application/json"@));
    if key.len() > 0 {
        assert(call_headers(key)[1] == ("Authorization"@, "Bearer "@ + key));
    }
}

/// Only an answer with a good status, that says something, is one.
pub proof fn law_answers(key: Seq<char>, status: u16, body: Seq<char>)
    ensures
        !(200 <= status < 300) ==> answer_of(key, status, body) is None,
        json_in(trimmed(body)) is None ==> answer_of(key, status, body) is None,
        200 <= status < 300 && json_in(trimmed(body)) is Some && choice_text(
            json_in(trimmed(body))->0,
        ) is Some && choice_text(json_in(trimmed(body))->0)->0.len() > 0 ==> answer_of(key, status, body) == choice_text(
            json_in(trimmed(body))->0,
        ),
        chat_answer(status, body) matches Some(t) ==> t.len() > 0,
{
}

/// A description that was kept is told while it is not too old: for seven days.
pub proof fn law_kept_description(cache: JsonV, key: Seq<char>, now: int, shown: Seq<char>, at: int)
    requires
        member(cache, key) is Some,
        finite_of(member(member(cache, key)->0, "timestamp"@)) == Some(at),
        text_or_empty(member(cache, key)->0, "desc"@).len() > 0,
    ensures
        now - at >= 7 * 24 * 60 * 60 * 1000 ==> kept_description(cache, key, now, shown) is None,
        now - at < 7 * 24 * 60 * 60 * 1000 && text_or_empty(
            member(cache, key)->0,
            "source"@,
        ).len() > 0 ==> kept_description(cache, key, now, shown) == Some(
            description(
                text_or_empty(member(cache, key)->0, "desc"@),
                text_or_empty(member(cache, key)->0, "source"@),
                true,
            ),
        ),
{
}

/// What is told of a description: the text, where it is from, and whether it was kept.
pub proof fn law_description_is_told(desc: Seq<char>, source: Seq<char>, cached: bool, now: int)
    ensures
        ({
            let d = member(description(desc, source, cached), "data"@)->0;
            &&& bool_member(description(desc, source, cached), "success"@) == Some(true)
            &&& text_member(d, "desc"@) == Some(desc)
            &&& text_member(d, "source"@) == Some(source)
            &&& bool_member(d, "cached"@) == Some(cached)
        }),
        text_member(kept_entry(desc, source, now), "desc"@) == Some(desc),
        text_member(kept_entry(desc, source, now), "source"@) == Some(source),
        member(kept_entry(desc, source, now), "timestamp"@) == Some(JsonV::Num(signed_dec(now))),
{
    lemma_desc_keys();
    let m = description(desc, source, cached)->Obj_0;
    lemma_member_at(m, 0);
    lemma_member_at(m, 1);
    let d = m[1].1->Obj_0;
    lemma_member_at(d, 0);
    lemma_member_at(d, 1);
    lemma_member_at(d, 2);
    let e = kept_entry(desc, source, now)->Obj_0;
    lemma_member_at(e, 0);
    lemma_member_at(e, 1);
    lemma_member_at(e, 2);
}

/// A model is asked exactly where it is switched on, has an address, or needs none, and was not
/// called too often.
pub proof fn law_model_is_asked(key: Seq<char>, cfg: JsonV, calls: int, shown: Seq<char>)
    ensures
        ask_refusal(key, cfg, calls, shown) is None <==> member(cfg, "enabled"@) is Some && truthy(
            member(cfg, "enabled"@)->0,
        ) && (key != "baidu_pro"@ ==> trimmed(text_or_empty(cfg, "apiUrl"@)).len() > 0) && (key
            == "baidu_pro"@ ==> calls < 100),
{
}

/// A question is put to the model that is set, with its own address and key, unless a kept
/// answer will do; where a new answer is wanted, none will.
pub proof fn law_question(
    q: Question,
    engines: JsonV,
    models: JsonV,
    cache: JsonV,
    usage: JsonV,
    shown: Seq<char>,
    usual: Usual,
)
    ensures
        ({
            let key = question_key(q, engines, models);
            let kept = kept_description(cache, key, q.now as int, shown);
            let next = next_for(q, engines, models, cache, usage, shown, usual);
            let refusal = ask_refusal(
                engine_of(engines),
                engine_settings(engines, models),
                crate::commands::aidesc::calls_on(usage, q.today@),
                shown,
            );
            &&& !q.force && kept is Some ==> next == NextV::Reply(kept->0)
            &&& (q.force || kept is None) && refusal is Some ==> next == NextV::Reply(refusal->0)
            &&& (q.force || kept is None) && refusal is None ==> next is Ask
            &&& next matches NextV::Ask { key: k, call, count } ==> k == key && (count is Some
                <==> engine_of(engines) == "baidu_pro"@)
        }),
        text_member(engines, "global"@) is None ==> engine_of(engines) == "metaso"@,
        text_member(engines, "global"@) matches Some(k) ==> engine_of(engines) == k,
{
}

/// A call is sent to the address of the model, with its key.
pub proof fn law_call_of_a_model(
    key: Seq<char>,
    cfg: JsonV,
    name: Seq<char>,
    company: Seq<char>,
    scope: Seq<char>,
    usual: Seq<char>,
    url: Seq<char>,
)
    requires
        key != "baidu_pro"@,
    ensures
        description_call(key, cfg, name, company, scope, usual, url).url == text_or_empty(
            cfg,
            "apiUrl"@,
        ),
        description_call(key, cfg, name, company, scope, usual, url).headers == call_headers(
            text_or_empty(cfg, "apiKey"@),
        ),
        own_prompt(cfg).len() > 0 ==> description_call(key, cfg, name, company, scope, usual, url)
            == chat_call(
            text_or_empty(cfg, "apiUrl"@),
            text_or_empty(cfg, "apiKey"@),
            text_or_empty(cfg, "model"@),
            prompt_text(own_prompt(cfg), usual, name, company),
        ),
        own_prompt(cfg).len() == 0 ==> description_call(key, cfg, name, company, scope, usual, url)
            == chat_call(
            text_or_empty(cfg, "apiUrl"@),
            text_or_empty(cfg, "apiKey"@),
            text_or_empty(cfg, "model"@),
            prompt_text(scope, usual, name, company),
        ),
{
}

/// What is kept is too old after the time it is kept for.
pub proof fn law_fresh(entry: JsonV, now: int, ttl: int, at: int)
    requires
        finite_of(member(entry, "timestamp"@)) == Some(at),
        member(entry, "timestamp"@) is Some,
    ensures
        is_fresh(entry, now, ttl) <==> now - at < ttl,
{
}

} // verus!
