use trim_finder::commands::aidesc::{
    ai_cache_key, answer_or_ask, ask_gate, asked_name, baidu_answer, build_prompt,
    cached_description, finish_description, get_baidu_daily_count, header_text,
    increment_baidu_daily_count, is_ok_status, load_ai_cache, load_baidu_usage, model_answer,
    model_description_call, model_text_call, openai_answer, wait_ms, Next, Post, Question, Step,
    Usual,
};
use trim_finder::commands::appearance::{
    bg_delete_gate, bg_delete_reply, bg_list, parent, enabled_reply, get_material, import_gate as bg_import,
    import_reply, material_reply, query_on_battery, query_sys_transparency, set_material,
    set_material_enabled, Image, Standing, Surroundings,
};
use trim_finder::commands::elevate::{
    elevation_takeover_pending, handshake_record, new_step, old_step, read_handshake,
    relaunch_argument, relaunch_nonce, request_reply, stay_notice, Launch, NewStep, OldStep, Probe,
};
use trim_finder::commands::fonts::{
    copy_file_name, drop_key, family_of, finish_import, font_css_stack_for, fonts_list, import_gate,
    load_font_state, outdated_copy, remove_imported, remove_reply, save_config, truthy_string,
    SystemFonts,
};
use trim_finder::commands::models::{
    begin_save, build_next, cfg_str, confirm, has_answered, has_no_key, is_http_url, reply_keyless,
    reply_verified, save_entry, save_url, scope_reply, set_scope, test_config, test_reply, test_url, Saving,
};
use trim_finder::json::Json;
use trim_finder::protect::ProtectRoots;
use trim_finder::value::{compact_text, read_json};

fn v(t: &str) -> Json {
    read_json(t).expect(t)
}

fn message(j: &Json) -> &str {
    j.text("message").unwrap()
}

fn list(v: &[&str]) -> Vec<String> {
    v.iter().map(|s| s.to_string()).collect()
}

// ------------------------------------------------------------------------------------ aidesc

#[test]
fn redirects_are_followed_on_the_host_and_end() {
    let mut p = Post::start("https://api.example.com/v1").unwrap();
    assert!(matches!(p.step(200, None), Step::Done));
    assert!(matches!(p.step(302, Some("/v2")), Step::Follow));
    assert_eq!(p.target().path, "/v2");
    assert!(matches!(p.step(302, Some("/v3")), Step::Follow));
    assert!(matches!(p.step(302, Some("/v4")), Step::Follow));
    match p.step(302, Some("/v5")) {
        Step::Fail(m) => assert_eq!(m, "接口重定向超过 3 跳，已拒绝"),
        _ => panic!("followed"),
    }
    let mut q = Post::start("https://api.example.com/v1").unwrap();
    match q.step(301, None) {
        Step::Fail(m) => assert_eq!(m, "接口返回重定向但无法读取 Location，已拒绝"),
        _ => panic!("followed"),
    }
    assert_eq!(Post::start("nonsense").map(|_| ()).unwrap_err(), "接口地址无效: nonsense");
    assert_eq!(
        Post::start("http://127.0.0.1/").map(|_| ()).unwrap_err(),
        "接口地址指向本机或内网，已按安全策略拒绝"
    );
}

#[test]
fn calls_are_put_together() {
    assert_eq!(header_text(&vec![("A".to_string(), "b".to_string())]), "A: b\r\n");
    assert_eq!((wait_ms(5), wait_ms(u64::MAX)), (5, 120_000));
    assert!(is_ok_status(204) && !is_ok_status(302));
    let cfg = v("{\"apiUrl\":\"https://h/v1\",\"apiKey\":\"SECRET\",\"model\":\"m\"}");
    let c = model_text_call("custom", &cfg, "hello", "https://usual/");
    assert_eq!(c.url, "https://h/v1");
    assert!(c.headers.iter().any(|(k, x)| k == "Authorization" && x == "Bearer SECRET"));
    assert!(c.body.contains("hello") && c.body.contains("\"m\""), "{}", c.body);
    let usual = Usual { prompt: "P".to_string(), url: "https://usual/".to_string() };
    let d = model_description_call("custom", &cfg, "N", "C", "", &usual);
    assert_eq!(d.url, "https://h/v1");
    assert!(d.body.contains('N'), "{}", d.body);
    assert!(build_prompt("", "usual", "N", "C").contains("usual"));
}

#[test]
fn answers_are_read() {
    assert_eq!(
        openai_answer(200, "{\"choices\":[{\"message\":{\"content\":\" hi \"}}]}"),
        Some("hi".to_string())
    );
    assert_eq!(openai_answer(500, "{\"choices\":[{\"message\":{\"content\":\"hi\"}}]}"), None);
    assert_eq!(openai_answer(200, "x"), None);
    assert_eq!(baidu_answer(200, "{}"), None);
    assert_eq!(model_answer("custom", 200, "{}"), None);
}

#[test]
fn descriptions_are_kept() {
    assert_eq!(message(&asked_name(None).unwrap_err()), "缺少名称");
    assert_eq!(asked_name(Some(" n ")).map(|n| n.trim().to_string()).unwrap(), "n");
    let now = 1_000_000;
    let (r, cache) = finish_description(v("{}"), "k", &Some("d".to_string()), "S", now);
    assert!(compact_text(&r).contains("\"d\""));
    let cache = cache.unwrap();
    assert!(cached_description(&cache, "k", false, now + 1, "S").is_some());
    assert!(cached_description(&cache, "k", true, now + 1, "S").is_none());
    assert!(cached_description(&cache, "k", false, now + 604_800_000, "S").is_none());
    let (r, cache) = finish_description(v("{}"), "k", &None, "S", now);
    assert_eq!(message(&r), "该条目暂时无法获取简介，请检查模型配置或稍后重试");
    assert!(cache.is_none());
    assert_eq!(compact_text(&load_ai_cache(Some("[1"))), "{}");
}

#[test]
fn calls_a_day_are_counted() {
    let u = load_baidu_usage(None, "2026-01-01");
    let u = increment_baidu_daily_count(u, "2026-01-01");
    let u = increment_baidu_daily_count(u, "2026-01-01");
    assert_eq!(get_baidu_daily_count(&u, "2026-01-01"), 2);
    assert_eq!(get_baidu_daily_count(&u, "2026-01-02"), 0);
    assert!(ask_gate("custom", &v("{\"enabled\":true,\"apiUrl\":\"https://h\"}"), 0, "S").is_ok());
    assert_eq!(
        compact_text(&ask_gate("custom", &v("{}"), 0, "S").unwrap_err()),
        "{\"success\":false,\"message\":\"disabled\",\"data\":{\"model\":\"S\"}}"
    );
    assert_eq!(
        message(&ask_gate("custom", &v("{\"enabled\":true}"), 0, "S").unwrap_err()),
        "该模型尚未填写 API 接口地址，请在「设置 - 大模型管理」中补全"
    );
    assert!(ask_gate("baidu_pro", &v("{\"enabled\":true}"), 0, "S").is_ok());
    assert_eq!(
        message(&ask_gate("baidu_pro", &v("{\"enabled\":true}"), 1_000_000, "S").unwrap_err()),
        "百度千帆今日调用已达上限，请更换模型或明日再试"
    );
}

// -------------------------------------------------------------------------------- appearance

fn on() -> Json {
    v("{\"material\":\"acrylic\",\"materialEnabled\":true}")
}

#[test]
fn materials_are_chosen_from_a_list() {
    assert_eq!(message(&set_material(on(), Some("x")).unwrap_err()), "未知的材质");
    let (s, eff) = set_material(on(), Some("mica")).unwrap();
    assert_eq!((s.text("material"), eff.as_str()), (Some("mica"), "mica"));
    let (s, eff, on_now) = set_material_enabled(s, Some(false));
    assert_eq!((s.flag("materialEnabled"), eff.as_str(), on_now), (Some(false), "none", false));
    assert!(compact_text(&get_material(&s)).contains("mica"));
    assert_eq!(compact_text(&material_reply("mica", &vec![false, true])), "{\"success\":true,\"nativeApplied\":true}");
    assert_eq!(compact_text(&material_reply("mica", &vec![false])), "{\"success\":true,\"nativeApplied\":false}");
    assert_eq!(compact_text(&material_reply("none", &vec![true])), "{\"success\":true,\"nativeApplied\":false}");
    assert!(compact_text(&enabled_reply("mica", true, &vec![])).contains("mica"));
    assert_eq!(enabled_reply("none", false, &vec![true]).flag("nativeApplied"), Some(false));
}

#[test]
fn the_battery_swaps_the_material_and_back() {
    assert!(query_on_battery(Some(0)) && !query_on_battery(Some(1)) && !query_on_battery(None));
    assert!(query_sys_transparency(None));
    let (mut s, _) = Surroundings::init(false, true, &on(), false);
    let r = s.on_power_event(true, true, &on(), false);
    assert_eq!((r.tell, r.apply.as_deref()), (true, Some("mica")));
    assert!(s.swapped);
    let r = s.on_power_event(false, true, &on(), false);
    assert_eq!((r.tell, r.apply.as_deref()), (true, Some("acrylic")));
    let r = s.on_power_event(false, true, &on(), false);
    assert_eq!((r.tell, r.apply), (false, None));
}

#[test]
fn images_are_taken_in_and_removed() {
    assert_eq!(message(&bg_import("a.exe", &Ok(1), 5).unwrap_err()), "所选文件不是受支持的图片格式");
    assert!(message(&bg_import("a.png", &Ok(52_428_801), 5).unwrap_err()).starts_with("图片过大（"));
    assert_eq!(bg_import("a.PNG", &Ok(10), 5).unwrap(), "bg_5.png");
    assert_eq!(import_reply("p", "n", &None).flag("success"), Some(true));
    assert_eq!(import_reply("p", "n", &Some("e".to_string())).flag("success"), Some(false));
    let r = ProtectRoots { subtree: vec!["c:\\d\\held".to_string()], exact: vec![], any_drive: vec![] };
    let gate = |p: &str, at| {
        bg_delete_gate(p, parent(p).as_deref(), "C:\\D", at, &None, &r)
            .map_err(|e| message(&e).to_string())
    };
    assert_eq!(gate("C:\\d\\a.png", Standing::Plain), Ok(()));
    assert_eq!(gate("C:\\e\\a.png", Standing::Plain), Err("路径无效".to_string()));
    assert_eq!(gate("C:\\d\\a.png", Standing::Link), Err("拒绝删除符号链接目标".to_string()));
    assert_eq!(gate("", Standing::Plain), Err("路径无效".to_string()));
    assert_eq!(bg_delete_reply(&None).flag("success"), Some(true));
    let l = bg_list(vec![
        Image { path: "b".to_string(), name: "b.png".to_string() },
        Image { path: "a".to_string(), name: "a.png".to_string() },
    ]);
    assert!(compact_text(&l).contains("a.png"));
}

// ------------------------------------------------------------------------------------- fonts

#[test]
fn fonts_are_taken_in() {
    assert_eq!(message(&import_gate(false, None, &vec![]).unwrap_err()), "字体文件不存在或不可访问");
    assert_eq!(message(&import_gate(true, Some(0), &vec![]).unwrap_err()), "字体文件为空或不可读取");
    assert!(message(&import_gate(true, Some(9), &b"nope".to_vec()).unwrap_err()).starts_with("该文件不是有效的字体文件"));
    assert!(import_gate(true, Some(9), &b"OTTOxxxx".to_vec()).is_ok());
    assert_eq!(family_of("C:\\f\\My'Font.ttf"), "MyFont");
    assert!(copy_file_name("C:\\f\\x.TTF").ends_with(".ttf"));
    assert!(font_css_stack_for("A").starts_with("'A'"));
    let (s, reply) = finish_import(v("{}"), "C:\\f\\A.ttf", "C:\\d\\imported.ttf", "now");
    assert_eq!(reply.flag("success"), Some(true));
    let (_, imported) = load_font_state(&s);
    assert!(imported.is_some());
    assert!(outdated_copy(&s, "C:\\d\\imported.ttf", "C:\\d\\imported.ttf").is_none());
    let (left, file) = remove_imported(&s).unwrap();
    assert!(file.is_some());
    assert!(remove_imported(&left).is_none());
    assert_eq!(remove_reply(true, true).flag("success"), Some(true));
}

#[test]
fn fonts_of_the_system_are_listed() {
    let a = SystemFonts { yahei: true, simhei: false, simsun: true, simkai: false, times: false };
    let t = compact_text(&fonts_list(&v("{}"), a, false));
    assert!(t.contains("微软雅黑") && t.contains("宋体"), "{t}");
    assert_eq!(truthy_string(Some(&v("\"\""))), None);
    assert_eq!(truthy_string(Some(&v("\"x\""))), Some("x".to_string()));
    let (s, reply) = save_config(v("{\"a\":1}"), &v("{\"family\":\"X\"}"));
    assert_eq!(reply.flag("success"), Some(true));
    assert_eq!(compact_text(s.get("a").unwrap()), "1");
    match v("{\"a\":1,\"b\":2}") {
        Json::Obj(m) => assert_eq!(drop_key(&m, "a").len(), 1),
        _ => panic!("no object"),
    }
}

// ----------------------------------------------------------------------------------- elevate

#[test]
fn the_two_programs_shake_hands() {
    let r = handshake_record("n1", "ready", 77, 5);
    let h = read_handshake(&compact_text(&r));
    assert_eq!(h.as_ref().map(|h| (h.nonce.as_str(), h.phase.as_str(), h.pid)), Some(("n1", "ready", 77)));
    assert!(read_handshake("{").is_none());
    let pid = |n: &str| read_handshake(&format!("{{\"nonce\":\"n\",\"phase\":\"p\",\"pid\":{n}}}")).map(|h| h.pid);
    assert_eq!(pid("9223372036854775815"), Some(7));
    assert_eq!(pid("4294967297"), Some(1));
    assert!(matches!(old_step(&h, "n1", 1, Probe::Running, 0), OldStep::MakeWay));
    assert!(matches!(old_step(&h, "n1", 77, Probe::Running, 0), OldStep::Wait));
    assert!(matches!(old_step(&h, "n2", 1, Probe::Running, 20_001), OldStep::Stay));
    let free = read_handshake(&compact_text(&handshake_record("n1", "released", 1, 5)));
    assert!(matches!(new_step(&free, "n1", 0), NewStep::Released));
    assert!(matches!(new_step(&None, "n1", 0), NewStep::Wait));
    assert!(matches!(new_step(&None, "n1", 15_001), NewStep::TimedOut));
    assert_eq!(relaunch_nonce(&list(&["x", &relaunch_argument("abc")])), Some("abc".to_string()));
    assert_eq!(relaunch_nonce(&list(&["x"])), None);
    let asked = compact_text(&handshake_record("abc", "requested", 1, 5));
    assert!(elevation_takeover_pending(&list(&[&relaunch_argument("abc")]), true, Some(&asked)));
    assert!(!elevation_takeover_pending(&list(&[&relaunch_argument("abc")]), false, Some(&asked)));
    assert_eq!(message(&request_reply(&Launch::NotWritten)), "无法写入提权握手状态，已拒绝提权");
    assert_eq!(message(&request_reply(&Launch::Refused)), "提权请求被取消或失败");
    assert_eq!(request_reply(&Launch::Started).flag("success"), Some(true));
    assert_eq!(message(&request_reply(&Launch::NoProgram("e".to_string()))).contains('e'), true);
    assert!(compact_text(&stay_notice()).contains("未检测到新实例启动"));
}

// ------------------------------------------------------------------------------------ models

#[test]
fn models_are_saved_with_their_secrets() {
    let keys = list(&["custom"]);
    assert_eq!(message(&save_url(&keys, "x", &v("{}"), "u").unwrap_err()), "未知的模型项");
    assert_eq!(
        message(&save_url(&keys, "custom", &v("{\"apiUrl\":\"ftp://x\"}"), "").unwrap_err()),
        "API 接口地址格式无效，请以 http(s):// 开头"
    );
    assert_eq!(
        message(&save_entry("custom", &v("{\"customName\":\"N\",\"model\":\"m\"}"), &v("{}"), "http://10.0.0.1", "****", 9).unwrap_err()),
        "API 接口地址不允许指向本机或内网网段"
    );
    assert!(is_http_url("HTTP://a") && !is_http_url("a"));
    let url = save_url(&keys, "custom", &v("{\"apiUrl\":\"https://h/v1\"}"), "").unwrap();
    let cur = v("{\"apiKey\":\"OLD\",\"model\":\"m\"}");
    let e = save_entry("custom", &v("{\"apiKey\":\"****\",\"customName\":\"N\",\"enabled\":true}"), &cur, &url, "****", 9).unwrap();
    assert_eq!((e.text("apiKey"), e.text("model"), e.text("customName")), (Some("OLD"), Some("m"), Some("N")));
    assert!(!has_no_key(&e) && has_no_key(&v("{\"apiKey\":\" \"}")));
    let off = confirm(e, false, "now");
    assert_eq!((off.flag("verified"), off.flag("enabled")), (Some(false), Some(false)));
    assert!(off.get("verifiedAt").is_none());
    let next = build_next(v("{}"), v("{\"custom\":1}"), v("{}"), &list(&["menu"]), "menu", "custom");
    assert_eq!(compact_text(&next), "{\"models\":{\"custom\":1},\"aiScopes\":{\"menu\":\"custom\"}}");
    assert_eq!(cfg_str(&v("{\"a\":5}"), "a"), Some("5".to_string()));
}

#[test]
fn models_are_tried_out() {
    assert!(has_answered(&Some("x".to_string())) && !has_answered(&Some(" ".to_string())) && !has_answered(&None));
    assert_eq!(message(&reply_keyless(false)), "写入配置文件失败");
    assert_eq!(compact_text(&reply_verified(true, &Some(" hi ".to_string()))), "{\"success\":true,\"message\":\"\",\"data\":{\"verified\":true,\"reply\":\"hi\"}}");
    let url = test_url(&v("{}"), &v("{\"apiUrl\":\" https://h \"}"));
    assert_eq!(url, "https://h");
    let c = test_config(&list(&["custom"]), "custom", &v("{\"apiKey\":\"k\",\"model\":\"m\"}"), &v("{}"), &url, "****", 9).unwrap();
    assert_eq!(compact_text(&c), "{\"apiUrl\":\"https://h\",\"apiKey\":\"k\",\"model\":\"m\",\"timeout\":9}");
    assert_eq!(message(&test_reply(&None, 5)), "连接失败：未获得有效响应（请检查地址、密钥与模型名称）");
    assert_eq!(message(&test_reply(&Some("y".to_string()), 5)), "连接成功");
    assert_eq!(message(&scope_reply(false)), "写入配置文件失败");
    let models = v("{\"custom\":{\"verified\":true,\"enabled\":true},\"b\":{\"verified\":false,\"enabled\":true}}");
    let keys = list(&["custom", "b"]);
    assert!(set_scope(&keys, "custom", &models, v("{}"), v("{}"), "global").is_ok());
    assert_eq!(message(&set_scope(&keys, "b", &models, v("{}"), v("{}"), "global").unwrap_err()), "只能选择已验证且已启用的模型");
}

#[test]
fn weight_and_size_are_held_between_their_limits() {
    let saved = |cfg: &str| {
        let (s, reply) = save_config(v("{}"), &v(cfg));
        let font = s.get("font").unwrap();
        assert_eq!(compact_text(reply.get("data").unwrap()), compact_text(font));
        (compact_text(font.get("weight").unwrap()), compact_text(font.get("size").unwrap()))
    };
    let pair = |a: &str, b: &str| (a.to_string(), b.to_string());
    assert_eq!(saved("{}"), pair("400", "16"));
    assert_eq!(saved("{\"weight\":50,\"size\":-3}"), pair("100", "12"));
    assert_eq!(saved("{\"weight\":5000,\"size\":24.5}"), pair("1000", "24"));
    assert_eq!(saved("{\"weight\":\"650\",\"size\":13.5}"), pair("650", "13.5"));
    assert_eq!(saved("{\"weight\":0,\"size\":\"x\"}"), pair("400", "16"));
    assert_eq!(saved("{\"weight\":1000,\"size\":12}"), pair("1000", "12"));
}

#[test]
fn a_model_without_a_key_is_saved_and_not_asked() {
    let at = "2026-01-02T03:04:05.000Z";
    match begin_save(v("{\"apiKey\":\"\",\"enabled\":true}"), at) {
        Saving::SwitchedOff(e) => {
            assert_eq!(compact_text(&e), compact_text(&confirm(v("{\"apiKey\":\"\",\"enabled\":true}"), false, at)))
        }
        Saving::AskFirst(_) => panic!("asked"),
    }
    match begin_save(v("{\"apiKey\":\"k\",\"enabled\":true}"), at) {
        Saving::AskFirst(e) => assert_eq!(compact_text(&e), "{\"apiKey\":\"k\",\"enabled\":true}"),
        Saving::SwitchedOff(_) => panic!("not asked"),
    }
}

fn question(force: bool) -> Question {
    Question {
        name: "N".to_string(),
        company: "C".to_string(),
        prompt: "about {name}".to_string(),
        force,
        today: "2026-01-02".to_string(),
        now: 1_000_000,
    }
}

fn next(force: bool, models: &str, engine: &str, cache: &str, usage: &str) -> Next {
    let engines = v(&format!("{{\"global\":\"{engine}\"}}"));
    let usual = Usual { prompt: "p".to_string(), url: "https://h/x".to_string() };
    answer_or_ask(&question(force), &engines, &v(models), &v(cache), v(usage), "S", &usual)
}

#[test]
fn a_question_is_answered_refused_or_asked() {
    let on = "{\"baidu_pro\":{\"enabled\":true,\"apiKey\":\"k\",\"model\":\"m\"}}";
    let key = ai_cache_key("N", "C", "global:baidu_pro:m");
    let kept = format!("{{\"{key}\":{{\"desc\":\"D\",\"timestamp\":999000}}}}");
    let full = "{\"date\":\"2026-01-02\",\"count\":100}";
    match next(false, on, "baidu_pro", &kept, full) {
        Next::Reply(r) => assert_eq!(r.get("data").unwrap().text("desc"), Some("D")),
        Next::Ask { .. } => panic!("asked"),
    }
    match next(true, on, "baidu_pro", &kept, full) {
        Next::Reply(r) => {
            assert_eq!(message(&r), "百度千帆今日调用已达上限，请更换模型或明日再试")
        }
        Next::Ask { .. } => panic!("asked past the limit"),
    }
    match next(true, on, "baidu_pro", &kept, "{\"date\":\"2026-01-02\",\"count\":99}") {
        Next::Ask { key: k, call, count } => {
            assert_eq!(k, key);
            assert!(call.url.starts_with("https://"));
            let c = count.unwrap();
            assert_eq!(compact_text(&c), "{\"date\":\"2026-01-02\",\"count\":100}");
            assert_eq!(get_baidu_daily_count(&c, "2026-01-02"), 100);
            assert_eq!(get_baidu_daily_count(&c, "2026-01-03"), 0);
        }
        Next::Reply(_) => panic!("not asked"),
    }
    let off = "{\"baidu_pro\":{\"enabled\":false}}";
    assert!(matches!(next(true, off, "baidu_pro", "{}", "{}"), Next::Reply(_)));
    let other = "{\"custom\":{\"enabled\":true,\"apiUrl\":\"https://h\",\"model\":\"m\"}}";
    match next(true, other, "custom", "{}", full) {
        Next::Ask { count, .. } => assert!(count.is_none()),
        Next::Reply(_) => panic!("not asked"),
    }
}
