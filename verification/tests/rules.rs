use trim_finder::commands::rules::{ps_escape_single, sub_once, template_body};

const HEAD: &str = "# <<<PROVENANCE\n# made by a generator\n# PROVENANCE>>>\n";

#[test]
fn template_bodies_are_stripped() {
    for (name, raw) in [
        ("scan", format!("{HEAD}$dll = '${{FASTSIZE_DLL_PLACEHOLDER}}'\n")),
        ("execute", format!("{HEAD}$a = 1\n$dll = '${{FASTSIZE_DLL_PLACEHOLDER}}'\n")),
        ("detail", format!("{HEAD}$rules = '${{DETAIL_RULES_JSON_PLACEHOLDER}}'\n")),
    ] {
        let body = template_body(&raw);
        assert!(!body.contains("# PROVENANCE>>>"), "{name} 未剥离来源块");
        assert!(!body.contains("<<<PROVENANCE"), "{name} 未剥离来源块");
        assert!(
            body.contains("${FASTSIZE_DLL_PLACEHOLDER}")
                || body.contains("${DETAIL_RULES_JSON_PLACEHOLDER}"),
            "{name} 模板正文异常（占位符缺失）"
        );
    }
}

#[test]
fn substitution_semantics() {
    assert_eq!(ps_escape_single("a'b"), "a''b");
    assert_eq!(ps_escape_single("no-quote"), "no-quote");
    assert_eq!(
        sub_once("${X}${X}", "${X}", "v"),
        "v${X}",
        "JS 的 replace(str,val) 只替换首处"
    );
}
