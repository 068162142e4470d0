use trim_finder::empty::{fold_empty_dirs, EmptyAccum};
use trim_finder::events::{Event, HEARTBEAT_EVERY};
use trim_finder::scan::ScanCtx;

fn f(p: &str, sz: u64) -> (String, u64) {
    (p.to_string(), sz)
}

fn warns(out: &[Event]) -> usize {
    out.iter().filter(|e| matches!(e, Event::Warn(_))).count()
}

fn scanned(out: &[Event]) -> usize {
    out.iter().filter(|e| matches!(e, Event::Scanned(_))).count()
}

fn truncated(out: &[Event]) -> bool {
    out.iter().any(|e| matches!(e, Event::Truncated))
}

#[test]
fn scan_ctx_accumulates_entries_from_every_root() {
    let mut ctx = ScanCtx::new();
    let mut out = Vec::new();
    for root in ["a/1.txt", "b/2.txt", "c/3.txt", "d/4.txt"] {
        ctx.add_batch(vec![f(root, 10)], &mut out);
    }
    let all = ctx.finish(&mut out);
    assert_eq!(all.len(), 4, "四个根都要留下结果");
    for root in ["a/1.txt", "b/2.txt", "c/3.txt", "d/4.txt"] {
        assert!(all.iter().any(|(p, _)| p == root), "根 {root} 的结果被后续根覆盖了");
    }
    assert!(!truncated(&out), "没到上限就不该报截断");
    assert_eq!(warns(&out), 0);
}

#[test]
fn scan_ctx_cap_is_global_and_warns_once() {
    let mut ctx = ScanCtx::with_cap(5);
    let mut out = Vec::new();
    assert_eq!(ctx.add_batch(vec![f("r1/a", 1), f("r1/b", 2)], &mut out), 2);
    assert_eq!(ctx.add_batch(vec![f("r2/a", 1), f("r2/b", 2)], &mut out), 2);
    assert_eq!(
        ctx.add_batch(vec![f("r3/a", 1), f("r3/b", 2)], &mut out),
        1,
        "超出全局上限的部分不该被收下"
    );
    let all = ctx.finish(&mut out);
    assert_eq!(all.len(), 5, "驻留条目数必须等于全局上限");
    assert!(truncated(&out), "上限满后要显式报截断");
    assert_eq!(warns(&out), 1, "截断只告警一次");
    assert!(ctx.stopped());
}

#[test]
fn batches_come_to_the_same_as_one() {
    for cap in 0..7 {
        let mut parts = ScanCtx::with_cap(cap);
        let mut whole = ScanCtx::with_cap(cap);
        let mut out = Vec::new();
        parts.add_batch(vec![f("a", 1), f("b", 2)], &mut out);
        parts.add_batch(vec![f("c", 3), f("d", 4), f("e", 5)], &mut out);
        whole.add_batch(vec![f("a", 1), f("b", 2), f("c", 3), f("d", 4), f("e", 5)], &mut out);
        assert_eq!(
            (&parts.files, parts.counter, parts.truncated),
            (&whole.files, whole.counter, whole.truncated)
        );
    }
}

#[test]
fn scan_ctx_callbacks_run_outside_the_files_lock() {
    let mut ctx = ScanCtx::with_cap(3);
    let mut out = Vec::new();
    ctx.add_batch(vec![f("a", 1), f("b", 2)], &mut out);
    ctx.add_batch(vec![f("c", 3), f("d", 4)], &mut out);
    assert!(warns(&out) > 0, "触顶要告警（才谈得上回调位置）");
    assert!(
        !out.is_empty(),
        "确有回调发生（HEARTBEAT_EVERY 之下的批次不产生 scanned 回调，故这里看 probes）"
    );
    let mut ctx2 = ScanCtx::with_cap(HEARTBEAT_EVERY as usize * 4);
    let mut out2 = Vec::new();
    let batch: Vec<(String, u64)> =
        (0..HEARTBEAT_EVERY as usize).map(|i| f(&format!("x{i}"), 1)).collect();
    ctx2.add_batch(batch, &mut out2);
    assert_eq!(scanned(&out2), 1, "跨过心跳阈值要 emit 一次");
}

#[test]
fn fold_empty_dirs_matches_legacy_semantics() {
    let dirs: Vec<String> = [r"C:\a", r"C:\a\b", r"C:\a\b\c", r"C:\a\d", r"C:\ee", r"C:\a2"]
        .iter()
        .map(|s| s.to_string())
        .collect();
    let mut folded = fold_empty_dirs(&dirs);
    assert_eq!(folded.len(), 3, "只剩最外层：C:\\a、C:\\ee、C:\\a2");
    folded.sort();
    let mut outermost: Vec<(String, usize)> = dirs
        .iter()
        .filter(|d| match d.rfind('\\') {
            Some(i) => !dirs.iter().any(|x| x == &d[..i]),
            None => true,
        })
        .map(|d| {
            let below = format!("{d}\\");
            (d.clone(), dirs.iter().filter(|x| x.starts_with(&below)).count())
        })
        .collect();
    outermost.sort();
    assert_eq!(folded, outermost, "折叠结果与旧口径不一致");
    let nested_of = |t: &str| -> usize {
        fold_empty_dirs(&dirs).iter().find(|(p, _)| p == t).map(|(_, n)| *n).unwrap()
    };
    assert_eq!(nested_of(r"C:\a"), 3, "a 下连带 b、b\\c、d 三个空目录");
    assert_eq!(nested_of(r"C:\ee"), 0);
    assert_eq!(nested_of(r"C:\a2"), 0);
}

#[test]
fn fold_empty_dirs_keeps_orphans_as_their_own_representative() {
    let dirs: Vec<String> = [r"C:\x\y\z", r"C:\x\y"].iter().map(|s| s.to_string()).collect();
    let folded = fold_empty_dirs(&dirs);
    assert_eq!(folded.len(), 1, "只有最外层 C:\\x\\y 出结果");
    assert_eq!(folded[0].0, r"C:\x\y");
    assert_eq!(folded[0].1, 1);
}

#[test]
fn empty_accum_caps_globally_and_reports_truncation() {
    let mut out = Vec::new();
    let mut acc = EmptyAccum::with_cap(3);
    assert!(acc.room(&mut out));
    assert!(acc.room(&mut out));
    assert!(acc.room(&mut out));
    assert!(!acc.room(&mut out), "到上限后不再收条目");
    assert!(acc.stopped(), "满了要置位 truncated");
    assert!(!acc.room(&mut out), "已截断后直接拒绝，不再刷告警");
    assert_eq!(warns(&out), 1, "截断只告警一次");
}

#[test]
fn folded_directories_add_up() {
    let dirs: Vec<String> = ["C:\\a", "C:\\a\\b", "C:\\a\\b\\c", "C:\\d", "C:\\e\\f", "C:\\e\\f\\g"]
        .map(String::from)
        .to_vec();
    let folded = fold_empty_dirs(&dirs);
    assert_eq!(folded.iter().map(|(_, n)| n + 1).sum::<usize>(), dirs.len());
    assert!(folded.len() < dirs.len());
}
