//! The cleanup of a disk: what a scan has found, what may be cleaned up, and what is
//! answered.

use crate::cleanup_scan::{run_json, scan_run};
use crate::commands::reply::{complain, complaint, grant, granted, refuse_empty, refused_empty};
use crate::commands::rules::{json_texts, text_values};
use crate::json::{lemma_view_arr, member, text_member, values, Json, JsonV};
use crate::numbers::signed_dec;
use crate::text::{behind, dec, lemma_texts_push, lines, lines_in, same, strip_front, texts};
use crate::value::{
    copy_json, jarray, jcount, jint, json_in, json_out, jtext, js_truthy, lemma_values_push,
    read_json, set_member, truthy, whole_number, whole_of, with_member, write_json, Fields,
};
use crate::world::World;
use vstd::hash_map::StringHashMap;
use vstd::hash_set::StringHashSet;
use vstd::prelude::*;

verus! {

// ------------------------------------------------------------------- what was scanned

/// How many files of one item are kept.
pub const PLAN_CAP_PER_ITEM: usize = 100_000;

/// How many files of all items are kept.
pub const PLAN_CAP_TOTAL: usize = 1_000_000;

/// How long an id may be.
pub const ID_LIMIT: usize = 160;

/// How long a path may be.
pub const PATH_LIMIT: usize = 2000;

/// A file that would be deleted: the id of its item, its path and its size.
pub type PlanRow = (Seq<char>, Seq<char>, int);

/// What a scan has reported so far: the items, the files that would be deleted, and
/// the items of which not all files were kept.
pub ghost struct Scanned {
    pub data: Seq<JsonV>,
    pub rows: Seq<PlanRow>,
    pub truncated: Set<Seq<char>>,
}

/// How many of the first `n` files belong to an item.
pub open spec fn row_count(rows: Seq<PlanRow>, id: Seq<char>, n: int) -> nat
    decreases n,
{
    if n <= 0 {
        0
    } else if rows[n - 1].0 == id {
        row_count(rows, id, n - 1) + 1
    } else {
        row_count(rows, id, n - 1)
    }
}

/// What is known after a file was reported. Files beyond the limits are not kept.
pub open spec fn with_plan(a: Scanned, pf: JsonV) -> Scanned {
    match (text_member(pf, "id"@), text_member(pf, "path"@)) {
        (Some(id), Some(path)) => if id.len() <= ID_LIMIT && path.len() <= PATH_LIMIT {
            if row_count(a.rows, id, a.rows.len() as int) < PLAN_CAP_PER_ITEM {
                Scanned { rows: a.rows.push((id, path, whole_of(member(pf, "size"@)))), ..a }
            } else {
                Scanned { truncated: a.truncated.insert(id), ..a }
            }
        } else {
            a
        },
        _ => a,
    }
}

/// What is known after one more line, and the item that the line reports, if any.
pub open spec fn ingested(a: Scanned, line: Seq<char>) -> (Scanned, Option<JsonV>) {
    match behind(line, "@@PLANFILE@@"@) {
        Some(rest) => if a.rows.len() >= PLAN_CAP_TOTAL {
            (a, None)
        } else {
            match json_in(rest) {
                Some(pf) => (with_plan(a, pf), None),
                None => (a, None),
            }
        },
        None => match behind(line, "@@ITEM@@"@) {
            Some(rest) => match json_in(rest) {
                Some(item) => match member(item, "id"@) {
                    Some(id) => if truthy(id) {
                        (Scanned { data: a.data.push(item), ..a }, Some(item))
                    } else {
                        (a, None)
                    },
                    None => (a, None),
                },
                None => (a, None),
            },
            None => (a, None),
        },
    }
}

/// What is known after the first `n` lines.
pub open spec fn ingested_all(a: Scanned, list: Seq<Seq<char>>, n: int) -> Scanned
    decreases n,
{
    if n <= 0 {
        a
    } else {
        ingested(ingested_all(a, list, n - 1), list[n - 1]).0
    }
}

/// What a window is told of an item: how many are done, of how many.
pub open spec fn progress(done: nat, total: nat, item: JsonV) -> JsonV {
    JsonV::Obj(
        seq![
            ("done"@, JsonV::Num(dec(done))),
            ("total"@, JsonV::Num(dec(total))),
            ("item"@, item),
        ],
    )
}

/// What a window is told while the first `n` lines are taken in: something for each item
/// that a line reports, in the order of the lines.
pub open spec fn progress_of(a: Scanned, list: Seq<Seq<char>>, n: int, total: nat) -> Seq<JsonV>
    decreases n,
{
    if n <= 0 {
        Seq::empty()
    } else {
        let before = progress_of(a, list, n - 1, total);
        let now = ingested(ingested_all(a, list, n - 1), list[n - 1]);
        match now.1 {
            Some(item) => before.push(progress(now.0.data.len(), total, item)),
            None => before,
        }
    }
}

/// A scan that has reported nothing yet.
pub open spec fn nothing_scanned() -> Scanned {
    Scanned { data: Seq::empty(), rows: Seq::empty(), truncated: Set::empty() }
}

/// The values of rows.
pub open spec fn plan_rows(v: Seq<(String, String, i64)>) -> Seq<PlanRow> {
    Seq::new(v.len(), |i: int| (v[i].0@, v[i].1@, v[i].2 as int))
}

/// What a scan has reported so far.
pub struct ScanAccum {
    data: Vec<Json>,
    rows: Vec<(String, String, i64)>,
    counts: StringHashMap<usize>,
    truncated: StringHashSet,
}

impl ScanAccum {
    /// What was reported.
    pub closed spec fn view(self) -> Scanned {
        Scanned {
            data: values(self.data@),
            rows: plan_rows(self.rows@),
            truncated: self.truncated@,
        }
    }

    /// Whether the numbers of files are kept right and within the limits.
    pub closed spec fn wf(self) -> bool {
        &&& self.rows@.len() <= PLAN_CAP_TOTAL
        &&& forall|id: Seq<char>|
            row_count(plan_rows(self.rows@), id, self.rows@.len() as int) == (
            if #[trigger] self.counts@.contains_key(id) {
                self.counts@[id] as nat
            } else {
                0
            })
    }

    /// A scan that has reported nothing yet.
    pub fn new() -> (out: Self)
        ensures
            out.wf(),
            out.view() == nothing_scanned(),
    {
        let out: ScanAccum = ScanAccum {
            data: Vec::new(),
            rows: Vec::new(),
            counts: StringHashMap::new(),
            truncated: StringHashSet::new(),
        };
        assert(values(out.data@) =~= Seq::empty());
        assert(plan_rows(out.rows@) =~= Seq::empty());
        out
    }

    fn keep_plan(&mut self, pf: &Json)
        requires
            old(self).wf(),
            old(self).view().rows.len() < PLAN_CAP_TOTAL,
        ensures
            final(self).wf(),
            final(self).view() == with_plan(old(self).view(), pf.view()),
    {
        let id: &str = match pf.text("id") {
            Some(t) => t,
            None => {
                return ;
            },
        };
        let path: &str = match pf.text("path") {
            Some(t) => t,
            None => {
                return ;
            },
        };
        if id.unicode_len() > ID_LIMIT || path.unicode_len() > PATH_LIMIT {
            return ;
        }
        let had: usize = match self.counts.get(id) {
            Some(n) => *n,
            None => 0,
        };
        let ghost rows = plan_rows(self.rows@);
        assert(had == row_count(rows, id@, rows.len() as int)) by {
            assert(rows.len() == self.rows@.len());
            let known = self.counts@.contains_key(id@);
        }
        if had < PLAN_CAP_PER_ITEM {
            let size: i64 = whole_number(pf.get("size"));
            let ghost counts = self.counts@;
            let ghost n = self.rows@.len() as int;
            self.rows.push((id.to_owned(), path.to_owned(), size));
            self.counts.insert(id.to_owned(), had + 1);
            proof {
                let now = plan_rows(self.rows@);
                assert(now =~= rows.push((id@, path@, size as int)));
                assert forall|x: Seq<char>|
                    row_count(now, x, n + 1) == (if #[trigger] self.counts@.contains_key(x) {
                        self.counts@[x] as nat
                    } else {
                        0
                    }) by {
                    lemma_row_count(rows, now, x, n);
                    let known = counts.contains_key(x);
                }
            }
        } else {
            self.truncated.insert(id.to_owned());
        }
    }

    /// Takes one more line in, and returns the item that it reports, if any.
    pub fn ingest_line(&mut self, line: &str) -> (out: Option<Json>)
        requires
            old(self).wf(),
        ensures
            final(self).wf(),
            final(self).view() == ingested(old(self).view(), line@).0,
            match out {
                Some(v) => ingested(old(self).view(), line@).1 == Some(v.view()),
                None => ingested(old(self).view(), line@).1 is None,
            },
    {
        if let Some(rest) = strip_front(line, "@@PLANFILE@@") {
            assert(self.view().rows.len() == self.rows@.len());
            if self.rows.len() < PLAN_CAP_TOTAL {
                if let Some(pf) = read_json(rest.as_str()) {
                    self.keep_plan(&pf);
                }
            }
            return None;
        }
        let rest: String = match strip_front(line, "@@ITEM@@") {
            Some(r) => r,
            None => {
                return None;
            },
        };
        let item: Json = match read_json(rest.as_str()) {
            Some(j) => j,
            None => {
                return None;
            },
        };
        let counts: bool = match item.get("id") {
            Some(id) => js_truthy(id),
            None => false,
        };
        if !counts {
            return None;
        }
        let kept: Json = copy_json(&item);
        proof {
            lemma_values_push(self.data@, kept);
        }
        self.data.push(kept);
        Some(item)
    }

    /// Takes the lines of a text in, and returns what a window is told of its items, where
    /// so many are asked for.
    pub fn ingest_text(&mut self, text: &str, total: usize) -> (told: Vec<Json>)
        requires
            old(self).wf(),
        ensures
            final(self).wf(),
            values(told@) == progress_of(
                old(self).view(),
                lines_in(text@),
                lines_in(text@).len() as int,
                total as nat,
            ),
            final(self).view() == ingested_all(
                old(self).view(),
                lines_in(text@),
                lines_in(text@).len() as int,
            ),
    {
        let list: Vec<String> = lines(text);
        let ghost start = self.view();
        let ghost lv = lines_in(text@);
        let mut told: Vec<Json> = Vec::new();
        let mut i: usize = 0;
        assert(lv.len() == list@.len());
        assert(values(told@) =~= Seq::empty());
        while i < list.len()
            invariant
                i <= list@.len(),
                lv == texts(list@),
                self.wf(),
                self.view() == ingested_all(start, lv, i as int),
                values(told@) == progress_of(start, lv, i as int, total as nat),
            decreases list@.len() - i,
        {
            assert(lv[i as int] == list@[i as int]@);
            match self.ingest_line(list[i].as_str()) {
                Some(item) => {
                    assert(self.view().data.len() == self.data@.len());
                    let f: Fields = Fields::new().with("done", jcount(self.data.len() as u64)).with(
                        "total",
                        jcount(total as u64),
                    ).with("item", item);
                    assert(JsonV::Obj(f.view()) == progress(
                        self.view().data.len(),
                        total as nat,
                        item.view(),
                    )) by {
                        assert(f.view() =~= seq![
                            ("done"@, JsonV::Num(dec(self.view().data.len()))),
                            ("total"@, JsonV::Num(dec(total as nat))),
                            ("item"@, item.view()),
                        ]);
                    }
                    let v: Json = f.object();
                    proof {
                        lemma_values_push(told@, v);
                    }
                    told.push(v);
                },
                None => {},
            }
            i += 1;
        }
        told
    }

    /// How many items were reported.
    pub fn len(&self) -> (out: usize)
        ensures
            out == self.view().data.len(),
    {
        assert(self.view().data.len() == self.data@.len());
        self.data.len()
    }

    /// The files of an item that would be deleted.
    fn files_of(&self, id: &str) -> (out: Vec<Json>)
        ensures
            values(out@) == item_files(self.view().rows, id@, self.view().rows.len() as int),
    {
        let ghost rv = self.view().rows;
        let mut out: Vec<Json> = Vec::new();
        let mut i: usize = 0;
        assert(values(out@) =~= Seq::empty());
        assert(rv.len() == self.rows@.len());
        while i < self.rows.len()
            invariant
                i <= self.rows@.len(),
                rv == plan_rows(self.rows@),
                values(out@) == item_files(rv, id@, i as int),
            decreases self.rows@.len() - i,
        {
            let r: &(String, String, i64) = &self.rows[i];
            assert(rv[i as int] == (r.0@, r.1@, r.2 as int));
            if same(r.0.as_str(), id) {
                let f: Fields = Fields::new().with("path", jtext(r.1.as_str())).with(
                    "size",
                    jint(r.2),
                );
                assert(f.view() =~= seq![
                    ("path"@, JsonV::Str(r.1@)),
                    ("size"@, JsonV::Num(signed_dec(r.2 as int))),
                ]);
                let v: Json = f.object();
                proof {
                    lemma_values_push(out@, v);
                }
                out.push(v);
            }
            i += 1;
        }
        out
    }

    /// The items with the files that would be deleted for them.
    pub fn items(&self) -> (out: Vec<Json>)
        ensures
            values(out@) == scan_items(self.view()),
    {
        let ghost a = self.view();
        let mut out: Vec<Json> = Vec::new();
        let mut i: usize = 0;
        assert(a.data.len() == self.data@.len());
        while i < self.data.len()
            invariant
                i <= self.data@.len(),
                a == self.view(),
                a.data.len() == self.data@.len(),
                out@.len() == i,
                forall|k: int| 0 <= k < i ==> (#[trigger] out@[k]).view() == scan_items(a)[k],
            decreases self.data@.len() - i,
        {
            assert(a.data[i as int] == self.data@[i as int].view());
            let it: Json = copy_json(&self.data[i]);
            let id: String = match it.text("id") {
                Some(t) => t.to_owned(),
                None => String::new(),
            };
            assert(id@ =~= id_or_empty(it.view()));
            let files: Vec<Json> = self.files_of(id.as_str());
            let it: Json = set_member(it, "files", jarray(files));
            let it: Json = if self.truncated.contains(id.as_str()) {
                set_member(it, "filesTruncated", Json::Bool(true))
            } else {
                it
            };
            assert(it.view() == with_files(a.data[i as int], a));
            out.push(it);
            i += 1;
        }
        assert(values(out@) =~= scan_items(a));
        out
    }
}

proof fn lemma_row_count(a: Seq<PlanRow>, b: Seq<PlanRow>, id: Seq<char>, n: int)
    requires
        0 <= n <= a.len(),
        n <= b.len(),
        forall|i: int| 0 <= i < n ==> (#[trigger] a[i]) == b[i],
    ensures
        row_count(a, id, n) == row_count(b, id, n),
    decreases n,
{
    if n > 0 {
        lemma_row_count(a, b, id, n - 1);
        assert(a[n - 1] == b[n - 1]);
    }
}

/// The id of an item, empty where it is no text.
pub open spec fn id_or_empty(it: JsonV) -> Seq<char> {
    match text_member(it, "id"@) {
        Some(t) => t,
        None => Seq::empty(),
    }
}

/// A file that would be deleted, as a value.
pub open spec fn file_value(r: PlanRow) -> JsonV {
    JsonV::Obj(seq![("path"@, JsonV::Str(r.1)), ("size"@, JsonV::Num(signed_dec(r.2)))])
}

/// The files of an item among the first `n`.
pub open spec fn item_files(rows: Seq<PlanRow>, id: Seq<char>, n: int) -> Seq<JsonV>
    decreases n,
{
    if n <= 0 {
        Seq::empty()
    } else if rows[n - 1].0 == id {
        item_files(rows, id, n - 1).push(file_value(rows[n - 1]))
    } else {
        item_files(rows, id, n - 1)
    }
}

/// An item with the files that would be deleted for it.
pub open spec fn with_files(it: JsonV, a: Scanned) -> JsonV {
    let id = id_or_empty(it);
    let full = with_member(
        it,
        "files"@,
        JsonV::Arr(item_files(a.rows, id, a.rows.len() as int)),
    );
    if a.truncated.contains(id) {
        with_member(full, "filesTruncated"@, JsonV::Bool(true))
    } else {
        full
    }
}

/// The items of a scan with the files that would be deleted for them.
pub open spec fn scan_items(a: Scanned) -> Seq<JsonV> {
    Seq::new(a.data.len(), |i: int| with_files(a.data[i], a))
}

/// The reply to a scan that ended with an exit code.
pub open spec fn scan_reply(code: i32, stderr: Seq<char>, a: Scanned) -> JsonV {
    if code != 0 {
        refused_empty(complaint(stderr, "扫描失败"@))
    } else {
        granted(JsonV::Arr(scan_items(a)))
    }
}

/// The reply to a scan that ended with an exit code.
pub fn finish_scan(code: i32, stderr: &str, a: &ScanAccum) -> (out: Json)
    ensures
        out.view() == scan_reply(code, stderr@, a.view()),
{
    if code != 0 {
        refuse_empty(complain(stderr, "扫描失败").as_str())
    } else {
        grant(jarray(a.items()))
    }
}

/// What the scanner of this library is called with.
pub open spec fn scan_args(cats: Seq<Seq<char>>, configured: JsonV) -> Seq<Seq<char>> {
    seq![json_out(text_values(cats)), json_out(configured)]
}

/// Scans with the scanner of this library: the exit code, what was reported, what was
/// complained about, and what a window is told of the items. Where the exit code is not zero, another scanner has to
/// start over.
pub fn native_scan(cats: &Vec<String>, configured: &Json, rules: &Json, world: &World) -> (out: (
    i32,
    ScanAccum,
    String,
    Vec<Json>,
))
    ensures
        out.1.wf(),
        ({
            let run = scan_run(
                scan_args(texts(cats@), configured.view()),
                json_out(rules.view()),
                *world,
            );
            let list = lines_in(run.1);
            &&& out.0 == run.0
            &&& out.1.view() == ingested_all(nothing_scanned(), list, list.len() as int)
            &&& out.2@ == run.2
            &&& values(out.3@) == progress_of(
                nothing_scanned(),
                list,
                list.len() as int,
                cats@.len(),
            )
        }),
{
    let mut args: Vec<String> = Vec::new();
    args.push(write_json(&json_texts(cats)));
    args.push(write_json(configured));
    assert(texts(args@) =~= scan_args(texts(cats@), configured.view()));
    let (code, stdout, stderr) = run_json(&args, write_json(rules).as_str(), world);
    let mut a: ScanAccum = ScanAccum::new();
    let told: Vec<Json> = a.ingest_text(stdout.as_str(), cats.len());
    (code, a, stderr, told)
}

/// How many categories may be asked for.
pub const CATEGORY_LIMIT: usize = 200;

/// Whether the first `n` values are texts that are not too long.
pub open spec fn short_texts(list: Seq<JsonV>, n: int) -> bool
    decreases n,
{
    n <= 0 || (short_texts(list, n - 1) && (list[n - 1] matches JsonV::Str(t) && t.len()
        <= ID_LIMIT))
}

/// The texts among values.
pub open spec fn texts_of(list: Seq<JsonV>) -> Seq<Seq<char>> {
    Seq::new(list.len(), |i: int| list[i]->Str_0)
}

/// The categories that are asked for, none where the request is not sound.
pub open spec fn categories_in(v: Option<JsonV>) -> Option<Seq<Seq<char>>> {
    match v {
        Some(JsonV::Arr(a)) => if 1 <= a.len() <= CATEGORY_LIMIT && short_texts(
            a,
            a.len() as int,
        ) {
            Some(texts_of(a))
        } else {
            None
        },
        _ => None,
    }
}

/// The categories that are asked for; otherwise the reply.
pub fn scan_categories(categories: &Option<Json>) -> (out: Result<Vec<String>, Json>)
    ensures
        ({
            let asked = categories_in(
                match categories {
                    Some(c) => Some(c.view()),
                    None => None,
                },
            );
            match out {
                Ok(list) => asked == Some(texts(list@)),
                Err(r) => asked is None && r.view() == refused_empty("清理分类参数无效"@),
            }
        }),
{
    let mut out: Vec<String> = Vec::new();
    if let Some(Json::Arr(a)) = categories {
        proof {
            lemma_view_arr(*a);
        }
        let ghost list = values(a@);
        assert(list.len() == a@.len());
        if a.len() == 0 || a.len() > CATEGORY_LIMIT {
            return Err(refuse_empty("清理分类参数无效"));
        }
        let mut fine: bool = true;
        let mut i: usize = 0;
        while i < a.len()
            invariant
                i <= a@.len(),
                list == values(a@),
                fine == short_texts(list, i as int),
                fine ==> texts(out@) == texts_of(list).take(i as int),
            decreases a@.len() - i,
        {
            assert(list[i as int] == a@[i as int].view());
            match a[i].as_str() {
                Some(t) => {
                    if t.unicode_len() > ID_LIMIT {
                        fine = false;
                    }
                    if fine {
                        let s: String = t.to_owned();
                        proof {
                            lemma_texts_push(out@, s);
                        }
                        let ghost before = texts(out@);
                        out.push(s);
                        assert(texts(out@) =~= before.push(t@));
                    }
                },
                None => {
                    fine = false;
                },
            }
            i += 1;
            assert(texts_of(list).take(i as int) =~= texts_of(list).take(i - 1).push(
                texts_of(list)[i - 1],
            ));
        }
        assert(texts_of(list).take(a@.len() as int) =~= texts_of(list));
        if fine {
            return Ok(out);
        }
    }
    Err(refuse_empty("清理分类参数无效"))
}

// ------------------------------------------------------------------------------ laws

/// Whether no more files are kept than the limits allow, for each item and in all.
pub open spec fn within_limits(a: Scanned) -> bool {
    a.rows.len() <= PLAN_CAP_TOTAL && forall|id: Seq<char>| #[trigger]
        row_count(a.rows, id, a.rows.len() as int) <= PLAN_CAP_PER_ITEM
}

/// Whatever a scanner prints, no more files are kept than the limits allow.
pub proof fn law_plan_limits(a: Scanned, line: Seq<char>)
    requires
        within_limits(a),
    ensures
        within_limits(ingested(a, line).0),
{
    let b = ingested(a, line).0;
    assert forall|id: Seq<char>| #[trigger]
        row_count(b.rows, id, b.rows.len() as int) <= PLAN_CAP_PER_ITEM by {
        let had = row_count(a.rows, id, a.rows.len() as int);
        if b.rows.len() > a.rows.len() {
            lemma_row_count(a.rows, b.rows, id, a.rows.len() as int);
        }
    }
}

} // verus!
