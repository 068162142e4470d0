//! What was measured before: which records are kept, and for how long.

use crate::clock::{is_moment, iso_now};
use crate::commands::reply::{done, finish, granted, grant, refuse, refused};
use crate::json::{member, text_member, values, Json, JsonV};
use crate::text::{cat3, chars_of, dec, decimal, same};
use crate::value::{
    copy_items, copy_json, finite_number, finite_of, jarray, json_in, jtext, lemma_values_push, read_json, Fields,
};
use vstd::prelude::*;

verus! {

/// How many records are kept.
pub const MAX_HISTORY: usize = 50;

/// How long a path may be, in units of UTF-16.
pub const MAX_PATH_LEN: u64 = 1024;

/// How many of the members of a record are numbers.
pub const FIELD_COUNT: usize = 10;

// ----------------------------------------------------------------------------- the records

/// The members of a record that are numbers.
pub open spec fn field_name(i: int) -> Seq<char> {
    if i == 0 {
        "blockSize"@
    } else if i == 1 {
        "queueDepth"@
    } else if i == 2 {
        "threads"@
    } else if i == 3 {
        "duration"@
    } else if i == 4 {
        "sequentialRead"@
    } else if i == 5 {
        "sequentialWrite"@
    } else if i == 6 {
        "randomRead"@
    } else if i == 7 {
        "randomWrite"@
    } else if i == 8 {
        "iops"@
    } else {
        "latency"@
    }
}

fn field(i: usize) -> (out: &'static str)
    ensures
        out@ == field_name(i as int),
{
    if i == 0 {
        "blockSize"
    } else if i == 1 {
        "queueDepth"
    } else if i == 2 {
        "threads"
    } else if i == 3 {
        "duration"
    } else if i == 4 {
        "sequentialRead"
    } else if i == 5 {
        "sequentialWrite"
    } else if i == 6 {
        "randomRead"
    } else if i == 7 {
        "randomWrite"
    } else if i == 8 {
        "iops"
    } else {
        "latency"
    }
}

/// Whether a member of a record is not there.
pub open spec fn absent(v: Option<JsonV>) -> bool {
    v is None || v == Some(JsonV::Null)
}

/// Whether a value is a finite number.
pub open spec fn is_finite(v: Option<JsonV>) -> bool {
    (v matches Some(j) && j is Num) && finite_of(v) is Some
}

/// The numbers among the first `n` members of a record; otherwise which of them is none.
pub open spec fn numbers_of(r: JsonV, n: int) -> Result<Seq<(Seq<char>, JsonV)>, Seq<char>>
    decreases n,
{
    if n <= 0 {
        Ok(Seq::empty())
    } else {
        match numbers_of(r, n - 1) {
            Err(e) => Err(e),
            Ok(before) => {
                let k = field_name(n - 1);
                let v = member(r, k);
                if absent(v) {
                    Ok(before)
                } else if is_finite(v) {
                    Ok(before.push((k, v->0)))
                } else {
                    Err("字段 "@ + k + " 必须为有限数值"@)
                }
            },
        }
    }
}

/// How many units of UTF-16 the first `n` characters take.
pub open spec fn units(s: Seq<char>, n: int) -> int
    decreases n,
{
    if n <= 0 {
        0
    } else {
        units(s, n - 1) + if s[n - 1] as u32 >= 0x10000 {
            2int
        } else {
            1int
        }
    }
}

proof fn lemma_units_grow(s: Seq<char>, a: int, b: int)
    requires
        0 <= a <= b,
    ensures
        units(s, a) <= units(s, b),
    decreases b - a,
{
    if a < b {
        lemma_units_grow(s, a, b - 1);
    }
}

/// Whether a text is short enough for a path.
pub open spec fn is_short(s: Seq<char>) -> bool {
    units(s, s.len() as int) <= MAX_PATH_LEN
}

fn short(s: &str) -> (out: bool)
    ensures
        out == is_short(s@),
{
    let a: Vec<char> = chars_of(s);
    let mut n: u64 = 0;
    let mut i: usize = 0;
    while i < a.len()
        invariant
            i <= a@.len(),
            a@ == s@,
            n == units(s@, i as int),
            n <= MAX_PATH_LEN,
        decreases a@.len() - i,
    {
        let w: u64 = if a[i] as u32 >= 0x10000 {
            2
        } else {
            1
        };
        n = n + w;
        i += 1;
        if n > MAX_PATH_LEN {
            proof {
                lemma_units_grow(s@, i as int, s@.len() as int);
            }
            return false;
        }
    }
    true
}

/// Whether numbers hold a result.
pub open spec fn has_result(r: JsonV) -> bool {
    !absent(member(r, "sequentialRead"@)) || !absent(member(r, "sequentialWrite"@))
}

/// What of a record is kept; otherwise why nothing is.
pub open spec fn clean_record(r: Option<JsonV>) -> Result<Seq<(Seq<char>, JsonV)>, Seq<char>> {
    match r {
        Some(JsonV::Obj(m)) => {
            let r = JsonV::Obj(m);
            match numbers_of(r, FIELD_COUNT as int) {
                Err(e) => Err(e),
                Ok(numbers) => match member(r, "path"@) {
                    Some(p) => if p is Str && is_short(p->Str_0) {
                        with_engine(r, numbers.push(("path"@, p)))
                    } else {
                        Err("路径字段不合法"@)
                    },
                    None => with_engine(r, numbers),
                },
            }
        },
        _ => Err("记录格式不合法"@),
    }
}

/// What of a record is kept, after its path.
pub open spec fn with_engine(r: JsonV, kept: Seq<(Seq<char>, JsonV)>) -> Result<
    Seq<(Seq<char>, JsonV)>,
    Seq<char>,
> {
    let engine = member(r, "engine"@);
    if engine is Some && engine != Some(JsonV::Str("rust"@)) && engine != Some(
        JsonV::Str("powershell"@),
    ) {
        Err("引擎标识不合法"@)
    } else if !has_result(r) {
        Err("缺少测速结果数值"@)
    } else {
        Ok(
            if engine is Some {
                kept.push(("engine"@, engine->0))
            } else {
                kept
            },
        )
    }
}

fn is_absent(v: Option<&Json>) -> (out: bool)
    ensures
        out == absent(
            match v {
                Some(j) => Some(j.view()),
                None => None,
            },
        ),
{
    match v {
        Some(Json::Null) => true,
        Some(_) => false,
        None => true,
    }
}

fn clean_numbers(r: &Json, kept: Fields) -> (out: Result<Fields, String>)
    requires
        kept.view() == Seq::<(Seq<char>, JsonV)>::empty(),
    ensures
        match out {
            Ok(f) => numbers_of(r.view(), FIELD_COUNT as int) == Ok::<
                Seq<(Seq<char>, JsonV)>,
                Seq<char>,
            >(f.view()),
            Err(m) => numbers_of(r.view(), FIELD_COUNT as int) == Err::<
                Seq<(Seq<char>, JsonV)>,
                Seq<char>,
            >(m@),
        },
{
    let mut kept: Fields = kept;
    let mut i: usize = 0;
    while i < FIELD_COUNT
        invariant
            i <= FIELD_COUNT,
            numbers_of(r.view(), i as int) == Ok::<Seq<(Seq<char>, JsonV)>, Seq<char>>(kept.view()),
        decreases FIELD_COUNT - i,
    {
        let k: &'static str = field(i);
        let v: Option<&Json> = r.get(k);
        if !is_absent(v) {
            let mut finite: bool = false;
            if let Some(Json::Num(_)) = v {
                finite = finite_number(v).is_some();
            }
            if finite {
                if let Some(j) = v {
                    kept = kept.with(k, copy_json(j));
                }
            } else {
                let m: String = cat3("字段 ", k, " 必须为有限数值");
                proof {
                    lemma_wrong_number(r.view(), i as int, FIELD_COUNT as int);
                }
                return Err(m);
            }
        }
        i += 1;
    }
    Ok(kept)
}

proof fn lemma_wrong_number(r: JsonV, i: int, n: int)
    requires
        0 <= i < n,
        numbers_of(r, i) is Ok,
        !absent(member(r, field_name(i))),
        !is_finite(member(r, field_name(i))),
    ensures
        numbers_of(r, n) == Err::<Seq<(Seq<char>, JsonV)>, Seq<char>>(
            "字段 "@ + field_name(i) + " 必须为有限数值"@,
        ),
    decreases n - i,
{
    if n > i + 1 {
        lemma_wrong_number(r, i, n - 1);
    }
}

/// What of a record is kept; otherwise why nothing is.
pub fn check_record(record: Option<&Json>) -> (out: Result<Fields, String>)
    ensures
        ({
            let r = clean_record(
                match record {
                    Some(j) => Some(j.view()),
                    None => None,
                },
            );
            match out {
                Ok(f) => r == Ok::<Seq<(Seq<char>, JsonV)>, Seq<char>>(f.view()),
                Err(m) => r == Err::<Seq<(Seq<char>, JsonV)>, Seq<char>>(m@),
            }
        }),
{
    let r: &Json = match record {
        Some(j) => j,
        None => {
            return Err("记录格式不合法".to_owned());
        },
    };
    match r {
        Json::Obj(_) => {},
        _ => {
            return Err("记录格式不合法".to_owned());
        },
    }
    assert(r.view() is Obj);
    let none: Fields = Fields::new();
    assert(none.view() =~= Seq::<(Seq<char>, JsonV)>::empty());
    let numbers: Fields = match clean_numbers(r, none) {
        Ok(f) => f,
        Err(m) => {
            return Err(m);
        },
    };
    let kept: Fields = match r.get("path") {
        Some(p) => {
            let ok: bool = match p.as_str() {
                Some(s) => short(s),
                None => false,
            };
            if !ok {
                return Err("路径字段不合法".to_owned());
            }
            numbers.with("path", copy_json(p))
        },
        None => numbers,
    };
    let result: bool = !is_absent(r.get("sequentialRead")) || !is_absent(
        r.get("sequentialWrite"),
    );
    match r.get("engine") {
        Some(e) => {
            let known: bool = match e.as_str() {
                Some(s) => same(s, "rust") || same(s, "powershell"),
                None => false,
            };
            if !known {
                return Err("引擎标识不合法".to_owned());
            }
            if !result {
                return Err("缺少测速结果数值".to_owned());
            }
            Ok(kept.with("engine", copy_json(e)))
        },
        None => {
            if !result {
                return Err("缺少测速结果数值".to_owned());
            }
            Ok(kept)
        },
    }
}

// ----------------------------------------------------------------------------- the history

/// The records in a file: none where it cannot be read or holds no list.
pub open spec fn records_in(text: Option<Seq<char>>) -> Seq<JsonV> {
    match text {
        Some(t) => match json_in(t) {
            Some(JsonV::Arr(l)) => l,
            _ => Seq::empty(),
        },
        None => Seq::empty(),
    }
}

/// The records in a file: none where it cannot be read or holds no list.
pub fn load_bench_history(text: Option<&str>) -> (out: Vec<Json>)
    ensures
        values(out@) == records_in(
            match text {
                Some(t) => Some(t@),
                None => None,
            },
        ),
{
    if let Some(t) = text {
        if let Some(d) = read_json(t) {
            if let Some(l) = d.as_arr() {
                return copy_items(l);
            }
        }
    }
    let none: Vec<Json> = Vec::new();
    assert(values(none@) =~= Seq::empty());
    none
}

/// The records that are kept of a list: the first ones.
pub open spec fn kept_records(l: Seq<JsonV>) -> Seq<JsonV> {
    if l.len() > MAX_HISTORY {
        l.take(MAX_HISTORY as int)
    } else {
        l
    }
}

/// A record with its name and its moment.
pub open spec fn history_entry(
    id: Seq<char>,
    moment: Seq<char>,
    kept: Seq<(Seq<char>, JsonV)>,
) -> JsonV {
    JsonV::Obj(seq![("id"@, JsonV::Str(id)), ("timestamp"@, JsonV::Str(moment))] + kept)
}

/// The history with one more record in front.
pub open spec fn history_with(before: Seq<JsonV>, entry: JsonV) -> Seq<JsonV> {
    kept_records(seq![entry] + before)
}

fn first_records(list: Vec<Json>) -> (out: Vec<Json>)
    ensures
        values(out@) == kept_records(values(list@)),
{
    let mut list: Vec<Json> = list;
    let ghost before = list@;
    if list.len() > MAX_HISTORY {
        list.truncate(MAX_HISTORY);
        assert(values(list@) =~= values(before).take(MAX_HISTORY as int));
    }
    list
}

/// What is written and answered when a record is put down at a moment, in thousandths of a
/// second from the start of 1970; there is nothing to write where the record is refused.
pub fn add_record(record: Option<&Json>, before: Vec<Json>, id: &str, now_ms: u64) -> (out: (
    Option<Vec<Json>>,
    Json,
))
    ensures
        match clean_record(
            match record {
                Some(j) => Some(j.view()),
                None => None,
            },
        ) {
            Err(m) => out.0 is None && out.1.view() == refused(m),
            Ok(kept) => out.1.view() == done() && match out.0 {
                Some(l) => exists|t: Seq<char>| #[trigger]
                    is_moment(t, now_ms as int) && values(l@) == history_with(
                        values(before@),
                        history_entry(id@, t, kept),
                    ),
                None => false,
            },
        },
{
    let kept: Fields = match check_record(record) {
        Ok(f) => f,
        Err(m) => {
            return (None, refuse(m.as_str()));
        },
    };
    let t: String = iso_now(now_ms);
    let ghost kv = kept.view();
    let mut f: Fields = Fields::new().with("id", jtext(id)).with("timestamp", jtext(t.as_str()));
    let ghost head = seq![("id"@, JsonV::Str(id@)), ("timestamp"@, JsonV::Str(t@))];
    assert(f.view() =~= head);
    let mut i: usize = 0;
    while i < kept.list.len()
        invariant
            i <= kept.list@.len(),
            kv == kept.view(),
            kv.len() == kept.list@.len(),
            f.view() == head + kv.take(i as int),
        decreases kept.list@.len() - i,
    {
        assert(kv[i as int] == (kept.list@[i as int].0@, kept.list@[i as int].1.view()));
        f = f.with(kept.list[i].0.as_str(), copy_json(&kept.list[i].1));
        i += 1;
        assert(f.view() =~= head + kv.take(i as int));
    }
    assert(kv.take(kv.len() as int) =~= kv);
    let ghost entry = history_entry(id@, t@, kv);
    let mut list: Vec<Json> = before;
    let ghost bv = values(before@);
    let e: Json = f.object();
    assert(e.view() == entry);
    list.insert(0, e);
    assert(values(list@) =~= seq![entry] + bv);
    let out: Vec<Json> = first_records(list);
    assert(is_moment(t@, now_ms as int));
    (Some(out), finish())
}

/// The records before the first `n` without the ones of a name.
pub open spec fn records_without(l: Seq<JsonV>, id: Seq<char>, n: int) -> Seq<JsonV>
    decreases n,
{
    if n <= 0 {
        Seq::empty()
    } else if text_member(l[n - 1], "id"@) == Some(id) {
        records_without(l, id, n - 1)
    } else {
        records_without(l, id, n - 1).push(l[n - 1])
    }
}

/// The history without the records of a name.
pub open spec fn history_without(before: Seq<JsonV>, id: Seq<char>) -> Seq<JsonV> {
    kept_records(records_without(before, id, before.len() as int))
}

/// The history without the records of a name.
pub fn drop_record(before: &Vec<Json>, id: &str) -> (out: Vec<Json>)
    ensures
        values(out@) == history_without(values(before@), id@),
{
    let ghost bv = values(before@);
    assert(bv.len() == before@.len());
    let mut left: Vec<Json> = Vec::new();
    assert(values(left@) =~= Seq::empty());
    let mut i: usize = 0;
    while i < before.len()
        invariant
            i <= before@.len(),
            bv == values(before@),
            bv.len() == before@.len(),
            values(left@) == records_without(bv, id@, i as int),
        decreases before@.len() - i,
    {
        assert(bv[i as int] == before@[i as int].view());
        let named: bool = match before[i].text("id") {
            Some(t) => same(t, id),
            None => false,
        };
        if !named {
            let c: Json = copy_json(&before[i]);
            proof {
                lemma_values_push(left@, c);
            }
            left.push(c);
        }
        i += 1;
    }
    first_records(left)
}

/// The reply to a question for the history: no more than are kept, the newest first.
pub fn list_reply(records: Vec<Json>) -> (out: Json)
    ensures
        out.view() == granted(JsonV::Arr(kept_records(values(records@)))),
{
    grant(jarray(first_records(records)))
}

// -------------------------------------------------------------------------------- the name

/// A number stirred by another.
pub open spec fn stirred(nanos: u64, seq: u64) -> u64 {
    let a = (nanos ^ seq.wrapping_mul(0x9E37_79B9_7F4A_7C15)).wrapping_add(0x9E37_79B9_7F4A_7C15);
    let b = (a ^ (a >> 30u64)).wrapping_mul(0xBF58_476D_1CE4_E5B9);
    let c = (b ^ (b >> 27u64)).wrapping_mul(0x94D0_49BB_1331_11EB);
    c ^ (c >> 31u64)
}

/// A digit of a number to the base of thirty-six.
pub open spec fn digit36(d: nat) -> char {
    if d < 10 {
        (48 + d) as char
    } else {
        (87 + d) as char
    }
}

/// The last `n` digits of a number to the base of thirty-six, the last one first.
pub open spec fn low_digits(v: nat, n: nat) -> Seq<char>
    decreases n,
{
    if n == 0 {
        Seq::empty()
    } else {
        seq![digit36(v % 36)] + low_digits(v / 36, (n - 1) as nat)
    }
}

/// The name of a record: the moment, and six digits that tell records of one moment apart.
pub open spec fn record_id(now_ms: u64, nanos: u64, seq: u64) -> Seq<char> {
    dec(now_ms as nat) + "_"@ + low_digits(stirred(nanos, seq) as nat, 6)
}

/// The name of a record that is put down at a moment, `seq` the number of those before.
pub fn new_record_id(now_ms: u64, nanos: u64, seq: u64) -> (out: String)
    ensures
        out@ == record_id(now_ms, nanos, seq),
{
    let a: u64 = (nanos ^ seq.wrapping_mul(0x9E37_79B9_7F4A_7C15)).wrapping_add(
        0x9E37_79B9_7F4A_7C15,
    );
    let b: u64 = (a ^ (a >> 30u64)).wrapping_mul(0xBF58_476D_1CE4_E5B9);
    let c: u64 = (b ^ (b >> 27u64)).wrapping_mul(0x94D0_49BB_1331_11EB);
    let x: u64 = c ^ (c >> 31u64);
    let mut suffix: String = String::new();
    assert(suffix@ =~= Seq::empty());
    let mut v: u64 = x;
    let mut i: usize = 0;
    assert(suffix@ + low_digits(v as nat, 6) =~= low_digits(x as nat, 6));
    while i < 6
        invariant
            i <= 6,
            suffix@ + low_digits(v as nat, (6 - i) as nat) == low_digits(x as nat, 6),
        decreases 6 - i,
    {
        let d: u8 = (v % 36) as u8;
        let ghost before = suffix@;
        let ghost rest = low_digits((v / 36) as nat, (5 - i) as nat);
        if d < 10 {
            suffix.push((48 + d) as char);
        } else {
            suffix.push((87 + d) as char);
        }
        assert(suffix@ == before.push(digit36((v % 36) as nat)));
        assert(low_digits(v as nat, (6 - i) as nat) == seq![digit36((v % 36) as nat)] + rest);
        assert(suffix@ + rest =~= before + (seq![digit36((v % 36) as nat)] + rest));
        v = v / 36;
        i += 1;
    }
    assert(suffix@ =~= suffix@ + low_digits(v as nat, 0));
    let m: String = decimal(now_ms);
    cat3(m.as_str(), "_", suffix.as_str())
}

// ------------------------------------------------------------------------------------ laws

/// The history never holds more than the limit.
pub proof fn law_history_limit(before: Seq<JsonV>, entry: JsonV, id: Seq<char>)
    ensures
        history_with(before, entry).len() <= MAX_HISTORY,
        history_without(before, id).len() <= MAX_HISTORY,
{
}

/// The newest record stands first, and the others follow in their order.
pub proof fn law_newest_first(before: Seq<JsonV>, entry: JsonV)
    ensures
        history_with(before, entry)[0] == entry,
        forall|i: int|
            0 < i < history_with(before, entry).len() ==> #[trigger] history_with(
                before,
                entry,
            )[i] == before[i - 1],
{
}

/// A record that is dropped is gone, and every other one of a history stays.
pub proof fn law_dropped_is_gone(before: Seq<JsonV>, id: Seq<char>)
    requires
        before.len() <= MAX_HISTORY,
    ensures
        forall|r: JsonV| #[trigger]
            history_without(before, id).contains(r) <==> before.contains(r) && text_member(
                r,
                "id"@,
            ) != Some(id),
{
    lemma_without(before, id, before.len() as int);
    assert(before.take(before.len() as int) =~= before);
}

proof fn lemma_without(l: Seq<JsonV>, id: Seq<char>, n: int)
    requires
        0 <= n <= l.len(),
    ensures
        records_without(l, id, n).len() <= n,
        forall|r: JsonV| #[trigger]
            records_without(l, id, n).contains(r) <==> l.take(n).contains(r) && text_member(
                r,
                "id"@,
            ) != Some(id),
    decreases n,
{
    if n > 0 {
        lemma_without(l, id, n - 1);
        let a = records_without(l, id, n - 1);
        let b = records_without(l, id, n);
        assert(l.take(n) =~= l.take(n - 1).push(l[n - 1]));
        assert forall|r: JsonV| #[trigger] b.contains(r) implies l.take(n).contains(r)
            && text_member(r, "id"@) != Some(id) by {
            let k = choose|k: int| 0 <= k < b.len() && b[k] == r;
            if k < a.len() {
                assert(a[k] == r);
                assert(a.contains(r));
                let j = choose|j: int| 0 <= j < n - 1 && #[trigger] l.take(n - 1)[j] == r;
                assert(l.take(n)[j] == r);
            } else {
                assert(l.take(n)[n - 1] == r);
            }
        }
        assert forall|r: JsonV|
            l.take(n).contains(r) && text_member(r, "id"@) != Some(id) implies #[trigger] b.contains(
            r,
        ) by {
            let k = choose|k: int| 0 <= k < l.take(n).len() && l.take(n)[k] == r;
            if k < n - 1 {
                assert(l.take(n - 1)[k] == r);
                assert(a.contains(r));
                let j = choose|j: int| 0 <= j < a.len() && a[j] == r;
                assert(b[j] == r);
            } else {
                assert(b[b.len() - 1] == r);
            }
        }
    } else {
        assert(l.take(0).len() == 0);
    }
}

/// What is put down has a result.
pub proof fn law_record_has_result(r: JsonV)
    requires
        clean_record(Some(r)) is Ok,
    ensures
        has_result(r),
{
}

} // verus!
