//! What the finder scans report: items, progress, heartbeats and warnings.

use crate::json::{escaped, json_escape};
use crate::text::{cap64, chars_of, dec, decimal, replace_char, replaced, starts_with, string_of};
use vstd::prelude::*;

verus! {

/// Something a scan reports. An item carries the path it is about beside the
/// line that shows it.
#[derive(Debug)]
pub enum Event {
    Item { path: String, line: String },
    Progress(u64),
    Scanned(u64),
    Warn(String),
    Truncated,
}

/// The mathematical value of a report.
pub enum EventV {
    Item { path: Seq<char>, line: Seq<char> },
    Progress(u64),
    Scanned(u64),
    Warn(Seq<char>),
    Truncated,
}

impl Event {
    pub open spec fn view(self) -> EventV {
        match self {
            Event::Item { path, line } => EventV::Item { path: path@, line: line@ },
            Event::Progress(n) => EventV::Progress(n),
            Event::Scanned(n) => EventV::Scanned(n),
            Event::Warn(m) => EventV::Warn(m@),
            Event::Truncated => EventV::Truncated,
        }
    }
}

/// The values of a sequence of reports.
pub open spec fn events(v: Seq<Event>) -> Seq<EventV> {
    Seq::new(v.len(), |i: int| v[i].view())
}

pub proof fn lemma_events_push(v: Seq<Event>, e: Event)
    ensures
        events(v.push(e)) == events(v).push(e.view()),
        events(v.push(e)) == events(v) + seq![e.view()],
{
    assert(events(v.push(e)) =~= events(v).push(e.view()));
    assert(events(v.push(e)) =~= events(v) + seq![e.view()]);
}

/// A path as it is shown: without the long path prefix, with forward slashes.
pub open spec fn shown(p: Seq<char>) -> Seq<char> {
    if "\\\\?\\"@.is_prefix_of(p) {
        replaced(p.skip(4), '\\', '/')
    } else {
        replaced(p, '\\', '/')
    }
}

/// A path as it is shown.
pub fn unix_path(p: &str) -> (out: String)
    ensures
        out@ == shown(p@),
{
    if starts_with(p, "\\\\?\\") {
        proof {
            reveal_strlit("\\\\?\\");
        }
        let a: Vec<char> = chars_of(p);
        assert(a@.subrange(4, a@.len() as int) =~= p@.skip(4));
        let rest: String = string_of(&a, 4, a.len());
        replace_char(rest.as_str(), '\\', '/')
    } else {
        replace_char(p, '\\', '/')
    }
}

/// One further member of a reported item.
pub open spec fn extra_text(k: Seq<char>, v: Seq<char>) -> Seq<char> {
    ",\""@ + k + "\":\""@ + escaped(v) + "\""@
}

/// The first `n` further members of a reported item.
pub open spec fn extras_text(extra: Seq<(Seq<char>, Seq<char>)>, n: int) -> Seq<char>
    decreases n,
{
    if n <= 0 {
        Seq::empty()
    } else {
        extras_text(extra, n - 1) + extra_text(extra[n - 1].0, extra[n - 1].1)
    }
}

/// The line of a reported item.
pub open spec fn item_text(
    kind: Seq<char>,
    path: Seq<char>,
    size: nat,
    extra: Seq<(Seq<char>, Seq<char>)>,
) -> Seq<char> {
    "@@ITEM@@{\"type\":\""@ + kind + "\",\"path\":\""@ + escaped(shown(path)) + "\",\"size\":"@ + dec(
        size,
    ) + extras_text(extra, extra.len() as int) + "}\n"@
}

/// The report of an item.
pub open spec fn item_event(
    kind: Seq<char>,
    path: Seq<char>,
    size: nat,
    extra: Seq<(Seq<char>, Seq<char>)>,
) -> EventV {
    EventV::Item { path, line: item_text(kind, path, size, extra) }
}

/// The names and values of a list of further members.
pub open spec fn extra_pairs(v: Seq<(&str, String)>) -> Seq<(Seq<char>, Seq<char>)> {
    Seq::new(v.len(), |i: int| (v[i].0@, v[i].1@))
}

/// The report of an item.
pub fn item(kind: &str, path: &str, size: u64, extra: &Vec<(&str, String)>) -> (out: Event)
    ensures
        out.view() == item_event(kind@, path@, size as nat, extra_pairs(extra@)),
{
    let mut s: String = "@@ITEM@@{\"type\":\"".to_owned();
    s.append(kind);
    s.append("\",\"path\":\"");
    s.append(json_escape(unix_path(path).as_str()).as_str());
    s.append("\",\"size\":");
    s.append(decimal(size).as_str());
    let ghost head = s@;
    let mut i: usize = 0;
    assert(head + extras_text(extra_pairs(extra@), 0) =~= head);
    while i < extra.len()
        invariant
            i <= extra@.len(),
            s@ == head + extras_text(extra_pairs(extra@), i as int),
        decreases extra@.len() - i,
    {
        s.append(",\"");
        s.append(extra[i].0);
        s.append("\":\"");
        s.append(json_escape(extra[i].1.as_str()).as_str());
        s.append("\"");
        i += 1;
        assert(s@ =~= head + extras_text(extra_pairs(extra@), i as int));
    }
    s.append("}\n");
    Event::Item { path: path.to_owned(), line: s }
}

/// The report of an item without further members.
pub fn plain_item(kind: &str, path: &str, size: u64) -> (out: Event)
    ensures
        out.view() == item_event(kind@, path@, size as nat, Seq::empty()),
{
    let none: Vec<(&str, String)> = Vec::new();
    assert(extra_pairs(none@) =~= Seq::empty());
    item(kind, path, size, &none)
}

/// The report of an item with one further member.
pub fn item_with(kind: &str, path: &str, size: u64, key: &str, value: String) -> (out: Event)
    ensures
        out.view() == item_event(kind@, path@, size as nat, seq![(key@, value@)]),
{
    let mut one: Vec<(&str, String)> = Vec::new();
    one.push((key, value));
    assert(extra_pairs(one@) =~= seq![(key@, value@)]);
    item(kind, path, size, &one)
}

/// The report of how far a scan has come, in hundredths.
pub fn progress(n: u64) -> (out: Event)
    ensures
        out.view() == EventV::Progress(
            if n < 100 {
                n
            } else {
                100
            },
        ),
{
    Event::Progress(
        if n < 100 {
            n
        } else {
            100
        },
    )
}

/// How many files lie between two heartbeats.
pub const HEARTBEAT_EVERY: u64 = 8192;

/// The heartbeat due when a count grows by `n`: one where the count passes a
/// multiple of the interval.
pub open spec fn heartbeat(count: u64, n: u64) -> Seq<EventV> {
    let next = cap64((count + n) as nat);
    if n != 0 && count / HEARTBEAT_EVERY != next / (HEARTBEAT_EVERY as nat) {
        seq![EventV::Scanned(next as u64)]
    } else {
        Seq::empty()
    }
}

/// Adds to a count, and reports a heartbeat where one is due.
pub fn bump_scanned(counter: &mut u64, n: u64, out: &mut Vec<Event>)
    ensures
        *final(counter) == cap64((*old(counter) + n) as nat),
        events(final(out)@) == events(old(out)@) + heartbeat(*old(counter), n),
{
    assert(events(out@) + Seq::<EventV>::empty() =~= events(out@));
    if n == 0 {
        return ;
    }
    let prev: u64 = *counter;
    let next: u64 = prev.saturating_add(n);
    *counter = next;
    if prev / HEARTBEAT_EVERY != next / HEARTBEAT_EVERY {
        proof {
            lemma_events_push(out@, Event::Scanned(next));
        }
        out.push(Event::Scanned(next));
    }
}

} // verus!
