//! The finder scans: collecting files under a limit, the largest files, the
//! sizes of directories.

use crate::events::{
    bump_scanned, events, heartbeat, item_event, item_with, lemma_events_push, progress, Event,
    EventV,
};
use crate::order::{order_desc, push_topk, ranked, top};
use crate::text::{cap64, dec, decimal, rows};
use crate::world::{Entry, Kind};
use vstd::prelude::*;

verus! {

/// How many entries one scan keeps.
pub const MAX_SCAN_ENTRIES: usize = 200_000;

/// The entries that one scan has collected from all of its roots. The limit is
/// that of the scan, not of a root.
#[derive(Debug)]
pub struct ScanCtx {
    pub files: Vec<(String, u64)>,
    pub counter: u64,
    pub truncated: bool,
    pub cap: usize,
}

/// The message that the limit was reached.
pub open spec fn limit_text(cap: nat) -> Seq<char> {
    "扫描条目已达上限 "@ + dec(cap) + "，结果被截断"@
}

/// The message that the limit was reached.
pub fn limit_message(cap: usize) -> (out: String)
    ensures
        out@ == limit_text(cap as nat),
{
    let mut m: String = "扫描条目已达上限 ".to_owned();
    m.append(decimal(cap as u64).as_str());
    m.append("，结果被截断");
    m
}

/// The mathematical value of what was collected.
pub ghost struct Collected {
    pub files: Seq<(Seq<char>, u64)>,
    pub counter: u64,
    pub truncated: bool,
    pub cap: nat,
}

/// How many of `n` further entries fit.
pub open spec fn accepted(c: Collected, n: nat) -> nat {
    let room = if c.files.len() < c.cap {
        (c.cap - c.files.len()) as nat
    } else {
        0
    };
    if n > room {
        room
    } else {
        n
    }
}

/// What was collected after a batch: as much of it as fits.
pub open spec fn with_batch(c: Collected, batch: Seq<(Seq<char>, u64)>) -> Collected {
    let n = accepted(c, batch.len());
    Collected {
        files: c.files + batch.take(n as int),
        counter: cap64(c.counter as nat + n) as u64,
        truncated: c.truncated || n < batch.len(),
        cap: c.cap,
    }
}

/// What a batch reports: one warning, the first time that the limit is reached,
/// and a heartbeat where one is due.
pub open spec fn batch_events(c: Collected, n: nat) -> Seq<EventV> {
    let warning = if !c.truncated && accepted(c, n) < n {
        seq![EventV::Warn(limit_text(c.cap))]
    } else {
        Seq::empty()
    };
    warning + heartbeat(c.counter, accepted(c, n) as u64)
}

impl ScanCtx {
    pub open spec fn view(self) -> Collected {
        Collected {
            files: rows(self.files@),
            counter: self.counter,
            truncated: self.truncated,
            cap: self.cap as nat,
        }
    }

    /// Whether the limit is kept.
    pub open spec fn wf(self) -> bool {
        self.files@.len() <= self.cap
    }

    /// An empty collection with the limit of a scan.
    pub fn new() -> (out: Self)
        ensures
            out.wf(),
            out.view() == (Collected {
                files: Seq::empty(),
                counter: 0,
                truncated: false,
                cap: MAX_SCAN_ENTRIES as nat,
            }),
    {
        Self::with_cap(MAX_SCAN_ENTRIES)
    }

    /// An empty collection with the given limit.
    pub fn with_cap(cap: usize) -> (out: Self)
        ensures
            out.wf(),
            out.view() == (Collected {
                files: Seq::empty(),
                counter: 0,
                truncated: false,
                cap: cap as nat,
            }),
    {
        let out = ScanCtx { files: Vec::new(), counter: 0, truncated: false, cap };
        assert(out.view().files =~= Seq::empty());
        out
    }

    /// Takes in as much of a batch as fits, and returns how much that is.
    pub fn add_batch(&mut self, batch: Vec<(String, u64)>, out: &mut Vec<Event>) -> (n: usize)
        requires
            old(self).wf(),
        ensures
            final(self).wf(),
            final(self).view() == with_batch(old(self).view(), rows(batch@)),
            n == accepted(old(self).view(), batch@.len()),
            events(final(out)@) == events(old(out)@) + batch_events(
                old(self).view(),
                batch@.len(),
            ),
    {
        let got: usize = batch.len();
        let room: usize = self.cap - self.files.len();
        let n: usize = if got > room {
            room
        } else {
            got
        };
        let ghost before = rows(self.files@);
        let ghost all = rows(batch@);
        assert(rows(self.files@) =~= before + all.take(0));
        let mut i: usize = 0;
        while i < n
            invariant
                i <= n <= batch@.len(),
                all == rows(batch@),
                rows(self.files@) == before + all.take(i as int),
                self.files@.len() == before.len() + i,
                self.cap == old(self).cap,
                self.counter == old(self).counter,
                self.truncated == old(self).truncated,
            decreases n - i,
        {
            let ghost held = rows(self.files@);
            self.files.push((batch[i].0.clone(), batch[i].1));
            assert(rows(self.files@) =~= held.push(all[i as int]));
            i += 1;
            assert(before + all.take(i as int) =~= (before + all.take(i - 1)).push(all[i - 1]));
        }
        let ghost e0 = events(out@);
        assert(e0 + Seq::<EventV>::empty() =~= e0);
        if got > room {
            if !self.truncated {
                let m: String = limit_message(self.cap);
                proof {
                    lemma_events_push(out@, Event::Warn(m));
                }
                out.push(Event::Warn(m));
            }
            self.truncated = true;
        }
        let ghost e1 = events(out@);
        bump_scanned(&mut self.counter, n as u64, out);
        assert(events(out@) =~= e0 + batch_events(old(self).view(), batch@.len()));
        n
    }

    /// Whether the limit was reached.
    pub fn stopped(&self) -> (out: bool)
        ensures
            out == self.view().truncated,
    {
        self.truncated
    }

    /// Hands the entries over, and reports where some were left out.
    pub fn finish(&mut self, out: &mut Vec<Event>) -> (files: Vec<(String, u64)>)
        requires
            old(self).wf(),
        ensures
            final(self).wf(),
            rows(files@) == old(self).view().files,
            final(self).view() == (Collected { files: Seq::empty(), ..old(self).view() }),
            events(final(out)@) == events(old(out)@) + (if old(self).view().truncated {
                seq![EventV::Truncated]
            } else {
                Seq::empty()
            }),
    {
        let ghost e0 = events(out@);
        assert(e0 + Seq::<EventV>::empty() =~= e0);
        let mut files: Vec<(String, u64)> = Vec::new();
        files.append(&mut self.files);
        assert(files@ =~= old(self).files@);
        assert(self.view().files =~= Seq::empty());
        if self.truncated {
            proof {
                lemma_events_push(out@, Event::Truncated);
            }
            out.push(Event::Truncated);
        }
        files
    }
}

/// However many batches come, from however many roots, no more entries are kept
/// than the limit allows, and once it is reached it stays reached.
pub proof fn law_limit_is_global(c: Collected, batch: Seq<(Seq<char>, u64)>)
    requires
        c.files.len() <= c.cap,
    ensures
        with_batch(c, batch).files.len() <= c.cap,
        c.truncated ==> with_batch(c, batch).truncated,
        with_batch(c, batch).truncated && !c.truncated ==> with_batch(c, batch).files.len() == c.cap,
{
}

/// A limited result is never passed off as a whole one: where anything was left out, the
/// collection says so, and where nothing was, it says no more than before.
pub proof fn law_limited_says_so(c: Collected, batch: Seq<(Seq<char>, u64)>)
    requires
        c.files.len() <= c.cap,
    ensures
        with_batch(c, batch).files.len() < c.files.len() + batch.len() ==> with_batch(
            c,
            batch,
        ).truncated,
        with_batch(c, batch).files == c.files + batch ==> with_batch(c, batch).truncated
            == c.truncated,
{
    assert((c.files + batch).len() == c.files.len() + batch.len());
}

/// Several batches come to the same as one that holds them all.
pub proof fn law_batches_fold(
    c: Collected,
    a: Seq<(Seq<char>, u64)>,
    b: Seq<(Seq<char>, u64)>,
)
    requires
        c.files.len() <= c.cap,
    ensures
        with_batch(with_batch(c, a), b) == with_batch(c, a + b),
{
    let n = accepted(c, a.len());
    let m = accepted(with_batch(c, a), b.len());
    assert(with_batch(with_batch(c, a), b).files =~= with_batch(c, a + b).files);
    assert(accepted(c, (a + b).len()) == n + m);
}

/// What was collected from earlier roots is kept when a later one adds to it.
pub proof fn law_roots_accumulate(c: Collected, batch: Seq<(Seq<char>, u64)>)
    requires
        c.files.len() <= c.cap,
    ensures
        c.files.is_prefix_of(with_batch(c, batch).files),
{
    assert(with_batch(c, batch).files.subrange(0, c.files.len() as int) =~= c.files);
}

// ---------------------------------------------------------------------- walking

/// The files among the first `n` entries that are large enough.
pub open spec fn large_files(entries: Seq<Entry>, n: int, min_size: u64) -> Seq<(Seq<char>, u64)>
    decreases n,
{
    if n <= 0 {
        Seq::empty()
    } else {
        let before = large_files(entries, n - 1, min_size);
        let e = entries[n - 1];
        if e.kind == Kind::File && e.size >= min_size {
            before.push((e.path@, e.size))
        } else {
            before
        }
    }
}

/// The message that a directory could not be listed.
pub open spec fn unreadable_text(e: Entry) -> Seq<char> {
    "read_dir "@ + e.path@ + ": "@ + e.problem@
}

/// The message that a directory could not be listed.
pub fn unreadable(e: &Entry) -> (out: String)
    ensures
        out@ == unreadable_text(*e),
{
    let mut m: String = "read_dir ".to_owned();
    m.append(e.path.as_str());
    m.append(": ");
    m.append(e.problem.as_str());
    m
}

/// What is collected from a directory: its own files first, then those of its
/// subdirectories, and nothing more once the limit is reached.
pub open spec fn walked(c: Collected, ev: Seq<EventV>, dir: Entry, min_size: u64) -> (
    Collected,
    Seq<EventV>,
)
    decreases dir, 0int,
{
    if c.truncated {
        (c, ev)
    } else {
        match dir.children {
            None => (c, ev.push(EventV::Warn(unreadable_text(dir)))),
            Some(list) => {
                let batch = large_files(list@, list@.len() as int, min_size);
                let here = if batch.len() > 0 {
                    (with_batch(c, batch), ev + batch_events(c, batch.len()))
                } else {
                    (c, ev)
                };
                if here.0.truncated {
                    here
                } else {
                    walked_dirs(here.0, here.1, list@, list@.len() as int, min_size)
                }
            },
        }
    }
}

/// What is collected from the directories among the first `n` entries. A reparse
/// point is not entered.
pub open spec fn walked_dirs(
    c: Collected,
    ev: Seq<EventV>,
    entries: Seq<Entry>,
    n: int,
    min_size: u64,
) -> (Collected, Seq<EventV>)
    decreases entries, n,
{
    if n <= 0 || n > entries.len() {
        (c, ev)
    } else {
        let before = walked_dirs(c, ev, entries, n - 1, min_size);
        let e = entries[n - 1];
        if e.kind == Kind::Dir && !e.reparse {
            walked(before.0, before.1, e, min_size)
        } else {
            before
        }
    }
}

/// What a walk reports stands behind what was reported before, and does not depend on it.
pub proof fn lemma_walked_appends(
    c: Collected,
    front: Seq<EventV>,
    ev: Seq<EventV>,
    dir: Entry,
    min_size: u64,
)
    ensures
        walked(c, front + ev, dir, min_size) == (
            walked(c, ev, dir, min_size).0,
            front + walked(c, ev, dir, min_size).1,
        ),
    decreases dir, 0int,
{
    if !c.truncated {
        match dir.children {
            None => {
                let e = EventV::Warn(unreadable_text(dir));
                assert((front + ev).push(e) =~= front + ev.push(e));
            },
            Some(list) => {
                let batch = large_files(list@, list@.len() as int, min_size);
                let more = batch_events(c, batch.len());
                let here = if batch.len() > 0 {
                    (with_batch(c, batch), ev + more)
                } else {
                    (c, ev)
                };
                assert((front + ev) + more =~= front + (ev + more));
                if !here.0.truncated {
                    lemma_walked_dirs_append(
                        here.0,
                        front,
                        here.1,
                        list@,
                        list@.len() as int,
                        min_size,
                    );
                }
            },
        }
    }
}

proof fn lemma_walked_dirs_append(
    c: Collected,
    front: Seq<EventV>,
    ev: Seq<EventV>,
    entries: Seq<Entry>,
    n: int,
    min_size: u64,
)
    ensures
        walked_dirs(c, front + ev, entries, n, min_size) == (
            walked_dirs(c, ev, entries, n, min_size).0,
            front + walked_dirs(c, ev, entries, n, min_size).1,
        ),
    decreases entries, n,
{
    if 0 < n <= entries.len() {
        lemma_walked_dirs_append(c, front, ev, entries, n - 1, min_size);
        let before = walked_dirs(c, ev, entries, n - 1, min_size);
        let e = entries[n - 1];
        if e.kind == Kind::Dir && !e.reparse {
            lemma_walked_appends(before.0, front, before.1, e, min_size);
        }
    }
}

fn collect_large(list: &Vec<Entry>, min_size: u64) -> (out: Vec<(String, u64)>)
    ensures
        rows(out@) == large_files(list@, list@.len() as int, min_size),
{
    let mut out: Vec<(String, u64)> = Vec::new();
    let mut i: usize = 0;
    assert(rows(out@) =~= Seq::empty());
    while i < list.len()
        invariant
            i <= list@.len(),
            rows(out@) == large_files(list@, i as int, min_size),
        decreases list@.len() - i,
    {
        let e: &Entry = &list[i];
        if e.kind == Kind::File && e.size >= min_size {
            let ghost before = rows(out@);
            out.push((e.path.clone(), e.size));
            assert(rows(out@) =~= before.push((e.path@, e.size)));
        }
        i += 1;
    }
    out
}

/// Collects the files of a directory and of everything below it.
pub fn walk_level(dir: &Entry, ctx: &mut ScanCtx, min_size: u64, out: &mut Vec<Event>)
    requires
        old(ctx).wf(),
    ensures
        final(ctx).wf(),
        (final(ctx).view(), events(final(out)@)) == walked(
            old(ctx).view(),
            events(old(out)@),
            *dir,
            min_size,
        ),
    decreases dir,
{
    if ctx.stopped() {
        return ;
    }
    match &dir.children {
        None => {
            let m: String = unreadable(dir);
            proof {
                lemma_events_push(out@, Event::Warn(m));
            }
            out.push(Event::Warn(m));
        },
        Some(list) => {
            let batch: Vec<(String, u64)> = collect_large(list, min_size);
            assert(rows(batch@).len() == batch@.len());
            if batch.len() > 0 {
                let _ = ctx.add_batch(batch, out);
            }
            if ctx.stopped() {
                return ;
            }
            walk_dirs(list, ctx, min_size, out);
        },
    }
}

fn walk_dirs(list: &Vec<Entry>, ctx: &mut ScanCtx, min_size: u64, out: &mut Vec<Event>)
    requires
        old(ctx).wf(),
    ensures
        final(ctx).wf(),
        (final(ctx).view(), events(final(out)@)) == walked_dirs(
            old(ctx).view(),
            events(old(out)@),
            list@,
            list@.len() as int,
            min_size,
        ),
    decreases list,
{
    let mut i: usize = 0;
    while i < list.len()
        invariant
            i <= list@.len(),
            ctx.wf(),
            (ctx.view(), events(out@)) == walked_dirs(
                old(ctx).view(),
                events(old(out)@),
                list@,
                i as int,
                min_size,
            ),
        decreases list@.len() - i,
    {
        if list[i].kind == Kind::Dir && !list[i].reparse {
            walk_level(&list[i], ctx, min_size, out);
        }
        i += 1;
    }
}

// ------------------------------------------------------------------------- sizes

/// The sum of the sizes of the files in an entry: its own where it is a file,
/// those below it where it is a directory that is no reparse point.
pub open spec fn size_of(e: Entry) -> nat
    decreases e, 0int,
{
    match e.kind {
        Kind::File => e.size as nat,
        Kind::Dir => if e.reparse {
            0
        } else {
            match e.children {
                Some(c) => size_in(c@, c@.len() as int),
                None => 0,
            }
        },
        Kind::Other => 0,
    }
}

/// The sum over the first `n` entries of a directory.
pub open spec fn size_in(entries: Seq<Entry>, n: int) -> nat
    decreases entries, n,
{
    if n <= 0 || n > entries.len() {
        0
    } else {
        size_in(entries, n - 1) + size_of(entries[n - 1])
    }
}

/// The sum of the sizes of all files below a directory.
pub open spec fn dir_total(dir: Entry) -> nat {
    match dir.children {
        Some(c) => size_in(c@, c@.len() as int),
        None => 0,
    }
}

fn sum_entries(list: &Vec<Entry>, start: u64) -> (out: u64)
    ensures
        out == cap64(start as nat + size_in(list@, list@.len() as int)),
    decreases list,
{
    let mut total: u64 = start;
    let mut i: usize = 0;
    while i < list.len()
        invariant
            i <= list@.len(),
            total == cap64(start as nat + size_in(list@, i as int)),
        decreases list@.len() - i,
    {
        let e: &Entry = &list[i];
        let ghost more = size_of(*e);
        match e.kind {
            Kind::File => {
                total = total.saturating_add(e.size);
            },
            Kind::Dir => {
                if !e.reparse {
                    match &e.children {
                        Some(c) => {
                            total = sum_entries(c, total);
                        },
                        None => {},
                    }
                }
            },
            Kind::Other => {},
        }
        assert(total == cap64(start as nat + size_in(list@, i as int) + more));
        i += 1;
    }
    total
}

/// The sum of the sizes of all files below a directory.
pub fn dir_size(dir: &Entry) -> (out: u64)
    ensures
        out == cap64(dir_total(*dir)),
{
    match &dir.children {
        Some(c) => sum_entries(c, 0),
        None => 0,
    }
}

/// The directories among the first `n` entries that hold anything, with their
/// sizes. A reparse point is left out.
pub open spec fn sized_dirs(entries: Seq<Entry>, n: int) -> Seq<(Seq<char>, u64)>
    decreases n,
{
    if n <= 0 {
        Seq::empty()
    } else {
        let before = sized_dirs(entries, n - 1);
        let e = entries[n - 1];
        let size = cap64(dir_total(e)) as u64;
        if e.kind == Kind::Dir && !e.reparse && size >= 1 {
            before.push((e.path@, size))
        } else {
            before
        }
    }
}

/// The directories directly below a directory that hold anything.
pub fn child_dir_sizes(root: &Entry) -> (out: Vec<(String, u64)>)
    ensures
        rows(out@) == (match root.children {
            Some(c) => sized_dirs(c@, c@.len() as int),
            None => Seq::empty(),
        }),
{
    let mut out: Vec<(String, u64)> = Vec::new();
    assert(rows(out@) =~= Seq::empty());
    match &root.children {
        None => {},
        Some(list) => {
            let mut i: usize = 0;
            while i < list.len()
                invariant
                    i <= list@.len(),
                    rows(out@) == sized_dirs(list@, i as int),
                decreases list@.len() - i,
            {
                let e: &Entry = &list[i];
                if e.kind == Kind::Dir && !e.reparse {
                    let size: u64 = dir_size(e);
                    if size >= 1 {
                        let ghost before = rows(out@);
                        out.push((e.path.clone(), size));
                        assert(rows(out@) =~= before.push((e.path@, size)));
                    }
                }
                i += 1;
            }
        },
    }
    out
}

// ----------------------------------------------------------------- largest files

/// The files of an entry: itself where it is a file, those below it where it is
/// a directory that is entered.
pub open spec fn files_below(e: Entry, deep: bool) -> Seq<(Seq<char>, u64)>
    decreases e, 0int,
{
    match e.kind {
        Kind::File => seq![(e.path@, e.size)],
        Kind::Dir => if deep && !e.reparse {
            match e.children {
                Some(c) => files_among(c@, c@.len() as int, deep),
                None => Seq::empty(),
            }
        } else {
            Seq::empty()
        },
        Kind::Other => Seq::empty(),
    }
}

/// The files of the first `n` entries of a directory.
pub open spec fn files_among(entries: Seq<Entry>, n: int, deep: bool) -> Seq<(Seq<char>, u64)>
    decreases entries, n,
{
    if n <= 0 || n > entries.len() {
        Seq::empty()
    } else {
        files_among(entries, n - 1, deep) + files_below(entries[n - 1], deep)
    }
}

/// The files that one task looks at: those directly in a directory, or all below.
pub open spec fn task_files(dir: Entry, deep: bool) -> Seq<(Seq<char>, u64)> {
    match dir.children {
        Some(c) => files_among(c@, c@.len() as int, deep),
        None => Seq::empty(),
    }
}

/// The directories among the first `n` entries that are entered.
pub open spec fn subdirs(entries: Seq<Entry>, n: int) -> Seq<Entry>
    decreases n,
{
    if n <= 0 {
        Seq::empty()
    } else {
        let before = subdirs(entries, n - 1);
        let e = entries[n - 1];
        if e.kind == Kind::Dir && !e.reparse {
            before.push(e)
        } else {
            before
        }
    }
}

/// The directories directly below a directory that are entered.
pub open spec fn dirs_of(dir: Entry) -> Seq<Entry> {
    match dir.children {
        Some(c) => subdirs(c@, c@.len() as int),
        None => Seq::empty(),
    }
}

/// The directories directly below the first `n` of a list.
pub open spec fn dirs_of_all(list: Seq<Entry>, n: int) -> Seq<Entry>
    decreases n,
{
    if n <= 0 {
        Seq::empty()
    } else {
        dirs_of_all(list, n - 1) + dirs_of(list[n - 1])
    }
}

/// The directories of a list, each as a task.
pub open spec fn as_tasks(list: Seq<Entry>, deep: bool) -> Seq<(Entry, bool)> {
    Seq::new(list.len(), |i: int| (list[i], deep))
}

/// The tasks of a root: itself and the directories below it down to the second
/// level, those of the second level with everything below them. Every file
/// belongs to one task.
pub open spec fn root_tasks(root: Entry) -> Seq<(Entry, bool)> {
    let first = dirs_of(root);
    seq![(root, false)] + as_tasks(first, false) + as_tasks(
        dirs_of_all(first, first.len() as int),
        true,
    )
}

/// The tasks of the first `n` roots.
pub open spec fn all_tasks(roots: Seq<Entry>, n: int) -> Seq<(Entry, bool)>
    decreases n,
{
    if n <= 0 {
        Seq::empty()
    } else {
        all_tasks(roots, n - 1) + root_tasks(roots[n - 1])
    }
}

/// The files of the first `n` tasks.
pub open spec fn tasks_files(tasks: Seq<(Entry, bool)>, n: int) -> Seq<(Seq<char>, u64)>
    decreases n,
{
    if n <= 0 {
        Seq::empty()
    } else {
        tasks_files(tasks, n - 1) + task_files(tasks[n - 1].0, tasks[n - 1].1)
    }
}

/// The count of files after the first `n` tasks.
pub open spec fn tasks_count(tasks: Seq<(Entry, bool)>, n: int) -> u64
    decreases n,
{
    if n <= 0 {
        0
    } else {
        let more = cap64(task_files(tasks[n - 1].0, tasks[n - 1].1).len()) as u64;
        cap64(tasks_count(tasks, n - 1) as nat + more as nat) as u64
    }
}

/// The heartbeats of the first `n` tasks.
pub open spec fn tasks_beats(tasks: Seq<(Entry, bool)>, n: int) -> Seq<EventV>
    decreases n,
{
    if n <= 0 {
        Seq::empty()
    } else {
        let more = cap64(task_files(tasks[n - 1].0, tasks[n - 1].1).len()) as u64;
        tasks_beats(tasks, n - 1) + heartbeat(tasks_count(tasks, n - 1), more)
    }
}

/// The reports of the largest files.
pub open spec fn big_items(rows: Seq<(Seq<char>, u64)>) -> Seq<EventV> {
    Seq::new(
        rows.len(),
        |i: int|
            item_event(
                "bigfile"@,
                rows[i].0,
                rows[i].1 as nat,
                seq![("rank"@, dec((i + 1) as nat))],
            ),
    )
}

/// What the scan for large files reports.
pub open spec fn big_report(roots: Seq<Entry>, count: nat) -> Seq<EventV> {
    let tasks = all_tasks(roots, roots.len() as int);
    let files = tasks_files(tasks, tasks.len() as int);
    let cap = if count > 0 {
        count
    } else {
        1
    };
    if tasks.len() == 0 {
        Seq::empty()
    } else {
        tasks_beats(tasks, tasks.len() as int) + big_items(top(files, files.len() as int, cap))
            + seq![EventV::Progress(100)]
    }
}

/// The directories that a list of references leads to.
pub open spec fn entries_of(v: Seq<&Entry>) -> Seq<Entry> {
    Seq::new(v.len(), |i: int| *v[i])
}

/// The tasks that a list of references leads to.
pub open spec fn tasks_of(v: Seq<(&Entry, bool)>) -> Seq<(Entry, bool)> {
    Seq::new(v.len(), |i: int| (*v[i].0, v[i].1))
}

fn add_dirs<'a>(dir: &'a Entry, out: &mut Vec<&'a Entry>)
    ensures
        entries_of(final(out)@) == entries_of(old(out)@) + dirs_of(*dir),
{
    let ghost before = entries_of(out@);
    assert(before + Seq::<Entry>::empty() =~= before);
    match &dir.children {
        None => {},
        Some(list) => {
            let mut i: usize = 0;
            while i < list.len()
                invariant
                    i <= list@.len(),
                    entries_of(out@) == before + subdirs(list@, i as int),
                decreases list@.len() - i,
            {
                if list[i].kind == Kind::Dir && !list[i].reparse {
                    let ghost held = entries_of(out@);
                    out.push(&list[i]);
                    assert(entries_of(out@) =~= held.push(list@[i as int]));
                    assert(held.push(list@[i as int]) =~= before + subdirs(list@, i as int).push(
                        list@[i as int],
                    ));
                }
                i += 1;
            }
        },
    }
}

fn add_tasks<'a>(dirs: &Vec<&'a Entry>, deep: bool, out: &mut Vec<(&'a Entry, bool)>)
    ensures
        tasks_of(final(out)@) == tasks_of(old(out)@) + as_tasks(entries_of(dirs@), deep),
{
    let ghost before = tasks_of(out@);
    let ghost all = as_tasks(entries_of(dirs@), deep);
    let mut i: usize = 0;
    assert(before + all.take(0) =~= before);
    while i < dirs.len()
        invariant
            i <= dirs@.len(),
            all == as_tasks(entries_of(dirs@), deep),
            tasks_of(out@) == before + all.take(i as int),
        decreases dirs@.len() - i,
    {
        let ghost held = tasks_of(out@);
        out.push((dirs[i], deep));
        assert(tasks_of(out@) =~= held.push((*dirs@[i as int], deep)));
        i += 1;
        assert(before + all.take(i as int) =~= (before + all.take(i - 1)).push(all[i - 1]));
    }
    assert(all.take(dirs@.len() as int) =~= all);
}

/// Adds the tasks of a root.
pub fn expand_tasks<'a>(root: &'a Entry, out: &mut Vec<(&'a Entry, bool)>)
    ensures
        tasks_of(final(out)@) == tasks_of(old(out)@) + root_tasks(*root),
{
    let ghost before = tasks_of(out@);
    out.push((root, false));
    assert(tasks_of(out@) =~= before + seq![(*root, false)]);
    let mut first: Vec<&'a Entry> = Vec::new();
    assert(entries_of(first@) =~= Seq::empty());
    add_dirs(root, &mut first);
    assert(entries_of(first@) =~= dirs_of(*root));
    add_tasks(&first, false, out);
    let mut second: Vec<&'a Entry> = Vec::new();
    let mut i: usize = 0;
    assert(entries_of(second@) =~= Seq::empty());
    while i < first.len()
        invariant
            i <= first@.len(),
            entries_of(second@) == dirs_of_all(entries_of(first@), i as int),
        decreases first@.len() - i,
    {
        add_dirs(first[i], &mut second);
        i += 1;
    }
    add_tasks(&second, true, out);
    assert(entries_of(first@).len() == first@.len());
    assert(tasks_of(out@) =~= before + root_tasks(*root));
}

/// Where a walk over files stands: the files met before it, and the largest of
/// them.
spec fn keeps(
    heap: Seq<(String, u64)>,
    seen: Seq<(Seq<char>, u64)>,
    cap: nat,
) -> bool {
    rows(heap) == top(seen, seen.len() as int, cap)
}

proof fn lemma_top_prefix(a: Seq<(Seq<char>, u64)>, b: Seq<(Seq<char>, u64)>, n: int, cap: nat)
    requires
        0 <= n <= a.len(),
        n <= b.len(),
        forall|i: int| 0 <= i < n ==> a[i] == b[i],
    ensures
        top(a, n, cap) == top(b, n, cap),
    decreases n,
{
    if n > 0 {
        lemma_top_prefix(a, b, n - 1, cap);
    }
}

fn keep_files(
    list: &Vec<Entry>,
    deep: bool,
    cap: usize,
    heap: &mut Vec<(String, u64)>,
    local: &mut u64,
    Ghost(seen): Ghost<Seq<(Seq<char>, u64)>>,
)
    requires
        keeps(old(heap)@, seen, cap as nat),
        old(heap)@.len() <= cap,
    ensures
        keeps(
            final(heap)@,
            seen + files_among(list@, list@.len() as int, deep),
            cap as nat,
        ),
        final(heap)@.len() <= cap,
        *final(local) == cap64(
            *old(local) as nat + files_among(list@, list@.len() as int, deep).len(),
        ),
    decreases list,
{
    let mut i: usize = 0;
    assert(seen + Seq::<(Seq<char>, u64)>::empty() =~= seen);
    while i < list.len()
        invariant
            i <= list@.len(),
            heap@.len() <= cap,
            keeps(heap@, seen + files_among(list@, i as int, deep), cap as nat),
            *local == cap64(*old(local) as nat + files_among(list@, i as int, deep).len()),
        decreases list@.len() - i,
    {
        let e: &Entry = &list[i];
        let ghost met = seen + files_among(list@, i as int, deep);
        let ghost more = files_below(*e, deep);
        assert(met + Seq::<(Seq<char>, u64)>::empty() =~= met);
        match e.kind {
            Kind::File => {
                push_topk(heap, e.size, e.path.clone(), cap);
                *local = local.saturating_add(1);
                proof {
                    let next = met.push((e.path@, e.size));
                    lemma_top_prefix(met, next, met.len() as int, cap as nat);
                    assert(next =~= met + seq![(e.path@, e.size)]);
                }
            },
            Kind::Dir => {
                if deep && !e.reparse {
                    match &e.children {
                        Some(c) => {
                            keep_files(c, deep, cap, heap, local, Ghost(met));
                        },
                        None => {},
                    }
                }
            },
            Kind::Other => {},
        }
        assert(keeps(heap@, met + more, cap as nat));
        assert(*local == cap64(
            *old(local) as nat + files_among(list@, i as int, deep).len() + more.len(),
        ));
        i += 1;
        assert(met + more =~= seen + files_among(list@, i as int, deep));
    }
}

fn report_big(heap: &Vec<(String, u64)>, out: &mut Vec<Event>)
    ensures
        events(final(out)@) == events(old(out)@) + big_items(rows(heap@)),
{
    let ghost before = events(out@);
    let ghost all = big_items(rows(heap@));
    let mut i: usize = 0;
    assert(before + all.take(0) =~= before);
    while i < heap.len()
        invariant
            i <= heap.len(),
            all == big_items(rows(heap@)),
            events(out@) == before + all.take(i as int),
        decreases heap@.len() - i,
    {
        let e: Event = item_with(
            "bigfile",
            heap[i].0.as_str(),
            heap[i].1,
            "rank",
            decimal(i as u64 + 1),
        );
        proof {
            lemma_events_push(out@, e);
            assert(e.view() == all[i as int]);
            assert(before + all.take(i + 1) =~= (before + all.take(i as int)).push(all[i as int]));
        }
        out.push(e);
        i += 1;
    }
    assert(all.take(heap@.len() as int) =~= all);
}

/// Reports the `count` largest files below the roots, one at least.
pub fn bigfiles(roots: &Vec<Entry>, count: usize) -> (out: Vec<Event>)
    ensures
        events(out@) == big_report(roots@, count as nat),
{
    let cap: usize = if count > 0 {
        count
    } else {
        1
    };
    let mut out: Vec<Event> = Vec::new();
    assert(events(out@) =~= Seq::empty());
    let mut tasks: Vec<(&Entry, bool)> = Vec::new();
    let mut i: usize = 0;
    assert(tasks_of(tasks@) =~= Seq::empty());
    while i < roots.len()
        invariant
            i <= roots@.len(),
            tasks_of(tasks@) == all_tasks(roots@, i as int),
        decreases roots@.len() - i,
    {
        expand_tasks(&roots[i], &mut tasks);
        i += 1;
    }
    let ghost all = tasks_of(tasks@);
    assert(all.len() == tasks@.len());
    if tasks.len() == 0 {
        return out;
    }
    let mut heap: Vec<(String, u64)> = Vec::new();
    let mut counter: u64 = 0;
    let mut k: usize = 0;
    assert(rows(heap@) =~= Seq::empty());
    while k < tasks.len()
        invariant
            k <= tasks@.len(),
            all == tasks_of(tasks@),
            heap@.len() <= cap,
            keeps(heap@, tasks_files(all, k as int), cap as nat),
            counter == tasks_count(all, k as int),
            events(out@) == tasks_beats(all, k as int),
        decreases tasks@.len() - k,
    {
        let mut local: u64 = 0;
        let ghost seen = tasks_files(all, k as int);
        assert(seen + Seq::<(Seq<char>, u64)>::empty() =~= seen);
        match &tasks[k].0.children {
            Some(c) => {
                keep_files(c, tasks[k].1, cap, &mut heap, &mut local, Ghost(seen));
            },
            None => {},
        }
        bump_scanned(&mut counter, local, &mut out);
        k += 1;
    }
    report_big(&heap, &mut out);
    let e: Event = progress(100);
    proof {
        lemma_events_push(out@, e);
    }
    out.push(e);
    out
}

// ------------------------------------------------------- application directories

/// The directories of a list that are large enough, with the name of their root.
pub open spec fn labelled(list: Seq<(Seq<char>, u64)>, n: int, label: Seq<char>, min: nat) -> Seq<
    (Seq<char>, Seq<char>, u64),
>
    decreases n,
{
    if n <= 0 {
        Seq::empty()
    } else {
        let before = labelled(list, n - 1, label, min);
        if list[n - 1].1 >= min {
            before.push((label, list[n - 1].0, list[n - 1].1))
        } else {
            before
        }
    }
}

/// The large directories below one root.
pub open spec fn app_dirs(root: Option<&Entry>, label: Seq<char>, min: nat) -> Seq<
    (Seq<char>, Seq<char>, u64),
> {
    match root {
        Some(e) => match e.children {
            Some(c) => {
                let list = sized_dirs(c@, c@.len() as int);
                labelled(list, list.len() as int, label, min)
            },
            None => Seq::empty(),
        },
        None => Seq::empty(),
    }
}

/// The sizes of a list of large directories.
pub open spec fn app_sizes(list: Seq<(Seq<char>, Seq<char>, u64)>) -> Seq<u64> {
    Seq::new(list.len(), |i: int| list[i].2)
}

/// What the scan for large application directories reports, largest first.
pub open spec fn app_report(min_size_mb: nat, local: Option<&Entry>, roaming: Option<&Entry>) -> Seq<
    EventV,
> {
    let min = min_size_mb * 1048576;
    let all = app_dirs(local, "Local"@, min) + app_dirs(roaming, "Roaming"@, min);
    let order = ranked(app_sizes(all), all.len() as int);
    Seq::new(
        order.len(),
        |i: int|
            {
                let d = all[order[i] as int];
                item_event("appdata"@, d.1, d.2 as nat, seq![("root"@, d.0)])
            },
    ).push(EventV::Progress(100))
}

/// The values of a list of labelled rows.
pub open spec fn app_rows(v: Seq<(String, String, u64)>) -> Seq<(Seq<char>, Seq<char>, u64)> {
    Seq::new(v.len(), |i: int| (v[i].0@, v[i].1@, v[i].2))
}

fn add_app_dirs(root: Option<&Entry>, label: &str, min: u64, out: &mut Vec<(String, String, u64)>)
    ensures
        app_rows(final(out)@) == app_rows(old(out)@) + app_dirs(root, label@, min as nat),
{
    let ghost before = app_rows(out@);
    assert(before + Seq::<(Seq<char>, Seq<char>, u64)>::empty() =~= before);
    match root {
        None => {},
        Some(e) => {
            let list: Vec<(String, u64)> = child_dir_sizes(e);
            let mut i: usize = 0;
            assert(rows(list@).len() == list@.len());
            while i < list.len()
                invariant
                    i <= list@.len(),
                    app_rows(out@) == before + labelled(
                        rows(list@),
                        i as int,
                        label@,
                        min as nat,
                    ),
                decreases list@.len() - i,
            {
                if list[i].1 >= min {
                    let ghost held = app_rows(out@);
                    out.push((label.to_owned(), list[i].0.clone(), list[i].1));
                    assert(app_rows(out@) =~= held.push(
                        (label@, list@[i as int].0@, list@[i as int].1),
                    ));
                }
                i += 1;
                assert(app_rows(out@) =~= before + labelled(
                    rows(list@),
                    i as int,
                    label@,
                    min as nat,
                ));
            }
        },
    }
}

/// Reports the application directories of at least `min_size_mb` mebibytes.
pub fn appdata(min_size_mb: u64, local: Option<&Entry>, roaming: Option<&Entry>) -> (out: Vec<
    Event,
>)
    requires
        min_size_mb * 1048576 <= u64::MAX,
    ensures
        events(out@) == app_report(min_size_mb as nat, local, roaming),
{
    let min: u64 = min_size_mb * 1048576;
    let mut all: Vec<(String, String, u64)> = Vec::new();
    assert(app_rows(all@) =~= Seq::empty());
    add_app_dirs(local, "Local", min, &mut all);
    add_app_dirs(roaming, "Roaming", min, &mut all);
    let ghost list = app_dirs(local, "Local"@, min as nat) + app_dirs(
        roaming,
        "Roaming"@,
        min as nat,
    );
    assert(app_rows(all@) =~= list);
    assert(app_rows(all@).len() == all@.len());
    let mut keys: Vec<u64> = Vec::new();
    let mut i: usize = 0;
    while i < all.len()
        invariant
            i <= all@.len(),
            keys@ == app_sizes(app_rows(all@)).take(i as int),
        decreases all@.len() - i,
    {
        keys.push(all[i].2);
        i += 1;
        assert(app_sizes(app_rows(all@)).take(i as int) =~= app_sizes(app_rows(all@)).take(
            i - 1,
        ).push(all@[i - 1].2));
    }
    assert(keys@ =~= app_sizes(list));
    let order: Vec<usize> = order_desc(&keys);
    let mut out: Vec<Event> = Vec::new();
    let ghost want = app_report(min_size_mb as nat, local, roaming).drop_last();
    assert(want.len() == order@.len());
    assert(events(out@) =~= want.take(0));
    let mut k: usize = 0;
    while k < order.len()
        invariant
            k <= order@.len(),
            want.len() == order@.len(),
            want == app_report(min_size_mb as nat, local, roaming).drop_last(),
            list == app_dirs(local, "Local"@, (min_size_mb * 1048576) as nat) + app_dirs(
                roaming,
                "Roaming"@,
                (min_size_mb * 1048576) as nat,
            ),
            order@ == ranked(app_sizes(list), list.len() as int),
            app_rows(all@) == list,
            forall|a: int| 0 <= a < order@.len() ==> (#[trigger] order@[a]) < all@.len(),
            events(out@) == want.take(k as int),
        decreases order@.len() - k,
    {
        let j: usize = order[k];
        let e: Event = item_with(
            "appdata",
            all[j].1.as_str(),
            all[j].2,
            "root",
            all[j].0.clone(),
        );
        proof {
            lemma_events_push(out@, e);
            assert(list[j as int] == (all@[j as int].0@, all@[j as int].1@, all@[j as int].2));
            assert(e.view() == want[k as int]);
            assert(want.take(k + 1) =~= want.take(k as int).push(want[k as int]));
        }
        out.push(e);
        k += 1;
    }
    assert(want.take(order@.len() as int) =~= want);
    let e: Event = progress(100);
    proof {
        lemma_events_push(out@, e);
        assert(want.push(EventV::Progress(100)) =~= app_report(
            min_size_mb as nat,
            local,
            roaming,
        ));
    }
    out.push(e);
    out
}

// ------------------------------------------------------------- sizes of given paths

/// The report on one path: nothing for what is neither file nor directory.
pub open spec fn size_event(path: Seq<char>, e: Option<Entry>) -> Option<EventV> {
    match e {
        None => Some(item_event("size"@, path, 0, seq![("exists"@, "false"@)])),
        Some(x) => match x.kind {
            Kind::File => Some(
                item_event("size"@, path, x.size as nat, seq![("exists"@, "true"@)]),
            ),
            Kind::Dir => Some(
                item_event("size"@, path, cap64(dir_total(x)), seq![("exists"@, "true"@)]),
            ),
            Kind::Other => None,
        },
    }
}

/// The reports on the first `n` paths.
pub open spec fn size_events(paths: Seq<(String, Option<Entry>)>, n: int) -> Seq<EventV>
    decreases n,
{
    if n <= 0 {
        Seq::empty()
    } else {
        let before = size_events(paths, n - 1);
        match size_event(paths[n - 1].0@, paths[n - 1].1) {
            Some(e) => before.push(e),
            None => before,
        }
    }
}

/// Reports how much each of the paths holds.
pub fn sizes(paths: &Vec<(String, Option<Entry>)>) -> (out: Vec<Event>)
    ensures
        events(out@) == size_events(paths@, paths@.len() as int).push(EventV::Progress(100)),
{
    let mut out: Vec<Event> = Vec::new();
    let mut i: usize = 0;
    assert(events(out@) =~= Seq::empty());
    while i < paths.len()
        invariant
            i <= paths@.len(),
            events(out@) == size_events(paths@, i as int),
        decreases paths@.len() - i,
    {
        let path: &str = paths[i].0.as_str();
        let e: Option<Event> = match &paths[i].1 {
            None => Some(item_with("size", path, 0, "exists", "false".to_owned())),
            Some(x) => match x.kind {
                Kind::File => Some(item_with("size", path, x.size, "exists", "true".to_owned())),
                Kind::Dir => Some(
                    item_with("size", path, dir_size(x), "exists", "true".to_owned()),
                ),
                Kind::Other => None,
            },
        };
        match e {
            Some(v) => {
                proof {
                    lemma_events_push(out@, v);
                }
                out.push(v);
            },
            None => {},
        }
        i += 1;
    }
    let e: Event = progress(100);
    proof {
        lemma_events_push(out@, e);
    }
    out.push(e);
    out
}

// -------------------------------------------------- every file belongs to one task

proof fn lemma_tasks_append(a: Seq<(Entry, bool)>, b: Seq<(Entry, bool)>, n: int)
    requires
        0 <= n <= b.len(),
    ensures
        tasks_files(a + b, a.len() + n) == tasks_files(a, a.len() as int) + tasks_files(b, n),
    decreases n,
{
    if n > 0 {
        lemma_tasks_append(a, b, n - 1);
        assert((a + b)[a.len() + n - 1] == b[n - 1]);
        assert(tasks_files(a + b, a.len() + n) =~= tasks_files(a, a.len() as int) + tasks_files(
            b,
            n,
        ));
    } else {
        lemma_tasks_prefix(a, a + b, a.len() as int);
        assert(tasks_files(a, a.len() as int) + tasks_files(b, 0) =~= tasks_files(
            a,
            a.len() as int,
        ));
    }
}

proof fn lemma_tasks_prefix(a: Seq<(Entry, bool)>, b: Seq<(Entry, bool)>, n: int)
    requires
        0 <= n <= a.len(),
        n <= b.len(),
        forall|i: int| 0 <= i < n ==> a[i] == b[i],
    ensures
        tasks_files(a, n) == tasks_files(b, n),
    decreases n,
{
    if n > 0 {
        lemma_tasks_prefix(a, b, n - 1);
    }
}

/// The files of the given directories, looked at as tasks of one kind.
pub open spec fn files_as(list: Seq<Entry>, deep: bool) -> Seq<(Seq<char>, u64)> {
    tasks_files(as_tasks(list, deep), list.len() as int)
}

proof fn lemma_files_as_push(list: Seq<Entry>, e: Entry, deep: bool)
    ensures
        files_as(list.push(e), deep) == files_as(list, deep) + task_files(e, deep),
{
    let a = as_tasks(list, deep);
    assert(as_tasks(list.push(e), deep) =~= a.push((e, deep)));
    lemma_tasks_prefix(a, a.push((e, deep)), list.len() as int);
}

/// Everything below the first `n` entries is what lies directly among them and
/// everything below their directories.
proof fn lemma_one_level(entries: Seq<Entry>, n: int)
    requires
        0 <= n <= entries.len(),
    ensures
        files_among(entries, n, true).to_multiset() == files_among(
            entries,
            n,
            false,
        ).to_multiset().add(files_as(subdirs(entries, n), true).to_multiset()),
    decreases n,
{
    broadcast use vstd::multiset::group_multiset_axioms;

    if n > 0 {
        lemma_one_level(entries, n - 1);
        let e = entries[n - 1];
        let a = files_among(entries, n - 1, true);
        let b = files_among(entries, n - 1, false);
        let d = subdirs(entries, n - 1);
        vstd::seq_lib::lemma_multiset_commutative(a, files_below(e, true));
        vstd::seq_lib::lemma_multiset_commutative(b, files_below(e, false));
        if e.kind == Kind::Dir && !e.reparse {
            lemma_files_as_push(d, e, true);
            vstd::seq_lib::lemma_multiset_commutative(files_as(d, true), task_files(e, true));
            assert(files_below(e, true) == task_files(e, true));
            assert(b + files_below(e, false) =~= b);
        } else {
            assert(files_below(e, true) == files_below(e, false));
        }
        assert(files_among(entries, n, true).to_multiset() =~= files_among(
            entries,
            n,
            false,
        ).to_multiset().add(files_as(subdirs(entries, n), true).to_multiset()));
    } else {
        let none = Seq::<(Seq<char>, u64)>::empty();
        assert(files_as(subdirs(entries, 0), true) =~= none);
        vstd::seq_lib::lemma_multiset_commutative(none, none);
        assert(none + none =~= none);
    }
}

proof fn lemma_dir_level(dir: Entry)
    ensures
        task_files(dir, true).to_multiset() == task_files(dir, false).to_multiset().add(
            files_as(dirs_of(dir), true).to_multiset(),
        ),
{
    match dir.children {
        Some(c) => lemma_one_level(c@, c@.len() as int),
        None => {
            let none = Seq::<(Seq<char>, u64)>::empty();
            assert(files_as(dirs_of(dir), true) =~= none);
            vstd::seq_lib::lemma_multiset_commutative(none, none);
            assert(none + none =~= none);
        },
    }
}

proof fn lemma_files_as_append(a: Seq<Entry>, b: Seq<Entry>, deep: bool)
    ensures
        files_as(a + b, deep) == files_as(a, deep) + files_as(b, deep),
{
    assert(as_tasks(a + b, deep) =~= as_tasks(a, deep) + as_tasks(b, deep));
    lemma_tasks_append(as_tasks(a, deep), as_tasks(b, deep), b.len() as int);
}

/// Everything below the first `n` of a list of directories.
proof fn lemma_dirs_level(list: Seq<Entry>, n: int)
    requires
        0 <= n <= list.len(),
    ensures
        files_as(list.take(n), true).to_multiset() == files_as(
            list.take(n),
            false,
        ).to_multiset().add(files_as(dirs_of_all(list, n), true).to_multiset()),
    decreases n,
{
    broadcast use vstd::multiset::group_multiset_axioms;

    if n > 0 {
        lemma_dirs_level(list, n - 1);
        let e = list[n - 1];
        let t = list.take(n - 1);
        assert(list.take(n) =~= t.push(e));
        lemma_files_as_push(t, e, true);
        lemma_files_as_push(t, e, false);
        lemma_dir_level(e);
        lemma_files_as_append(dirs_of_all(list, n - 1), dirs_of(e), true);
        vstd::seq_lib::lemma_multiset_commutative(files_as(t, true), task_files(e, true));
        vstd::seq_lib::lemma_multiset_commutative(files_as(t, false), task_files(e, false));
        vstd::seq_lib::lemma_multiset_commutative(
            files_as(dirs_of_all(list, n - 1), true),
            files_as(dirs_of(e), true),
        );
        assert(files_as(list.take(n), true).to_multiset() =~= files_as(
            list.take(n),
            false,
        ).to_multiset().add(files_as(dirs_of_all(list, n), true).to_multiset()));
    } else {
        let none = Seq::<(Seq<char>, u64)>::empty();
        assert(list.take(0) =~= Seq::<Entry>::empty());
        assert(files_as(list.take(0), true) =~= none);
        assert(files_as(list.take(0), false) =~= none);
        assert(files_as(dirs_of_all(list, 0), true) =~= none);
        vstd::seq_lib::lemma_multiset_commutative(none, none);
        assert(none + none =~= none);
    }
}

/// The tasks of a root look at every file below it once, and at nothing else.
pub proof fn law_tasks_cover_once(root: Entry)
    ensures
        tasks_files(root_tasks(root), root_tasks(root).len() as int).to_multiset() == task_files(
            root,
            true,
        ).to_multiset(),
{
    broadcast use vstd::multiset::group_multiset_axioms;

    let first = dirs_of(root);
    let second = dirs_of_all(first, first.len() as int);
    let head = seq![(root, false)];
    let mid = as_tasks(first, false);
    let last = as_tasks(second, true);
    lemma_tasks_append(head, mid, mid.len() as int);
    lemma_tasks_append(head + mid, last, last.len() as int);
    assert(tasks_files(head, 1) =~= tasks_files(head, 0) + task_files(root, false));
    assert(tasks_files(head, 1) =~= task_files(root, false));
    lemma_dir_level(root);
    lemma_dirs_level(first, first.len() as int);
    assert(first.take(first.len() as int) =~= first);
    vstd::seq_lib::lemma_multiset_commutative(task_files(root, false), files_as(first, false));
    vstd::seq_lib::lemma_multiset_commutative(
        task_files(root, false) + files_as(first, false),
        files_as(second, true),
    );
    assert(tasks_files(root_tasks(root), root_tasks(root).len() as int) == task_files(root, false)
        + files_as(first, false) + files_as(second, true));
    assert(tasks_files(root_tasks(root), root_tasks(root).len() as int).to_multiset()
        =~= task_files(root, true).to_multiset());
}

} // verus!
